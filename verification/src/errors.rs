//! Errors surfaced to the application. Errors at the boundary are
//! values, never aborts.

use vstd::prelude::*;

verus! {

#[derive(Clone, Copy, PartialEq, Eq, Structural, Debug)]
pub enum ErrorKind {
    /// Bind to an already-registered `(ip, port)`.
    AddressInUse,
    /// Connect to an unregistered address, or the listener went away
    /// mid-connect.
    ConnectionRefused,
    /// The peer half was dropped while an operation was in flight, or a
    /// fault injector synthesized a reset.
    ConnectionReset,
    /// Accept on a closed listener; read or write after the matching
    /// shutdown.
    NotConnected,
    /// A timeout wrapper fired before its inner future completed.
    Elapsed,
    /// A malformed address, such as one with no port.
    InvalidInput,
    /// Constructing the underlying reactor failed at runtime build.
    RuntimeBuild,
}

} // verus!
