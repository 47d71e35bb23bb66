//! Simulated time: plain nanosecond scalars.
//!
//! An [`Instant`] is a monotonic point in virtual time, measured in
//! nanoseconds from the epoch chosen at runtime construction. Only the
//! clock advances it. Arithmetic with [`Duration`] saturates at the
//! maximum representable value.

use vstd::prelude::*;

verus! {

pub const NANOS_PER_SEC: u64 = 1_000_000_000;
pub const NANOS_PER_MILLI: u64 = 1_000_000;

/// A span of simulated time, in nanoseconds.
#[derive(Clone, Copy, PartialEq, Eq, Structural, Debug)]
pub struct Duration {
    pub nanos: u64,
}

/// A point in simulated time: nanoseconds since the runtime's epoch.
#[derive(Clone, Copy, PartialEq, Eq, Structural, Debug)]
pub struct Instant {
    pub nanos: u64,
}

impl Duration {
    pub fn from_nanos(nanos: u64) -> (r: Duration)
        ensures
            r.nanos == nanos,
    {
        Duration { nanos }
    }

    pub fn from_millis(millis: u64) -> (r: Duration)
        ensures
            r.nanos == if millis <= u64::MAX / NANOS_PER_MILLI {
                millis * NANOS_PER_MILLI
            } else {
                u64::MAX as int
            },
    {
        if millis <= u64::MAX / NANOS_PER_MILLI {
            Duration { nanos: millis * NANOS_PER_MILLI }
        } else {
            Duration { nanos: u64::MAX }
        }
    }

    pub fn from_secs(secs: u64) -> (r: Duration)
        ensures
            r.nanos == if secs <= u64::MAX / NANOS_PER_SEC {
                secs * NANOS_PER_SEC
            } else {
                u64::MAX as int
            },
    {
        if secs <= u64::MAX / NANOS_PER_SEC {
            Duration { nanos: secs * NANOS_PER_SEC }
        } else {
            Duration { nanos: u64::MAX }
        }
    }

    /// Saturating sum of two spans.
    pub fn plus(self, other: Duration) -> (r: Duration)
        ensures
            r.nanos == self.nanos.saturating_add(other.nanos),
    {
        Duration { nanos: self.nanos.saturating_add(other.nanos) }
    }
}

impl Instant {
    pub fn epoch() -> (r: Instant)
        ensures
            r.nanos == 0,
    {
        Instant { nanos: 0 }
    }

    /// The instant `d` after `self`, saturating at the maximum.
    pub fn plus(self, d: Duration) -> (r: Instant)
        ensures
            r.nanos == self.nanos.saturating_add(d.nanos),
    {
        Instant { nanos: self.nanos.saturating_add(d.nanos) }
    }

    /// The span from `earlier` to `self`; zero when `earlier` is later.
    pub fn duration_since(self, earlier: Instant) -> (r: Duration)
        ensures
            r.nanos == self.nanos.saturating_sub(earlier.nanos),
    {
        Duration { nanos: self.nanos.saturating_sub(earlier.nanos) }
    }
}

} // verus!
