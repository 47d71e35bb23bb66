//! A deterministic simulation core for concurrent, network-oriented
//! programs: a virtual clock driven by task quiescence, a cooperative
//! scheduler with a deterministic pick order, an in-memory network
//! fabric, and seeded fault injection. Given the same seed and the
//! same program, two runs produce identical task interleavings,
//! identical clock advances, and identical byte streams.

pub mod clock;
pub mod errors;
pub mod fault;
pub mod net;
pub mod rng;
pub mod runtime;
pub mod sched;
pub mod time;
