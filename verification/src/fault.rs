//! Fault injection: decorators that delay a socket's operations by
//! amounts drawn from the runtime PRNG and waited out on the virtual
//! clock, so every injected fault is reproducible from the seed alone.

use vstd::prelude::*;
use crate::clock::Clock;
use crate::rng::{Prng, sm_next_state, sm_output};
use crate::time::{Duration, Instant};

verus! {

/// The delay taken from one PRNG draw under a mean of `mean_nanos`:
/// uniform over `[0, 2 * mean]`, an integer-only stand-in for an
/// exponential law with the same mean.
pub open spec fn delay_of_draw(draw: u64, mean_nanos: u64) -> u64 {
    if mean_nanos <= (u64::MAX - 1) / 2 {
        (draw as int % (2 * mean_nanos + 1)) as u64
    } else {
        draw
    }
}

/// A latency policy with its own forked PRNG stream: wrapped socket
/// halves wait out a sampled delay on the virtual clock before each
/// operation is forwarded.
pub struct LatencyFaultInjector {
    pub prng: Prng,
    pub mean_nanos: u64,
}

impl LatencyFaultInjector {
    pub fn new(prng: Prng, mean_nanos: u64) -> (r: LatencyFaultInjector)
        ensures
            r.prng == prng,
            r.mean_nanos == mean_nanos,
    {
        LatencyFaultInjector { prng, mean_nanos }
    }

    /// Samples the next injected delay; one draw of the injector's own
    /// stream, so the sampled value is a function of seed and draw
    /// count alone.
    pub fn next_delay(&mut self) -> (d: Duration)
        ensures
            final(self).prng.state == sm_next_state(old(self).prng.state),
            final(self).mean_nanos == old(self).mean_nanos,
            d.nanos == delay_of_draw(sm_output(old(self).prng.state), old(self).mean_nanos),
    {
        let draw = self.prng.next_u64();
        if self.mean_nanos <= (u64::MAX - 1) / 2 {
            Duration { nanos: draw % (2 * self.mean_nanos + 1) }
        } else {
            Duration { nanos: draw }
        }
    }
}

/// What one poll of a delay latch did.
#[derive(Clone, Copy, PartialEq, Eq, Structural, Debug)]
pub enum LatchStep {
    /// A delay was sampled and a timer registered under the returned
    /// id; the operation suspends until that timer fires.
    Registered(u64),
    /// The sampled deadline has not been reached yet; keep waiting.
    NotYet,
    /// The delay has elapsed; forward the operation to the inner half.
    Ready,
}

/// The delay latch in front of one wrapped half-socket: the deadline, if
/// any, that must pass before the next operation goes through.
pub struct DelayLatch {
    pub ready_at: Option<u64>,
}

impl DelayLatch {
    pub fn new() -> (r: DelayLatch)
        ensures
            r.ready_at is None,
    {
        DelayLatch { ready_at: None }
    }

    /// One poll step: with no delay pending, samples one from the
    /// injector, registers a timer for `now + delay`, and suspends;
    /// when the clock reaches that deadline, the latch opens and the
    /// operation is forwarded to the inner half.
    pub fn poll_latch(&mut self, clock: &mut Clock, inj: &mut LatencyFaultInjector) -> (r: LatchStep)
        requires
            old(clock).wf(),
            old(clock).next_id < u64::MAX,
        ensures
            final(clock).wf(),
            final(clock).now == old(clock).now,
            old(self).ready_at is None ==> ({
                let d = delay_of_draw(sm_output(old(inj).prng.state), old(inj).mean_nanos);
                let deadline = old(clock).now.saturating_add(d);
                &&& r == LatchStep::Registered(old(clock).next_id)
                &&& final(self).ready_at == Some(deadline)
                &&& final(inj).prng.state == sm_next_state(old(inj).prng.state)
                &&& final(inj).mean_nanos == old(inj).mean_nanos
                &&& final(clock).next_id == old(clock).next_id + 1
                &&& final(clock).pending@.len() == old(clock).pending@.len() + 1
            }),
            (match old(self).ready_at {
                Option::Some(t) => {
                    &&& *final(clock) == *old(clock)
                    &&& *final(inj) == *old(inj)
                    &&& (old(clock).now >= t ==> r == LatchStep::Ready && final(self).ready_at
                        is None)
                    &&& (old(clock).now < t ==> r == LatchStep::NotYet && *final(self) == *old(
                        self,
                    ))
                },
                Option::None => true,
            }),
    {
        match self.ready_at {
            Option::None => {
                let d = inj.next_delay();
                let deadline = clock.now().plus(d);
                let tid = clock.register(deadline);
                self.ready_at = Some(deadline.nanos);
                LatchStep::Registered(tid)
            },
            Option::Some(t) => {
                if clock.now().nanos >= t {
                    self.ready_at = None;
                    LatchStep::Ready
                } else {
                    LatchStep::NotYet
                }
            },
        }
    }
}

} // verus!
