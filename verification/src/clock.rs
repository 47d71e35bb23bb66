//! The virtual clock: monotonic simulated time plus a wheel of pending
//! deadlines.
//!
//! Time advances only through [`Clock::park`], which fast-forwards to
//! the nearest deadline and reports every timer that became due, in
//! `(deadline, id)` order. The `id` is a monotone insertion counter and
//! breaks deadline ties deterministically: a timer registered earlier
//! with a no-later deadline always fires no later.

use vstd::prelude::*;
use crate::time::{Duration, Instant};

verus! {

/// One pending deadline (in nanoseconds) with its insertion id.
#[derive(Clone, Copy, PartialEq, Eq, Structural, Debug)]
pub struct TimerEntry {
    pub deadline: u64,
    pub id: u64,
}

/// Strict `(deadline, id)` order on timer entries.
pub open spec fn entry_lt(a: TimerEntry, b: TimerEntry) -> bool {
    a.deadline < b.deadline || (a.deadline == b.deadline && a.id < b.id)
}

/// What a park advances the clock to: the earliest pending deadline
/// (never moving backwards), capped by `now + max` when a bound is
/// given; `now + max` alone when nothing is pending; `now` when nothing
/// is pending and no bound is given.
pub open spec fn park_target(c: Clock, max: Option<u64>) -> u64 {
    if c.pending@.len() == 0 {
        match max {
            Option::None => c.now,
            Option::Some(d) => c.now.saturating_add(d),
        }
    } else {
        let first = c.pending@[0].deadline;
        let t = if first > c.now {
            first
        } else {
            c.now
        };
        match max {
            Option::None => t,
            Option::Some(d) => {
                let cap = c.now.saturating_add(d);
                if t <= cap {
                    t
                } else {
                    cap
                }
            },
        }
    }
}

/// Whether a park found anything to do: `Idle` is the legal terminal
/// state of an empty world parked without a bound.
#[derive(Clone, Copy, PartialEq, Eq, Structural, Debug)]
pub enum ParkResult {
    Idle,
    Advanced,
}

/// What a park did: the outcome and the ids of the timers that fired,
/// in `(deadline, id)` order.
pub struct ParkOutcome {
    pub result: ParkResult,
    pub fired: Vec<u64>,
}

/// Monotonic simulated time and the ordered set of pending timers.
pub struct Clock {
    pub now: u64,
    pub pending: Vec<TimerEntry>,
    pub next_id: u64,
}

impl Clock {
    /// Pending entries are strictly `(deadline, id)`-sorted and every
    /// id was assigned from the monotone counter.
    pub open spec fn wf(&self) -> bool {
        &&& forall|i: int, j: int|
            0 <= i < j < self.pending@.len() ==> #[trigger] entry_lt(
                self.pending@[i],
                self.pending@[j],
            )
        &&& forall|i: int|
            0 <= i < self.pending@.len() ==> #[trigger] self.pending@[i].id < self.next_id
        &&& forall|i: int, j: int|
            0 <= i < self.pending@.len() && 0 <= j < self.pending@.len() && i != j
                ==> #[trigger] self.pending@[i].id != #[trigger] self.pending@[j].id
    }

    pub fn new() -> (r: Clock)
        ensures
            r.wf(),
            r.now == 0,
            r.pending@.len() == 0,
            r.next_id == 0,
    {
        Clock { now: 0, pending: Vec::new(), next_id: 0 }
    }

    /// The current simulated instant; reading never advances it.
    pub fn now(&self) -> (r: Instant)
        ensures
            r.nanos == self.now,
    {
        Instant { nanos: self.now }
    }

    /// Whether any deadline is pending.
    pub fn has_pending(&self) -> (r: bool)
        ensures
            r == (self.pending@.len() > 0),
    {
        self.pending.len() > 0
    }

    /// Present for interface compatibility with the scheduler's park
    /// strategy: waking the single-threaded world is a no-op.
    pub fn unpark(&self) {
    }

    /// Registers a timer for `deadline` and returns its id. A deadline
    /// at or before `now` is immediately fireable: the next park fires
    /// it without advancing time.
    pub fn register(&mut self, deadline: Instant) -> (id: u64)
        requires
            old(self).wf(),
            old(self).next_id < u64::MAX,
        ensures
            final(self).wf(),
            id == old(self).next_id,
            final(self).next_id == old(self).next_id + 1,
            final(self).now == old(self).now,
            exists|pos: int|
                0 <= pos <= old(self).pending@.len() && final(self).pending@ == old(self).pending@.insert(pos, (TimerEntry { deadline: deadline.nanos, id })) && (forall|
                    j: int,
                |
                    0 <= j < pos ==> old(self).pending@[j].deadline <= deadline.nanos) && (forall|
                    j: int,
                |
                    pos <= j < old(self).pending@.len() ==> old(self).pending@[j].deadline
                        > deadline.nanos),
    {
        let id = self.next_id;
        self.next_id = self.next_id + 1;
        let entry = TimerEntry { deadline: deadline.nanos, id };
        let mut pos: usize = 0;
        while pos < self.pending.len() && self.pending[pos].deadline <= deadline.nanos
            invariant
                0 <= pos <= self.pending@.len(),
                forall|j: int| 0 <= j < pos ==> #[trigger] self.pending@[j].deadline <= deadline.nanos,
            decreases self.pending@.len() - pos,
        {
            pos = pos + 1;
        }
        proof {
            assert forall|j: int| pos <= j < self.pending@.len() implies self.pending@[j].deadline
                > deadline.nanos by {
                if j > pos {
                    assert(entry_lt(self.pending@[pos as int], self.pending@[j]));
                }
            }
        }
        self.pending.insert(pos, entry);
        proof {
            let prev = old(self).pending@;
            assert forall|i: int, j: int| 0 <= i < j < self.pending@.len() implies #[trigger] entry_lt(
                self.pending@[i],
                self.pending@[j],
            ) by {
                let p = pos as int;
                if j < p {
                    assert(entry_lt(prev[i], prev[j]));
                } else if i > p {
                    assert(entry_lt(prev[i - 1], prev[j - 1]));
                } else if i < p && j == p {
                    assert(prev[i].deadline <= deadline.nanos);
                    assert(prev[i].id < id);
                } else if i == p && j > p {
                    assert(prev[j - 1].deadline > deadline.nanos);
                } else if i < p && j > p {
                    assert(entry_lt(prev[i], prev[j - 1]));
                }
            }
        }
        id
    }

    /// Cancels the registration with the given id, if it is still
    /// pending; dropping a timer handle routes here.
    pub fn cancel(&mut self, id: u64)
        requires
            old(self).wf(),
        ensures
            final(self).wf(),
            final(self).now == old(self).now,
            final(self).next_id == old(self).next_id,
            forall|i: int|
                0 <= i < old(self).pending@.len() && old(self).pending@[i].id == id ==> final(self).pending@ == old(self).pending@.remove(i),
            (forall|i: int| 0 <= i < old(self).pending@.len() ==> old(self).pending@[i].id != id)
                ==> final(self).pending@ == old(self).pending@,
    {
        let mut i: usize = 0;
        while i < self.pending.len() && self.pending[i].id != id
            invariant
                0 <= i <= self.pending@.len(),
                forall|j: int| 0 <= j < i ==> #[trigger] self.pending@[j].id != id,
            decreases self.pending@.len() - i,
        {
            i = i + 1;
        }
        if i < self.pending.len() {
            self.pending.remove(i);
            proof {
                let prev = old(self).pending@;
                let p = i as int;
                assert forall|a: int, b: int| 0 <= a < b < self.pending@.len() implies #[trigger] entry_lt(
                    self.pending@[a],
                    self.pending@[b],
                ) by {
                    let a0 = if a < p { a } else { a + 1 };
                    let b0 = if b < p { b } else { b + 1 };
                    assert(entry_lt(prev[a0], prev[b0]));
                }
            }
        }
    }

    /// Parks the world: advances `now` to the nearest deadline (bounded
    /// by `max` when given) and fires every timer now due, removing it
    /// and reporting its id, in `(deadline, id)` order. With nothing
    /// pending and no bound, reports `Idle` without advancing — the
    /// legal terminal state.
    pub fn park(&mut self, max: Option<Duration>) -> (r: ParkOutcome)
        requires
            old(self).wf(),
        ensures
            final(self).wf(),
            final(self).next_id == old(self).next_id,
            final(self).now == park_target(
                *old(self),
                match max {
                    Option::None => Option::None,
                    Option::Some(d) => Option::Some(d.nanos),
                },
            ),
            old(self).now <= final(self).now,
            r.result == (if old(self).pending@.len() == 0 && max is None {
                ParkResult::Idle
            } else {
                ParkResult::Advanced
            }),
            exists|k: int|
                0 <= k <= old(self).pending@.len() && (forall|i: int|
                    0 <= i < k ==> old(self).pending@[i].deadline <= final(self).now) && (forall|
                    i: int,
                |
                    k <= i < old(self).pending@.len() ==> old(self).pending@[i].deadline > final(self).now) && r.fired@ == old(self).pending@.take(k).map_values(
                    |e: TimerEntry| e.id,
                ) && final(self).pending@ == old(self).pending@.skip(k),
    {
        if self.pending.len() == 0 {
            let result = match max {
                Option::None => ParkResult::Idle,
                Option::Some(d) => {
                    self.now = self.now.saturating_add(d.nanos);
                    ParkResult::Advanced
                },
            };
            let fired: Vec<u64> = Vec::new();
            proof {
                assert(self.pending@ =~= old(self).pending@.skip(0));
                assert(fired@ =~= old(self).pending@.take(0).map_values(|e: TimerEntry| e.id));
            }
            return ParkOutcome { result, fired };
        }
        let first = self.pending[0].deadline;
        let mut t: u64 = if first > self.now {
            first
        } else {
            self.now
        };
        if let Option::Some(d) = max {
            let cap = self.now.saturating_add(d.nanos);
            if t > cap {
                t = cap;
            }
        }
        self.now = t;
        let ghost orig = self.pending@;
        let mut fired: Vec<u64> = Vec::new();
        while self.pending.len() > 0 && self.pending[0].deadline <= t
            invariant
                self.wf(),
                self.now == t,
                self.next_id == old(self).next_id,
                fired@.len() <= orig.len(),
                self.pending@ == orig.skip(fired@.len() as int),
                fired@ == orig.take(fired@.len() as int).map_values(|e: TimerEntry| e.id),
                forall|i: int| 0 <= i < fired@.len() ==> #[trigger] orig[i].deadline <= t,
            decreases self.pending@.len(),
        {
            let e = self.pending.remove(0);
            fired.push(e.id);
            proof {
                let k = fired@.len() as int;
                assert(orig.skip(k - 1).remove(0) =~= orig.skip(k));
                assert(orig.take(k).map_values(|e: TimerEntry| e.id) =~= orig.take(k - 1)
                    .map_values(|e: TimerEntry| e.id).push(orig[k - 1].id));
            }
        }
        proof {
            let k = fired@.len() as int;
            assert forall|i: int| k <= i < orig.len() implies orig[i].deadline > t by {
                if i > k {
                    assert(entry_lt(orig[k], orig[i]));
                    assert(orig[k] == self.pending@[0]);
                } else {
                    assert(orig[i] == self.pending@[0]);
                }
            }
        }
        ParkOutcome { result: ParkResult::Advanced, fired }
    }
}

/// Timers fire in registration-respecting order: under the sorted-wheel
/// invariant, a timer registered earlier (smaller id) with a no-later
/// deadline sits earlier in the wheel, so any park fires it no later.
pub proof fn lemma_fire_order(c: Clock, i: int, j: int)
    requires
        c.wf(),
        0 <= i < c.pending@.len(),
        0 <= j < c.pending@.len(),
        c.pending@[i].id < c.pending@[j].id,
        c.pending@[i].deadline <= c.pending@[j].deadline,
    ensures
        i < j,
{
    if i == j {
        assert(false);
    } else if j < i {
        assert(entry_lt(c.pending@[j], c.pending@[i]));
        assert(false);
    }
}

/// An unbounded park lands exactly on the earliest pending deadline —
/// no drift, no rounding: a delay for duration `d` registered at `t`
/// completes with the clock reading exactly `t + d`.
pub proof fn lemma_park_exact(c: Clock)
    requires
        c.wf(),
        c.pending@.len() > 0,
        c.now <= c.pending@[0].deadline,
    ensures
        park_target(c, Option::None) == c.pending@[0].deadline,
{
}

} // verus!
