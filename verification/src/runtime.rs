//! The runtime: the PRNG, the virtual clock, the scheduler and the
//! network fabric wired together, with the clock as the scheduler's
//! park strategy.
//!
//! [`Runtime::next_action`] is the engine: it hands out the next task
//! to poll in deterministic FIFO order, switches turns, and — only when
//! no task can make progress — parks on the clock, waking the tasks
//! whose timers fired. The driving loop that actually polls task
//! futures sits outside; every decision it acts on is made here.

use vstd::prelude::*;
use crate::clock::Clock;
use crate::errors::ErrorKind;
use crate::fault::LatencyFaultInjector;
use crate::net::{Addr, Fabric, DEFAULT_CAPACITY, LOCALHOST_IP};
use crate::rng::{Prng, sm_next_state, sm_output};
use crate::sched::{Scheduler, TaskState};
use crate::time::{Duration, Instant, NANOS_PER_MILLI};

verus! {

/// Whether any queued task is actually runnable.
pub open spec fn has_ready(s: Scheduler) -> bool {
    exists|i: int|
        0 <= i < s.queued().len() && s.tasks@[(#[trigger] s.queued()[i]) as int] is Ready
}

/// A view of the runtime scoped to one simulated host IP: binds and
/// connects made through it originate from this IP.
#[derive(Clone, Copy, PartialEq, Eq, Structural, Debug)]
pub struct ScopedHandle {
    pub ip: u32,
}

impl ScopedHandle {
    /// The address a bare port names on this handle's host.
    pub fn scoped(&self, port: u16) -> (r: Addr)
        ensures
            r.ip == self.ip,
            r.port == port,
    {
        Addr::new(self.ip, port)
    }
}

/// What the engine should do next: poll the given task, or stop — no
/// task is runnable and no timer is pending.
#[derive(Clone, Copy, PartialEq, Eq, Structural, Debug)]
pub enum RunStep {
    Poll(u64),
    Done,
}

/// One closed simulated world: every source of nondeterminism is the
/// seed, so two runtimes built from equal seeds and driven by equal
/// programs evolve identically.
pub struct Runtime {
    pub clock: Clock,
    pub sched: Scheduler,
    pub fabric: Fabric,
    pub prng: Prng,
    pub seed: u64,
    pub waits: Vec<(u64, u64)>,
}

impl Runtime {
    /// Components well-formed, and every timer wait names a live task
    /// slot.
    pub open spec fn wf(&self) -> bool {
        &&& self.clock.wf()
        &&& self.sched.wf()
        &&& self.fabric.wf()
        &&& forall|i: int|
            0 <= i < self.waits@.len() ==> ((#[trigger] self.waits@[i]).1 as int)
                < self.sched.tasks@.len()
    }

    /// The state a fresh runtime starts from: epoch clock, no tasks, an
    /// empty fabric, the PRNG seeded as given.
    pub open spec fn initial(self, seed: u64) -> bool {
        &&& self.clock.now == 0 && self.clock.pending@.len() == 0 && self.clock.next_id == 0
        &&& self.sched.tasks@.len() == 0 && self.sched.current@.len() == 0
            && self.sched.upcoming@.len() == 0
        &&& self.fabric.pairs@.len() == 0 && self.fabric.listeners@.len() == 0
            && self.fabric.endpoints@.len() == 0 && self.fabric.eph@.len() == 0
            && self.fabric.capacity == DEFAULT_CAPACITY
        &&& self.prng.state == seed
        &&& self.seed == seed
        &&& self.waits@.len() == 0
    }

    /// A runtime over seed zero. Pure simulation needs no OS reactor,
    /// so construction cannot fail; the `Result` is the boundary's
    /// shape, kept for callers that inject a real reactor.
    pub fn new() -> (r: Result<Runtime, ErrorKind>)
        ensures
            r matches Ok(rt) && rt.wf() && rt.initial(0),
    {
        Runtime::new_with_seed(0)
    }

    pub fn new_with_seed(seed: u64) -> (r: Result<Runtime, ErrorKind>)
        ensures
            r matches Ok(rt) && rt.wf() && rt.initial(seed),
    {
        Ok(
            Runtime {
                clock: Clock::new(),
                sched: Scheduler::new(),
                fabric: Fabric::new(DEFAULT_CAPACITY),
                prng: Prng::new(seed),
                seed,
                waits: Vec::new(),
            },
        )
    }

    /// The current simulated instant.
    pub fn now(&self) -> (r: Instant)
        ensures
            r.nanos == self.clock.now,
    {
        self.clock.now()
    }

    pub fn handle(&self, ip: u32) -> (r: ScopedHandle)
        ensures
            r.ip == ip,
    {
        ScopedHandle { ip }
    }

    pub fn localhost_handle(&self) -> (r: ScopedHandle)
        ensures
            r.ip == LOCALHOST_IP,
    {
        ScopedHandle { ip: LOCALHOST_IP }
    }

    /// A latency policy with mean one millisecond, driven by a fork of
    /// the runtime PRNG: the injected delays depend on the seed alone,
    /// and drawing them never perturbs the runtime's own stream beyond
    /// the single fork derivation.
    pub fn latency_fault(&mut self) -> (r: LatencyFaultInjector)
        requires
            old(self).wf(),
        ensures
            final(self).wf(),
            final(self).prng.state == sm_next_state(old(self).prng.state),
            r.prng.state == sm_output(old(self).prng.state),
            r.mean_nanos == NANOS_PER_MILLI,
            final(self).clock == old(self).clock,
            final(self).sched == old(self).sched,
            final(self).fabric == old(self).fabric,
            final(self).seed == old(self).seed,
            final(self).waits == old(self).waits,
    {
        let child = self.prng.fork();
        LatencyFaultInjector::new(child, NANOS_PER_MILLI)
    }

    /// Enters a new task into the world, FIFO behind every task already
    /// ready.
    pub fn spawn(&mut self) -> (id: u64)
        requires
            old(self).wf(),
            old(self).sched.tasks@.len() < u64::MAX,
        ensures
            final(self).wf(),
            id == old(self).sched.tasks@.len(),
            final(self).sched.tasks@ == old(self).sched.tasks@.push(TaskState::Ready),
            final(self).sched.current@ == old(self).sched.current@.push(id),
            final(self).sched.upcoming@ == old(self).sched.upcoming@,
            final(self).clock == old(self).clock,
            final(self).fabric == old(self).fabric,
            final(self).prng == old(self).prng,
            final(self).seed == old(self).seed,
            final(self).waits == old(self).waits,
    {
        self.sched.spawn()
    }

    /// Registers a sleep: `task` will be woken when a timer for
    /// `deadline` fires. The deadline is stored exactly — no drift, no
    /// rounding.
    pub fn delay(&mut self, task: u64, deadline: Instant) -> (tid: u64)
        requires
            old(self).wf(),
            (task as int) < old(self).sched.tasks@.len(),
            old(self).clock.next_id < u64::MAX,
        ensures
            final(self).wf(),
            tid == old(self).clock.next_id,
            final(self).clock.next_id == old(self).clock.next_id + 1,
            final(self).clock.now == old(self).clock.now,
            final(self).clock.pending@.len() == old(self).clock.pending@.len() + 1,
            exists|i: int|
                0 <= i < final(self).clock.pending@.len() && final(self).clock.pending@[i] == (
                crate::clock::TimerEntry { deadline: deadline.nanos, id: tid }),
            final(self).waits@ == old(self).waits@.push((tid, task)),
            final(self).sched == old(self).sched,
            final(self).fabric == old(self).fabric,
            final(self).prng == old(self).prng,
            final(self).seed == old(self).seed,
    {
        let tid = self.clock.register(deadline);
        proof {
            let pos = choose|pos: int|
                0 <= pos <= old(self).clock.pending@.len() && self.clock.pending@ == old(self).clock.pending@.insert(
                    pos,
                    (crate::clock::TimerEntry { deadline: deadline.nanos, id: tid }),
                ) && (forall|j: int|
                    0 <= j < pos ==> old(self).clock.pending@[j].deadline <= deadline.nanos) && (
                forall|j: int|
                    pos <= j < old(self).clock.pending@.len() ==> old(self).clock.pending@[j].deadline > deadline.nanos);
            assert(self.clock.pending@[pos] == (crate::clock::TimerEntry {
                deadline: deadline.nanos,
                id: tid,
            }));
        }
        self.waits.push((tid, task));
        tid
    }

    /// Registers a sleep for `d` from now: the deadline is exactly
    /// `now + d`.
    pub fn delay_from(&mut self, task: u64, d: Duration) -> (tid: u64)
        requires
            old(self).wf(),
            (task as int) < old(self).sched.tasks@.len(),
            old(self).clock.next_id < u64::MAX,
        ensures
            final(self).wf(),
            tid == old(self).clock.next_id,
            final(self).clock.next_id == old(self).clock.next_id + 1,
            final(self).clock.now == old(self).clock.now,
            final(self).clock.pending@.len() == old(self).clock.pending@.len() + 1,
            exists|i: int|
                0 <= i < final(self).clock.pending@.len() && final(self).clock.pending@[i] == (
                crate::clock::TimerEntry {
                    deadline: old(self).clock.now.saturating_add(d.nanos),
                    id: tid,
                }),
            final(self).waits@ == old(self).waits@.push((tid, task)),
            final(self).sched == old(self).sched,
            final(self).fabric == old(self).fabric,
            final(self).prng == old(self).prng,
            final(self).seed == old(self).seed,
    {
        let deadline = self.clock.now().plus(d);
        self.delay(task, deadline)
    }

    /// Wakes the task waiting on timer `tid`, if any, retiring the
    /// first wait entry bearing that timer: a blocked waiter becomes
    /// ready in the next turn's queue. Timers nobody waits on (a
    /// dropped or cancelled sleep) wake nothing.
    fn wake_timer(&mut self, tid: u64)
        requires
            old(self).wf(),
        ensures
            final(self).wf(),
            final(self).clock == old(self).clock,
            final(self).fabric == old(self).fabric,
            final(self).prng == old(self).prng,
            final(self).seed == old(self).seed,
            final(self).sched.current@ == old(self).sched.current@,
            final(self).sched.tasks@.len() == old(self).sched.tasks@.len(),
            (forall|i: int| 0 <= i < old(self).waits@.len() ==> (#[trigger] old(self).waits@[i]).0
                != tid) ==> *final(self) == *old(self),
            (exists|i: int|
                0 <= i < old(self).waits@.len() && (#[trigger] old(self).waits@[i]).0 == tid) ==> ({
                let i = choose|i: int|
                    0 <= i < old(self).waits@.len() && (#[trigger] old(self).waits@[i]).0 == tid
                        && (forall|j: int| 0 <= j < i ==> (old(self).waits@[j]).0 != tid);
                let task = old(self).waits@[i].1;
                &&& final(self).waits@ == old(self).waits@.remove(i)
                &&& (old(self).sched.tasks@[task as int] is Blocked ==> final(self).sched.tasks@
                    == old(self).sched.tasks@.update(task as int, TaskState::Ready) && final(self).sched.upcoming@ == old(self).sched.upcoming@.push(task))
                &&& (!(old(self).sched.tasks@[task as int] is Blocked) ==> final(self).sched
                    == old(self).sched)
            }),
    {
        let mut i: usize = 0;
        while i < self.waits.len()
            invariant
                0 <= i <= self.waits@.len(),
                *self == *old(self),
                old(self).wf(),
                forall|j: int| 0 <= j < i ==> (#[trigger] self.waits@[j]).0 != tid,
            decreases self.waits@.len() - i,
        {
            if self.waits[i].0 == tid {
                let task = self.waits[i].1;
                proof {
                    let w = choose|w: int|
                        0 <= w < old(self).waits@.len() && (#[trigger] old(self).waits@[w]).0
                            == tid && (forall|j: int| 0 <= j < w ==> (old(self).waits@[j]).0
                            != tid);
                    assert(w == i as int);
                }
                self.waits.remove(i);
                self.sched.wake(task);
                return ;
            }
            i = i + 1;
        }
    }

    /// The engine's next decision. Drains the present turn in FIFO
    /// order (skipping retired entries), then switches to the next
    /// turn; only when no task anywhere is runnable does it park the
    /// clock, waking the tasks whose timers fired, in `(deadline, id)`
    /// order. `Done` means the world is over: nothing queued, nothing
    /// pending. The clock never advances while a runnable task is
    /// queued, and an already-empty world stops at once with the clock
    /// untouched.
    pub fn next_action(&mut self) -> (r: RunStep)
        requires
            old(self).wf(),
        ensures
            final(self).wf(),
            final(self).fabric == old(self).fabric,
            final(self).prng == old(self).prng,
            final(self).seed == old(self).seed,
            old(self).clock.now <= final(self).clock.now,
            has_ready(old(self).sched) ==> final(self).clock.now == old(self).clock.now,
            old(self).sched.current@.len() == 0 && old(self).sched.upcoming@.len() == 0 && old(self).clock.pending@.len() == 0 ==> r == RunStep::Done && *final(self) == *old(self),
            r == RunStep::Done ==> final(self).sched.current@.len() == 0 && final(self).sched.upcoming@.len() == 0 && final(self).clock.pending@.len() == 0,
            r matches RunStep::Poll(id) ==> (id as int) < final(self).sched.tasks@.len() && final(self).sched.tasks@[id as int] is Blocked,
            has_ready(old(self).sched) ==> (r matches RunStep::Poll(_)),
            r matches RunStep::Poll(id) ==> (has_ready(old(self).sched) ==> exists|k: int|
                0 <= k < old(self).sched.queued().len() && #[trigger] old(self).sched.queued()[k]
                    == id && old(self).sched.tasks@[id as int] is Ready && (forall|j: int|
                    0 <= j < k ==> old(self).sched.tasks@[old(self).sched.queued()[j] as int]
                        is Done)),
    {
        proof {
            assert(old(self).sched.queued().skip(0) =~= self.sched.queued());
        }
        loop
            invariant
                self.wf(),
                self.fabric == old(self).fabric,
                self.prng == old(self).prng,
                self.seed == old(self).seed,
                old(self).clock.now <= self.clock.now,
                has_ready(old(self).sched) ==> self.clock.now == old(self).clock.now && has_ready(
                    self.sched,
                ),
                has_ready(old(self).sched) ==> exists|k: int|
                    0 <= k <= old(self).sched.queued().len() && #[trigger] old(
                        self,
                    ).sched.queued().skip(k) == self.sched.queued() && self.sched.tasks@ == old(
                        self,
                    ).sched.tasks@ && (forall|j: int|
                        0 <= j < k ==> old(self).sched.tasks@[old(self).sched.queued()[j] as int]
                            is Done),
                old(self).sched.current@.len() == 0 && old(self).sched.upcoming@.len() == 0 && old(self).clock.pending@.len() == 0 ==> *self == *old(self),
            decreases
                    self.clock.pending@.len(),
                    self.sched.current@.len() + self.sched.upcoming@.len(),
                    self.sched.upcoming@.len(),
        {
            let ghost pre = *self;
            let next = self.sched.take_next();
            match next {
                Option::Some(id) => {
                    proof {
                        assert(pre.sched.queued()[0] == id);
                        assert((id as int) < pre.sched.tasks@.len());
                    }
                    let st = self.sched.state_of(id);
                    if let TaskState::Blocked = st {
                        proof {
                            if has_ready(old(self).sched) {
                                assert(self.clock.now == old(self).clock.now);
                                let k = choose|k: int|
                                    0 <= k <= old(self).sched.queued().len() && #[trigger] old(
                                        self,
                                    ).sched.queued().skip(k) == pre.sched.queued()
                                        && pre.sched.tasks@ == old(self).sched.tasks@ && (forall|
                                        j: int,
                                    |
                                        0 <= j < k ==> old(self).sched.tasks@[old(
                                            self,
                                        ).sched.queued()[j] as int] is Done);
                                assert(old(self).sched.queued()[k] == pre.sched.queued()[0]);
                                assert(pre.sched.tasks@[id as int] is Ready);
                            }
                        }
                        return RunStep::Poll(id);
                    }
                    proof {
                        assert(!(pre.sched.tasks@[id as int] is Ready));
                        assert(pre.sched.tasks@[id as int] is Done);
                        if has_ready(pre.sched) {
                            let i = choose|i: int|
                                0 <= i < pre.sched.queued().len() && pre.sched.tasks@[(
                                #[trigger] pre.sched.queued()[i]) as int] is Ready;
                            assert(i != 0);
                            assert(self.sched.queued()[i - 1] == pre.sched.queued()[i]);
                            assert(has_ready(self.sched));
                        }
                        assert(self.sched.queued() =~= pre.sched.queued().skip(1));
                        if has_ready(old(self).sched) {
                            let k = choose|k: int|
                                0 <= k <= old(self).sched.queued().len() && #[trigger] old(
                                    self,
                                ).sched.queued().skip(k) == pre.sched.queued()
                                    && pre.sched.tasks@ == old(self).sched.tasks@ && (forall|
                                    j: int,
                                |
                                    0 <= j < k ==> old(self).sched.tasks@[old(
                                        self,
                                    ).sched.queued()[j] as int] is Done);
                            assert(old(self).sched.queued().skip(k + 1) =~= self.sched.queued());
                            assert(old(self).sched.queued()[k] == id);
                            assert forall|j: int| 0 <= j < k + 1 implies old(self).sched.tasks@[old(
                                self,
                            ).sched.queued()[j] as int] is Done by {
                                if j == k {
                                    assert(old(self).sched.tasks@[id as int] is Done);
                                }
                            }
                        }
                    }
                },
                Option::None => {
                    if !self.sched.is_idle() {
                        proof {
                            if has_ready(pre.sched) {
                                let i = choose|i: int|
                                    0 <= i < pre.sched.queued().len() && pre.sched.tasks@[(
                                    #[trigger] pre.sched.queued()[i]) as int] is Ready;
                                assert(pre.sched.queued() == pre.sched.upcoming@);
                            }
                        }
                        let ghost before_turn = *self;
                        self.sched.begin_turn();
                        proof {
                            assert(self.sched.queued() =~= before_turn.sched.queued());
                            if has_ready(old(self).sched) {
                                let k = choose|k: int|
                                    0 <= k <= old(self).sched.queued().len() && #[trigger] old(
                                        self,
                                    ).sched.queued().skip(k) == before_turn.sched.queued()
                                        && before_turn.sched.tasks@ == old(self).sched.tasks@ && (
                                    forall|j: int|
                                        0 <= j < k ==> old(self).sched.tasks@[old(
                                            self,
                                        ).sched.queued()[j] as int] is Done);
                                assert(old(self).sched.queued().skip(k) == self.sched.queued());
                            }
                            if has_ready(before_turn.sched) {
                                let i = choose|i: int|
                                    0 <= i < before_turn.sched.queued().len()
                                        && before_turn.sched.tasks@[(
                                    #[trigger] before_turn.sched.queued()[i]) as int] is Ready;
                                assert(self.sched.queued()[i] == before_turn.sched.queued()[i]);
                                assert(has_ready(self.sched));
                            }
                        }
                    } else {
                        if self.clock.has_pending() {
                            proof {
                                assert(!has_ready(old(self).sched) || has_ready(pre.sched));
                                if has_ready(pre.sched) {
                                    let i = choose|i: int|
                                        0 <= i < pre.sched.queued().len() && pre.sched.tasks@[(
                                        #[trigger] pre.sched.queued()[i]) as int] is Ready;
                                    assert(false);
                                }
                            }
                            let ghost before_park = *self;
                            let out = self.clock.park(None);
                            proof {
                                let k = choose|k: int|
                                    0 <= k <= before_park.clock.pending@.len() && (forall|i: int|
                                        0 <= i < k ==> before_park.clock.pending@[i].deadline
                                            <= self.clock.now) && (forall|i: int|
                                        k <= i < before_park.clock.pending@.len()
                                            ==> before_park.clock.pending@[i].deadline
                                            > self.clock.now) && out.fired@
                                        == before_park.clock.pending@.take(k).map_values(
                                        |e: crate::clock::TimerEntry| e.id,
                                    ) && self.clock.pending@ == before_park.clock.pending@.skip(k);
                                assert(before_park.clock.pending@[0].deadline <= self.clock.now);
                                assert(k >= 1);
                                assert(self.clock.pending@.len() < before_park.clock.pending@.len());
                            }
                            let ghost post_park = *self;
                            let mut i: usize = 0;
                            while i < out.fired.len()
                                invariant
                                    self.wf(),
                                    self.fabric == post_park.fabric,
                                    self.prng == post_park.prng,
                                    self.seed == post_park.seed,
                                    self.clock == post_park.clock,
                                    !has_ready(old(self).sched),
                                    !(old(self).sched.current@.len() == 0 && old(self).sched.upcoming@.len() == 0 && old(self).clock.pending@.len()
                                        == 0),
                                    old(self).clock.now <= self.clock.now,
                                    self.fabric == old(self).fabric,
                                    self.prng == old(self).prng,
                                    self.seed == old(self).seed,
                                decreases out.fired@.len() - i,
                            {
                                self.wake_timer(out.fired[i]);
                                i = i + 1;
                            }
                        } else {
                            proof {
                                if has_ready(pre.sched) {
                                    let i = choose|i: int|
                                        0 <= i < pre.sched.queued().len() && pre.sched.tasks@[(
                                        #[trigger] pre.sched.queued()[i]) as int] is Ready;
                                    assert(false);
                                }
                            }
                            return RunStep::Done;
                        }
                    }
                },
            }
        }
    }
}

/// The timeout rule: a ready inner result wins; otherwise a fired timer
/// turns the wait into `Elapsed`; otherwise keep waiting.
pub fn timeout_outcome(inner_ready: bool, timer_fired: bool) -> (r: Option<
    Result<(), ErrorKind>,
>)
    ensures
        inner_ready ==> r == Some(Ok::<(), ErrorKind>(())),
        !inner_ready && timer_fired ==> r == Some(Err::<(), ErrorKind>(ErrorKind::Elapsed)),
        !inner_ready && !timer_fired ==> r is None,
{
    if inner_ready {
        Some(Ok(()))
    } else if timer_fired {
        Some(Err(ErrorKind::Elapsed))
    } else {
        None
    }
}

} // verus!
