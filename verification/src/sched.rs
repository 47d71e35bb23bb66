//! The cooperative scheduler: a FIFO ready queue of task ids, with a
//! deterministic two-queue turn discipline.
//!
//! Tasks picked during the present turn come from `current`; a task
//! woken while the turn runs (including a task re-woken during its own
//! poll) joins `upcoming` and is picked in the following turn, never the
//! present one. Task ids come from a monotone counter, so FIFO order
//! within a turn is ascending spawn order.

use vstd::prelude::*;

verus! {

/// Where a task stands. `Ready` means runnable: either queued or being
/// polled right now. `Blocked` means waiting for a wake. `Done` means
/// completed; a stale queue entry for a completed task is skipped.
#[derive(Clone, Copy, PartialEq, Eq, Structural, Debug)]
pub enum TaskState {
    Ready,
    Blocked,
    Done,
}

/// The scheduler state: one slot per spawned task, the present turn's
/// queue and the following turn's queue.
pub struct Scheduler {
    pub tasks: Vec<TaskState>,
    pub current: Vec<u64>,
    pub upcoming: Vec<u64>,
}

impl Scheduler {
    /// Both queues together, present turn first.
    pub open spec fn queued(&self) -> Seq<u64> {
        self.current@ + self.upcoming@
    }

    /// Queue entries name existing, non-blocked tasks, and no task is
    /// queued twice.
    pub open spec fn wf(&self) -> bool {
        &&& forall|i: int|
            0 <= i < self.queued().len() ==> (#[trigger] self.queued()[i] as int)
                < self.tasks@.len() && !(self.tasks@[self.queued()[i] as int] is Blocked)
        &&& forall|i: int, j: int|
            0 <= i < self.queued().len() && 0 <= j < self.queued().len() && i != j
                ==> self.queued()[i] != self.queued()[j]
    }

    pub fn new() -> (r: Scheduler)
        ensures
            r.wf(),
            r.tasks@.len() == 0,
            r.current@.len() == 0,
            r.upcoming@.len() == 0,
    {
        Scheduler { tasks: Vec::new(), current: Vec::new(), upcoming: Vec::new() }
    }

    /// Allocates the next task id and appends it to the present turn's
    /// queue, behind every task already ready — FIFO relative to them.
    pub fn spawn(&mut self) -> (id: u64)
        requires
            old(self).wf(),
            old(self).tasks@.len() < u64::MAX,
        ensures
            final(self).wf(),
            id == old(self).tasks@.len(),
            final(self).tasks@ == old(self).tasks@.push(TaskState::Ready),
            final(self).current@ == old(self).current@.push(id),
            final(self).upcoming@ == old(self).upcoming@,
    {
        let id = self.tasks.len() as u64;
        self.tasks.push(TaskState::Ready);
        self.current.push(id);
        proof {
            let q0 = old(self).queued();
            let q1 = self.queued();
            assert(q1 =~= old(self).current@.push(id) + old(self).upcoming@);
            assert forall|i: int| 0 <= i < q1.len() implies (#[trigger] q1[i] as int)
                < self.tasks@.len() && !(self.tasks@[q1[i] as int] is Blocked) by {
                if i == old(self).current@.len() {
                    assert(q1[i] == id);
                } else if i < old(self).current@.len() {
                    assert(q1[i] == q0[i]);
                } else {
                    assert(q1[i] == q0[i - 1]);
                }
            }
            assert forall|i: int, j: int|
                0 <= i < q1.len() && 0 <= j < q1.len() && i != j implies q1[i] != q1[j] by {
                let c = old(self).current@.len() as int;
                let oi = if i < c { i } else { i - 1 };
                let oj = if j < c { j } else { j - 1 };
                if i != c && j != c {
                    assert(q1[i] == q0[oi] && q1[j] == q0[oj]);
                } else if i == c {
                    assert(q1[i] == id && q1[j] == q0[oj] && q0[oj] < id);
                } else {
                    assert(q1[j] == id && q1[i] == q0[oi] && q0[oi] < id);
                }
            }
        }
        id
    }

    /// Pops the present turn's front task for polling. The task leaves
    /// the queue and counts as blocked until a wake re-queues it — a
    /// wake arriving during its own poll lands it in the next turn.
    pub fn take_next(&mut self) -> (r: Option<u64>)
        requires
            old(self).wf(),
        ensures
            final(self).wf(),
            final(self).upcoming@ == old(self).upcoming@,
            old(self).current@.len() == 0 ==> r is None && *final(self) == *old(self),
            old(self).current@.len() > 0 ==> {
                let id = old(self).current@[0];
                &&& r == Some(id)
                &&& final(self).current@ == old(self).current@.skip(1)
                &&& (old(self).tasks@[id as int] is Ready ==> final(self).tasks@ == old(
                    self,
                ).tasks@.update(id as int, TaskState::Blocked))
                &&& (!(old(self).tasks@[id as int] is Ready) ==> final(self).tasks@ == old(
                    self,
                ).tasks@)
            },
    {
        if self.current.len() == 0 {
            return None;
        }
        let id = self.current.remove(0);
        proof {
            assert(self.current@ =~= old(self).current@.skip(1));
            assert(old(self).queued()[0] == id);
        }
        proof {
            assert(self.tasks@.len() == self.tasks.len());
            assert(id < self.tasks@.len() as u64);
        }
        let st = self.tasks[id as usize];
        if let TaskState::Ready = st {
            self.tasks.set(id as usize, TaskState::Blocked);
        }
        proof {
            let q0 = old(self).queued();
            let q1 = self.queued();
            assert(q1 =~= q0.skip(1));
            assert forall|i: int| 0 <= i < q1.len() implies (#[trigger] q1[i] as int)
                < self.tasks@.len() && !(self.tasks@[q1[i] as int] is Blocked) by {
                assert(q1[i] == q0[i + 1]);
                assert(q0[i + 1] != id);
            }
            assert forall|i: int, j: int|
                0 <= i < q1.len() && 0 <= j < q1.len() && i != j implies q1[i] != q1[j] by {
                assert(q1[i] == q0[i + 1] && q1[j] == q0[j + 1]);
            }
        }
        Some(id)
    }

    /// Starts the following turn: the upcoming queue becomes the
    /// present one. Only legal once the present turn has drained.
    pub fn begin_turn(&mut self)
        requires
            old(self).wf(),
            old(self).current@.len() == 0,
        ensures
            final(self).wf(),
            final(self).current@ == old(self).upcoming@,
            final(self).upcoming@.len() == 0,
            final(self).tasks@ == old(self).tasks@,
    {
        let mut moved: Vec<u64> = Vec::new();
        std::mem::swap(&mut moved, &mut self.upcoming);
        std::mem::swap(&mut moved, &mut self.current);
        proof {
            assert(self.queued() =~= old(self).queued());
        }
    }

    /// Wakes a task: a blocked task becomes ready and joins the next
    /// turn's queue; a wake of a ready or completed task is a no-op.
    pub fn wake(&mut self, id: u64)
        requires
            old(self).wf(),
            (id as int) < old(self).tasks@.len(),
        ensures
            final(self).wf(),
            final(self).current@ == old(self).current@,
            old(self).tasks@[id as int] is Blocked ==> {
                &&& final(self).tasks@ == old(self).tasks@.update(id as int, TaskState::Ready)
                &&& final(self).upcoming@ == old(self).upcoming@.push(id)
            },
            !(old(self).tasks@[id as int] is Blocked) ==> *final(self) == *old(self),
    {
        proof {
            assert(self.tasks@.len() == self.tasks.len());
            assert(id < self.tasks@.len() as u64);
        }
        let st = self.tasks[id as usize];
        if let TaskState::Blocked = st {
            self.tasks.set(id as usize, TaskState::Ready);
            self.upcoming.push(id);
            proof {
                let q0 = old(self).queued();
                let q1 = self.queued();
                assert(q1 =~= q0.push(id));
                assert forall|i: int| 0 <= i < q0.len() implies q0[i] != id by {
                    assert(!(old(self).tasks@[q0[i] as int] is Blocked));
                }
                assert forall|i: int| 0 <= i < q1.len() implies (#[trigger] q1[i] as int)
                    < self.tasks@.len() && !(self.tasks@[q1[i] as int] is Blocked) by {
                    if i < q0.len() {
                        assert(q1[i] == q0[i]);
                    }
                }
            }
        }
    }

    /// Records that a task's future returned its output: the slot is
    /// retired and never polled again.
    pub fn complete(&mut self, id: u64)
        requires
            old(self).wf(),
            (id as int) < old(self).tasks@.len(),
        ensures
            final(self).wf(),
            final(self).tasks@ == old(self).tasks@.update(id as int, TaskState::Done),
            final(self).current@ == old(self).current@,
            final(self).upcoming@ == old(self).upcoming@,
    {
        proof {
            assert(self.tasks@.len() == self.tasks.len());
            assert(id < self.tasks@.len() as u64);
        }
        self.tasks.set(id as usize, TaskState::Done);
    }

    pub fn state_of(&self, id: u64) -> (r: TaskState)
        requires
            (id as int) < self.tasks@.len(),
        ensures
            r == self.tasks@[id as int],
    {
        proof {
            assert(self.tasks@.len() == self.tasks.len());
            assert(id < self.tasks@.len() as u64);
        }
        self.tasks[id as usize]
    }

    /// Whether both queues are drained: nothing is runnable.
    pub fn is_idle(&self) -> (r: bool)
        ensures
            r == (self.current@.len() == 0 && self.upcoming@.len() == 0),
    {
        self.current.len() == 0 && self.upcoming.len() == 0
    }
}

} // verus!
