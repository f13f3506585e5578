//! The scheduler state that every system call works on: the ready queue and
//! the task that presently runs.

use vstd::prelude::*;
use crate::manager::{has_ready, is_pick, is_ready, pick_index, TaskManager};
use crate::memory_set::AddressSpace;
use crate::task::{TaskControlBlock, TaskStatus};

verus! {

/// What a scheduling step over queue `q` at clock reading `now_ms` yields:
/// the task that runs next, if any is Ready, and the queue that remains.
pub open spec fn scheduled(q: Seq<TaskControlBlock>, now_ms: usize) -> (
    Option<TaskControlBlock>,
    Seq<TaskControlBlock>,
) {
    if has_ready(q) {
        (Some(q[pick_index(q)].advanced().dispatched(now_ms)), q.remove(pick_index(q)))
    } else {
        (None, q)
    }
}

/// The ready queue together with the task that presently runs.
pub struct Kernel {
    pub manager: TaskManager,
    pub current: Option<TaskControlBlock>,
}

impl Kernel {
    /// The queued tasks and the current one are well formed.
    pub open spec fn wf(&self) -> bool {
        &&& self.manager.wf()
        &&& self.current.is_some() ==> self.current.unwrap().wf()
    }

    /// The current task.
    pub open spec fn task(&self) -> TaskControlBlock {
        self.current.unwrap()
    }

    /// The address space of the current task.
    pub open spec fn space(&self) -> AddressSpace {
        self.current.unwrap().memory_set@
    }

    /// Whether `other` differs from this state at most in the contents of the
    /// current task's address space.
    pub open spec fn same_but_memory(&self, other: Kernel) -> bool {
        &&& self.manager == other.manager
        &&& self.current.is_some()
        &&& other.current.is_some()
        &&& other.task() == (TaskControlBlock { memory_set: other.task().memory_set, ..self.task() })
    }

    /// A kernel with an empty ready queue and no current task.
    pub fn new() -> (k: Kernel)
        ensures
            k.wf(),
            k.current.is_none(),
            k.manager@ == Seq::<TaskControlBlock>::empty(),
    {
        Kernel { manager: TaskManager::new(), current: None }
    }

    /// Selects the next task from the ready queue and makes it the current
    /// one: Running, its start time latched at `now_ms` if it never ran.
    /// With no Ready task there is no current task afterwards.
    pub fn run_next(&mut self, now_ms: usize)
        requires
            old(self).manager.wf(),
            old(self).manager.can_advance(),
        ensures
            final(self).wf(),
            (final(self).current, final(self).manager@) == scheduled(old(self).manager@, now_ms),
    {
        match self.manager.fetch() {
            Some(mut task) => {
                task.status = TaskStatus::Running;
                if task.start_time.is_none() {
                    task.start_time = Some(now_ms);
                }
                self.current = Some(task);
            },
            None => {
                self.current = None;
            },
        }
    }

    /// Puts the current task back into the ready queue as Ready and runs the
    /// next task, which may be the same one.
    pub fn suspend_current_and_run_next(&mut self, now_ms: usize)
        requires
            old(self).wf(),
            old(self).current.is_some(),
            old(self).manager.can_advance(),
            old(self).task().can_advance(),
        ensures
            final(self).wf(),
            final(self).current.is_some(),
            (final(self).current, final(self).manager@) == scheduled(
                old(self).manager@.push(old(self).task().with_status(TaskStatus::Ready)),
                now_ms,
            ),
    {
        let taken = self.current.take();
        let mut task = taken.unwrap();
        task.status = TaskStatus::Ready;
        self.manager.add(task);
        proof {
            let q = self.manager@;
            let last = q.len() - 1;
            assert(is_ready(q, last));
            assert forall|i: int| 0 <= i < q.len() implies (#[trigger] q[i]).wf() by {
                if i < last {
                    assert(q[i] == old(self).manager@[i]);
                }
            }
            let q0 = old(self).manager@;
            assert forall|i: int| #[trigger] is_pick(q, i) implies q[i].can_advance() by {
                if i < last {
                    assert(q[i] == q0[i]);
                    assert forall|j: int| is_ready(q0, j) implies is_ready(q, j) && q[j] == q0[j] by {}
                    assert(is_pick(q0, i));
                }
            }
        }
        self.run_next(now_ms);
    }

    /// Marks the current task Exited, hands it to the caller and runs the
    /// next task; with no Ready task there is no current task afterwards.
    pub fn exit_current_and_run_next(&mut self, now_ms: usize) -> (exited: TaskControlBlock)
        requires
            old(self).wf(),
            old(self).current.is_some(),
            old(self).manager.can_advance(),
        ensures
            final(self).wf(),
            exited == old(self).task().with_status(TaskStatus::Exited),
            (final(self).current, final(self).manager@) == scheduled(old(self).manager@, now_ms),
    {
        let taken = self.current.take();
        let mut task = taken.unwrap();
        task.status = TaskStatus::Exited;
        self.run_next(now_ms);
        task
    }
}

} // verus!
