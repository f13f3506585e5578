//! The ready queue and the stride scheduler that selects from it.

use std::collections::VecDeque;
use vstd::prelude::*;
use crate::config::{BIG_STRIDE, MAX_PASS};
use crate::task::{lemma_pass_bounds, TaskControlBlock, TaskStatus};

verus! {

/// Whether entry `i` of queue `q` exists and is Ready.
pub open spec fn is_ready(q: Seq<TaskControlBlock>, i: int) -> bool {
    0 <= i < q.len() && q[i].status == TaskStatus::Ready
}

/// Whether the queue holds a Ready entry.
pub open spec fn has_ready(q: Seq<TaskControlBlock>) -> bool {
    exists|i: int| is_ready(q, i)
}

/// Whether entry `i` is the one the scheduler selects: Ready, of minimal
/// stride among the Ready entries, and the first such in queue order.
pub open spec fn is_pick(q: Seq<TaskControlBlock>, i: int) -> bool {
    &&& is_ready(q, i)
    &&& forall|j: int| is_ready(q, j) ==> q[i].stride <= q[j].stride
    &&& forall|j: int| is_ready(q, j) && j < i ==> q[i].stride < q[j].stride
}

/// Index of the entry that the scheduler selects from a queue with a Ready entry.
pub open spec fn pick_index(q: Seq<TaskControlBlock>) -> int {
    choose|i: int| is_pick(q, i)
}

/// The queue after one selection whose task is put back at once: the
/// selected entry leaves its place and returns at the end, advanced.
pub open spec fn cycled(q: Seq<TaskControlBlock>) -> Seq<TaskControlBlock> {
    if has_ready(q) {
        q.remove(pick_index(q)).push(q[pick_index(q)].advanced())
    } else {
        q
    }
}

/// Whether the strides of any two Ready entries differ by at most `MAX_PASS`.
pub open spec fn strides_close(q: Seq<TaskControlBlock>) -> bool {
    forall|i: int, j: int| is_ready(q, i) && is_ready(q, j) ==> q[i].stride - q[j].stride <= MAX_PASS
}

/// At most one entry of a queue is the selected one.
pub proof fn lemma_pick_unique(q: Seq<TaskControlBlock>, i: int, j: int)
    requires
        is_pick(q, i),
        is_pick(q, j),
    ensures
        i == j,
{
}

/// Whether every entry of the queue is a well-formed task.
pub open spec fn all_wf(q: Seq<TaskControlBlock>) -> bool {
    forall|i: int| 0 <= i < q.len() ==> (#[trigger] q[i]).wf()
}

/// Whether no Ready entry has a stride above `bound`.
pub open spec fn strides_below(q: Seq<TaskControlBlock>, bound: int) -> bool {
    forall|i: int| is_ready(q, i) ==> (#[trigger] q[i]).stride <= bound
}

/// The queue after `n` selections, each task put back at once.
pub open spec fn cycles(q: Seq<TaskControlBlock>, n: nat) -> Seq<TaskControlBlock>
    decreases n,
{
    if n == 0 {
        q
    } else {
        cycled(cycles(q, (n - 1) as nat))
    }
}

/// Fairness of stride scheduling, as an invariant of one step: when the
/// strides of the Ready tasks lie within `MAX_PASS` of each other, they
/// still do after a selection whose task is put back, whatever the
/// priorities, and the largest stride has grown by at most `MAX_PASS`.
pub proof fn lemma_cycle_keeps_strides_close(q: Seq<TaskControlBlock>, bound: int)
    requires
        all_wf(q),
        strides_close(q),
        strides_below(q, bound),
        bound + MAX_PASS <= i32::MAX,
    ensures
        cycled(q).len() == q.len(),
        all_wf(cycled(q)),
        strides_close(cycled(q)),
        strides_below(cycled(q), bound + MAX_PASS),
{
    if has_ready(q) {
        let w = choose|i: int| is_ready(q, i);
        assert(is_ready(q, w) && w < q.len());
        lemma_has_pick(q, q.len() as int);
        assert(q.take(q.len() as int) =~= q);
        let p = pick_index(q);
        assert(is_pick(q, p));
        let t = q[p].advanced();
        let c = cycled(q);
        assert(q[p].wf());
        lemma_pass_bounds(q[p].priority);
        let last = c.len() - 1;
        assert(c[last] == t);
        assert(t.wf());
        assert forall|i: int| 0 <= i < c.len() implies (#[trigger] c[i]).wf() by {
            let i0 = if i < p { i } else { i + 1 };
            if i < last {
                assert(c[i] == q[i0]);
            }
        }
        assert forall|i: int| is_ready(c, i) implies (#[trigger] c[i]).stride <= bound + MAX_PASS by {
            let i0 = if i < p { i } else { i + 1 };
            if i < last {
                assert(c[i] == q[i0]);
                assert(is_ready(q, i0));
            }
        }
        assert forall|i: int, j: int| is_ready(c, i) && is_ready(c, j) implies c[i].stride
            - c[j].stride <= MAX_PASS by {
            let i0 = if i < p { i } else { i + 1 };
            let j0 = if j < p { j } else { j + 1 };
            if i < last {
                assert(c[i] == q[i0]);
                assert(is_ready(q, i0));
            }
            if j < last {
                assert(c[j] == q[j0]);
                assert(is_ready(q, j0));
            }
        }
    }
}

/// Fairness of stride scheduling over any number of steps: from strides
/// within `MAX_PASS` of each other, `n` selections with the task put back
/// each time leave the strides of the Ready tasks within `MAX_PASS` of each
/// other, whatever the priorities: no Ready task runs ahead of another by
/// more than one largest advance.
pub proof fn lemma_cycles_keep_strides_close(q: Seq<TaskControlBlock>, n: nat, bound: int)
    requires
        all_wf(q),
        strides_close(q),
        strides_below(q, bound),
        bound + n * MAX_PASS <= i32::MAX,
    ensures
        cycles(q, n).len() == q.len(),
        all_wf(cycles(q, n)),
        strides_close(cycles(q, n)),
        strides_below(cycles(q, n), bound + n * MAX_PASS),
    decreases n,
{
    if n > 0 {
        let m = (n - 1) as nat;
        assert(bound + m * MAX_PASS + MAX_PASS == bound + n * MAX_PASS) by (nonlinear_arith)
            requires
                m == n - 1,
        ;
        lemma_cycles_keep_strides_close(q, m, bound);
        lemma_cycle_keeps_strides_close(cycles(q, m), bound + m * MAX_PASS);
    }
}

/// Among the first `n` entries of a queue with a Ready entry there, one is
/// the first of minimal stride.
pub proof fn lemma_has_pick(q: Seq<TaskControlBlock>, n: int)
    requires
        0 <= n <= q.len(),
        exists|i: int| is_ready(q, i) && i < n,
    ensures
        is_pick(q.take(n), pick_index(q.take(n))),
    decreases n,
{
    let s = q.take(n);
    if exists|i: int| is_ready(q, i) && i < n - 1 {
        lemma_has_pick(q, n - 1);
        let r = q.take(n - 1);
        let p = pick_index(r);
        assert(is_pick(r, p));
        assert forall|j: int| is_ready(s, j) && j < n - 1 implies is_ready(r, j) by {}
        assert forall|j: int| is_ready(r, j) implies is_ready(s, j) && r[j] == s[j] by {}
        if is_ready(s, n - 1) && s[n - 1].stride < s[p].stride {
            assert(is_pick(s, n - 1));
        } else {
            assert(is_pick(s, p));
        }
    } else {
        let w = choose|i: int| is_ready(q, i) && i < n;
        assert(w == n - 1);
        assert forall|j: int| is_ready(s, j) implies is_ready(q, j) by {}
        assert(is_ready(s, n - 1));
        assert(is_pick(s, n - 1));
    }
}

/// The tasks that wait to run.
pub struct TaskManager {
    pub ready_queue: VecDeque<TaskControlBlock>,
}

impl View for TaskManager {
    type V = Seq<TaskControlBlock>;

    open spec fn view(&self) -> Seq<TaskControlBlock> {
        self.ready_queue@
    }
}

impl TaskManager {
    /// Every queued task is well formed.
    pub open spec fn wf(&self) -> bool {
        all_wf(self@)
    }

    /// The task that would be selected next, if there is one, can advance
    /// without its stride leaving the representable range.
    pub open spec fn can_advance(&self) -> bool {
        forall|i: int| #[trigger] is_pick(self@, i) ==> self@[i].can_advance()
    }

    /// A manager with an empty ready queue.
    pub fn new() -> (m: TaskManager)
        ensures
            m@ == Seq::<TaskControlBlock>::empty(),
            m.wf(),
    {
        TaskManager { ready_queue: VecDeque::new() }
    }

    /// Puts `task` at the end of the ready queue.
    pub fn add(&mut self, task: TaskControlBlock)
        ensures
            final(self)@ == old(self)@.push(task),
    {
        self.ready_queue.push_back(task);
    }

    /// Selects the Ready task of least stride, the first such in queue
    /// order, takes it out of the queue and hands it over with its stride
    /// advanced by `BIG_STRIDE / priority`. Without a Ready task the queue
    /// stays as it is and nothing is handed over.
    pub fn fetch(&mut self) -> (r: Option<TaskControlBlock>)
        requires
            old(self).wf(),
            old(self).can_advance(),
        ensures
            r.is_some() == has_ready(old(self)@),
            r.is_none() ==> final(self)@ == old(self)@,
            r.is_some() ==> {
                &&& is_pick(old(self)@, pick_index(old(self)@))
                &&& r.unwrap() == old(self)@[pick_index(old(self)@)].advanced()
                &&& final(self)@ == old(self)@.remove(pick_index(old(self)@))
            },
            final(self).wf(),
            r.is_some() ==> r.unwrap().wf() && r.unwrap().status == TaskStatus::Ready,
    {
        let mut min_id: Option<usize> = None;
        let mut min_stride: i32 = i32::MAX;
        let mut id: usize = 0;
        while id < self.ready_queue.len()
            invariant
                id <= self@.len(),
                *self == *old(self),
                min_id.is_none() ==> forall|j: int| 0 <= j < id ==> !is_ready(self@, j),
                min_id.is_some() ==> {
                    &&& min_id.unwrap() < id
                    &&& is_ready(self@, min_id.unwrap() as int)
                    &&& min_stride == self@[min_id.unwrap() as int].stride
                    &&& forall|j: int| 0 <= j < id && is_ready(self@, j) ==> min_stride <= self@[j].stride
                    &&& forall|j: int|
                        0 <= j < min_id.unwrap() && is_ready(self@, j) ==> min_stride < self@[j].stride
                },
            decreases self@.len() - id,
        {
            let task = &self.ready_queue[id];
            if task.status == TaskStatus::Ready && (min_id.is_none() || task.stride < min_stride) {
                min_stride = task.stride;
                min_id = Some(id);
            }
            id += 1;
        }
        match min_id {
            None => None,
            Some(m) => {
                proof {
                    assert(is_pick(self@, m as int));
                    lemma_pick_unique(self@, m as int, pick_index(self@));
                    assert(self@[m as int].wf());
                    assert(self@[m as int].can_advance());
                    lemma_pass_bounds(self@[m as int].priority);
                }
                let picked = self.ready_queue.remove(m);
                let mut task = picked.unwrap();
                task.stride = task.stride + BIG_STRIDE / task.priority;
                Some(task)
            },
        }
    }
}

/// Puts `task` at the end of the ready queue of `manager`.
pub fn add_task(manager: &mut TaskManager, task: TaskControlBlock)
    ensures
        final(manager)@ == old(manager)@.push(task),
{
    manager.add(task);
}

/// Selects the next task to run from `manager`, as `TaskManager::fetch` does.
pub fn fetch_task(manager: &mut TaskManager) -> (r: Option<TaskControlBlock>)
    requires
        old(manager).wf(),
        old(manager).can_advance(),
    ensures
        r.is_some() == has_ready(old(manager)@),
        r.is_none() ==> final(manager)@ == old(manager)@,
        r.is_some() ==> {
            &&& is_pick(old(manager)@, pick_index(old(manager)@))
            &&& r.unwrap() == old(manager)@[pick_index(old(manager)@)].advanced()
            &&& final(manager)@ == old(manager)@.remove(pick_index(old(manager)@))
        },
        final(manager).wf(),
        r.is_some() ==> r.unwrap().wf() && r.unwrap().status == TaskStatus::Ready,
{
    manager.fetch()
}

} // verus!
