//! Task control blocks: scheduling state, accounting and the address space
//! that each task owns.

use vstd::prelude::*;
use crate::config::{BIG_STRIDE, MAX_PASS, MAX_SYSCALL_NUM, MIN_PRIORITY};
use crate::memory_set::MemorySet;

verus! {

/// Where a task stands in its life cycle.
#[derive(Clone, Copy, Debug, PartialEq, Eq, Structural)]
pub enum TaskStatus {
    UnInit,
    Ready,
    Running,
    Exited,
}

/// The priority that a new task starts with.
pub const DEFAULT_PRIORITY: i32 = 16;

/// Everything the kernel keeps about one task.
pub struct TaskControlBlock {
    pub status: TaskStatus,
    /// Grows by `BIG_STRIDE / priority` each time the task is selected.
    pub stride: i32,
    pub priority: i32,
    /// How often the task has issued each system call.
    pub syscall_times: Vec<u32>,
    /// Clock reading in milliseconds of the moment the task first ran.
    pub start_time: Option<usize>,
    pub memory_set: MemorySet,
    pub heap_bottom: usize,
    pub program_brk: usize,
}

/// The advance of a task of priority `priority` on one selection.
pub open spec fn spec_pass(priority: i32) -> int {
    BIG_STRIDE as int / priority as int
}

/// With a priority of at least two the advance is between 0 and `MAX_PASS`.
pub proof fn lemma_pass_bounds(priority: i32)
    requires
        priority >= MIN_PRIORITY,
    ensures
        0 <= spec_pass(priority) <= MAX_PASS,
        priority <= BIG_STRIDE ==> spec_pass(priority) >= 1,
{
    assert(0 <= 255int / (priority as int) <= 127) by (nonlinear_arith)
        requires
            priority >= 2,
    ;
    if priority <= BIG_STRIDE {
        assert(255int / (priority as int) >= 1) by (nonlinear_arith)
            requires
                2 <= priority <= 255,
        ;
    }
}

impl TaskControlBlock {
    /// The invariant of a task control block.
    pub open spec fn wf(&self) -> bool {
        &&& self.stride >= 0
        &&& self.priority >= MIN_PRIORITY
        &&& self.syscall_times@.len() == MAX_SYSCALL_NUM
        &&& self.memory_set.wf()
        &&& self.heap_bottom <= self.program_brk <= isize::MAX
    }

    /// Whether one more selection keeps the stride representable.
    pub open spec fn can_advance(&self) -> bool {
        self.stride + spec_pass(self.priority) <= i32::MAX
    }

    /// The task after one selection: its stride advanced, all else as before.
    pub open spec fn advanced(self) -> TaskControlBlock {
        TaskControlBlock { stride: (self.stride + spec_pass(self.priority)) as i32, ..self }
    }

    /// The task with another status, all else as before.
    pub open spec fn with_status(self, status: TaskStatus) -> TaskControlBlock {
        TaskControlBlock { status, ..self }
    }

    /// The task as it is once it runs at clock reading `now_ms`: Running,
    /// with its start time latched if it never ran before.
    pub open spec fn dispatched(self, now_ms: usize) -> TaskControlBlock {
        TaskControlBlock {
            status: TaskStatus::Running,
            start_time: if self.start_time.is_some() {
                self.start_time
            } else {
                Some(now_ms)
            },
            ..self
        }
    }

    /// A Ready task over `memory_set` with an empty heap at `heap_bottom`,
    /// stride zero, the default priority and no system call counted.
    pub fn new(memory_set: MemorySet, heap_bottom: usize) -> (task: TaskControlBlock)
        requires
            memory_set.wf(),
            heap_bottom <= isize::MAX,
        ensures
            task.wf(),
            task.status == TaskStatus::Ready,
            task.stride == 0,
            task.priority == DEFAULT_PRIORITY,
            task.start_time.is_none(),
            task.memory_set == memory_set,
            task.heap_bottom == heap_bottom,
            task.program_brk == heap_bottom,
            forall|id: int| 0 <= id < MAX_SYSCALL_NUM ==> task.syscall_times@[id] == 0,
    {
        let syscall_times: Vec<u32> = vec![0u32; MAX_SYSCALL_NUM];
        TaskControlBlock {
            status: TaskStatus::Ready,
            stride: 0,
            priority: DEFAULT_PRIORITY,
            syscall_times,
            start_time: None,
            memory_set,
            heap_bottom,
            program_brk: heap_bottom,
        }
    }

    /// Sets the priority where it is at least `MIN_PRIORITY`; a smaller one
    /// is refused and changes nothing.
    pub fn set_priority(&mut self, priority: i32) -> (accepted: bool)
        ensures
            accepted == (priority >= MIN_PRIORITY),
            accepted ==> *final(self) == (TaskControlBlock { priority, ..*old(self) }),
            !accepted ==> *final(self) == *old(self),
            old(self).wf() ==> final(self).wf(),
    {
        if priority >= MIN_PRIORITY {
            self.priority = priority;
            true
        } else {
            false
        }
    }

    /// Counts one invocation of system call `id`.
    pub fn record_syscall(&mut self, id: usize)
        requires
            id < old(self).syscall_times@.len(),
            old(self).syscall_times@[id as int] < u32::MAX,
        ensures
            *final(self) == (TaskControlBlock {
                syscall_times: final(self).syscall_times,
                ..*old(self)
            }),
            final(self).syscall_times@ == old(self).syscall_times@.update(
                id as int,
                (old(self).syscall_times@[id as int] + 1) as u32,
            ),
    {
        let n: u32 = self.syscall_times[id];
        self.syscall_times[id] = n + 1;
    }

    /// Whether moving the program break by `size` bytes is accepted: the new
    /// break must not fall below the heap bottom nor leave the signed range.
    pub open spec fn brk_accepts(&self, size: i32) -> bool {
        self.heap_bottom <= self.program_brk + size <= isize::MAX
    }

    /// Moves the program break by `size` bytes and returns the previous
    /// break; a move that is not accepted changes nothing.
    pub fn change_program_brk(&mut self, size: i32) -> (r: Option<usize>)
        requires
            old(self).wf(),
        ensures
            final(self).wf(),
            r.is_some() == old(self).brk_accepts(size),
            r.is_some() ==> r.unwrap() == old(self).program_brk && *final(self) == (
            TaskControlBlock {
                program_brk: (old(self).program_brk + size) as usize,
                ..*old(self)
            }),
            r.is_none() ==> *final(self) == *old(self),
    {
        let old_brk: usize = self.program_brk;
        if size < 0 {
            let down: usize = (-(size as i64)) as usize;
            if down > old_brk - self.heap_bottom {
                return None;
            }
            self.program_brk = old_brk - down;
        } else {
            let up: usize = size as usize;
            if up > (isize::MAX as usize) - old_brk {
                return None;
            }
            self.program_brk = old_brk + up;
        }
        Some(old_brk)
    }
}

} // verus!
