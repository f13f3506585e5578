//! Sizes and limits shared by the whole kernel core.

use vstd::prelude::*;

verus! {

/// Bytes in one page of virtual or physical memory.
pub const PAGE_SIZE: usize = 4096;

/// Number of distinct system call ids that are counted per task.
pub const MAX_SYSCALL_NUM: usize = 500;

/// The stride unit; a selected task advances by this divided by its priority.
pub const BIG_STRIDE: i32 = 255;

/// The smallest priority a task may have.
pub const MIN_PRIORITY: i32 = 2;

/// The largest advance a single selection can cause.
pub const MAX_PASS: i32 = 127;

} // verus!
