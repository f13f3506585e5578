//! The system calls on processes and memory. Each takes the kernel state it
//! works on; a call that needs the time takes the clock reading.

use vstd::prelude::*;
use vstd::bytes::{spec_u32_to_le_bytes, spec_u64_to_le_bytes, u32_to_le_bytes, u64_to_le_bytes};
use crate::config::PAGE_SIZE;
use crate::kernel::{scheduled, Kernel};
use crate::memory_set::{
    ceil, floor, spec_ceil, spec_floor, AddressSpace, PageTableEntry, PERM_R, PERM_U, PERM_W,
    PERM_X,
};
use crate::task::{TaskControlBlock, TaskStatus};

verus! {

/// A wall-clock reading in seconds and microseconds.
#[derive(Clone, Copy, Debug, PartialEq, Eq, Structural)]
pub struct TimeVal {
    pub sec: usize,
    pub usec: usize,
}

/// Microseconds in one second.
pub const MICROS_PER_SEC: usize = 1_000_000;

/// Bytes that a `TimeVal` takes in user memory.
pub const TIME_VAL_SIZE: usize = 16;

impl TimeVal {
    /// The reading that stands for `us` microseconds.
    pub open spec fn spec_from_micros(us: usize) -> TimeVal {
        TimeVal { sec: us / MICROS_PER_SEC, usec: us % MICROS_PER_SEC }
    }

    /// Whether this reading is not later than `other`: seconds first, then
    /// microseconds.
    pub open spec fn le(self, other: TimeVal) -> bool {
        self.sec < other.sec || (self.sec == other.sec && self.usec <= other.usec)
    }

    /// The layout in user memory: `sec`, then `usec`, each as a 64-bit
    /// little-endian word.
    pub open spec fn spec_bytes(self) -> Seq<u8> {
        spec_u64_to_le_bytes(self.sec as u64) + spec_u64_to_le_bytes(self.usec as u64)
    }

    /// Splits a clock reading in microseconds into seconds and microseconds.
    pub fn from_micros(us: usize) -> (t: TimeVal)
        ensures
            t == TimeVal::spec_from_micros(us),
            t.usec < MICROS_PER_SEC,
            t.sec * MICROS_PER_SEC + t.usec == us,
    {
        TimeVal { sec: us / MICROS_PER_SEC, usec: us % MICROS_PER_SEC }
    }

    /// The bytes of this reading as they are laid out in user memory.
    pub fn to_bytes(&self) -> (out: Vec<u8>)
        ensures
            out@ == self.spec_bytes(),
            out@.len() == TIME_VAL_SIZE,
    {
        let mut out: Vec<u8> = u64_to_le_bytes(self.sec as u64);
        let mut low: Vec<u8> = u64_to_le_bytes(self.usec as u64);
        out.append(&mut low);
        out
    }
}

/// A later clock reading never gives an earlier `TimeVal`.
pub proof fn lemma_time_val_monotone(us1: usize, us2: usize)
    requires
        us1 <= us2,
    ensures
        TimeVal::spec_from_micros(us1).le(TimeVal::spec_from_micros(us2)),
{
}

/// The number that stands for a status in user memory.
pub open spec fn spec_status_tag(status: TaskStatus) -> u32 {
    match status {
        TaskStatus::UnInit => 0,
        TaskStatus::Ready => 1,
        TaskStatus::Running => 2,
        TaskStatus::Exited => 3,
    }
}

/// The number that stands for a status in user memory.
pub fn status_tag(status: TaskStatus) -> (tag: u32)
    ensures
        tag == spec_status_tag(status),
{
    match status {
        TaskStatus::UnInit => 0,
        TaskStatus::Ready => 1,
        TaskStatus::Running => 2,
        TaskStatus::Exited => 3,
    }
}

/// The counters one after the other, each as a 32-bit little-endian word.
pub open spec fn counts_bytes(counts: Seq<u32>) -> Seq<u8>
    decreases counts.len(),
{
    if counts.len() == 0 {
        Seq::<u8>::empty()
    } else {
        counts_bytes(counts.drop_last()) + spec_u32_to_le_bytes(counts.last())
    }
}

/// Mathematical model of a task's snapshot.
pub struct Snapshot {
    pub status: TaskStatus,
    pub syscall_times: Seq<u32>,
    pub time: usize,
}

impl Snapshot {
    /// What is known of `task` at clock reading `now_ms`: its status, its
    /// counters and the milliseconds since it first ran.
    pub open spec fn of(task: TaskControlBlock, now_ms: usize) -> Snapshot {
        Snapshot {
            status: task.status,
            syscall_times: task.syscall_times@,
            time: match task.start_time {
                Some(t) => (now_ms - t) as usize,
                None => 0,
            },
        }
    }

    /// The layout in user memory: the status tag as a 32-bit word, the
    /// counters, four bytes of padding, and the elapsed time as a 64-bit
    /// word, all little-endian.
    pub open spec fn spec_bytes(self) -> Seq<u8> {
        spec_u32_to_le_bytes(spec_status_tag(self.status)) + counts_bytes(self.syscall_times)
            + seq![0u8, 0u8, 0u8, 0u8] + spec_u64_to_le_bytes(self.time as u64)
    }
}

/// A snapshot of a task: a copy that shares nothing with the task.
pub struct TaskInfo {
    /// The task's status in its life cycle.
    pub status: TaskStatus,
    /// How often the task has issued each system call.
    pub syscall_times: Vec<u32>,
    /// Milliseconds since the task first ran.
    pub time: usize,
}

impl View for TaskInfo {
    type V = Snapshot;

    open spec fn view(&self) -> Snapshot {
        Snapshot { status: self.status, syscall_times: self.syscall_times@, time: self.time }
    }
}

impl TaskInfo {
    /// The bytes of this snapshot as they are laid out in user memory.
    pub fn to_bytes(&self) -> (out: Vec<u8>)
        requires
            16 + 4 * self.syscall_times@.len() <= usize::MAX,
        ensures
            out@ == self@.spec_bytes(),
            out@.len() == 16 + 4 * self.syscall_times@.len(),
    {
        let mut out: Vec<u8> = u32_to_le_bytes(status_tag(self.status));
        let ghost head = out@;
        let n: usize = self.syscall_times.len();
        let mut i: usize = 0;
        while i < n
            invariant
                i <= n,
                n == self.syscall_times@.len(),
                out@ == head + counts_bytes(self.syscall_times@.take(i as int)),
                out@.len() == 4 + 4 * i,
            decreases n - i,
        {
            let mut word: Vec<u8> = u32_to_le_bytes(self.syscall_times[i]);
            out.append(&mut word);
            proof {
                let next = self.syscall_times@.take(i + 1);
                assert(next.drop_last() =~= self.syscall_times@.take(i as int));
                assert(next.last() == self.syscall_times@[i as int]);
                assert(out@ =~= head + counts_bytes(next));
            }
            i += 1;
        }
        proof {
            assert(self.syscall_times@.take(n as int) =~= self.syscall_times@);
        }
        let mut pad: Vec<u8> = vec![0u8, 0u8, 0u8, 0u8];
        out.append(&mut pad);
        let mut time: Vec<u8> = u64_to_le_bytes(self.time as u64);
        out.append(&mut time);
        out
    }
}

/// Whether `port` names a permission set: some of its three low bits set
/// and no other bit.
pub open spec fn port_valid(port: usize) -> bool {
    1 <= port <= 7
}

/// The permission bits that `port` stands for: bit 0 of `port` gives Read,
/// bit 1 Write, bit 2 Execute, and User access is always added.
pub open spec fn spec_perm_of_port(port: usize) -> u8 {
    (port * 2 + PERM_U) as u8
}

/// Permission bits of a mapping requested with `port`.
pub fn perm_of_port(port: usize) -> (perm: u8)
    requires
        port_valid(port),
    ensures
        perm == spec_perm_of_port(port),
        (perm & PERM_R != 0) == (port & 1 != 0),
        (perm & PERM_W != 0) == (port & 2 != 0),
        (perm & PERM_X != 0) == (port & 4 != 0),
        perm & PERM_U != 0,
{
    let low: u8 = port as u8;
    let perm: u8 = low * 2 + PERM_U;
    proof {
        let p: u8 = low;
        assert(1 <= p <= 7 ==> ((((p * 2 + 16) as u8) & 2 != 0) == (p & 1 != 0))) by (bit_vector);
        assert(1 <= p <= 7 ==> ((((p * 2 + 16) as u8) & 4 != 0) == (p & 2 != 0))) by (bit_vector);
        assert(1 <= p <= 7 ==> ((((p * 2 + 16) as u8) & 8 != 0) == (p & 4 != 0))) by (bit_vector);
        assert(1 <= p <= 7 ==> (((p * 2 + 16) as u8) & 16 != 0)) by (bit_vector);
        assert(port <= 7 ==> ((port & 1 != 0) == ((port as u8) & 1 != 0))) by (bit_vector);
        assert(port <= 7 ==> ((port & 2 != 0) == ((port as u8) & 2 != 0))) by (bit_vector);
        assert(port <= 7 ==> ((port & 4 != 0) == ((port as u8) & 4 != 0))) by (bit_vector);
    }
    perm
}

/// Whether a request to map `[start, start + len)` with `port` is accepted
/// in address space `space`: `start` is page-aligned, `port` is valid and
/// no page of the range is mapped yet.
pub open spec fn mmap_accepts(space: AddressSpace, start: usize, len: usize, port: usize) -> bool {
    &&& start % PAGE_SIZE == 0
    &&& port_valid(port)
    &&& !space.any_mapped(spec_floor(start), spec_ceil((start + len) as usize))
}

/// The address space after an accepted request to map.
pub open spec fn mmap_result(space: AddressSpace, start: usize, len: usize, port: usize) -> AddressSpace {
    space.inserted(spec_floor(start), spec_ceil((start + len) as usize), spec_perm_of_port(port))
}

/// Whether a request to unmap `[start, start + len)` is accepted in
/// `space`: `start` is page-aligned and a recorded region spans exactly the
/// pages of the range.
pub open spec fn munmap_accepts(space: AddressSpace, start: usize, len: usize) -> bool {
    &&& start % PAGE_SIZE == 0
    &&& space.has_exact(spec_floor(start), spec_ceil((start + len) as usize))
}

/// The address space after an accepted request to unmap.
pub open spec fn munmap_result(space: AddressSpace, start: usize, len: usize) -> AddressSpace {
    space.removed(spec_floor(start), spec_ceil((start + len) as usize))
}

/// Mapping a fresh range and unmapping it again: the mapping is accepted,
/// the unmapping that follows is accepted and gives the address space back
/// as it was, and a second unmapping of the same range is refused. For an
/// empty range this needs that no empty region is recorded at that place.
pub proof fn lemma_mmap_munmap_round_trip(space: AddressSpace, start: usize, len: usize, port: usize)
    requires
        space.wf(),
        start + len <= usize::MAX,
        start % PAGE_SIZE == 0,
        port_valid(port),
        !space.any_mapped(spec_floor(start), spec_ceil((start + len) as usize)),
        len == 0 ==> !space.has_exact(spec_floor(start), spec_floor(start)),
    ensures
        mmap_accepts(space, start, len, port),
        munmap_accepts(mmap_result(space, start, len, port), start, len),
        munmap_result(mmap_result(space, start, len, port), start, len) == space,
        !munmap_accepts(space, start, len),
{
    let lo = spec_floor(start);
    let hi = spec_ceil((start + len) as usize);
    let mapped = mmap_result(space, start, len, port);
    let n = space.regions.len() as int;
    assert(mapped.regions[n].spans(lo, hi));
    assert(!space.has_exact(lo, hi)) by {
        if space.has_exact(lo, hi) {
            let i = choose|i: int| 0 <= i < space.regions.len() && (#[trigger] space.regions[i]).spans(lo, hi);
            if len > 0 {
                assert(lo < hi);
                assert(space.covers_at(i, lo));
                assert(space.is_mapped(lo));
            }
        }
    }
    assert forall|j: int| 0 <= j < n implies !(#[trigger] mapped.regions[j]).spans(lo, hi) by {
        assert(mapped.regions[j] == space.regions[j]);
    }
    assert(mapped.is_first_exact(n, lo, hi));
    let c = choose|i: int| mapped.is_first_exact(i, lo, hi);
    assert(c == n);
    assert(mapped.regions.remove(n) =~= space.regions);
}

/// Ends the current task: it is marked Exited and handed to the caller, and
/// the next Ready task runs. The exit code is not looked at.
pub fn sys_exit(kernel: &mut Kernel, _exit_code: i32, now_ms: usize) -> (exited: TaskControlBlock)
    requires
        old(kernel).wf(),
        old(kernel).current.is_some(),
        old(kernel).manager.can_advance(),
    ensures
        final(kernel).wf(),
        exited == old(kernel).task().with_status(TaskStatus::Exited),
        (final(kernel).current, final(kernel).manager@) == scheduled(old(kernel).manager@, now_ms),
{
    kernel.exit_current_and_run_next(now_ms)
}

/// The current task gives way: it returns to the ready queue as Ready and
/// the scheduler selects the task that runs next. Returns 0.
pub fn sys_yield(kernel: &mut Kernel, now_ms: usize) -> (r: isize)
    requires
        old(kernel).wf(),
        old(kernel).current.is_some(),
        old(kernel).manager.can_advance(),
        old(kernel).task().can_advance(),
    ensures
        r == 0,
        final(kernel).wf(),
        final(kernel).current.is_some(),
        (final(kernel).current, final(kernel).manager@) == scheduled(
            old(kernel).manager@.push(old(kernel).task().with_status(TaskStatus::Ready)),
            now_ms,
        ),
{
    kernel.suspend_current_and_run_next(now_ms);
    0
}

/// Writes the clock reading `now_us`, split into seconds and microseconds,
/// into the current task's memory at `ts`. Returns 0. The time zone argument
/// is not used.
pub fn sys_get_time(kernel: &mut Kernel, ts: usize, _tz: usize, now_us: usize) -> (r: isize)
    requires
        old(kernel).wf(),
        old(kernel).current.is_some(),
        ts + TIME_VAL_SIZE <= usize::MAX,
        old(kernel).space().range_mapped(ts, TIME_VAL_SIZE),
    ensures
        r == 0,
        final(kernel).wf(),
        old(kernel).same_but_memory(*final(kernel)),
        final(kernel).space().same_layout(old(kernel).space()),
        final(kernel).space().holds(ts, TimeVal::spec_from_micros(now_us).spec_bytes()),
        forall|va: usize|
            old(kernel).space().is_mapped(spec_floor(va)) && !(ts <= va < ts + TIME_VAL_SIZE)
                ==> #[trigger] final(kernel).space().byte(va) == old(kernel).space().byte(va),
{
    let time_val = TimeVal::from_micros(now_us);
    let bytes = time_val.to_bytes();
    match &mut kernel.current {
        Some(task) => {
            task.memory_set.write_translated_byte_buffer(&bytes, ts);
        },
        None => {},
    }
    0
}

/// The snapshot of the current task at clock reading `now_ms`.
pub fn task_info(kernel: &Kernel, now_ms: usize) -> (info: TaskInfo)
    requires
        kernel.current.is_some(),
        kernel.task().start_time.is_some() ==> kernel.task().start_time.unwrap() <= now_ms,
    ensures
        info@ == Snapshot::of(kernel.task(), now_ms),
{
    match &kernel.current {
        Some(task) => {
            let time: usize = match task.start_time {
                Some(t) => now_ms - t,
                None => 0,
            };
            let mut syscall_times: Vec<u32> = Vec::new();
            let mut i: usize = 0;
            while i < task.syscall_times.len()
                invariant
                    i <= task.syscall_times@.len(),
                    syscall_times@ == task.syscall_times@.take(i as int),
                decreases task.syscall_times@.len() - i,
            {
                syscall_times.push(task.syscall_times[i]);
                proof {
                    assert(syscall_times@ =~= task.syscall_times@.take(i + 1));
                }
                i += 1;
            }
            proof {
                assert(task.syscall_times@.take(i as int) =~= task.syscall_times@);
            }
            TaskInfo { status: task.status, syscall_times, time }
        },
        None => TaskInfo { status: TaskStatus::UnInit, syscall_times: Vec::new(), time: 0 },
    }
}

/// Bytes that the snapshot of a well-formed task takes in user memory.
pub const TASK_INFO_SIZE: usize = 2016;

/// Writes the snapshot of the current task at clock reading `now_ms` into
/// its memory at `ti` and returns 0. A null `ti` is refused with -1 and
/// nothing is written.
pub fn sys_task_info(kernel: &mut Kernel, ti: usize, now_ms: usize) -> (r: isize)
    requires
        old(kernel).wf(),
        old(kernel).current.is_some(),
        old(kernel).task().start_time.is_some() ==> old(kernel).task().start_time.unwrap() <= now_ms,
        ti != 0 ==> ti + TASK_INFO_SIZE <= usize::MAX && old(kernel).space().range_mapped(
            ti,
            TASK_INFO_SIZE,
        ),
    ensures
        ti == 0 ==> r == -1 && *final(kernel) == *old(kernel),
        ti != 0 ==> {
            &&& r == 0
            &&& old(kernel).same_but_memory(*final(kernel))
            &&& final(kernel).space().same_layout(old(kernel).space())
            &&& final(kernel).space().holds(ti, Snapshot::of(old(kernel).task(), now_ms).spec_bytes())
            &&& Snapshot::of(old(kernel).task(), now_ms).spec_bytes().len() == TASK_INFO_SIZE
            &&& forall|va: usize|
                old(kernel).space().is_mapped(spec_floor(va)) && !(ti <= va < ti + TASK_INFO_SIZE)
                    ==> #[trigger] final(kernel).space().byte(va) == old(kernel).space().byte(va)
        },
        final(kernel).wf(),
{
    let info = task_info(kernel, now_ms);
    if ti == 0 {
        return -1;
    }
    let bytes = info.to_bytes();
    match &mut kernel.current {
        Some(task) => {
            task.memory_set.write_translated_byte_buffer(&bytes, ti);
        },
        None => {},
    }
    0
}

/// A snapshot written into user memory stays as it was written while the
/// task goes on counting system calls: counting changes the task's counters
/// and nothing in its address space.
pub proof fn lemma_snapshot_outlives_counting(
    before: TaskControlBlock,
    after: TaskControlBlock,
    ti: usize,
    now_ms: usize,
)
    requires
        before.memory_set@.holds(ti, Snapshot::of(before, now_ms).spec_bytes()),
        after == (TaskControlBlock { syscall_times: after.syscall_times, ..before }),
    ensures
        after.memory_set@.holds(ti, Snapshot::of(before, now_ms).spec_bytes()),
{
}

/// Looks page `vpn` up in the page table of the current task.
pub fn get_pte(kernel: &Kernel, vpn: usize) -> (r: Option<PageTableEntry>)
    requires
        kernel.wf(),
        kernel.current.is_some(),
    ensures
        r.is_some() == kernel.space().is_mapped(vpn),
        r.is_some() ==> r.unwrap() == (PageTableEntry {
            valid: true,
            perm: kernel.space().perm_of(vpn),
        }),
{
    match &kernel.current {
        Some(task) => task.memory_set.translate(vpn),
        None => None,
    }
}

/// Maps the pages of `[start, start + len)` into the current task's
/// address space, each backed by a fresh zeroed frame, with the
/// permissions that `port` names. Returns 0, or -1 where the request is
/// refused; a refused request changes nothing.
pub fn sys_mmap(kernel: &mut Kernel, start: usize, len: usize, port: usize) -> (r: isize)
    requires
        old(kernel).wf(),
        old(kernel).current.is_some(),
        start % PAGE_SIZE == 0 && port_valid(port) ==> start + len <= usize::MAX,
    ensures
        final(kernel).wf(),
        mmap_accepts(old(kernel).space(), start, len, port) ==> {
            &&& r == 0
            &&& old(kernel).same_but_memory(*final(kernel))
            &&& final(kernel).space() == mmap_result(old(kernel).space(), start, len, port)
        },
        !mmap_accepts(old(kernel).space(), start, len, port) ==> r == -1 && *final(kernel) == *old(
            kernel,
        ),
{
    if start % PAGE_SIZE != 0 || port > 7 || port == 0 {
        return -1;
    }
    let start_vpn: usize = floor(start);
    let end_vpn: usize = ceil(start + len);
    let mut vpn: usize = start_vpn;
    while vpn < end_vpn
        invariant
            start_vpn <= vpn <= end_vpn,
            start_vpn == spec_floor(start),
            end_vpn == spec_ceil((start + len) as usize),
            *kernel == *old(kernel),
            kernel.wf(),
            kernel.current.is_some(),
            forall|v: usize| start_vpn <= v < vpn ==> !kernel.space().is_mapped(v),
        decreases end_vpn - vpn,
    {
        if let Some(pte) = get_pte(kernel, vpn) {
            if pte.is_valid() {
                proof {
                    assert(kernel.space().is_mapped(vpn));
                    assert(kernel.space().any_mapped(start_vpn, end_vpn));
                }
                return -1;
            }
        }
        vpn += 1;
    }
    let perm: u8 = perm_of_port(port);
    proof {
        assert(!kernel.space().any_mapped(start_vpn, end_vpn));
    }
    match &mut kernel.current {
        Some(task) => {
            task.memory_set.insert_framed_area(start_vpn, end_vpn, perm);
        },
        None => {},
    }
    0
}

/// Unmaps the pages of `[start, start + len)` from the current task's
/// address space: the first recorded region that spans exactly these pages
/// leaves with its frames. Returns 0, or -1 where `start` is not
/// page-aligned or no such region is recorded; then nothing changes.
pub fn sys_munmap(kernel: &mut Kernel, start: usize, len: usize) -> (r: isize)
    requires
        old(kernel).wf(),
        old(kernel).current.is_some(),
        start % PAGE_SIZE == 0 ==> start + len <= usize::MAX,
    ensures
        final(kernel).wf(),
        munmap_accepts(old(kernel).space(), start, len) ==> {
            &&& r == 0
            &&& old(kernel).same_but_memory(*final(kernel))
            &&& final(kernel).space() == munmap_result(old(kernel).space(), start, len)
        },
        !munmap_accepts(old(kernel).space(), start, len) ==> r == -1 && *final(kernel) == *old(
            kernel,
        ),
{
    if start % PAGE_SIZE != 0 {
        return -1;
    }
    let end: usize = start + len;
    let mut removed: bool = false;
    match &mut kernel.current {
        Some(task) => {
            removed = task.memory_set.remove_framed_area(start, end);
        },
        None => {},
    }
    if removed {
        0
    } else {
        -1
    }
}

/// Moves the program break of the current task by `size` bytes, which may
/// be negative. Returns the previous break, or -1 where the move would put
/// the break below the heap bottom or beyond the signed range; then
/// nothing changes.
pub fn sys_sbrk(kernel: &mut Kernel, size: i32) -> (r: isize)
    requires
        old(kernel).wf(),
        old(kernel).current.is_some(),
    ensures
        final(kernel).wf(),
        old(kernel).task().brk_accepts(size) ==> {
            &&& r == old(kernel).task().program_brk
            &&& final(kernel).manager == old(kernel).manager
            &&& final(kernel).current == Some(
                TaskControlBlock {
                    program_brk: (old(kernel).task().program_brk + size) as usize,
                    ..old(kernel).task()
                },
            )
        },
        !old(kernel).task().brk_accepts(size) ==> r == -1 && *final(kernel) == *old(kernel),
{
    let mut moved: Option<usize> = None;
    match &mut kernel.current {
        Some(task) => {
            moved = task.change_program_brk(size);
        },
        None => {},
    }
    match moved {
        Some(old_brk) => old_brk as isize,
        None => -1,
    }
}

} // verus!
