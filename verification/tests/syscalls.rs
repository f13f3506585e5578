use kernel_core::config::PAGE_SIZE;
use kernel_core::kernel::Kernel;
use kernel_core::memory_set::MemorySet;
use kernel_core::syscall::{
    status_tag, sys_get_time, sys_mmap, sys_sbrk, sys_task_info, task_info, TaskInfo, TimeVal,
};
use kernel_core::task::{TaskControlBlock, TaskStatus};

const BASE: usize = 0x1000_0000;

fn running_kernel(start_ms: usize) -> Kernel {
    let mut k = Kernel::new();
    k.manager.add(TaskControlBlock::new(MemorySet::new_bare(), 0x10_0000));
    k.run_next(start_ms);
    assert_eq!(sys_mmap(&mut k, BASE, 2 * PAGE_SIZE, 3), 0);
    k
}

fn read(k: &Kernel, va: usize, len: usize) -> Vec<u8> {
    let ms = &k.current.as_ref().unwrap().memory_set;
    (0..len).map(|i| ms.read_byte(va + i)).collect()
}

fn word(bytes: &[u8]) -> u64 {
    let mut w = [0u8; 8];
    w.copy_from_slice(bytes);
    u64::from_le_bytes(w)
}

#[test]
fn time_val_splits_microseconds() {
    assert_eq!(TimeVal::from_micros(0), TimeVal { sec: 0, usec: 0 });
    assert_eq!(TimeVal::from_micros(999_999), TimeVal { sec: 0, usec: 999_999 });
    assert_eq!(TimeVal::from_micros(1_000_000), TimeVal { sec: 1, usec: 0 });
    assert_eq!(TimeVal::from_micros(1_234_567), TimeVal { sec: 1, usec: 234_567 });
}

#[test]
fn time_val_bytes_are_two_little_endian_words() {
    let bytes = TimeVal { sec: 0x0102, usec: 7 }.to_bytes();
    assert_eq!(bytes, vec![2, 1, 0, 0, 0, 0, 0, 0, 7, 0, 0, 0, 0, 0, 0, 0]);
}

#[test]
fn get_time_writes_across_a_page_boundary() {
    let mut k = running_kernel(0);
    let ts = BASE + PAGE_SIZE - 4;
    assert_eq!(sys_get_time(&mut k, ts, 0, 3_000_042), 0);
    let bytes = read(&k, ts, 16);
    assert_eq!(word(&bytes[0..8]), 3);
    assert_eq!(word(&bytes[8..16]), 42);
    assert_eq!(read(&k, ts - 1, 1), vec![0]);
    assert_eq!(read(&k, ts + 16, 1), vec![0]);
}

#[test]
fn successive_times_do_not_decrease() {
    let mut k = running_kernel(0);
    let mut last = (0u64, 0u64);
    for us in [0usize, 1, 999_999, 1_000_000, 1_000_001, 5_999_999, 6_000_000, 6_000_000] {
        assert_eq!(sys_get_time(&mut k, BASE, 0, us), 0);
        let bytes = read(&k, BASE, 16);
        let now = (word(&bytes[0..8]), word(&bytes[8..16]));
        assert!(last <= now);
        last = now;
    }
    assert_eq!(last, (6, 0));
}

#[test]
fn status_tags() {
    assert_eq!(status_tag(TaskStatus::UnInit), 0);
    assert_eq!(status_tag(TaskStatus::Ready), 1);
    assert_eq!(status_tag(TaskStatus::Running), 2);
    assert_eq!(status_tag(TaskStatus::Exited), 3);
}

#[test]
fn task_info_bytes_layout() {
    let info = TaskInfo { status: TaskStatus::Running, syscall_times: vec![1, 0x0203], time: 9 };
    let bytes = info.to_bytes();
    assert_eq!(
        bytes,
        vec![2, 0, 0, 0, 1, 0, 0, 0, 3, 2, 0, 0, 0, 0, 0, 0, 9, 0, 0, 0, 0, 0, 0, 0]
    );
}

#[test]
fn task_info_null_pointer_is_refused() {
    let mut k = running_kernel(10);
    let before = read(&k, BASE, 2 * PAGE_SIZE);
    assert_eq!(sys_task_info(&mut k, 0, 50), -1);
    assert_eq!(read(&k, BASE, 2 * PAGE_SIZE), before);
    assert_eq!(k.current.as_ref().unwrap().status, TaskStatus::Running);
}

#[test]
fn task_info_is_written_to_user_memory() {
    let mut k = running_kernel(10);
    k.current.as_mut().unwrap().record_syscall(64);
    k.current.as_mut().unwrap().record_syscall(64);
    k.current.as_mut().unwrap().record_syscall(499);
    let ti = BASE + PAGE_SIZE - 1000;
    assert_eq!(sys_task_info(&mut k, ti, 250), 0);
    let bytes = read(&k, ti, 2016);
    assert_eq!(&bytes[0..4], &[2, 0, 0, 0]);
    for id in 0..500usize {
        let expected: u32 = if id == 64 { 2 } else if id == 499 { 1 } else { 0 };
        let mut w = [0u8; 4];
        w.copy_from_slice(&bytes[4 + 4 * id..8 + 4 * id]);
        assert_eq!(u32::from_le_bytes(w), expected);
    }
    assert_eq!(&bytes[2004..2008], &[0, 0, 0, 0]);
    assert_eq!(word(&bytes[2008..2016]), 240);
    assert_eq!(read(&k, ti - 1, 1), vec![0]);
    assert_eq!(read(&k, ti + 2016, 1), vec![0]);
}

#[test]
fn snapshot_does_not_follow_the_task() {
    let mut k = running_kernel(10);
    k.current.as_mut().unwrap().record_syscall(3);
    let info = task_info(&k, 30);
    assert_eq!(sys_task_info(&mut k, BASE, 30), 0);
    let written = read(&k, BASE, 2016);
    assert_eq!(written, info.to_bytes());
    for _ in 0..5 {
        k.current.as_mut().unwrap().record_syscall(3);
    }
    assert_eq!(sys_sbrk(&mut k, 16), 0x10_0000);
    assert_eq!(info.syscall_times[3], 1);
    assert_eq!(info.time, 20);
    assert_eq!(info.status, TaskStatus::Running);
    assert_eq!(read(&k, BASE, 2016), written);
    let later = task_info(&k, 80);
    assert_eq!(later.syscall_times[3], 6);
    assert_eq!(later.time, 70);
}

#[test]
fn record_syscall_counts_one_id() {
    let mut t = TaskControlBlock::new(MemorySet::new_bare(), 0);
    t.record_syscall(0);
    t.record_syscall(7);
    t.record_syscall(7);
    assert_eq!(t.syscall_times[0], 1);
    assert_eq!(t.syscall_times[7], 2);
    assert_eq!(t.syscall_times.iter().map(|c| *c as usize).sum::<usize>(), 3);
}

#[test]
fn sbrk_returns_the_old_break() {
    let mut k = running_kernel(0);
    assert_eq!(sys_sbrk(&mut k, 0), 0x10_0000);
    assert_eq!(sys_sbrk(&mut k, 4096), 0x10_0000);
    assert_eq!(sys_sbrk(&mut k, -96), 0x10_1000);
    assert_eq!(sys_sbrk(&mut k, 0), 0x10_0fa0);
    assert_eq!(k.current.as_ref().unwrap().program_brk, 0x10_0fa0);
    assert_eq!(k.current.as_ref().unwrap().heap_bottom, 0x10_0000);
}

#[test]
fn sbrk_refuses_to_go_below_the_heap_bottom() {
    let mut k = running_kernel(0);
    assert_eq!(sys_sbrk(&mut k, -1), -1);
    assert_eq!(sys_sbrk(&mut k, 10), 0x10_0000);
    assert_eq!(sys_sbrk(&mut k, -11), -1);
    assert_eq!(sys_sbrk(&mut k, i32::MIN), -1);
    assert_eq!(k.current.as_ref().unwrap().program_brk, 0x10_000a);
    assert_eq!(sys_sbrk(&mut k, -10), 0x10_000a);
    assert_eq!(k.current.as_ref().unwrap().program_brk, 0x10_0000);
}

#[test]
fn sbrk_refuses_to_leave_the_signed_range() {
    let mut k = Kernel::new();
    k.manager.add(TaskControlBlock::new(MemorySet::new_bare(), isize::MAX as usize - 5));
    k.run_next(0);
    assert_eq!(sys_sbrk(&mut k, 6), -1);
    assert_eq!(sys_sbrk(&mut k, 5), isize::MAX - 5);
    assert_eq!(sys_sbrk(&mut k, 1), -1);
    assert_eq!(k.current.as_ref().unwrap().program_brk, isize::MAX as usize);
}
