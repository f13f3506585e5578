use kernel_core::kernel::Kernel;
use kernel_core::manager::{add_task, fetch_task, TaskManager};
use kernel_core::memory_set::MemorySet;
use kernel_core::syscall::{sys_exit, sys_yield};
use kernel_core::task::{TaskControlBlock, TaskStatus};

fn task(priority: i32, mark: usize) -> TaskControlBlock {
    let mut t = TaskControlBlock::new(MemorySet::new_bare(), mark);
    assert!(t.set_priority(priority));
    t
}

#[test]
fn new_task_is_ready_with_defaults() {
    let t = TaskControlBlock::new(MemorySet::new_bare(), 0x8000);
    assert_eq!(t.status, TaskStatus::Ready);
    assert_eq!(t.stride, 0);
    assert_eq!(t.priority, 16);
    assert_eq!(t.start_time, None);
    assert_eq!(t.heap_bottom, 0x8000);
    assert_eq!(t.program_brk, 0x8000);
    assert_eq!(t.syscall_times.len(), 500);
    assert!(t.syscall_times.iter().all(|c| *c == 0));
}

#[test]
fn priority_below_two_is_refused() {
    let mut t = TaskControlBlock::new(MemorySet::new_bare(), 0);
    assert!(!t.set_priority(1));
    assert!(!t.set_priority(0));
    assert!(!t.set_priority(-5));
    assert_eq!(t.priority, 16);
    assert!(t.set_priority(2));
    assert_eq!(t.priority, 2);
    assert!(t.set_priority(i32::MAX));
    assert_eq!(t.priority, i32::MAX);
}

#[test]
fn fetch_from_empty_queue() {
    let mut m = TaskManager::new();
    assert!(m.fetch().is_none());
    assert!(fetch_task(&mut m).is_none());
}

#[test]
fn fetch_advances_by_pass() {
    let mut m = TaskManager::new();
    m.add(task(16, 1));
    let t = m.fetch().unwrap();
    assert_eq!(t.stride, 15);
    assert_eq!(m.ready_queue.len(), 0);
    m.add(task(2, 2));
    assert_eq!(m.fetch().unwrap().stride, 127);
    m.add(task(4, 3));
    assert_eq!(m.fetch().unwrap().stride, 63);
    m.add(task(255, 4));
    assert_eq!(m.fetch().unwrap().stride, 1);
    m.add(task(256, 5));
    assert_eq!(m.fetch().unwrap().stride, 0);
}

#[test]
fn fetch_takes_least_stride_from_the_middle() {
    let mut m = TaskManager::new();
    let mut a = task(16, 1);
    a.stride = 30;
    let mut b = task(16, 2);
    b.stride = 10;
    let mut c = task(16, 3);
    c.stride = 20;
    add_task(&mut m, a);
    add_task(&mut m, b);
    add_task(&mut m, c);
    let t = fetch_task(&mut m).unwrap();
    assert_eq!(t.heap_bottom, 2);
    assert_eq!(t.stride, 25);
    assert_eq!(m.ready_queue.len(), 2);
    assert_eq!(m.ready_queue[0].heap_bottom, 1);
    assert_eq!(m.ready_queue[1].heap_bottom, 3);
    assert_eq!(m.ready_queue[0].stride, 30);
    assert_eq!(m.ready_queue[1].stride, 20);
}

#[test]
fn fetch_breaks_ties_by_queue_order() {
    let mut m = TaskManager::new();
    m.add(task(16, 1));
    m.add(task(16, 2));
    m.add(task(16, 3));
    assert_eq!(m.fetch().unwrap().heap_bottom, 1);
    assert_eq!(m.fetch().unwrap().heap_bottom, 2);
    assert_eq!(m.fetch().unwrap().heap_bottom, 3);
    assert!(m.fetch().is_none());
}

#[test]
fn fetch_skips_tasks_that_are_not_ready() {
    let mut m = TaskManager::new();
    let mut a = task(16, 1);
    a.status = TaskStatus::Exited;
    let mut b = task(16, 2);
    b.stride = 1000;
    let mut c = task(16, 3);
    c.status = TaskStatus::Running;
    m.add(a);
    m.add(b);
    m.add(c);
    let t = m.fetch().unwrap();
    assert_eq!(t.heap_bottom, 2);
    assert_eq!(t.stride, 1015);
    assert!(m.fetch().is_none());
    assert_eq!(m.ready_queue.len(), 2);
}

#[test]
fn fetch_selects_a_ready_task_of_largest_stride() {
    let mut m = TaskManager::new();
    let mut a = task(256, 1);
    a.stride = i32::MAX;
    m.add(a);
    let t = m.fetch().unwrap();
    assert_eq!(t.stride, i32::MAX);
}

#[test]
fn priorities_share_in_proportion() {
    let mut m = TaskManager::new();
    m.add(task(2, 2));
    m.add(task(4, 4));
    let mut low = 0;
    let mut high = 0;
    for _ in 0..300 {
        let t = m.fetch().unwrap();
        if t.priority == 2 {
            low += 1;
        } else {
            high += 1;
        }
        let others = m.ready_queue.iter().map(|o| o.stride).collect::<Vec<i32>>();
        for s in others {
            assert!((t.stride - s).abs() <= 127);
        }
        m.add(t);
    }
    // the advance is 127 at priority 2 and 63 at priority 4
    assert_eq!(low, 100);
    assert_eq!(high, 200);
    let strides = m.ready_queue.iter().map(|t| (t.priority, t.stride)).collect::<Vec<(i32, i32)>>();
    assert!(strides.contains(&(2, 12700)));
    assert!(strides.contains(&(4, 12600)));
}

#[test]
fn yield_alone_runs_the_same_task_again() {
    let mut k = Kernel::new();
    k.manager.add(task(16, 1));
    k.run_next(40);
    assert_eq!(k.current.as_ref().unwrap().status, TaskStatus::Running);
    assert_eq!(k.current.as_ref().unwrap().start_time, Some(40));
    assert_eq!(k.current.as_ref().unwrap().stride, 15);
    assert_eq!(sys_yield(&mut k, 90), 0);
    let cur = k.current.as_ref().unwrap();
    assert_eq!(cur.heap_bottom, 1);
    assert_eq!(cur.status, TaskStatus::Running);
    assert_eq!(cur.start_time, Some(40));
    assert_eq!(cur.stride, 30);
    assert_eq!(k.manager.ready_queue.len(), 0);
}

#[test]
fn yield_switches_to_the_task_of_least_stride() {
    let mut k = Kernel::new();
    k.manager.add(task(16, 1));
    k.manager.add(task(16, 2));
    k.run_next(5);
    assert_eq!(k.current.as_ref().unwrap().heap_bottom, 1);
    assert_eq!(sys_yield(&mut k, 7), 0);
    let cur = k.current.as_ref().unwrap();
    assert_eq!(cur.heap_bottom, 2);
    assert_eq!(cur.start_time, Some(7));
    assert_eq!(cur.status, TaskStatus::Running);
    assert_eq!(k.manager.ready_queue.len(), 1);
    assert_eq!(k.manager.ready_queue[0].heap_bottom, 1);
    assert_eq!(k.manager.ready_queue[0].status, TaskStatus::Ready);
    assert_eq!(k.manager.ready_queue[0].stride, 15);
}

#[test]
fn exit_hands_over_and_runs_next() {
    let mut k = Kernel::new();
    k.manager.add(task(16, 1));
    k.manager.add(task(16, 2));
    k.run_next(5);
    let gone = sys_exit(&mut k, 3, 9);
    assert_eq!(gone.heap_bottom, 1);
    assert_eq!(gone.status, TaskStatus::Exited);
    assert_eq!(k.current.as_ref().unwrap().heap_bottom, 2);
    assert_eq!(k.current.as_ref().unwrap().start_time, Some(9));
    let last = sys_exit(&mut k, 0, 11);
    assert_eq!(last.heap_bottom, 2);
    assert_eq!(last.status, TaskStatus::Exited);
    assert!(k.current.is_none());
    assert_eq!(k.manager.ready_queue.len(), 0);
}
