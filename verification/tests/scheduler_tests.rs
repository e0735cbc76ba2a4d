use rcore_kernel::manager::{StrideTask, TaskManager};
use rcore_kernel::task::{TaskContext, TaskControlBlock, TaskStatus};

fn task(pid: usize, stride: usize, prio: usize) -> StrideTask {
    StrideTask { pid, stride, prio }
}

#[test]
fn fetch_on_empty_gives_none() {
    let mut m = TaskManager::new();
    assert_eq!(m.fetch(), None);
    assert_eq!(m.len(), 0);
}

#[test]
fn fetch_takes_least_stride_and_advances_it() {
    let mut m = TaskManager::new();
    m.add(task(1, 30, 16));
    m.add(task(2, 10, 16));
    m.add(task(3, 20, 2));
    assert_eq!(m.fetch(), Some(task(2, 10 + 65536 / 16, 16)));
    assert_eq!(m.len(), 2);
    assert_eq!(m.fetch(), Some(task(3, 20 + 32768, 2)));
    assert_eq!(m.fetch(), Some(task(1, 30 + 4096, 16)));
    assert_eq!(m.fetch(), None);
}

#[test]
fn fetch_takes_first_of_equal_strides() {
    let mut m = TaskManager::new();
    m.add(task(1, 5, 16));
    m.add(task(2, 5, 16));
    m.add(task(3, 9, 16));
    m.add(task(4, 5, 16));
    assert_eq!(m.fetch().unwrap().pid, 1);
    assert_eq!(m.fetch().unwrap().pid, 2);
    assert_eq!(m.fetch().unwrap().pid, 4);
    assert_eq!(m.fetch().unwrap().pid, 3);
}

#[test]
fn equal_strides_are_served_in_arrival_order() {
    let mut m = TaskManager::new();
    for pid in 0..5 {
        m.add(task(pid, 0, 16));
    }
    for pid in 0..5 {
        assert_eq!(m.fetch().unwrap().pid, pid);
    }
    assert_eq!(m.fetch(), None);
}

#[test]
fn add_then_fetch_on_empty_returns_the_task() {
    let mut m = TaskManager::new();
    m.add(task(7, 100, 4));
    assert_eq!(m.fetch(), Some(task(7, 100 + 16384, 4)));
    assert_eq!(m.len(), 0);
    assert_eq!(m.fetch(), None);
}

#[test]
fn higher_priority_runs_more_often() {
    let mut m = TaskManager::new();
    m.add(task(1, 0, 2));
    m.add(task(2, 0, 8));
    let mut runs = [0usize; 3];
    for _ in 0..50 {
        let t = m.fetch().unwrap();
        runs[t.pid] += 1;
        m.add(t);
    }
    assert!(runs[2] > 3 * runs[1]);
}

fn tcb() -> TaskControlBlock {
    TaskControlBlock {
        task_status: TaskStatus::Ready,
        syscall_nums: [0; 500],
        has_been_run: false,
        first_run_time: 0,
        task_cx: TaskContext { ra: 0, sp: 0, s: [0; 12] },
    }
}

#[test]
fn first_run_time_is_recorded_once() {
    let mut t = tcb();
    t.mark_running(40);
    assert_eq!(t.first_run_time, 40);
    assert!(t.has_been_run);
    assert!(t.task_status == TaskStatus::Running);
    t.task_status = TaskStatus::Ready;
    t.mark_running(90);
    assert_eq!(t.first_run_time, 40);
    assert!(t.task_status == TaskStatus::Running);
}

#[test]
fn syscalls_are_counted() {
    let mut t = tcb();
    t.record_syscall(64);
    t.record_syscall(64);
    t.record_syscall(169);
    assert_eq!(t.syscall_nums[64], 2);
    assert_eq!(t.syscall_nums[169], 1);
    assert_eq!(t.syscall_nums[93], 0);
}

#[test]
fn strides_stay_within_half_step() {
    let mut m = TaskManager::new();
    let prios = [2usize, 3, 16, 100];
    let mut strides = [0usize; 4];
    for (pid, prio) in prios.iter().enumerate() {
        m.add(task(pid, 0, *prio));
    }
    for _ in 0..200 {
        let t = m.fetch().unwrap();
        strides[t.pid] = t.stride;
        m.add(t);
        let lo = *strides.iter().min().unwrap();
        let hi = *strides.iter().max().unwrap();
        assert!(hi - lo <= 32768);
    }
}
