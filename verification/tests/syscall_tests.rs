use rcore_kernel::manager::{StrideTask, TaskManager};
use rcore_kernel::syscall::{
    sys_exec, sys_fork, sys_get_time, sys_getpid, sys_mmap, sys_munmap, sys_sbrk, sys_set_priority,
    sys_spawn, sys_task_info, sys_waitpid, sys_yield, syscall_outcome, ChildProcess, MapPermission,
    TaskInfo, TimeVal,
};
use rcore_kernel::task::{TaskContext, TaskControlBlock, TaskStatus};

fn child(pid: usize, zombie: bool, exit_code: i32) -> ChildProcess {
    ChildProcess { pid, zombie, exit_code }
}

#[test]
fn waitpid_without_wanted_child() {
    let mut cs = vec![child(3, true, 0)];
    assert_eq!(sys_waitpid(&mut cs, 4), (-1, None));
    assert_eq!(cs.len(), 1);
    let mut none: Vec<ChildProcess> = Vec::new();
    assert_eq!(sys_waitpid(&mut none, -1), (-1, None));
}

#[test]
fn waitpid_child_still_running() {
    let mut cs = vec![child(3, false, 0), child(4, true, 9)];
    assert_eq!(sys_waitpid(&mut cs, 3), (-2, None));
    assert_eq!(cs, vec![child(3, false, 0), child(4, true, 9)]);
}

#[test]
fn waitpid_reaps_named_child() {
    let mut cs = vec![child(3, true, 1), child(4, true, 9), child(5, false, 0)];
    assert_eq!(sys_waitpid(&mut cs, 4), (4, Some(9)));
    assert_eq!(cs, vec![child(3, true, 1), child(5, false, 0)]);
}

#[test]
fn waitpid_any_reaps_first_exited() {
    let mut cs = vec![child(3, false, 1), child(4, true, 9), child(5, true, 2)];
    assert_eq!(sys_waitpid(&mut cs, -1), (4, Some(9)));
    assert_eq!(sys_waitpid(&mut cs, -1), (5, Some(2)));
    assert_eq!(sys_waitpid(&mut cs, -1), (-2, None));
    assert_eq!(cs, vec![child(3, false, 1)]);
}

#[test]
fn waitpid_reaps_a_child_once() {
    let mut cs = vec![child(3, true, 7), child(4, false, 0)];
    assert_eq!(sys_waitpid(&mut cs, 3), (3, Some(7)));
    assert_eq!(sys_waitpid(&mut cs, 3), (-1, None));
    assert_eq!(cs, vec![child(4, false, 0)]);
}

#[test]
fn mmap_checks_port_and_alignment() {
    assert_eq!(sys_mmap(0x10000000, 4096, 0), Err(-1));
    assert_eq!(sys_mmap(0x10000000, 4096, 8), Err(-1));
    assert_eq!(sys_mmap(0x10000000, 4096, 0x11), Err(-1));
    assert_eq!(sys_mmap(0x10000001, 4096, 3), Err(-1));
    assert_eq!(sys_mmap(0x10000000, 4096, 3), Ok((0x10000000, 0x10001000, MapPermission { bits: 0x16 })));
    assert_eq!(sys_mmap(0x10000000, 10, 1), Ok((0x10000000, 0x1000000a, MapPermission { bits: 0x12 })));
    assert_eq!(sys_mmap(0x2000, 0, 7), Ok((0x2000, 0x2000, MapPermission { bits: 0x1e })));
    assert_eq!(sys_mmap(0, 4096, 4), Ok((0, 4096, MapPermission { bits: 0x18 })));
}

#[test]
fn munmap_checks_alignment() {
    assert_eq!(sys_munmap(0x10000004, 4096), Err(-1));
    assert_eq!(sys_munmap(0x10000000, 8192), Ok((0x10000000, 0x10002000)));
}

#[test]
fn sbrk_answers_old_break() {
    assert_eq!(sys_sbrk(Some(0x8000)), 0x8000);
    assert_eq!(sys_sbrk(None), -1);
}

#[test]
fn set_priority_refuses_below_two() {
    let mut t = StrideTask { pid: 1, stride: 7, prio: 16 };
    assert_eq!(sys_set_priority(&mut t, 1), -1);
    assert_eq!(sys_set_priority(&mut t, -5), -1);
    assert_eq!(t, StrideTask { pid: 1, stride: 7, prio: 16 });
    assert_eq!(sys_set_priority(&mut t, 2), 2);
    assert_eq!(t, StrideTask { pid: 1, stride: 7, prio: 2 });
    assert_eq!(sys_set_priority(&mut t, 100), 100);
    assert_eq!(t.prio, 100);
}

#[test]
fn getpid_and_exec_answers() {
    assert_eq!(sys_getpid(42), 42);
    assert_eq!(sys_exec(true), 0);
    assert_eq!(sys_exec(false), -1);
    assert_eq!(syscall_outcome(true), 0);
    assert_eq!(syscall_outcome(false), -1);
}

#[test]
fn fork_spawn_and_yield_queue_tasks() {
    let mut m = TaskManager::new();
    let c = StrideTask { pid: 9, stride: 0, prio: 16 };
    assert_eq!(sys_fork(&mut m, c), 9);
    assert_eq!(sys_spawn(&mut m, None), -1);
    assert_eq!(m.len(), 1);
    assert_eq!(sys_spawn(&mut m, Some(StrideTask { pid: 10, stride: 0, prio: 16 })), 10);
    assert_eq!(sys_yield(&mut m, StrideTask { pid: 1, stride: 3, prio: 16 }), 0);
    assert_eq!(m.len(), 3);
    assert_eq!(m.fetch().unwrap().pid, 9);
    assert_eq!(m.fetch().unwrap().pid, 10);
    assert_eq!(m.fetch().unwrap().pid, 1);
}

#[test]
fn get_time_splits_microseconds() {
    let mut ts = TimeVal { sec: 0, usec: 0 };
    assert_eq!(sys_get_time(3_250_000, &mut ts), 0);
    assert_eq!(ts, TimeVal { sec: 3, usec: 250_000 });
    assert_eq!(sys_get_time(999_999, &mut ts), 0);
    assert_eq!(ts, TimeVal { sec: 0, usec: 999_999 });
}

#[test]
fn task_info_reports_status_counts_and_time() {
    let mut nums = [0u32; 500];
    nums[64] = 3;
    nums[169] = 1;
    let t = TaskControlBlock {
        task_status: TaskStatus::Running,
        syscall_nums: nums,
        has_been_run: true,
        first_run_time: 100,
        task_cx: TaskContext { ra: 0, sp: 0, s: [0; 12] },
    };
    let mut ti = TaskInfo { status: TaskStatus::UnInit, syscall_times: [0; 500], time: 0 };
    assert_eq!(sys_task_info(&mut ti, &t, 612), 0);
    assert!(ti.status == TaskStatus::Running);
    assert_eq!(ti.syscall_times[64], 3);
    assert_eq!(ti.syscall_times[169], 1);
    assert_eq!(ti.time, 512);
}
