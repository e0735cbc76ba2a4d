//! Per-task bookkeeping: status, system call counts and first run time.
use vstd::prelude::*;
use crate::config::MAX_SYSCALL_NUM;

verus! {

/// The status of a task in its life cycle.
#[derive(Copy, Clone, PartialEq, Eq, Structural, Debug)]
pub enum TaskStatus {
    /// not yet initialized
    UnInit,
    /// ready to run
    Ready,
    /// running
    Running,
    /// exited
    Exited,
}

/// Registers saved when switching away from a task.
#[derive(Copy, Clone, Debug)]
pub struct TaskContext {
    /// return address
    pub ra: usize,
    /// kernel stack pointer
    pub sp: usize,
    /// callee-saved registers
    pub s: [usize; 12],
}

/// The task control block of a task.
#[derive(Copy, Clone)]
pub struct TaskControlBlock {
    /// The task status in its life cycle
    pub task_status: TaskStatus,
    /// How many times the task made each system call, indexed by call id
    pub syscall_nums: [u32; MAX_SYSCALL_NUM],
    /// Whether the task has run at least once
    pub has_been_run: bool,
    /// Time of the task's first run, in ms
    pub first_run_time: usize,
    /// The task context
    pub task_cx: TaskContext,
}

/// The control block after it is marked running at `now_ms`: the first run time
/// is recorded only on the first run.
pub open spec fn marked_running(t: TaskControlBlock, now_ms: usize) -> TaskControlBlock {
    TaskControlBlock {
        task_status: TaskStatus::Running,
        has_been_run: true,
        first_run_time: if t.has_been_run { t.first_run_time } else { now_ms },
        ..t
    }
}

impl TaskControlBlock {
    /// Counts one more call of system call `syscall_id`.
    pub fn record_syscall(&mut self, syscall_id: usize)
        requires
            syscall_id < MAX_SYSCALL_NUM,
            old(self).syscall_nums@[syscall_id as int] < u32::MAX,
        ensures
            final(self).syscall_nums@ == old(self).syscall_nums@.update(
                syscall_id as int,
                (old(self).syscall_nums@[syscall_id as int] + 1) as u32,
            ),
            final(self).task_status == old(self).task_status,
            final(self).has_been_run == old(self).has_been_run,
            final(self).first_run_time == old(self).first_run_time,
            final(self).task_cx == old(self).task_cx,
    {
        let n = self.syscall_nums[syscall_id];
        self.syscall_nums[syscall_id] = n + 1;
    }

    /// Marks the task running at time `now_ms`, recording the time if this is its first run.
    pub fn mark_running(&mut self, now_ms: usize)
        ensures
            *final(self) == marked_running(*old(self), now_ms),
    {
        if !self.has_been_run {
            self.has_been_run = true;
            self.first_run_time = now_ms;
        }
        self.task_status = TaskStatus::Running;
    }
}

/// Once a task has run, marking it running again keeps its first run time: after
/// two runs the recorded time is that of the first.
pub proof fn law_first_run_time_is_kept(t: TaskControlBlock, first_ms: usize, later_ms: usize)
    requires
        !t.has_been_run,
    ensures
        marked_running(marked_running(t, first_ms), later_ms).first_run_time == first_ms,
        marked_running(marked_running(t, first_ms), later_ms).has_been_run,
{
}

} // verus!
