//! Decisions and results of the process-management system calls.
//!
//! Each function receives what the kernel read for the call (the current task's
//! state, the clock, the outcome of a lookup) and returns what the call answers
//! or what the kernel must do next.
use vstd::prelude::*;
use crate::config::{MAX_SYSCALL_NUM, PAGE_SIZE};
use crate::task::{TaskStatus, TaskControlBlock};
use crate::manager::{StrideTask, TaskManager};

verus! {

/// A time split into seconds and microseconds.
#[derive(Clone, Copy, PartialEq, Eq, Structural, Debug)]
pub struct TimeVal {
    pub sec: usize,
    pub usec: usize,
}

/// Task information reported to a user program.
#[derive(Clone, Copy)]
pub struct TaskInfo {
    /// Task status in its life cycle
    pub status: TaskStatus,
    /// How many times the task made each system call
    pub syscall_times: [u32; MAX_SYSCALL_NUM],
    /// Time since the task first ran, in ms
    pub time: usize,
}

/// Permission bit: readable.
pub const MAP_PERM_R: u8 = 2;
/// Permission bit: writable.
pub const MAP_PERM_W: u8 = 4;
/// Permission bit: executable.
pub const MAP_PERM_X: u8 = 8;
/// Permission bit: accessible from user mode.
pub const MAP_PERM_U: u8 = 16;

/// Access permissions of a mapped area, as a set of `MAP_PERM_*` bits.
#[derive(Clone, Copy, PartialEq, Eq, Structural, Debug)]
pub struct MapPermission {
    pub bits: u8,
}

/// A child process as seen by its parent: its id, whether it has exited and its exit code.
#[derive(Clone, Copy, PartialEq, Eq, Structural, Debug)]
pub struct ChildProcess {
    pub pid: usize,
    pub zombie: bool,
    pub exit_code: i32,
}

/// Result code of a call that either succeeded or failed.
pub open spec fn outcome(ok: bool) -> isize {
    if ok { 0isize } else { -1isize }
}

/// Whether `start` lies on a page boundary.
pub open spec fn page_aligned(start: usize) -> bool {
    start % PAGE_SIZE == 0
}

/// Whether `port` asks for a non-empty subset of read, write and execute access.
pub open spec fn valid_port(port: usize) -> bool {
    1 <= port <= 7
}

/// Whether the child `c` is one that `pid` asks for (`-1` asks for any child).
pub open spec fn wanted(c: ChildProcess, pid: isize) -> bool {
    pid == -1 || pid as usize == c.pid
}

/// Whether `k` is the first child of `cs` that is wanted by `pid` and has exited.
pub open spec fn is_first_exited(cs: Seq<ChildProcess>, pid: isize, k: int) -> bool {
    &&& 0 <= k < cs.len()
    &&& wanted(cs[k], pid)
    &&& cs[k].zombie
    &&& forall|j: int| 0 <= j < k ==> !(wanted(#[trigger] cs[j], pid) && cs[j].zombie)
}

/// The first child of `cs` wanted by `pid` that has exited.
pub open spec fn first_exited(cs: Seq<ChildProcess>, pid: isize) -> int {
    choose|k: int| is_first_exited(cs, pid, k)
}

/// The first exited child is unique.
pub proof fn lemma_first_exited_unique(cs: Seq<ChildProcess>, pid: isize, k: int)
    requires
        is_first_exited(cs, pid, k),
    ensures
        first_exited(cs, pid) == k,
{
    let c = first_exited(cs, pid);
    assert(is_first_exited(cs, pid, c));
    if c < k {
        assert(!(wanted(cs[c], pid) && cs[c].zombie));
    } else if k < c {
        assert(!(wanted(cs[k], pid) && cs[k].zombie));
    }
}

/// When some wanted child has exited, there is a first one.
pub proof fn lemma_first_exited_exists(cs: Seq<ChildProcess>, pid: isize, j: int)
    requires
        0 <= j < cs.len(),
        wanted(cs[j], pid),
        cs[j].zombie,
    ensures
        is_first_exited(cs, pid, first_exited(cs, pid)),
    decreases j,
{
    if forall|i: int| 0 <= i < j ==> !(wanted(#[trigger] cs[i], pid) && cs[i].zombie) {
        assert(is_first_exited(cs, pid, j));
        lemma_first_exited_unique(cs, pid, j);
    } else {
        let i = choose|i: int| 0 <= i < j && (wanted(#[trigger] cs[i], pid) && cs[i].zombie);
        lemma_first_exited_exists(cs, pid, i);
    }
}

/// A child is reaped once: when the children have distinct ids and the child
/// named by `pid` has exited, no child wanted by `pid` is left once it is
/// reaped, so a second wait for it answers -1.
pub proof fn law_child_reaped_once(cs: Seq<ChildProcess>, pid: isize, j: int)
    requires
        pid != -1,
        forall|a: int, b: int| 0 <= a < b < cs.len() ==> cs[a].pid != cs[b].pid,
        0 <= j < cs.len(),
        wanted(cs[j], pid),
        cs[j].zombie,
    ensures
        is_first_exited(cs, pid, first_exited(cs, pid)),
        cs[first_exited(cs, pid)].pid == cs[j].pid,
        !(exists|i: int|
            0 <= i < cs.remove(first_exited(cs, pid)).len() && wanted(
                #[trigger] cs.remove(first_exited(cs, pid))[i],
                pid,
            )),
{
    lemma_first_exited_exists(cs, pid, j);
    let k = first_exited(cs, pid);
    let rest = cs.remove(k);
    assert forall|i: int| 0 <= i < rest.len() implies !wanted(#[trigger] rest[i], pid) by {
        let o = if i < k { i } else { i + 1 };
        assert(rest[i] == cs[o]);
        assert(o != k);
        if o < k {
            assert(cs[o].pid != cs[k].pid);
        } else {
            assert(cs[k].pid != cs[o].pid);
        }
    }
    if k != j {
        if k < j {
            assert(cs[k].pid != cs[j].pid);
        } else {
            assert(cs[j].pid != cs[k].pid);
        }
    }
}

/// Every start on a page boundary is aligned, and no start strictly inside a
/// page is: `page_aligned` holds exactly at the multiples of `PAGE_SIZE`.
pub proof fn law_page_aligned_multiples(page: int, offset: int)
    requires
        page >= 0,
        0 <= offset < PAGE_SIZE,
        page * PAGE_SIZE + offset <= usize::MAX,
    ensures
        page_aligned((page * PAGE_SIZE + offset) as usize) <==> offset == 0,
{
    let x = page * 4096 + offset;
    assert(x % 4096 == offset) by (nonlinear_arith)
        requires
            x == page * 4096 + offset,
            0 <= offset < 4096,
            page >= 0,
    ;
}

/// The accepted access requests are exactly the non-empty subsets of
/// read (bit 0), write (bit 1) and execute (bit 2), and the permission granted
/// for one is user access plus read, write and execute for the bits asked.
pub proof fn law_valid_ports(port: usize)
    ensures
        valid_port(port) <==> (port & !7usize == 0 && port & 7usize != 0),
        valid_port(port) ==> {
            &&& (((16 + 2 * port) as u8) & MAP_PERM_U) != 0
            &&& ((((16 + 2 * port) as u8) & MAP_PERM_R) != 0 <==> port & 1usize != 0)
            &&& ((((16 + 2 * port) as u8) & MAP_PERM_W) != 0 <==> port & 2usize != 0)
            &&& ((((16 + 2 * port) as u8) & MAP_PERM_X) != 0 <==> port & 4usize != 0)
            &&& ((16 + 2 * port) as u8) & !30u8 == 0
        },
{
    lemma_port_check(port);
    if valid_port(port) {
        assert({
            &&& (((16 + 2 * port) as u8) & 16u8) != 0
            &&& ((((16 + 2 * port) as u8) & 2u8) != 0 <==> port & 1usize != 0)
            &&& ((((16 + 2 * port) as u8) & 4u8) != 0 <==> port & 2usize != 0)
            &&& ((((16 + 2 * port) as u8) & 8u8) != 0 <==> port & 4usize != 0)
            &&& ((16 + 2 * port) as u8) & !30u8 == 0
        }) by (bit_vector)
            requires
                1usize <= port && port <= 7usize,
        ;
    }
}

proof fn lemma_port_check(port: usize)
    ensures
        (port & !7usize != 0 || port & 7usize == 0) <==> !(1 <= port <= 7),
        port & 1usize == 1usize || port & 1usize == 0usize,
{
    assert((port & !7usize != 0 || port & 7usize == 0) <==> !(1usize <= port && port <= 7usize))
        by (bit_vector);
    assert(port & 1usize == 1usize || port & 1usize == 0usize) by (bit_vector);
}

proof fn lemma_page_offset(start: usize)
    ensures
        start & 4095usize == start % 4096,
{
    assert(start & 4095usize == start % 4096) by (bit_vector);
}

proof fn lemma_perm_bits(port: usize)
    requires
        1 <= port <= 7,
    ensures
        (16u8 | (if port & 1usize == 1usize { 2u8 } else { 0u8 }) | (if (port >> 1usize) & 1usize
            == 1usize {
            4u8
        } else {
            0u8
        }) | (if (port >> 2usize) & 1usize == 1usize {
            8u8
        } else {
            0u8
        })) as int == 16 + 2 * port,
{
    assert((16u8 | (if port & 1usize == 1usize { 2u8 } else { 0u8 }) | (if (port >> 1usize) & 1usize
        == 1usize {
        4u8
    } else {
        0u8
    }) | (if (port >> 2usize) & 1usize == 1usize {
        8u8
    } else {
        0u8
    })) as int == 16 + 2 * port) by (bit_vector)
        requires
            1usize <= port && port <= 7usize,
    ;
}

/// The result code of a call that either succeeded or failed: 0 or -1.
pub fn syscall_outcome(ok: bool) -> (r: isize)
    ensures
        r == outcome(ok),
{
    if ok {
        0
    } else {
        -1
    }
}

/// Yields the processor: the caller goes back to the ready queue (the kernel
/// then switches to the next task) and the call answers 0.
pub fn sys_yield(manager: &mut TaskManager, current: StrideTask) -> (r: isize)
    ensures
        final(manager)@ == old(manager)@.push(current),
        r == 0,
{
    manager.add(current);
    0
}

/// Answers the id of the calling task.
pub fn sys_getpid(pid: usize) -> (r: isize)
    ensures
        r == pid as isize,
{
    pid as isize
}

/// Completes a fork once the child exists: queues the child for scheduling and
/// answers its id to the parent (the child itself sees 0).
pub fn sys_fork(manager: &mut TaskManager, child: StrideTask) -> (r: isize)
    ensures
        final(manager)@ == old(manager)@.push(child),
        r == child.pid as isize,
{
    let new_pid = child.pid;
    manager.add(child);
    new_pid as isize
}

/// Answers an exec: 0 when the program was found (and the caller's image
/// replaced), -1 otherwise.
pub fn sys_exec(found: bool) -> (r: isize)
    ensures
        r == outcome(found),
{
    syscall_outcome(found)
}

/// Completes a spawn: when the program was found, queues the new task and
/// answers its id; otherwise answers -1 and queues nothing.
pub fn sys_spawn(manager: &mut TaskManager, new_task: Option<StrideTask>) -> (r: isize)
    ensures
        match new_task {
            Some(t) => {
                &&& final(manager)@ == old(manager)@.push(t)
                &&& r == t.pid as isize
            },
            None => {
                &&& final(manager)@ == old(manager)@
                &&& r == -1
            },
        },
{
    match new_task {
        Some(t) => {
            let new_pid = t.pid;
            manager.add(t);
            new_pid as isize
        },
        None => -1,
    }
}

/// Waits for a child: `pid` names the child, or is -1 for any child.
/// Answers -1 (and no exit code) when no child is wanted by `pid`; -2 when wanted
/// children exist but none has exited; otherwise removes the first wanted child
/// that has exited and answers its id and its exit code, to be written for the caller.
pub fn sys_waitpid(children: &mut Vec<ChildProcess>, pid: isize) -> (r: (isize, Option<i32>))
    ensures
        !(exists|j: int| 0 <= j < old(children)@.len() && wanted(#[trigger] old(children)@[j], pid))
            ==> r == (-1isize, None::<i32>) && final(children)@ == old(children)@,
        (exists|j: int| 0 <= j < old(children)@.len() && wanted(#[trigger] old(children)@[j], pid))
            && !(exists|j: int|
            0 <= j < old(children)@.len() && wanted(#[trigger] old(children)@[j], pid)
                && old(children)@[j].zombie) ==> r == (-2isize, None::<i32>) && final(children)@
            == old(children)@,
        (exists|j: int|
            0 <= j < old(children)@.len() && wanted(#[trigger] old(children)@[j], pid)
                && old(children)@[j].zombie) ==> {
            let k = first_exited(old(children)@, pid);
            &&& is_first_exited(old(children)@, pid, k)
            &&& r == (old(children)@[k].pid as isize, Some(old(children)@[k].exit_code))
            &&& final(children)@ == old(children)@.remove(k)
        },
{
    let n = children.len();
    let mut any = false;
    let mut i: usize = 0;
    while i < n
        invariant
            n == children@.len(),
            children@ == old(children)@,
            i <= n,
            any <==> exists|j: int| 0 <= j < i && wanted(#[trigger] children@[j], pid),
        decreases n - i,
    {
        let c = children[i];
        if pid == -1 || pid as usize == c.pid {
            any = true;
        }
        i = i + 1;
    }
    if !any {
        return (-1, None);
    }
    let mut found: Option<usize> = None;
    let mut i: usize = 0;
    while i < n
        invariant_except_break
            n == children@.len(),
            children@ == old(children)@,
            i <= n,
            found.is_none(),
            forall|j: int| 0 <= j < i ==> !(wanted(#[trigger] children@[j], pid) && children@[j].zombie),
        ensures
            n == children@.len(),
            children@ == old(children)@,
            match found {
                Some(k) => is_first_exited(children@, pid, k as int),
                None => forall|j: int|
                    0 <= j < n ==> !(wanted(#[trigger] children@[j], pid) && children@[j].zombie),
            },
        decreases n - i,
    {
        let c = children[i];
        if c.zombie && (pid == -1 || pid as usize == c.pid) {
            found = Some(i);
            break;
        }
        i = i + 1;
    }
    match found {
        Some(idx) => {
            proof {
                lemma_first_exited_unique(children@, pid, idx as int);
            }
            let child = children.remove(idx);
            let found_pid = child.pid;
            let exit_code = child.exit_code;
            (found_pid as isize, Some(exit_code))
        },
        None => (-2, None),
    }
}

/// Splits the time `us`, in microseconds, into seconds and microseconds, writes
/// it to `ts` and answers 0.
pub fn sys_get_time(us: usize, ts: &mut TimeVal) -> (r: isize)
    ensures
        r == 0,
        final(ts).sec == us / 1_000_000,
        final(ts).usec == us % 1_000_000,
        final(ts).sec * 1_000_000 + final(ts).usec == us,
        final(ts).usec < 1_000_000,
{
    *ts = TimeVal { sec: us / 1_000_000, usec: us % 1_000_000 };
    0
}

/// Writes the status, system call counts and running time (in ms, at time
/// `now_ms`) of `task` to `ti` and answers 0.
pub fn sys_task_info(ti: &mut TaskInfo, task: &TaskControlBlock, now_ms: usize) -> (r: isize)
    requires
        task.first_run_time <= now_ms,
    ensures
        r == 0,
        final(ti).status == task.task_status,
        final(ti).syscall_times@ == task.syscall_nums@,
        final(ti).time == now_ms - task.first_run_time,
{
    ti.status = task.task_status;
    ti.syscall_times = task.syscall_nums;
    ti.time = now_ms - task.first_run_time;
    0
}

/// Checks a request to map `len` bytes at `start` with access `port` (bit 0
/// read, bit 1 write, bit 2 execute). Answers -1 when `port` asks for nothing or
/// has other bits set, or when `start` is not page aligned; otherwise the range
/// `[start, start + len)` and the user-accessible permission to map it with.
pub fn sys_mmap(start: usize, len: usize, port: usize) -> (r: Result<(usize, usize, MapPermission), isize>)
    requires
        valid_port(port) && page_aligned(start) ==> start + len <= usize::MAX,
    ensures
        !valid_port(port) || !page_aligned(start) ==> r == Err::<(usize, usize, MapPermission), isize>(-1isize),
        valid_port(port) && page_aligned(start) ==> r == Ok::<(usize, usize, MapPermission), isize>(
            (start, (start + len) as usize, MapPermission { bits: (16 + 2 * port) as u8 }),
        ),
{
    proof {
        lemma_port_check(port);
        lemma_page_offset(start);
    }
    if port & !0x7usize != 0 || port & 0x7usize == 0 {
        return Err(-1);
    }
    if start & (PAGE_SIZE - 1) != 0 {
        return Err(-1);
    }
    let start_va = start;
    let end_va = start + len;
    let r_bit: u8 = if port & 0x1 == 1 { MAP_PERM_R } else { 0 };
    let w_bit: u8 = if (port >> 1) & 0x1 == 1 { MAP_PERM_W } else { 0 };
    let x_bit: u8 = if (port >> 2) & 0x1 == 1 { MAP_PERM_X } else { 0 };
    let bits: u8 = MAP_PERM_U | r_bit | w_bit | x_bit;
    proof {
        lemma_perm_bits(port);
        assert(bits as int == 16 + 2 * port);
    }
    Ok((start_va, end_va, MapPermission { bits }))
}

/// Checks a request to unmap `len` bytes at `start`: answers -1 when `start` is
/// not page aligned, otherwise the range `[start, start + len)` to unmap.
pub fn sys_munmap(start: usize, len: usize) -> (r: Result<(usize, usize), isize>)
    requires
        page_aligned(start) ==> start + len <= usize::MAX,
    ensures
        !page_aligned(start) ==> r == Err::<(usize, usize), isize>(-1isize),
        page_aligned(start) ==> r == Ok::<(usize, usize), isize>((start, (start + len) as usize)),
{
    proof {
        lemma_page_offset(start);
    }
    if start & (PAGE_SIZE - 1) != 0 {
        return Err(-1);
    }
    Ok((start, start + len))
}

/// Answers a change of the program break: the old break when the change was
/// made, -1 when it was refused.
pub fn sys_sbrk(old_brk: Option<usize>) -> (r: isize)
    ensures
        match old_brk {
            Some(b) => r == b as isize,
            None => r == -1,
        },
{
    match old_brk {
        Some(b) => b as isize,
        None => -1,
    }
}

/// Sets the priority of `task` to `prio` and answers `prio`; a priority below 2
/// is refused with -1 and leaves the task unchanged.
pub fn sys_set_priority(task: &mut StrideTask, prio: isize) -> (r: isize)
    ensures
        prio < 2 ==> r == -1 && *final(task) == *old(task),
        prio >= 2 ==> r == prio && *final(task) == (StrideTask { prio: prio as usize, ..*old(task) }),
{
    if prio < 2 {
        return -1;
    }
    task.prio = prio as usize;
    prio
}

} // verus!
