//! The system-call surface.
//!
//! `syscall` decodes the id and arguments a user program passed in its
//! registers and carries the call out against the task table: `write`
//! produces console bytes, `exit` and invalid calls end the task, `yield`
//! and `exit` reschedule. The caller places the returned value back into
//! the user's `a0` register.

use vstd::prelude::*;
use crate::config::VA_BOUND;
use crate::memory_set::MemorySet;
use crate::task::{
    exit_current_and_run_next, suspend_current_and_run_next, ScheduleOutcome, TaskControlBlock,
    TaskManager, TaskStatus,
};

verus! {

/// Syscall id of `read`.
pub const SYSCALL_READ: u64 = 63;

/// Syscall id of `write`.
pub const SYSCALL_WRITE: u64 = 64;

/// Syscall id of `exit`.
pub const SYSCALL_EXIT: u64 = 93;

/// Syscall id of `yield`.
pub const SYSCALL_YIELD: u64 = 124;

/// Syscall id of `get_time`.
pub const SYSCALL_GET_TIME: u64 = 169;

/// The file descriptor of the console.
pub const FD_STDOUT: u64 = 1;

/// Writes `len` bytes of the current address space, starting at user
/// virtual address `buf`, to the console. Only the console descriptor is
/// supported; `None` means the call is invalid (bad descriptor or a buffer
/// that is not entirely readable user memory) and the task is to be
/// killed — in particular a buffer page mapped without the read or user
/// bit, on which the hardware walk would fault. The bytes are read out of
/// the areas' backing frames; `lemma_walk_matches_user_bytes` in the
/// memory-set module proves these are exactly the bytes that the
/// page-table walk of `translated_byte_buffer` reaches.
pub fn sys_write(ms: &MemorySet, fd: u64, buf: u64, len: u64) -> (r: Option<(i64, Vec<u8>)>)
    requires
        ms.wf(),
    ensures
        r.is_some() == (fd == FD_STDOUT && (len == 0 || (buf + len <= VA_BOUND
            && ms.range_user_readable(buf as int, len as int)))),
        match r {
            Some((v, b)) => {
                &&& v == len
                &&& b@.len() == len
                &&& forall|i: int| 0 <= i < len ==> b@[i] == ms.user_byte(buf + i)
            },
            None => true,
        },
{
    if fd != FD_STDOUT {
        return None;
    }
    match ms.read_bytes(buf, len) {
        Some(b) => {
            proof {
                assert(len <= VA_BOUND || len == 0);
            }
            Some((len as i64, b))
        },
        None => None,
    }
}

/// Ends the calling task with `exit_code` and schedules the next ready
/// task; the call never returns to the caller.
pub fn sys_exit(tm: &mut TaskManager, exit_code: i32) -> (r: (i32, ScheduleOutcome))
    requires
        old(tm).wf(),
    ensures
        final(tm).wf(),
        r.0 == exit_code,
        ({
            let cur = old(tm).current_task;
            let (tasks2, j) = spec_reschedule(old(tm).tasks@, cur as int, TaskStatus::Exited);
            &&& final(tm).tasks@ == tasks2
            &&& match j {
                Option::Some(j) => final(tm).current_task == j && r.1 == (
                ScheduleOutcome::Switched { prev: cur, next: j as usize }),
                Option::None => final(tm).current_task == cur && r.1
                    == ScheduleOutcome::AllDone,
            }
        }),
{
    let schedule = exit_current_and_run_next(tm);
    (exit_code, schedule)
}

/// Yields the processor: the caller becomes ready again and the next
/// ready task runs. Returns 0 to the caller.
pub fn sys_yield(tm: &mut TaskManager) -> (r: (i64, ScheduleOutcome))
    requires
        old(tm).wf(),
    ensures
        final(tm).wf(),
        r.0 == 0,
        ({
            let cur = old(tm).current_task;
            let (tasks2, j) = spec_reschedule(old(tm).tasks@, cur as int, TaskStatus::Ready);
            &&& final(tm).tasks@ == tasks2
            &&& match j {
                Option::Some(j) => final(tm).current_task == j && r.1 == (
                ScheduleOutcome::Switched { prev: cur, next: j as usize }),
                Option::None => final(tm).current_task == cur && r.1
                    == ScheduleOutcome::AllDone,
            }
        }),
{
    let schedule = suspend_current_and_run_next(tm);
    (0, schedule)
}

/// How a system call left the calling task.
pub enum SyscallOutcome {
    /// The call completed: `value` goes back in the caller's `a0` after
    /// the bytes in `console` are printed.
    Return {
        /// The syscall return value.
        value: i64,
        /// Bytes to write to the console.
        console: Vec<u8>,
    },
    /// The caller yielded; it gets 0 back when scheduled again.
    Yielded {
        /// The context switch (or shutdown) to perform.
        schedule: ScheduleOutcome,
    },
    /// The caller exited with `code` and never returns.
    Exited {
        /// The task's exit code.
        code: i32,
        /// The context switch (or shutdown) to perform.
        schedule: ScheduleOutcome,
    },
    /// The call was invalid; the kernel killed the task.
    Killed {
        /// The context switch (or shutdown) to perform.
        schedule: ScheduleOutcome,
    },
}

/// The task table after task `current` is marked with `status` and, when
/// the scheduler finds a ready task `j`, task `j` is marked running.
pub open spec fn spec_reschedule(
    tasks: Seq<TaskControlBlock>,
    current: int,
    status: TaskStatus,
) -> (Seq<TaskControlBlock>, Option<int>) {
    let mid = tasks.update(current, TaskControlBlock { task_status: status, ..tasks[current] });
    let st = mid.map(|i: int, t: TaskControlBlock| t.task_status);
    match crate::task::spec_find_next(st, current, 1) {
        Option::Some(j) => (
            mid.update(j, TaskControlBlock { task_status: TaskStatus::Running, ..mid[j] }),
            Option::Some(j),
        ),
        Option::None => (mid, Option::None),
    }
}

/// Carries out the system call `(id, args)` made by the current task.
/// `write` to the console returns the byte count and the bytes themselves;
/// `exit` and `yield` reschedule; `get_time` returns `now_ms`; an unknown
/// id or an invalid `write` kills the task.
pub fn syscall(tm: &mut TaskManager, syscall_id: u64, args: [u64; 3], now_ms: u64) -> (r:
    SyscallOutcome)
    requires
        old(tm).wf(),
        old(tm).tasks@[old(tm).current_task as int].memory_set.wf(),
        now_ms <= i64::MAX,
    ensures
        final(tm).wf(),
        ({
            let cur = old(tm).current_task;
            let ms = old(tm).tasks@[cur as int].memory_set;
            if syscall_id == SYSCALL_WRITE && args@[0] == FD_STDOUT && (args@[2] == 0 || (args@[1]
                + args@[2] <= VA_BOUND && ms.range_user_readable(
                args@[1] as int,
                args@[2] as int,
            ))) {
                // a valid console write: the exact buffer contents come out
                &&& *final(tm) == *old(tm)
                &&& match r {
                    SyscallOutcome::Return { value, console } => {
                        &&& value == args@[2]
                        &&& console@.len() == args@[2]
                        &&& forall|i: int|
                            0 <= i < args@[2] ==> console@[i] == ms.user_byte(args@[1] + i)
                    },
                    _ => false,
                }
            } else if syscall_id == SYSCALL_GET_TIME {
                &&& *final(tm) == *old(tm)
                &&& (r matches SyscallOutcome::Return { value, console } && value == now_ms
                    && console@.len() == 0)
            } else if syscall_id == SYSCALL_YIELD {
                let (tasks2, j) = spec_reschedule(old(tm).tasks@, cur as int, TaskStatus::Ready);
                &&& final(tm).tasks@ == tasks2
                &&& match j {
                    Option::Some(j) => final(tm).current_task == j && (r matches
                        SyscallOutcome::Yielded { schedule } && schedule == (
                    ScheduleOutcome::Switched { prev: cur, next: j as usize })),
                    Option::None => final(tm).current_task == cur && (r matches
                        SyscallOutcome::Yielded { schedule } && schedule
                        == ScheduleOutcome::AllDone),
                }
            } else if syscall_id == SYSCALL_EXIT {
                let (tasks2, j) = spec_reschedule(old(tm).tasks@, cur as int, TaskStatus::Exited);
                &&& final(tm).tasks@ == tasks2
                &&& match j {
                    Option::Some(j) => final(tm).current_task == j && (r matches
                        SyscallOutcome::Exited { code, schedule } && code == args@[0] as i32
                        && schedule == (ScheduleOutcome::Switched { prev: cur, next: j as usize })),
                    Option::None => final(tm).current_task == cur && (r matches
                        SyscallOutcome::Exited { code, schedule } && code == args@[0] as i32
                        && schedule == ScheduleOutcome::AllDone),
                }
            } else {
                // unknown id, bad descriptor, or unreadable buffer: the
                // task is killed
                let (tasks2, j) = spec_reschedule(old(tm).tasks@, cur as int, TaskStatus::Exited);
                &&& final(tm).tasks@ == tasks2
                &&& match j {
                    Option::Some(j) => final(tm).current_task == j && (r matches
                        SyscallOutcome::Killed { schedule } && schedule == (
                    ScheduleOutcome::Switched { prev: cur, next: j as usize })),
                    Option::None => final(tm).current_task == cur && (r matches
                        SyscallOutcome::Killed { schedule } && schedule
                        == ScheduleOutcome::AllDone),
                }
            }
        }),
{
    if syscall_id == SYSCALL_WRITE {
        let current = tm.current_task;
        let write_result = sys_write(&tm.tasks[current].memory_set, args[0], args[1], args[2]);
        match write_result {
            Some((value, console)) => SyscallOutcome::Return { value, console },
            None => {
                let schedule = exit_current_and_run_next(tm);
                SyscallOutcome::Killed { schedule }
            },
        }
    } else if syscall_id == SYSCALL_GET_TIME {
        SyscallOutcome::Return { value: now_ms as i64, console: Vec::new() }
    } else if syscall_id == SYSCALL_YIELD {
        let schedule = suspend_current_and_run_next(tm);
        SyscallOutcome::Yielded { schedule }
    } else if syscall_id == SYSCALL_EXIT {
        let schedule = exit_current_and_run_next(tm);
        SyscallOutcome::Exited { code: args[0] as i32, schedule }
    } else {
        let schedule = exit_current_and_run_next(tm);
        SyscallOutcome::Killed { schedule }
    }
}

} // verus!
