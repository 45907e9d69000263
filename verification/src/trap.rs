//! Trap cause decoding and dispatch.
//!
//! `trap_handler` is the kernel's reaction to one trap taken from user
//! mode: it decodes the cause register, carries out the system call or
//! kills the faulting task, and reports what the hardware-facing caller
//! must do next — print bytes, re-arm the timer, switch task contexts,
//! return to user mode, or shut the machine down.

use vstd::prelude::*;
use crate::config::{CLOCK_FREQ, MSEC_PER_SEC, TICKS_PER_SEC, TRAMPOLINE_ADDR, TRAP_CONTEXT_ADDR};
use crate::syscall::{
    syscall, spec_reschedule, SyscallOutcome, FD_STDOUT, SYSCALL_GET_TIME, SYSCALL_WRITE,
    SYSCALL_YIELD,
};
use crate::task::{ScheduleOutcome, TaskControlBlock, TaskManager, TaskStatus};
use crate::trap_context::TrapContext;
use crate::timer::{get_time_ms, set_next_trigger};
use crate::config::VA_BOUND;

verus! {

/// The value of the cause register for a supervisor timer interrupt: the
/// interrupt bit plus code 5.
pub const SCAUSE_SUPERVISOR_TIMER: u64 = 0x8000_0000_0000_0005;

/// Exception code of an environment call from user mode.
pub const SCAUSE_USER_ENV_CALL: u64 = 8;

/// Exception code of an illegal instruction.
pub const SCAUSE_ILLEGAL_INSTRUCTION: u64 = 2;

/// Exception code of a load access fault.
pub const SCAUSE_LOAD_FAULT: u64 = 5;

/// Exception code of a store access fault.
pub const SCAUSE_STORE_FAULT: u64 = 7;

/// Exception code of a load page fault.
pub const SCAUSE_LOAD_PAGE_FAULT: u64 = 13;

/// Exception code of a store page fault.
pub const SCAUSE_STORE_PAGE_FAULT: u64 = 15;

/// The decoded cause of a trap.
#[derive(Clone, Copy, Debug, PartialEq, Eq, Structural)]
pub enum TrapCause {
    /// An `ecall` from user mode.
    UserEnvCall,
    /// A load or store access or page fault.
    MemoryFault,
    /// An illegal instruction.
    IllegalInstruction,
    /// The supervisor timer fired.
    SupervisorTimer,
    /// Any other cause; the kernel treats it as fatal.
    Unknown,
}

/// The decoded meaning of a cause-register value.
pub open spec fn spec_scause_cause(scause: u64) -> TrapCause {
    if scause == SCAUSE_SUPERVISOR_TIMER {
        TrapCause::SupervisorTimer
    } else if scause == SCAUSE_USER_ENV_CALL {
        TrapCause::UserEnvCall
    } else if scause == SCAUSE_ILLEGAL_INSTRUCTION {
        TrapCause::IllegalInstruction
    } else if scause == SCAUSE_LOAD_FAULT || scause == SCAUSE_STORE_FAULT || scause
        == SCAUSE_LOAD_PAGE_FAULT || scause == SCAUSE_STORE_PAGE_FAULT {
        TrapCause::MemoryFault
    } else {
        TrapCause::Unknown
    }
}

/// Decodes the cause register.
pub fn decode_scause(scause: u64) -> (r: TrapCause)
    ensures
        r == spec_scause_cause(scause),
{
    if scause == SCAUSE_SUPERVISOR_TIMER {
        TrapCause::SupervisorTimer
    } else if scause == SCAUSE_USER_ENV_CALL {
        TrapCause::UserEnvCall
    } else if scause == SCAUSE_ILLEGAL_INSTRUCTION {
        TrapCause::IllegalInstruction
    } else if scause == SCAUSE_LOAD_FAULT || scause == SCAUSE_STORE_FAULT || scause
        == SCAUSE_LOAD_PAGE_FAULT || scause == SCAUSE_STORE_PAGE_FAULT {
        TrapCause::MemoryFault
    } else {
        TrapCause::Unknown
    }
}

/// A diagnostic the kernel emits while handling a trap.
#[derive(Clone, Copy, Debug, PartialEq, Eq, Structural)]
pub enum LogEvent {
    /// A user task touched memory it may not: the faulting address and the
    /// program counter of the faulting instruction. The task is killed.
    PageFault {
        /// The faulting address (the value of `stval`).
        bad_addr: u64,
        /// The faulting instruction's address.
        bad_instruction: u64,
    },
    /// A user task executed an illegal instruction and is killed.
    IllegalInstruction,
}

/// What the hardware-facing caller must do after a trap was handled.
#[derive(Clone, Copy, Debug, PartialEq, Eq, Structural)]
pub enum TrapControl {
    /// Return to the same task through the trampoline.
    ReturnToUser,
    /// Save the outgoing context into task `prev` and restore task
    /// `next`'s, then return to user mode.
    Switch {
        /// Task whose kernel context receives the outgoing state.
        prev: usize,
        /// Task to run next.
        next: usize,
    },
    /// Ask the firmware to shut the machine down; `failure` distinguishes
    /// a kernel panic from a clean end.
    Shutdown {
        /// Whether the shutdown reports a failure.
        failure: bool,
    },
}

/// Everything a handled trap asks of the hardware-facing caller.
pub struct TrapOutcome {
    /// What to do next.
    pub control: TrapControl,
    /// Bytes to write to the console.
    pub console: Vec<u8>,
    /// An absolute deadline to program into the firmware timer, if any.
    pub set_timer: Option<u64>,
    /// A diagnostic to log, if any.
    pub log: Option<LogEvent>,
}

/// The saved user state after an `ecall` was handled: the program counter
/// has advanced past the `ecall` instruction, `a0` (register `x10`) holds
/// `ret` when the call hands a value back, and every other saved register
/// and field is unchanged.
pub open spec fn ecall_cx(cx0: TrapContext, cxf: TrapContext, ret: Option<u64>) -> bool {
    &&& cxf.sepc == cx0.sepc + 4
    &&& cxf.x@ == match ret {
        Option::Some(v) => cx0.x@.update(10, v),
        Option::None => cx0.x@,
    }
    &&& cxf.sstatus == cx0.sstatus
    &&& cxf.kernel_satp == cx0.kernel_satp
    &&& cxf.kernel_sp == cx0.kernel_sp
    &&& cxf.trap_handler == cx0.trap_handler
}

/// Handles one trap taken from user mode, given the cause and trap-value
/// registers and the current time. System calls run against the task
/// table; memory faults and illegal instructions kill the task with a log
/// line; a timer interrupt re-arms the timer and suspends the task in
/// favour of the next ready one; an unrecognized cause shuts down with a
/// failure status.
#[verifier::rlimit(100)]
pub fn trap_handler(tm: &mut TaskManager, scause: u64, stval: u64, now: u64) -> (r: TrapOutcome)
    requires
        old(tm).wf(),
        old(tm).tasks@[old(tm).current_task as int].memory_set.wf(),
        old(tm).tasks@[old(tm).current_task as int].trap_cx.sepc + 4 <= u64::MAX,
        now + CLOCK_FREQ / TICKS_PER_SEC <= u64::MAX,
        now / (CLOCK_FREQ / MSEC_PER_SEC) <= i64::MAX,
    ensures
        final(tm).wf(),
        ({
            let cur = old(tm).current_task;
            let cx0 = old(tm).tasks@[cur as int].trap_cx;
            let ms = old(tm).tasks@[cur as int].memory_set;
            match spec_scause_cause(scause) {
                TrapCause::SupervisorTimer => {
                    // the task is suspended in favour of the next ready
                    // one, and the timer is re-armed one quantum ahead
                    let (tasks2, j) = spec_reschedule(old(tm).tasks@, cur as int, TaskStatus::Ready);
                    &&& r.set_timer == Some((now + CLOCK_FREQ / TICKS_PER_SEC) as u64)
                    &&& r.console@.len() == 0
                    &&& r.log.is_none()
                    &&& final(tm).tasks@ == tasks2
                    &&& match j {
                        Option::Some(j) => r.control == (TrapControl::Switch {
                            prev: cur,
                            next: j as usize,
                        }) && final(tm).current_task == j,
                        Option::None => r.control == (TrapControl::Shutdown { failure: false }),
                    }
                },
                TrapCause::MemoryFault => {
                    // the faulting task is killed; the kernel goes on
                    let (tasks2, j) = spec_reschedule(old(tm).tasks@, cur as int, TaskStatus::Exited);
                    &&& r.log == Some(LogEvent::PageFault {
                        bad_addr: stval,
                        bad_instruction: cx0.sepc,
                    })
                    &&& r.console@.len() == 0
                    &&& r.set_timer.is_none()
                    &&& final(tm).tasks@ == tasks2
                    &&& match j {
                        Option::Some(j) => r.control == (TrapControl::Switch {
                            prev: cur,
                            next: j as usize,
                        }) && final(tm).current_task == j,
                        Option::None => r.control == (TrapControl::Shutdown { failure: false }),
                    }
                },
                TrapCause::IllegalInstruction => {
                    let (tasks2, j) = spec_reschedule(old(tm).tasks@, cur as int, TaskStatus::Exited);
                    &&& r.log == Some(LogEvent::IllegalInstruction)
                    &&& r.console@.len() == 0
                    &&& r.set_timer.is_none()
                    &&& final(tm).tasks@ == tasks2
                    &&& match j {
                        Option::Some(j) => r.control == (TrapControl::Switch {
                            prev: cur,
                            next: j as usize,
                        }) && final(tm).current_task == j,
                        Option::None => r.control == (TrapControl::Shutdown { failure: false }),
                    }
                },
                TrapCause::Unknown => {
                    &&& r.control == (TrapControl::Shutdown { failure: true })
                    &&& *final(tm) == *old(tm)
                },
                TrapCause::UserEnvCall => {
                    // the syscall id sits in x17, its arguments in
                    // x10..x12; the saved program counter advances past
                    // the ecall, and of the saved registers only x10 (the
                    // return-value slot) may change
                    let id = cx0.x@[17];
                    let a = seq![cx0.x@[10], cx0.x@[11], cx0.x@[12]];
                    let cx1 = TrapContext { sepc: (cx0.sepc + 4) as u64, ..cx0 };
                    &&& r.set_timer.is_none()
                    &&& r.log.is_none()
                    &&& if id == SYSCALL_WRITE && a[0] == FD_STDOUT && (a[2] == 0 || (a[1] + a[2]
                        <= VA_BOUND && ms.range_user_readable(a[1] as int, a[2] as int))) {
                        // a valid console write: the buffer's bytes go to
                        // the console and the count comes back in x10
                        &&& r.control == TrapControl::ReturnToUser
                        &&& r.console@.len() == a[2]
                        &&& forall|i: int|
                            0 <= i < a[2] ==> r.console@[i] == ms.user_byte(a[1] + i)
                        &&& final(tm).current_task == cur
                        &&& final(tm).tasks@ == old(tm).tasks@.update(
                            cur as int,
                            (TaskControlBlock {
                                trap_cx: final(tm).tasks@[cur as int].trap_cx,
                                ..old(tm).tasks@[cur as int]
                            }),
                        )
                        &&& ecall_cx(
                            cx0,
                            final(tm).tasks@[cur as int].trap_cx,
                            Option::Some(a[2]),
                        )
                    } else if id == SYSCALL_GET_TIME {
                        // the time in milliseconds comes back in x10
                        &&& r.control == TrapControl::ReturnToUser
                        &&& r.console@.len() == 0
                        &&& final(tm).current_task == cur
                        &&& final(tm).tasks@ == old(tm).tasks@.update(
                            cur as int,
                            (TaskControlBlock {
                                trap_cx: final(tm).tasks@[cur as int].trap_cx,
                                ..old(tm).tasks@[cur as int]
                            }),
                        )
                        &&& ecall_cx(
                            cx0,
                            final(tm).tasks@[cur as int].trap_cx,
                            Option::Some((now / (CLOCK_FREQ / MSEC_PER_SEC)) as u64),
                        )
                    } else if id == SYSCALL_YIELD {
                        // the caller is marked Ready with 0 in its saved
                        // x10, and the next ready task runs
                        let mid = old(tm).tasks@.update(
                            cur as int,
                            (TaskControlBlock {
                                task_status: TaskStatus::Ready,
                                trap_cx: cx1,
                                ..old(tm).tasks@[cur as int]
                            }),
                        );
                        let st = mid.map(|i: int, t: TaskControlBlock| t.task_status);
                        &&& r.console@.len() == 0
                        &&& match crate::task::spec_find_next(st, cur as int, 1) {
                            Option::Some(j) => {
                                let tasks2 = mid.update(
                                    j,
                                    (TaskControlBlock {
                                        task_status: TaskStatus::Running,
                                        ..mid[j]
                                    }),
                                );
                                &&& r.control == (TrapControl::Switch {
                                    prev: cur,
                                    next: j as usize,
                                })
                                &&& final(tm).current_task == j
                                &&& final(tm).tasks@ == tasks2.update(
                                    cur as int,
                                    (TaskControlBlock {
                                        trap_cx: final(tm).tasks@[cur as int].trap_cx,
                                        ..tasks2[cur as int]
                                    }),
                                )
                                &&& ecall_cx(
                                    cx0,
                                    final(tm).tasks@[cur as int].trap_cx,
                                    Option::Some(0),
                                )
                            },
                            Option::None => {
                                &&& r.control == (TrapControl::Shutdown { failure: false })
                                &&& final(tm).current_task == cur
                                &&& final(tm).tasks@ == mid
                            },
                        }
                    } else {
                        // exit, an unknown id, or an invalid write: the
                        // task is Exited (its saved x10 is never read
                        // again) and the next ready task runs
                        let mid = old(tm).tasks@.update(
                            cur as int,
                            (TaskControlBlock {
                                task_status: TaskStatus::Exited,
                                trap_cx: cx1,
                                ..old(tm).tasks@[cur as int]
                            }),
                        );
                        let st = mid.map(|i: int, t: TaskControlBlock| t.task_status);
                        &&& r.console@.len() == 0
                        &&& match crate::task::spec_find_next(st, cur as int, 1) {
                            Option::Some(j) => {
                                &&& r.control == (TrapControl::Switch {
                                    prev: cur,
                                    next: j as usize,
                                })
                                &&& final(tm).current_task == j
                                &&& final(tm).tasks@ == mid.update(
                                    j,
                                    (TaskControlBlock {
                                        task_status: TaskStatus::Running,
                                        ..mid[j]
                                    }),
                                )
                            },
                            Option::None => {
                                &&& r.control == (TrapControl::Shutdown { failure: false })
                                &&& final(tm).current_task == cur
                                &&& final(tm).tasks@ == mid
                            },
                        }
                    }
                },
            }
        }),
{
    let cause = decode_scause(scause);
    match cause {
        TrapCause::SupervisorTimer => {
            let deadline = set_next_trigger(now);
            let schedule = crate::task::suspend_current_and_run_next(tm);
            let control = match schedule {
                ScheduleOutcome::Switched { prev, next } => TrapControl::Switch { prev, next },
                ScheduleOutcome::AllDone => TrapControl::Shutdown { failure: false },
            };
            TrapOutcome { control, console: Vec::new(), set_timer: Some(deadline), log: None }
        },
        TrapCause::MemoryFault => {
            let cx = tm.get_current_trap_cx();
            let schedule = crate::task::exit_current_and_run_next(tm);
            let control = match schedule {
                ScheduleOutcome::Switched { prev, next } => TrapControl::Switch { prev, next },
                ScheduleOutcome::AllDone => TrapControl::Shutdown { failure: false },
            };
            TrapOutcome {
                control,
                console: Vec::new(),
                set_timer: None,
                log: Some(LogEvent::PageFault { bad_addr: stval, bad_instruction: cx.sepc }),
            }
        },
        TrapCause::IllegalInstruction => {
            let schedule = crate::task::exit_current_and_run_next(tm);
            let control = match schedule {
                ScheduleOutcome::Switched { prev, next } => TrapControl::Switch { prev, next },
                ScheduleOutcome::AllDone => TrapControl::Shutdown { failure: false },
            };
            TrapOutcome {
                control,
                console: Vec::new(),
                set_timer: None,
                log: Some(LogEvent::IllegalInstruction),
            }
        },
        TrapCause::Unknown => TrapOutcome {
            control: TrapControl::Shutdown { failure: true },
            console: Vec::new(),
            set_timer: None,
            log: None,
        },
        TrapCause::UserEnvCall => {
            let ghost cur0 = tm.current_task as int;
            let ghost cx0v = tm.tasks@[cur0].trap_cx;
            let mut cx = tm.get_current_trap_cx();
            cx.sepc = cx.sepc + 4;
            tm.set_current_trap_cx(cx);
            let ghost cx1v = cx;
            let ghost tm1 = *tm;
            proof {
                assert(cx1v == TrapContext { sepc: (cx0v.sepc + 4) as u64, ..cx0v });
                assert(tm1.tasks@ =~= old(tm).tasks@.update(
                    cur0,
                    (TaskControlBlock { trap_cx: cx1v, ..old(tm).tasks@[cur0] }),
                ));
            }
            let id = cx.x[17];
            let args = [cx.x[10], cx.x[11], cx.x[12]];
            let now_ms = get_time_ms(now);
            proof {
                assert(now_ms <= i64::MAX);
            }
            let outcome = syscall(tm, id, args, now_ms);
            match outcome {
                SyscallOutcome::Return { value, console } => {
                    let mut cx2 = tm.get_current_trap_cx();
                    cx2.x[10] = value as u64;
                    tm.set_current_trap_cx(cx2);
                    proof {
                        assert(cx2.x@ =~= cx0v.x@.update(10, value as u64));
                        assert(tm.tasks@ =~= old(tm).tasks@.update(
                            cur0,
                            (TaskControlBlock {
                                trap_cx: tm.tasks@[cur0].trap_cx,
                                ..old(tm).tasks@[cur0]
                            }),
                        ));
                    }
                    TrapOutcome {
                        control: TrapControl::ReturnToUser,
                        console,
                        set_timer: None,
                        log: None,
                    }
                },
                SyscallOutcome::Yielded { schedule } => {
                    let control = match schedule {
                        ScheduleOutcome::Switched { prev, next } => {
                            proof {
                                assert(prev == cur0);
                                assert(tm1.tasks@.update(
                                    cur0,
                                    (TaskControlBlock {
                                        task_status: TaskStatus::Ready,
                                        ..tm1.tasks@[cur0]
                                    }),
                                ) =~= old(tm).tasks@.update(
                                    cur0,
                                    (TaskControlBlock {
                                        task_status: TaskStatus::Ready,
                                        trap_cx: cx1v,
                                        ..old(tm).tasks@[cur0]
                                    }),
                                ));
                            }
                            let ghost tasks_sys = tm.tasks@;
                            proof {
                                let (t2g, jg) = spec_reschedule(
                                    tm1.tasks@,
                                    cur0,
                                    TaskStatus::Ready,
                                );
                                assert(tasks_sys == t2g);
                                let midg = tm1.tasks@.update(
                                    cur0,
                                    (TaskControlBlock {
                                        task_status: TaskStatus::Ready,
                                        ..tm1.tasks@[cur0]
                                    }),
                                );
                                assert(midg[cur0].trap_cx == cx1v);
                                let stg = midg.map(|i: int, t: TaskControlBlock| t.task_status);
                                crate::task::lemma_find_next_in_range(stg, cur0, 1);
                                match jg {
                                    Option::Some(j2) => {
                                        assert(0 <= j2 < midg.len());
                                        assert(t2g == midg.update(
                                            j2,
                                            (TaskControlBlock {
                                                task_status: TaskStatus::Running,
                                                ..midg[j2]
                                            }),
                                        ));
                                        assert(t2g[cur0].trap_cx == cx1v);
                                    },
                                    Option::None => {},
                                }
                                assert(tasks_sys[cur0].trap_cx == cx1v);
                            }
                            let mut cx2 = tm.tasks[prev].trap_cx;
                            cx2.x[10] = 0;
                            let t = &mut tm.tasks[prev];
                            t.trap_cx = cx2;
                            proof {
                                assert(cx2.x@ =~= cx0v.x@.update(10, 0u64));
                                assert(tm.tasks@ =~= tasks_sys.update(
                                    cur0,
                                    (TaskControlBlock {
                                        trap_cx: tm.tasks@[cur0].trap_cx,
                                        ..tasks_sys[cur0]
                                    }),
                                ));
                            }
                            TrapControl::Switch { prev, next }
                        },
                        ScheduleOutcome::AllDone => {
                            proof {
                                assert(tm1.tasks@.update(
                                    cur0,
                                    (TaskControlBlock {
                                        task_status: TaskStatus::Ready,
                                        ..tm1.tasks@[cur0]
                                    }),
                                ) =~= old(tm).tasks@.update(
                                    cur0,
                                    (TaskControlBlock {
                                        task_status: TaskStatus::Ready,
                                        trap_cx: cx1v,
                                        ..old(tm).tasks@[cur0]
                                    }),
                                ));
                            }
                            TrapControl::Shutdown { failure: false }
                        },
                    };
                    TrapOutcome { control, console: Vec::new(), set_timer: None, log: None }
                },
                SyscallOutcome::Exited { code: _, schedule } | SyscallOutcome::Killed {
                    schedule,
                } => {
                    proof {
                        assert(tm1.tasks@.update(
                            cur0,
                            (TaskControlBlock {
                                task_status: TaskStatus::Exited,
                                ..tm1.tasks@[cur0]
                            }),
                        ) =~= old(tm).tasks@.update(
                            cur0,
                            (TaskControlBlock {
                                task_status: TaskStatus::Exited,
                                trap_cx: cx1v,
                                ..old(tm).tasks@[cur0]
                            }),
                        ));
                    }
                    let control = match schedule {
                        ScheduleOutcome::Switched { prev, next } => TrapControl::Switch {
                            prev,
                            next,
                        },
                        ScheduleOutcome::AllDone => TrapControl::Shutdown { failure: false },
                    };
                    TrapOutcome { control, console: Vec::new(), set_timer: None, log: None }
                },
            }
        },
    }
}

/// The values the kernel loads before jumping into the trampoline's
/// restore routine: the routine's address inside the trampoline page, the
/// trap-context address for `a0`, and the user token for `a1`.
pub fn trap_return(tm: &TaskManager, alltraps_va: u64, restore_va: u64) -> (r: (u64, u64, u64))
    requires
        tm.wf(),
        alltraps_va <= restore_va,
        restore_va - alltraps_va < crate::config::PAGE_SIZE,
        tm.tasks@[tm.current_task as int].memory_set.page_table.root_ppn.0
            < crate::config::PPN_BOUND,
    ensures
        r.0 == TRAMPOLINE_ADDR + (restore_va - alltraps_va),
        r.1 == TRAP_CONTEXT_ADDR,
        r.2 == 0x8000_0000_0000_0000u64 + tm.tasks@[
            tm.current_task as int
        ].memory_set.page_table.root_ppn.0,
{
    let restore_offset = restore_va - alltraps_va;
    let jump_target = TRAMPOLINE_ADDR + restore_offset;
    let user_satp = tm.get_current_satp();
    (jump_target, TRAP_CONTEXT_ADDR, user_satp)
}

} // verus!
