use sv39_kernel::address::PhysPageNum;
use sv39_kernel::config::{
    kernel_stack_pos, CLOCK_FREQ, MSEC_PER_SEC, PAGE_SIZE, TICKS_PER_SEC, TRAP_CONTEXT_VPN,
    VA_BOUND,
};
use sv39_kernel::frame_allocator::StackFrameAllocator;
use sv39_kernel::memory_set::{KernelLayout, MemorySet};
use sv39_kernel::syscall::{
    syscall, SyscallOutcome, SYSCALL_EXIT, SYSCALL_GET_TIME, SYSCALL_WRITE, SYSCALL_YIELD,
};
use sv39_kernel::task::{
    exit_current_and_run_next, suspend_current_and_run_next, ScheduleOutcome, TaskContext,
    TaskControlBlock, TaskManager, TaskStatus,
};
use sv39_kernel::timer::{get_time_ms, set_next_trigger};
use sv39_kernel::trap::{
    decode_scause, trap_handler, trap_return, LogEvent, TrapCause, TrapControl,
    SCAUSE_STORE_PAGE_FAULT, SCAUSE_SUPERVISOR_TIMER, SCAUSE_USER_ENV_CALL,
};
use sv39_kernel::trap_context::TrapContext;

fn fresh_allocator() -> StackFrameAllocator {
    let mut fa = StackFrameAllocator::new();
    fa.init(PhysPageNum(0x80200), PhysPageNum(0x88000));
    fa
}

fn dummy_task(fa: &mut StackFrameAllocator, status: TaskStatus) -> TaskControlBlock {
    TaskControlBlock {
        task_status: status,
        task_cx: TaskContext::empty(),
        memory_set: MemorySet::default(fa),
        trap_cx_ppn: PhysPageNum(0),
        trap_cx: TrapContext::init_context(0, 0, 0, 0, 0, 0),
        base_size: 0,
    }
}

fn three_ready_tasks() -> TaskManager {
    let mut fa = fresh_allocator();
    let tasks = vec![
        dummy_task(&mut fa, TaskStatus::Ready),
        dummy_task(&mut fa, TaskStatus::Ready),
        dummy_task(&mut fa, TaskStatus::Ready),
    ];
    TaskManager { tasks, current_task: 0 }
}

fn write_u16(bytes: &mut Vec<u8>, off: usize, v: u16) {
    bytes[off] = (v & 0xff) as u8;
    bytes[off + 1] = (v >> 8) as u8;
}

fn write_u32(bytes: &mut Vec<u8>, off: usize, v: u32) {
    for i in 0..4 {
        bytes[off + i] = ((v >> (8 * i)) & 0xff) as u8;
    }
}

fn write_u64(bytes: &mut Vec<u8>, off: usize, v: u64) {
    for i in 0..8 {
        bytes[off + i] = ((v >> (8 * i)) & 0xff) as u8;
    }
}

/// A minimal ELF64 image with one loadable segment.
fn build_elf(entry: u64, vaddr: u64, data: &[u8], memsz: u64, flags: u32) -> Vec<u8> {
    let data_off = 64 + 56;
    let mut bytes = vec![0u8; data_off + data.len()];
    bytes[0] = 0x7f;
    bytes[1] = 0x45;
    bytes[2] = 0x4c;
    bytes[3] = 0x46;
    write_u64(&mut bytes, 24, entry);
    write_u64(&mut bytes, 32, 64); // program-header table offset
    write_u16(&mut bytes, 54, 56); // program-header entry size
    write_u16(&mut bytes, 56, 1); // one program header
    write_u32(&mut bytes, 64, 1); // PT_LOAD
    write_u32(&mut bytes, 68, flags);
    write_u64(&mut bytes, 72, data_off as u64);
    write_u64(&mut bytes, 80, vaddr);
    write_u64(&mut bytes, 96, data.len() as u64);
    write_u64(&mut bytes, 104, memsz);
    bytes[data_off..].copy_from_slice(data);
    bytes
}

fn test_layout() -> KernelLayout {
    KernelLayout {
        stext: 0x8020_0000,
        etext: 0x8020_4000,
        srodata: 0x8020_4000,
        erodata: 0x8020_6000,
        sdata: 0x8020_6000,
        edata: 0x8020_8000,
        sbss_with_stack: 0x8020_8000,
        ebss: 0x8020_a000,
        ekernel: 0x8020_a000,
        strampoline: 0x8020_0000,
        memory_end: 0x8021_0000,
    }
}

#[test]
fn timer_arithmetic() {
    assert_eq!(set_next_trigger(1000), 1000 + CLOCK_FREQ / TICKS_PER_SEC);
    assert_eq!(get_time_ms(3 * CLOCK_FREQ), 3 * MSEC_PER_SEC);
}

#[test]
fn scause_decoding() {
    assert_eq!(decode_scause(SCAUSE_USER_ENV_CALL), TrapCause::UserEnvCall);
    assert_eq!(decode_scause(SCAUSE_SUPERVISOR_TIMER), TrapCause::SupervisorTimer);
    assert_eq!(decode_scause(2), TrapCause::IllegalInstruction);
    assert_eq!(decode_scause(5), TrapCause::MemoryFault);
    assert_eq!(decode_scause(7), TrapCause::MemoryFault);
    assert_eq!(decode_scause(13), TrapCause::MemoryFault);
    assert_eq!(decode_scause(15), TrapCause::MemoryFault);
    assert_eq!(decode_scause(99), TrapCause::Unknown);
}

#[test]
fn round_robin_cycles_through_ready_tasks() {
    let mut tm = three_ready_tasks();
    let first = tm.run_first_task();
    assert_eq!(first, 0);
    let mut order = vec![tm.current_task];
    for _ in 0..6 {
        match suspend_current_and_run_next(&mut tm) {
            ScheduleOutcome::Switched { next, .. } => order.push(next),
            ScheduleOutcome::AllDone => panic!("tasks disappeared"),
        }
    }
    assert_eq!(order, vec![0, 1, 2, 0, 1, 2, 0]);
}

#[test]
fn exited_tasks_are_skipped_forever() {
    let mut tm = three_ready_tasks();
    tm.run_first_task();
    // task 0 exits; afterwards only 1 and 2 alternate
    match exit_current_and_run_next(&mut tm) {
        ScheduleOutcome::Switched { prev, next } => {
            assert_eq!(prev, 0);
            assert_eq!(next, 1);
        },
        _ => panic!("expected a switch"),
    }
    let mut order = Vec::new();
    for _ in 0..4 {
        match suspend_current_and_run_next(&mut tm) {
            ScheduleOutcome::Switched { next, .. } => order.push(next),
            _ => panic!("expected a switch"),
        }
    }
    assert_eq!(order, vec![2, 1, 2, 1]);
    assert_eq!(tm.tasks[0].task_status, TaskStatus::Exited);
}

#[test]
fn last_task_exit_shuts_down() {
    let mut fa = fresh_allocator();
    let tasks = vec![dummy_task(&mut fa, TaskStatus::Running)];
    let mut tm = TaskManager { tasks, current_task: 0 };
    assert_eq!(exit_current_and_run_next(&mut tm), ScheduleOutcome::AllDone);
}

#[test]
fn write_syscall_returns_buffer_bytes() {
    let mut fa = fresh_allocator();
    let hello = build_elf(0x10000, 0x10000, b"Hello, world!\n", 14, 4);
    let (ms, _sp, _entry) = MemorySet::from_elf(&hello, PhysPageNum(0x80200), &mut fa);
    let mut tm = TaskManager {
        tasks: vec![TaskControlBlock {
            task_status: TaskStatus::Running,
            task_cx: TaskContext::empty(),
            memory_set: ms,
            trap_cx_ppn: PhysPageNum(0),
            trap_cx: TrapContext::init_context(0, 0, 0, 0, 0, 0),
            base_size: 0,
        }],
        current_task: 0,
    };
    match syscall(&mut tm, SYSCALL_WRITE, [1, 0x10000, 14], 0) {
        SyscallOutcome::Return { value, console } => {
            assert_eq!(value, 14);
            assert_eq!(console, b"Hello, world!\n".to_vec());
        },
        _ => panic!("expected a completed write"),
    }
}

#[test]
fn write_to_bad_descriptor_kills_the_task() {
    let mut fa = fresh_allocator();
    let tasks = vec![
        dummy_task(&mut fa, TaskStatus::Running),
        dummy_task(&mut fa, TaskStatus::Ready),
    ];
    let mut tm = TaskManager { tasks, current_task: 0 };
    match syscall(&mut tm, SYSCALL_WRITE, [2, 0, 0], 0) {
        SyscallOutcome::Killed { schedule } => {
            assert_eq!(schedule, ScheduleOutcome::Switched { prev: 0, next: 1 });
        },
        _ => panic!("expected the task to be killed"),
    }
    assert_eq!(tm.tasks[0].task_status, TaskStatus::Exited);
    assert_eq!(tm.tasks[1].task_status, TaskStatus::Running);
}

#[test]
fn unknown_syscall_kills_the_task() {
    let mut fa = fresh_allocator();
    let tasks = vec![dummy_task(&mut fa, TaskStatus::Running)];
    let mut tm = TaskManager { tasks, current_task: 0 };
    match syscall(&mut tm, 9999, [0, 0, 0], 0) {
        SyscallOutcome::Killed { schedule } => assert_eq!(schedule, ScheduleOutcome::AllDone),
        _ => panic!("expected the task to be killed"),
    }
}

#[test]
fn exit_and_get_time_syscalls() {
    let mut fa = fresh_allocator();
    let tasks = vec![dummy_task(&mut fa, TaskStatus::Running)];
    let mut tm = TaskManager { tasks, current_task: 0 };
    match syscall(&mut tm, SYSCALL_GET_TIME, [0, 0, 0], 42) {
        SyscallOutcome::Return { value, console } => {
            assert_eq!(value, 42);
            assert!(console.is_empty());
        },
        _ => panic!("expected a return"),
    }
    match syscall(&mut tm, SYSCALL_EXIT, [7, 0, 0], 0) {
        SyscallOutcome::Exited { code, schedule } => {
            assert_eq!(code, 7);
            assert_eq!(schedule, ScheduleOutcome::AllDone);
        },
        _ => panic!("expected an exit"),
    }
}

#[test]
fn timer_tick_preempts_the_running_task() {
    let mut tm = three_ready_tasks();
    tm.run_first_task();
    let now = 5_000_000;
    let outcome = trap_handler(&mut tm, SCAUSE_SUPERVISOR_TIMER, 0, now);
    assert_eq!(outcome.control, TrapControl::Switch { prev: 0, next: 1 });
    assert_eq!(outcome.set_timer, Some(now + CLOCK_FREQ / TICKS_PER_SEC));
    assert!(outcome.console.is_empty());
    assert_eq!(tm.tasks[0].task_status, TaskStatus::Ready);
    assert_eq!(tm.tasks[1].task_status, TaskStatus::Running);
}

#[test]
fn store_fault_at_null_kills_task_and_kernel_continues() {
    let mut tm = three_ready_tasks();
    tm.run_first_task();
    tm.tasks[0].trap_cx.sepc = 0x10074;
    let outcome = trap_handler(&mut tm, SCAUSE_STORE_PAGE_FAULT, 0x0, 0);
    assert_eq!(
        outcome.log,
        Some(LogEvent::PageFault { bad_addr: 0x0, bad_instruction: 0x10074 })
    );
    assert_eq!(outcome.control, TrapControl::Switch { prev: 0, next: 1 });
    assert_eq!(tm.tasks[0].task_status, TaskStatus::Exited);
    assert_eq!(tm.tasks[1].task_status, TaskStatus::Running);
}

#[test]
fn unknown_trap_cause_is_fatal() {
    let mut tm = three_ready_tasks();
    tm.run_first_task();
    let outcome = trap_handler(&mut tm, 31, 0, 0);
    assert_eq!(outcome.control, TrapControl::Shutdown { failure: true });
}

#[test]
fn hello_task_runs_to_completion() {
    // a user image whose only action is write(1, "Hello, world!\n", 14)
    // followed by exit(0)
    let mut fa = fresh_allocator();
    let mut kernel_space = MemorySet::init_kernel_space(test_layout(), &mut fa);
    let hello = build_elf(0x10000, 0x10000, b"Hello, world!\n", 14, 4);
    let task = TaskControlBlock::new(
        0,
        &hello,
        PhysPageNum(0x80200),
        &mut kernel_space,
        &mut fa,
        0x8020_1000,
        0x8020_2000,
        0,
    );
    assert_eq!(task.trap_cx.sepc, 0x10000);
    assert_eq!(task.task_cx.ra, 0x8020_2000);
    assert!(task
        .memory_set
        .translate(sv39_kernel::address::VirtPageNum(TRAP_CONTEXT_VPN))
        .is_some());
    let mut tm = TaskManager { tasks: vec![task], current_task: 0 };
    tm.run_first_task();
    // the program issues the write ecall
    let mut cx = tm.get_current_trap_cx();
    cx.x[17] = SYSCALL_WRITE;
    cx.x[10] = 1;
    cx.x[11] = 0x10000;
    cx.x[12] = 14;
    tm.set_current_trap_cx(cx);
    let outcome = trap_handler(&mut tm, SCAUSE_USER_ENV_CALL, 0, 0);
    assert_eq!(outcome.control, TrapControl::ReturnToUser);
    assert_eq!(outcome.console, b"Hello, world!\n".to_vec());
    assert_eq!(tm.get_current_trap_cx().x[10], 14);
    // then it exits; no task is left, so the machine shuts down cleanly
    let mut cx = tm.get_current_trap_cx();
    cx.x[17] = SYSCALL_EXIT;
    cx.x[10] = 0;
    tm.set_current_trap_cx(cx);
    let outcome = trap_handler(&mut tm, SCAUSE_USER_ENV_CALL, 0, 0);
    assert_eq!(outcome.control, TrapControl::Shutdown { failure: false });
    assert_eq!(tm.tasks[0].task_status, TaskStatus::Exited);
}

#[test]
fn yield_pair_alternates() {
    let mut fa = fresh_allocator();
    let tasks = vec![
        dummy_task(&mut fa, TaskStatus::Ready),
        dummy_task(&mut fa, TaskStatus::Ready),
    ];
    let mut tm = TaskManager { tasks, current_task: 0 };
    tm.run_first_task();
    let mut order = vec![tm.current_task];
    for _ in 0..9 {
        let mut cx = tm.get_current_trap_cx();
        cx.x[17] = SYSCALL_YIELD;
        tm.set_current_trap_cx(cx);
        match trap_handler(&mut tm, SCAUSE_USER_ENV_CALL, 0, 0).control {
            TrapControl::Switch { next, .. } => order.push(next),
            _ => panic!("expected a switch"),
        }
        // the yielded task gets 0 back in a0
        assert_eq!(tm.tasks[order[order.len() - 2]].trap_cx.x[10], 0);
    }
    assert_eq!(order, vec![0, 1, 0, 1, 0, 1, 0, 1, 0, 1]);
}

#[test]
fn trap_return_targets_the_trampoline() {
    let mut fa = fresh_allocator();
    let tasks = vec![dummy_task(&mut fa, TaskStatus::Running)];
    let tm = TaskManager { tasks, current_task: 0 };
    let (target, a0, a1) = trap_return(&tm, 0x8020_0000, 0x8020_0080);
    assert_eq!(target, sv39_kernel::config::TRAMPOLINE_ADDR + 0x80);
    assert_eq!(a0, sv39_kernel::config::TRAP_CONTEXT_ADDR);
    assert_eq!(a1, tm.tasks[0].memory_set.token());
}

#[test]
fn ecall_advances_sepc_and_touches_only_a0() {
    let mut fa = fresh_allocator();
    let tasks = vec![dummy_task(&mut fa, TaskStatus::Running)];
    let mut tm = TaskManager { tasks, current_task: 0 };
    let mut cx = tm.get_current_trap_cx();
    cx.sepc = 0x10040;
    cx.x[11] = 0xDEAD;
    cx.x[17] = SYSCALL_GET_TIME;
    tm.set_current_trap_cx(cx);
    let outcome = trap_handler(&mut tm, SCAUSE_USER_ENV_CALL, 0, 5 * CLOCK_FREQ);
    assert_eq!(outcome.control, TrapControl::ReturnToUser);
    let after = tm.get_current_trap_cx();
    // the program counter moved past the ecall, a0 got the time in
    // milliseconds, and every other register kept its value
    assert_eq!(after.sepc, 0x10044);
    assert_eq!(after.x[10], 5 * MSEC_PER_SEC);
    assert_eq!(after.x[11], 0xDEAD);
    assert_eq!(after.x[17], SYSCALL_GET_TIME);
    assert_eq!(after.sstatus, cx.sstatus);
    assert_eq!(after.kernel_sp, cx.kernel_sp);
}

#[test]
fn yielding_task_keeps_its_registers() {
    let mut fa = fresh_allocator();
    let tasks = vec![
        dummy_task(&mut fa, TaskStatus::Running),
        dummy_task(&mut fa, TaskStatus::Ready),
    ];
    let mut tm = TaskManager { tasks, current_task: 0 };
    let mut cx = tm.get_current_trap_cx();
    cx.sepc = 0x2000;
    cx.x[12] = 77;
    cx.x[17] = SYSCALL_YIELD;
    tm.set_current_trap_cx(cx);
    let outcome = trap_handler(&mut tm, SCAUSE_USER_ENV_CALL, 0, 0);
    assert_eq!(outcome.control, TrapControl::Switch { prev: 0, next: 1 });
    assert_eq!(tm.tasks[0].task_status, TaskStatus::Ready);
    assert_eq!(tm.tasks[1].task_status, TaskStatus::Running);
    // the yielded task resumes after the ecall with 0 in a0; its other
    // registers are untouched
    assert_eq!(tm.tasks[0].trap_cx.sepc, 0x2004);
    assert_eq!(tm.tasks[0].trap_cx.x[10], 0);
    assert_eq!(tm.tasks[0].trap_cx.x[12], 77);
}

#[test]
fn new_task_gets_a_mapped_kernel_stack() {
    let mut fa = fresh_allocator();
    let mut kernel_space = MemorySet::init_kernel_space(test_layout(), &mut fa);
    let hello = build_elf(0x10000, 0x10000, b"Hello, world!\n", 14, 4);
    let task = TaskControlBlock::new(
        0,
        &hello,
        PhysPageNum(0x80200),
        &mut kernel_space,
        &mut fa,
        0x8020_1000,
        0x8020_2000,
        0,
    );
    // the kernel context and trap context both name the stack top of task 0
    let (bottom, top) = kernel_stack_pos(0);
    assert_eq!(task.task_cx.sp, top);
    assert_eq!(task.trap_cx.kernel_sp, top);
    assert_eq!(task.trap_cx.kernel_satp, kernel_space.token());
    // the stack's two pages are mapped read/write (and kernel-only) in the
    // kernel space; the guard page below them is not
    let bottom_vpn = (bottom % VA_BOUND) / PAGE_SIZE;
    for v in bottom_vpn..bottom_vpn + 2 {
        let pte = kernel_space
            .translate(sv39_kernel::address::VirtPageNum(v))
            .unwrap();
        assert!(pte.writable());
        assert!(pte.readable());
        assert!(!pte.user());
    }
    assert!(kernel_space
        .translate(sv39_kernel::address::VirtPageNum(bottom_vpn - 1))
        .is_none());
}

#[test]
fn kernel_space_maps_nothing_else() {
    let mut fa = fresh_allocator();
    let layout = test_layout();
    let kernel = MemorySet::init_kernel_space(layout, &mut fa);
    // below the image, above the managed memory, and way up high: unmapped
    for vpn in [0u64, 1, layout.stext / PAGE_SIZE - 1, layout.memory_end / PAGE_SIZE,
        0x100_0000, TRAP_CONTEXT_VPN] {
        assert!(kernel.translate(sv39_kernel::address::VirtPageNum(vpn)).is_none());
    }
    // and no mapped kernel page is user-accessible
    for vpn in layout.stext / PAGE_SIZE..layout.memory_end / PAGE_SIZE {
        if let Some(pte) = kernel.translate(sv39_kernel::address::VirtPageNum(vpn)) {
            assert!(!pte.user());
        }
    }
}
