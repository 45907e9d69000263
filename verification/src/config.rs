//! Fixed memory-layout and timing constants of the kernel.

use vstd::prelude::*;

verus! {

/// Number of low address bits that select a byte within a page.
pub const PAGE_OFFSET_BITS: u64 = 12;

/// Page size in bytes (4 KiB).
pub const PAGE_SIZE: u64 = 4096;

/// Number of page-table entries in one page-table page.
pub const PTES_PER_PAGE: u64 = 512;

/// 2^56: one past the largest SV39 physical address.
pub const PA_BOUND: u64 = 0x100_0000_0000_0000;

/// 2^39: one past the largest SV39 virtual address.
pub const VA_BOUND: u64 = 0x80_0000_0000;

/// 2^44: one past the largest SV39 physical page number.
pub const PPN_BOUND: u64 = 0x1000_0000_0000;

/// 2^27: one past the largest SV39 virtual page number.
pub const VPN_BOUND: u64 = 0x800_0000;

/// User stack size in bytes (8 KiB).
pub const USER_STACK_SIZE: u64 = 8192;

/// Kernel stack size in bytes (8 KiB).
pub const KERNEL_STACK_SIZE: u64 = 8192;

/// Virtual address of the trampoline page: the topmost page of the
/// (sign-extended) virtual address space.
pub const TRAMPOLINE_ADDR: u64 = u64::MAX - PAGE_SIZE + 1;

/// Virtual address of a task's trap-context page, just below the trampoline.
pub const TRAP_CONTEXT_ADDR: u64 = TRAMPOLINE_ADDR - PAGE_SIZE;

/// One past the last usable physical address.
pub const MEMORY_END: u64 = 0x8800_0000;

/// The virtual page number of the trampoline page: `TRAMPOLINE_ADDR`
/// truncated to the 39-bit space, divided by the page size.
pub const TRAMPOLINE_VPN: u64 = 0x7FF_FFFF;

/// The virtual page number of a task's trap-context page.
pub const TRAP_CONTEXT_VPN: u64 = 0x7FF_FFFE;

/// Timer frequency of the board in Hz.
pub const CLOCK_FREQ: u64 = 10_000_000;

/// Number of timer interrupts per second the kernel asks for.
pub const TICKS_PER_SEC: u64 = 100;

/// Milliseconds per second, for converting timer ticks.
pub const MSEC_PER_SEC: u64 = 1000;

/// Returns the bottom and top virtual addresses of the kernel stack of task
/// `app_id`: stacks hang below the trampoline, one guard page between
/// consecutive stacks.
pub fn kernel_stack_pos(app_id: u64) -> (r: (u64, u64))
    requires
        app_id * (KERNEL_STACK_SIZE + PAGE_SIZE) + KERNEL_STACK_SIZE <= TRAMPOLINE_ADDR,
    ensures
        r.1 == TRAMPOLINE_ADDR - app_id * (KERNEL_STACK_SIZE + PAGE_SIZE),
        r.0 == r.1 - KERNEL_STACK_SIZE,
{
    let top = TRAMPOLINE_ADDR - app_id * (KERNEL_STACK_SIZE + PAGE_SIZE);
    let bottom = top - KERNEL_STACK_SIZE;
    (bottom, top)
}

} // verus!
