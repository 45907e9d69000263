//! The saved user-side processor state of a task.
//!
//! The trap context lives in the framed page mapped at `TRAP_CONTEXT_ADDR`
//! of each user space; the trampoline saves the user registers into it on
//! entry and restores them on return. Register `x[2]` is the user stack
//! pointer, `x[10]..x[12]` carry syscall arguments, `x[17]` the syscall id.

use vstd::prelude::*;

verus! {

/// Bit 8 of the supervisor status register: the privilege level to return
/// to on `sret` (0 is user mode).
pub const SSTATUS_SPP: u64 = 0x100;

/// Saved user state: all general registers, the status register, the
/// exception program counter, and the kernel-side values the trampoline
/// needs to re-enter the kernel.
#[derive(Clone, Copy, Debug, PartialEq, Eq)]
pub struct TrapContext {
    /// General registers `x0..x31`; `x0` is unused, `x2` is the stack
    /// pointer slot.
    pub x: [u64; 32],
    /// The supervisor status register as saved on entry.
    pub sstatus: u64,
    /// The supervisor exception program counter: where `sret` returns to.
    pub sepc: u64,
    /// The kernel address space's token.
    pub kernel_satp: u64,
    /// The kernel stack pointer to use on the next trap entry.
    pub kernel_sp: u64,
    /// The virtual address of the kernel's trap handler.
    pub trap_handler: u64,
}

/// Clearing the previous-privilege bit leaves every other bit alone and
/// makes `sret` return to user mode.
proof fn lemma_sstatus_spp_clear(s: u64)
    by (bit_vector)
    ensures
        (s & 0xFFFF_FFFF_FFFF_FEFFu64) & 0x100u64 == 0,
        forall|b: u64|
            b < 64 && b != 8 ==> ((s & 0xFFFF_FFFF_FFFF_FEFFu64) >> b) & 1u64 == (s >> b) & 1u64,
{
}

impl TrapContext {
    /// The saved status returns to user mode on `sret`.
    pub open spec fn spp_is_user(self) -> bool {
        self.sstatus & SSTATUS_SPP == 0
    }

    /// Sets the saved user stack pointer (register `x2`).
    pub fn set_sp(&mut self, sp: u64)
        ensures
            final(self).x@ == old(self).x@.update(2, sp),
            final(self).sstatus == old(self).sstatus,
            final(self).sepc == old(self).sepc,
            final(self).kernel_satp == old(self).kernel_satp,
            final(self).kernel_sp == old(self).kernel_sp,
            final(self).trap_handler == old(self).trap_handler,
    {
        self.x[2] = sp;
    }

    /// The initial trap context of a task: on the first `sret` the task
    /// starts at `entry` with stack pointer `sp` in user mode, and the
    /// next trap re-enters the kernel with the given token, stack and
    /// handler. `prev_sstatus` is the current value of the status register;
    /// only its previous-privilege bit is changed.
    pub fn init_context(
        entry: u64,
        sp: u64,
        kernel_satp: u64,
        kernel_sp: u64,
        trap_handler: u64,
        prev_sstatus: u64,
    ) -> (r: Self)
        ensures
            r.sepc == entry,
            r.x@[2] == sp,
            forall|i: int| 0 <= i < 32 && i != 2 ==> r.x@[i] == 0,
            r.kernel_satp == kernel_satp,
            r.kernel_sp == kernel_sp,
            r.trap_handler == trap_handler,
            r.sstatus == prev_sstatus & 0xFFFF_FFFF_FFFF_FEFFu64,
            r.spp_is_user(),
    {
        proof {
            lemma_sstatus_spp_clear(prev_sstatus);
        }
        let sstatus = prev_sstatus & 0xFFFF_FFFF_FFFF_FEFFu64;
        let mut cx = TrapContext {
            x: [0; 32],
            sstatus,
            sepc: entry,
            kernel_satp,
            kernel_sp,
            trap_handler,
        };
        cx.set_sp(sp);
        cx
    }
}

} // verus!
