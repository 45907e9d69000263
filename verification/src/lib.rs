//! A verified model of a small SV39 teaching kernel: physical-frame
//! allocation, three-level page tables, per-address-space memory sets built
//! from ELF images, a round-robin task scheduler, and the trap / syscall
//! dispatch that ties them together.
//!
//! Hardware effects (CSR writes, SBI calls, the context-switch primitive) are
//! represented as values returned to the caller; everything the kernel
//! decides or computes is verified here.

pub mod config;
pub mod address;
pub mod frame_allocator;
pub mod page_table;
pub mod elf;
pub mod memory_set;
pub mod trap_context;
pub mod timer;
pub mod task;
pub mod syscall;
pub mod trap;
