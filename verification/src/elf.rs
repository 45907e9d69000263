//! The little slice of ELF64 the loader reads.
//!
//! An application image is a 64-bit little-endian ELF whose `LOAD` program
//! headers say which file bytes go at which virtual addresses. These
//! functions read exactly those fields, each proved equal to the
//! little-endian value of the underlying bytes.

use vstd::prelude::*;
use crate::config::{PAGE_SIZE, TRAP_CONTEXT_VPN};

verus! {

/// Program-header type of a loadable segment.
pub const PT_LOAD: u64 = 1;

/// Size in bytes of one ELF64 program header.
pub const PH_ENTRY_SIZE: u64 = 56;

/// Segment flag bit: executable.
pub const PF_X: u64 = 1;

/// Segment flag bit: writable.
pub const PF_W: u64 = 2;

/// Segment flag bit: readable.
pub const PF_R: u64 = 4;

/// The little-endian 16-bit value at `off`.
pub open spec fn le_u16(s: Seq<u8>, off: int) -> int {
    s[off] + 0x100 * s[off + 1]
}

/// The little-endian 32-bit value at `off`.
pub open spec fn le_u32(s: Seq<u8>, off: int) -> int {
    le_u16(s, off) + 0x1_0000 * le_u16(s, off + 2)
}

/// The little-endian 64-bit value at `off`.
pub open spec fn le_u64(s: Seq<u8>, off: int) -> int {
    le_u32(s, off) + 0x1_0000_0000 * le_u32(s, off + 4)
}

/// Reads the little-endian 16-bit value at `off`.
pub fn read_u16(s: &[u8], off: usize) -> (r: u64)
    requires
        off + 2 <= s@.len(),
    ensures
        r == le_u16(s@, off as int),
        r < 0x1_0000,
{
    s[off] as u64 + 0x100 * (s[off + 1] as u64)
}

/// Reads the little-endian 32-bit value at `off`.
pub fn read_u32(s: &[u8], off: usize) -> (r: u64)
    requires
        off + 4 <= s@.len(),
    ensures
        r == le_u32(s@, off as int),
        r < 0x1_0000_0000,
{
    let n = s.len();
    read_u16(s, off) + 0x1_0000 * read_u16(s, off + 2)
}

/// Reads the little-endian 64-bit value at `off`.
pub fn read_u64(s: &[u8], off: usize) -> (r: u64)
    requires
        off + 8 <= s@.len(),
    ensures
        r == le_u64(s@, off as int),
{
    let n = s.len();
    read_u32(s, off) + 0x1_0000_0000 * read_u32(s, off + 4)
}

/// The image starts with the ELF magic and is big enough to hold a header.
pub open spec fn elf_magic_ok(s: Seq<u8>) -> bool {
    &&& s.len() >= 64
    &&& s[0] == 0x7f
    &&& s[1] == 0x45
    &&& s[2] == 0x4c
    &&& s[3] == 0x46
}

/// The image's entry point.
pub open spec fn elf_entry(s: Seq<u8>) -> int {
    le_u64(s, 24)
}

/// The file offset of the program-header table.
pub open spec fn elf_phoff(s: Seq<u8>) -> int {
    le_u64(s, 32)
}

/// The number of program headers.
pub open spec fn elf_phnum(s: Seq<u8>) -> int {
    le_u16(s, 56)
}

/// The file offset of program header `i`.
pub open spec fn ph_pos(s: Seq<u8>, i: int) -> int {
    elf_phoff(s) + i * (PH_ENTRY_SIZE as int)
}

/// The type of segment `i`.
pub open spec fn ph_type(s: Seq<u8>, i: int) -> int {
    le_u32(s, ph_pos(s, i))
}

/// Whether segment `i` is loadable.
pub open spec fn ph_is_load(s: Seq<u8>, i: int) -> bool {
    ph_type(s, i) == PT_LOAD
}

/// The permission flags of segment `i`.
pub open spec fn ph_flags(s: Seq<u8>, i: int) -> int {
    le_u32(s, ph_pos(s, i) + 4)
}

/// The file offset of segment `i`'s bytes.
pub open spec fn ph_offset(s: Seq<u8>, i: int) -> int {
    le_u64(s, ph_pos(s, i) + 8)
}

/// The virtual address segment `i` is loaded at.
pub open spec fn ph_vaddr(s: Seq<u8>, i: int) -> int {
    le_u64(s, ph_pos(s, i) + 16)
}

/// The number of bytes of segment `i` present in the file.
pub open spec fn ph_filesz(s: Seq<u8>, i: int) -> int {
    le_u64(s, ph_pos(s, i) + 32)
}

/// The size of segment `i` in memory; bytes past `filesz` are zero.
pub open spec fn ph_memsz(s: Seq<u8>, i: int) -> int {
    le_u64(s, ph_pos(s, i) + 40)
}

/// One past the last page of segment `i`.
pub open spec fn ph_end_vpn(s: Seq<u8>, i: int) -> int {
    (ph_vaddr(s, i) + ph_memsz(s, i) + PAGE_SIZE - 1) / (PAGE_SIZE as int)
}

/// The pages loadable segment `i` covers.
pub open spec fn ph_pages(s: Seq<u8>, i: int) -> int {
    ph_end_vpn(s, i) - ph_vaddr(s, i) / (PAGE_SIZE as int)
}

/// Total pages of the loadable segments with index at least `i`.
pub open spec fn elf_pages_from(s: Seq<u8>, i: int) -> int
    decreases elf_phnum(s) - i,
{
    if i >= elf_phnum(s) || i < 0 {
        0
    } else if ph_is_load(s, i) {
        ph_pages(s, i) + elf_pages_from(s, i + 1)
    } else {
        elf_pages_from(s, i + 1)
    }
}

/// One past the last page used by the loadable segments with index below
/// `i`; zero when there is none.
pub open spec fn elf_max_end_vpn(s: Seq<u8>, i: int) -> int
    decreases i,
{
    if i <= 0 {
        0
    } else if ph_is_load(s, i - 1) {
        ph_end_vpn(s, i - 1)
    } else {
        elf_max_end_vpn(s, i - 1)
    }
}

/// An image the loader accepts: correct magic, a program-header table of
/// 56-byte entries that lies inside the image, and loadable segments that
/// are page-aligned, lie inside the image, fit below the pages reserved
/// for the user stack and trap context, and ascend in page order.
pub open spec fn elf_wf(s: Seq<u8>) -> bool {
    &&& elf_magic_ok(s)
    &&& le_u16(s, 54) == PH_ENTRY_SIZE
    &&& elf_phoff(s) + elf_phnum(s) * (PH_ENTRY_SIZE as int) <= s.len()
    &&& s.len() < 0x1_0000_0000
    &&& forall|i: int|
        0 <= i < elf_phnum(s) && #[trigger] ph_is_load(s, i) ==> {
            &&& ph_offset(s, i) + ph_filesz(s, i) <= s.len()
            &&& ph_filesz(s, i) <= ph_memsz(s, i)
            &&& ph_vaddr(s, i) % (PAGE_SIZE as int) == 0
            &&& ph_vaddr(s, i) + ph_memsz(s, i) < (TRAP_CONTEXT_VPN - 4) * PAGE_SIZE
            &&& elf_max_end_vpn(s, i) <= ph_vaddr(s, i) / (PAGE_SIZE as int)
        }
}

} // verus!
