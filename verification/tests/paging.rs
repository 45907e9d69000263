use sv39_kernel::address::{PhysAddr, PhysPageNum, VirtAddr, VirtPageNum};
use sv39_kernel::config::{kernel_stack_pos, PAGE_SIZE, TRAMPOLINE_ADDR, TRAMPOLINE_VPN};
use sv39_kernel::frame_allocator::StackFrameAllocator;
use sv39_kernel::memory_set::{KernelLayout, MemorySet, MAP_PERM_R, MAP_PERM_W, MAP_PERM_X};
use sv39_kernel::page_table::{PageTable, PageTableEntry, PTE_R, PTE_U, PTE_V, PTE_W, PTE_X};

fn fresh_allocator() -> StackFrameAllocator {
    let mut fa = StackFrameAllocator::new();
    fa.init(PhysPageNum(0x80200), PhysPageNum(0x88000));
    fa
}

#[test]
fn address_arithmetic() {
    let va = VirtAddr(0x1234_5678);
    assert_eq!(va.bits(), 0x1234_5678);
    assert_eq!(va.page_offset(), 0x678);
    assert_eq!(va.floor().0, 0x12345);
    assert_eq!(va.ceil().0, 0x12346);
    assert!(!va.aligned());
    assert!(VirtAddr(0x1000).aligned());
    assert_eq!(VirtAddr(0x1000).ceil().0, 1);
    let pa = PhysAddr(0x8020_0123);
    assert_eq!(pa.floor().0, 0x80200);
    assert_eq!(pa.page_offset(), 0x123);
    assert_eq!(PhysPageNum(5).get_first_addr().0, 5 * PAGE_SIZE);
}

#[test]
fn conversions_mask_to_width() {
    assert_eq!(VirtAddr::from(u64::MAX).0, (1u64 << 39) - 1);
    assert_eq!(PhysAddr::from(u64::MAX).0, (1u64 << 56) - 1);
    assert_eq!(VirtPageNum::from(u64::MAX).0, (1u64 << 27) - 1);
    assert_eq!(PhysPageNum::from(u64::MAX).0, (1u64 << 44) - 1);
    assert_eq!(VirtAddr::from(TRAMPOLINE_ADDR).floor().0, TRAMPOLINE_VPN);
}

#[test]
fn vpn_indexes_split_nine_bits() {
    let vpn = VirtPageNum((3 << 18) | (5 << 9) | 7);
    assert_eq!(vpn.indexes(), [3, 5, 7]);
    let top = VirtPageNum(0x7FF_FFFF);
    assert_eq!(top.indexes(), [511, 511, 511]);
}

#[test]
fn pte_encodes_ppn_and_flags() {
    let pte = PageTableEntry::new(PhysPageNum(0x80200), PTE_R | PTE_W | PTE_V);
    assert_eq!(pte.ppn().0, 0x80200);
    assert_eq!(pte.flags(), PTE_R | PTE_W | PTE_V);
    assert!(pte.is_valid());
    assert!(pte.readable());
    assert!(pte.writable());
    assert!(!pte.executable());
    assert!(!pte.user());
    assert_eq!(pte.bits, (0x80200 << 10) | 0b111);
    let empty = PageTableEntry::empty();
    assert_eq!(empty.bits, 0);
    assert!(!empty.is_valid());
}

#[test]
fn map_translate_unmap_round_trip() {
    let mut fa = fresh_allocator();
    let mut pt = PageTable::new(&mut fa);
    let vpn = VirtPageNum(0x12345);
    let ppn = PhysPageNum(0x80555);
    assert!(pt.translate(vpn).is_none());
    pt.map(&mut fa, vpn, ppn, PTE_R | PTE_W | PTE_U);
    let pte = pt.translate(vpn).unwrap();
    assert_eq!(pte.ppn().0, ppn.0);
    assert!(pte.is_valid());
    assert!(pte.readable());
    assert!(pte.writable());
    assert!(pte.user());
    // a neighbouring page stays unmapped
    assert!(pt.translate(VirtPageNum(0x12346)).is_none());
    pt.unmap(vpn);
    assert!(pt.translate(vpn).is_none());
}

#[test]
fn map_two_pages_in_same_leaf_table() {
    let mut fa = fresh_allocator();
    let mut pt = PageTable::new(&mut fa);
    pt.map(&mut fa, VirtPageNum(0x100), PhysPageNum(0x81000), PTE_R);
    pt.map(&mut fa, VirtPageNum(0x101), PhysPageNum(0x82000), PTE_X);
    assert_eq!(pt.translate(VirtPageNum(0x100)).unwrap().ppn().0, 0x81000);
    assert_eq!(pt.translate(VirtPageNum(0x101)).unwrap().ppn().0, 0x82000);
    assert!(pt.translate(VirtPageNum(0x100)).unwrap().readable());
    assert!(pt.translate(VirtPageNum(0x101)).unwrap().executable());
}

fn test_layout() -> KernelLayout {
    KernelLayout {
        stext: 0x8020_0000,
        etext: 0x8020_4000,
        srodata: 0x8020_4000,
        erodata: 0x8020_6000,
        sdata: 0x8020_6000,
        edata: 0x8020_8000,
        sbss_with_stack: 0x8020_8000,
        ebss: 0x8020_a000,
        ekernel: 0x8020_a000,
        strampoline: 0x8020_0000,
        memory_end: 0x8021_0000,
    }
}

#[test]
fn kernel_remap_protections() {
    let mut fa = fresh_allocator();
    let layout = test_layout();
    let kernel = MemorySet::init_kernel_space(layout, &mut fa);
    // a mid-.text page: identity mapped, not writable
    let mid_text = VirtAddr((layout.stext + layout.etext) / 2).floor();
    let pte = kernel.translate(mid_text).unwrap();
    assert_eq!(pte.ppn().0, mid_text.0);
    assert!(!pte.writable());
    assert!(pte.executable());
    // a mid-.rodata page: not writable
    let mid_rodata = VirtAddr((layout.srodata + layout.erodata) / 2).floor();
    assert!(!kernel.translate(mid_rodata).unwrap().writable());
    // a mid-.data page: not executable
    let mid_data = VirtAddr((layout.sdata + layout.edata) / 2).floor();
    assert!(!kernel.translate(mid_data).unwrap().executable());
    assert!(kernel.translate(mid_data).unwrap().writable());
    // the trampoline page maps the trampoline code, read/execute
    let tramp = kernel.translate(VirtPageNum(TRAMPOLINE_VPN)).unwrap();
    assert_eq!(tramp.ppn().0, layout.strampoline / PAGE_SIZE);
    assert!(tramp.executable());
    assert!(!tramp.writable());
}

#[test]
fn kernel_stack_positions() {
    let (bottom0, top0) = kernel_stack_pos(0);
    assert_eq!(top0, TRAMPOLINE_ADDR);
    assert_eq!(top0 - bottom0, 2 * PAGE_SIZE);
    let (bottom1, top1) = kernel_stack_pos(1);
    assert_eq!(top0 - top1, 3 * PAGE_SIZE);
    assert_eq!(top1 - bottom1, 2 * PAGE_SIZE);
}

#[test]
fn token_encodes_mode_and_root() {
    let mut fa = fresh_allocator();
    let ms = MemorySet::default(&mut fa);
    let token = ms.token();
    assert_eq!(token >> 60, 8);
    assert_eq!(token & ((1u64 << 44) - 1), ms.page_table.root_ppn.0);
    let _ = (MAP_PERM_R, MAP_PERM_W, MAP_PERM_X);
}

#[test]
fn byte_buffer_splits_at_page_boundaries() {
    let mut fa = fresh_allocator();
    let mut pt = PageTable::new(&mut fa);
    pt.map(&mut fa, VirtPageNum(0x300), PhysPageNum(0x81000), PTE_R | PTE_U);
    pt.map(&mut fa, VirtPageNum(0x301), PhysPageNum(0x85000), PTE_R | PTE_U);
    pt.map(&mut fa, VirtPageNum(0x302), PhysPageNum(0x83000), PTE_R | PTE_U);
    // a buffer starting mid-page and ending mid-page: the walk covers
    // exactly `len` bytes from `ptr`
    let ptr = 0x300 * PAGE_SIZE + 0xF00;
    let len = PAGE_SIZE + 0x300;
    let chunks = pt.translated_byte_buffer(ptr, len);
    assert_eq!(chunks.len(), 3);
    assert_eq!(chunks[0], (PhysPageNum(0x81000), 0xF00, PAGE_SIZE));
    assert_eq!(chunks[1], (PhysPageNum(0x85000), 0, PAGE_SIZE));
    assert_eq!(chunks[2], (PhysPageNum(0x83000), 0, 0x200));
    let total: u64 = chunks.iter().map(|c| c.2 - c.1).sum();
    assert_eq!(total, len);
    // a buffer inside one page gives a single chunk
    let one = pt.translated_byte_buffer(0x300 * PAGE_SIZE + 16, 32);
    assert_eq!(one, vec![(PhysPageNum(0x81000), 16, 48)]);
}
