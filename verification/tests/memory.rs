use sv39_kernel::address::{PhysPageNum, VirtAddr, VirtPageNum};
use sv39_kernel::config::PAGE_SIZE;
use sv39_kernel::frame_allocator::StackFrameAllocator;
use sv39_kernel::memory_set::{
    MapArea, MapType, MemorySet, VPNRange, MAP_PERM_R, MAP_PERM_U, MAP_PERM_W,
};

fn fresh_allocator() -> StackFrameAllocator {
    let mut fa = StackFrameAllocator::new();
    fa.init(PhysPageNum(0x80200), PhysPageNum(0x88000));
    fa
}

fn allocated(fa: &StackFrameAllocator) -> u64 {
    fa.current - fa.start - fa.recycled.len() as u64
}

#[test]
fn vpn_range_iterates_half_open() {
    let range = VPNRange::new(VirtPageNum(5), VirtPageNum(8));
    let mut it = range.into_iter();
    assert_eq!(it.next().map(|v| v.0), Some(5));
    assert_eq!(it.next().map(|v| v.0), Some(6));
    assert_eq!(it.next().map(|v| v.0), Some(7));
    assert!(it.next().is_none());
}

#[test]
fn framed_area_backs_reads() {
    let mut fa = fresh_allocator();
    let mut ms = MemorySet::default(&mut fa);
    ms.insert_framed_area(
        VirtAddr(0x10000),
        VirtAddr(0x12000),
        MAP_PERM_R | MAP_PERM_W | MAP_PERM_U,
        &mut fa,
    );
    // fresh frames read as zeros
    let bytes = ms.read_bytes(0x10ff0, 32).unwrap();
    assert_eq!(bytes, vec![0u8; 32]);
    // an unmapped address is rejected
    assert!(ms.read_bytes(0x20000, 1).is_none());
    // a range running past the area is rejected
    assert!(ms.read_bytes(0x11fff, 2).is_none());
}

#[test]
fn pushed_data_crosses_page_boundary() {
    let mut fa = fresh_allocator();
    let mut ms = MemorySet::default(&mut fa);
    let mut data = Vec::new();
    for i in 0..5000u64 {
        data.push((i % 251) as u8);
    }
    let area = MapArea::new(
        VirtAddr(0x40000),
        VirtAddr(0x42000),
        MapType::Framed,
        MAP_PERM_R | MAP_PERM_U,
    );
    ms.push(area, Some(&data), &mut fa);
    let back = ms.read_bytes(0x40000, 5000).unwrap();
    assert_eq!(back, data);
    // past the data, the frames read as zeros
    let tail = ms.read_bytes(0x40000 + 5000, 100).unwrap();
    assert_eq!(tail, vec![0u8; 100]);
}

#[test]
fn read_requires_user_and_read_permission() {
    let mut fa = fresh_allocator();
    let mut ms = MemorySet::default(&mut fa);
    // readable but not user-accessible
    ms.insert_framed_area(VirtAddr(0x10000), VirtAddr(0x11000), MAP_PERM_R, &mut fa);
    assert!(ms.read_bytes(0x10000, 4).is_none());
    // user-accessible but not readable
    ms.insert_framed_area(
        VirtAddr(0x20000),
        VirtAddr(0x21000),
        MAP_PERM_W | MAP_PERM_U,
        &mut fa,
    );
    assert!(ms.read_bytes(0x20000, 4).is_none());
}

#[test]
fn recycle_returns_every_frame() {
    let mut fa = fresh_allocator();
    let before = allocated(&fa);
    let mut ms = MemorySet::default(&mut fa);
    ms.insert_framed_area(
        VirtAddr(0x10000),
        VirtAddr(0x15000),
        MAP_PERM_R | MAP_PERM_W | MAP_PERM_U,
        &mut fa,
    );
    ms.insert_framed_area(
        VirtAddr(0x7000_0000),
        VirtAddr(0x7000_3000),
        MAP_PERM_R | MAP_PERM_U,
        &mut fa,
    );
    assert!(allocated(&fa) > before);
    ms.recycle(&mut fa);
    assert_eq!(allocated(&fa), before);
}

#[test]
fn translate_sees_identical_and_framed_areas() {
    let mut fa = fresh_allocator();
    let mut ms = MemorySet::default(&mut fa);
    let area = MapArea::new(
        VirtAddr(0x80300000),
        VirtAddr(0x80301000),
        MapType::Identical,
        MAP_PERM_R | MAP_PERM_W,
    );
    ms.push(area, None, &mut fa);
    let pte = ms.translate(VirtPageNum(0x80300000 / PAGE_SIZE)).unwrap();
    assert_eq!(pte.ppn().0, 0x80300000 / PAGE_SIZE);
    assert!(pte.writable());
}
