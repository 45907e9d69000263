use sv39_kernel::address::PhysPageNum;
use sv39_kernel::config::PAGE_SIZE;
use sv39_kernel::frame_allocator::{frame_alloc, frame_dealloc, StackFrameAllocator};

fn fresh_allocator() -> StackFrameAllocator {
    let mut fa = StackFrameAllocator::new();
    fa.init(PhysPageNum(0x80200), PhysPageNum(0x80210));
    fa
}

#[test]
fn alloc_bumps_in_order() {
    let mut fa = fresh_allocator();
    let a = fa.alloc_ppn().unwrap();
    let b = fa.alloc_ppn().unwrap();
    assert_eq!(a.0, 0x80200);
    assert_eq!(b.0, 0x80201);
}

#[test]
fn alloc_after_dealloc_returns_same_ppn() {
    let mut fa = fresh_allocator();
    let a = fa.alloc_ppn().unwrap();
    let _b = fa.alloc_ppn().unwrap();
    fa.dealloc_ppn(a);
    let c = fa.alloc_ppn().unwrap();
    assert_eq!(c.0, a.0);
}

#[test]
fn recycling_is_lifo() {
    let mut fa = fresh_allocator();
    let a = fa.alloc_ppn().unwrap();
    let b = fa.alloc_ppn().unwrap();
    let c = fa.alloc_ppn().unwrap();
    fa.dealloc_ppn(a);
    fa.dealloc_ppn(b);
    fa.dealloc_ppn(c);
    assert_eq!(fa.alloc_ppn().unwrap().0, c.0);
    assert_eq!(fa.alloc_ppn().unwrap().0, b.0);
    assert_eq!(fa.alloc_ppn().unwrap().0, a.0);
}

#[test]
fn allocator_exhausts_then_recovers() {
    let mut fa = StackFrameAllocator::new();
    fa.init(PhysPageNum(10), PhysPageNum(12));
    let a = fa.alloc_ppn().unwrap();
    let b = fa.alloc_ppn().unwrap();
    assert!(fa.alloc_ppn().is_none());
    fa.dealloc_ppn(b);
    assert_eq!(fa.alloc_ppn().unwrap().0, 11);
    let _ = a;
}

#[test]
fn allocated_frames_are_zeroed() {
    let mut fa = fresh_allocator();
    let t = frame_alloc(&mut fa).unwrap();
    assert_eq!(t.data.len(), PAGE_SIZE as usize);
    assert!(t.data.iter().all(|&b| b == 0));
    frame_dealloc(&mut fa, t);
    let t2 = frame_alloc(&mut fa).unwrap();
    assert!(t2.data.iter().all(|&b| b == 0));
}
