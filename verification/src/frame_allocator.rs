//! Stack-based physical frame allocator.
//!
//! The allocator manages the page numbers in `[start, end)`: `current` is the
//! low-water mark of never-allocated pages and `recycled` is a stack of freed
//! page numbers. `alloc` pops the recycling stack before bumping `current`,
//! so an alloc directly after a dealloc returns the page just freed.

use vstd::prelude::*;
use crate::address::PhysPageNum;
use crate::config::{PAGE_SIZE, PPN_BOUND};

verus! {

/// Mathematical model of an allocator state.
pub ghost struct FrameAllocModel {
    pub start: int,
    pub current: int,
    pub end: int,
    pub recycled: Seq<int>,
}

impl FrameAllocModel {
    /// The allocator state is internally consistent.
    pub open spec fn wf(self) -> bool {
        &&& 0 <= self.start <= self.current <= self.end <= PPN_BOUND
        &&& forall|i: int| 0 <= i < self.recycled.len()
            ==> self.start <= #[trigger] self.recycled[i] < self.current
        &&& forall|i: int, j: int|
            0 <= i < j < self.recycled.len() ==> self.recycled[i] != self.recycled[j]
    }

    /// The set of page numbers handed out and not yet returned.
    pub open spec fn outstanding(self) -> Set<int> {
        Set::new(|p: int| self.start <= p < self.current && !self.recycled.contains(p))
    }

    /// How many pages can still be allocated.
    pub open spec fn avail(self) -> int {
        self.end - self.current + self.recycled.len()
    }

    /// How many pages are handed out and not yet returned.
    pub open spec fn allocated_count(self) -> int {
        self.current - self.start - self.recycled.len()
    }

    /// State after a successful `dealloc` of `p`.
    pub open spec fn dealloc_m(self, p: int) -> FrameAllocModel {
        FrameAllocModel { recycled: self.recycled.push(p), ..self }
    }

    /// State and result of an `alloc`.
    pub open spec fn alloc_m(self) -> (FrameAllocModel, Option<int>) {
        if self.recycled.len() > 0 {
            (
                FrameAllocModel { recycled: self.recycled.drop_last(), ..self },
                Some(self.recycled.last()),
            )
        } else if self.current < self.end {
            (FrameAllocModel { current: self.current + 1, ..self }, Some(self.current))
        } else {
            (self, None)
        }
    }
}

/// An alloc directly after a dealloc returns the page number just freed:
/// the recycling stack is last-in, first-out.
pub proof fn lemma_frame_round_trip(m: FrameAllocModel, p: int)
    requires
        m.wf(),
        m.outstanding().contains(p),
    ensures
        m.dealloc_m(p).alloc_m().1 == Some(p),
        m.dealloc_m(p).alloc_m().0.outstanding() =~= m.outstanding(),
{
    let m2 = m.dealloc_m(p).alloc_m().0;
    assert(m2.recycled =~= m.recycled);
    assert(m2.outstanding() =~= m.outstanding());
}

/// Stack-based allocator over the physical page numbers in `[start, end)`.
pub struct StackFrameAllocator {
    /// First page number ever managed.
    pub start: u64,
    /// Next never-allocated page number.
    pub current: u64,
    /// One past the last managed page number.
    pub end: u64,
    /// Stack of freed page numbers, most recently freed last.
    pub recycled: Vec<u64>,
}

impl View for StackFrameAllocator {
    type V = FrameAllocModel;

    open spec fn view(&self) -> FrameAllocModel {
        FrameAllocModel {
            start: self.start as int,
            current: self.current as int,
            end: self.end as int,
            recycled: self.recycled@.map(|i: int, p: u64| p as int),
        }
    }
}

impl StackFrameAllocator {
    /// An allocator managing no pages yet.
    pub fn new() -> (r: Self)
        ensures
            r@.wf(),
            r@ == (FrameAllocModel { start: 0, current: 0, end: 0, recycled: Seq::empty() }),
    {
        let r = StackFrameAllocator { start: 0, current: 0, end: 0, recycled: Vec::new() };
        proof {
            assert(r@.recycled =~= Seq::<int>::empty());
        }
        r
    }

    /// Hands the allocator the page range `[start, end)` to manage.
    pub fn init(&mut self, start: PhysPageNum, end: PhysPageNum)
        requires
            old(self)@.recycled.len() == 0,
            start.0 <= end.0 <= PPN_BOUND,
        ensures
            final(self)@.wf(),
            final(self)@ == (FrameAllocModel {
                start: start.0 as int,
                current: start.0 as int,
                end: end.0 as int,
                recycled: Seq::empty(),
            }),
    {
        self.start = start.0;
        self.current = start.0;
        self.end = end.0;
        proof {
            assert(self@.recycled =~= Seq::<int>::empty());
        }
    }

    /// Pops a free page number: the most recently freed one if any,
    /// otherwise the next never-allocated one; `None` when exhausted.
    pub fn alloc_ppn(&mut self) -> (r: Option<PhysPageNum>)
        requires
            old(self)@.wf(),
        ensures
            final(self)@.wf(),
            ({
                let (m2, res) = old(self)@.alloc_m();
                &&& final(self)@ == m2
                &&& match r {
                    Some(p) => res == Some(p.0 as int),
                    None => res.is_none(),
                }
            }),
            r.is_some() <==> old(self)@.avail() > 0,
            r.is_some() ==> {
                let p = r.unwrap().0 as int;
                &&& !old(self)@.outstanding().contains(p)
                &&& final(self)@.outstanding() =~= old(self)@.outstanding().insert(p)
                &&& old(self)@.start <= p < PPN_BOUND
                &&& final(self)@.avail() == old(self)@.avail() - 1
                &&& final(self)@.allocated_count() == old(self)@.allocated_count() + 1
            },
            r.is_none() ==> final(self)@ == old(self)@,
            final(self)@.start == old(self)@.start,
            final(self)@.end == old(self)@.end,
    {
        if let Some(ppn) = self.recycled.pop() {
            proof {
                assert(self@.recycled =~= old(self)@.recycled.drop_last());
                assert(old(self)@.recycled.contains(ppn as int));
                assert(!old(self)@.outstanding().contains(ppn as int));
                assert forall|q: int| old(self)@.outstanding().insert(ppn as int).contains(q)
                    implies self@.outstanding().contains(q) by {
                    if q != ppn as int {
                        if old(self)@.recycled.drop_last().contains(q) {
                            let i = choose|i: int|
                                0 <= i < old(self)@.recycled.drop_last().len()
                                    && old(self)@.recycled.drop_last()[i] == q;
                            assert(old(self)@.recycled[i] == q);
                        }
                    } else {
                        assert(!self@.recycled.contains(q)) by {
                            if self@.recycled.contains(q) {
                                let i = choose|i: int|
                                    0 <= i < self@.recycled.len() && self@.recycled[i] == q;
                                assert(old(self)@.recycled[i] == q);
                                assert(old(self)@.recycled[old(self)@.recycled.len() - 1] == q);
                            }
                        }
                    }
                }
                assert forall|q: int| self@.outstanding().contains(q)
                    implies old(self)@.outstanding().insert(ppn as int).contains(q) by {
                    if q != ppn as int {
                        if old(self)@.recycled.contains(q) {
                            let i = choose|i: int|
                                0 <= i < old(self)@.recycled.len() && old(self)@.recycled[i] == q;
                            assert(i < old(self)@.recycled.len() - 1);
                            assert(self@.recycled[i] == q);
                        }
                    }
                }
                assert(self@.outstanding() =~= old(self)@.outstanding().insert(ppn as int));
            }
            Some(PhysPageNum(ppn))
        } else if self.current == self.end {
            None
        } else {
            let ppn = self.current;
            self.current = self.current + 1;
            proof {
                assert(self@.recycled =~= old(self)@.recycled);
                assert(!old(self)@.outstanding().contains(ppn as int));
                assert(self@.outstanding() =~= old(self)@.outstanding().insert(ppn as int));
            }
            Some(PhysPageNum(ppn))
        }
    }

    /// Returns page number `ppn` to the recycling stack. The page must have
    /// been handed out by this allocator and not returned since.
    pub fn dealloc_ppn(&mut self, ppn: PhysPageNum)
        requires
            old(self)@.wf(),
            old(self)@.outstanding().contains(ppn.0 as int),
        ensures
            final(self)@.wf(),
            final(self)@ == old(self)@.dealloc_m(ppn.0 as int),
            final(self)@.outstanding() =~= old(self)@.outstanding().remove(ppn.0 as int),
            final(self)@.avail() == old(self)@.avail() + 1,
            final(self)@.allocated_count() == old(self)@.allocated_count() - 1,
            final(self)@.start == old(self)@.start,
            final(self)@.end == old(self)@.end,
    {
        proof {
            assert(!old(self)@.recycled.contains(ppn.0 as int));
        }
        self.recycled.push(ppn.0);
        proof {
            let p = ppn.0 as int;
            assert(self@.recycled =~= old(self)@.recycled.push(p));
            assert forall|q: int| self@.outstanding().contains(q)
                implies old(self)@.outstanding().remove(p).contains(q) by {
                assert(!old(self)@.recycled.contains(q)) by {
                    if old(self)@.recycled.contains(q) {
                        let i = choose|i: int|
                            0 <= i < old(self)@.recycled.len() && old(self)@.recycled[i] == q;
                        assert(self@.recycled[i] == q);
                    }
                }
                assert(q != p) by {
                    assert(self@.recycled[self@.recycled.len() - 1] == p);
                    if q == p {
                        assert(self@.recycled.contains(q));
                    }
                }
            }
            assert forall|q: int| old(self)@.outstanding().remove(p).contains(q)
                implies self@.outstanding().contains(q) by {
                assert(!self@.recycled.contains(q)) by {
                    if self@.recycled.contains(q) {
                        let i = choose|i: int|
                            0 <= i < self@.recycled.len() && self@.recycled[i] == q;
                        if i < self@.recycled.len() - 1 {
                            assert(old(self)@.recycled[i] == q);
                        } else {
                            assert(q == p);
                        }
                    }
                }
            }
            assert(self@.outstanding() =~= old(self)@.outstanding().remove(p));
        }
    }
}

/// Unique owner of one physical frame; `data` models the frame's 4 KiB of
/// physical memory.
pub struct FrameTracker {
    /// The physical page number of the tracked frame.
    pub ppn: PhysPageNum,
    /// The frame's contents.
    pub data: Vec<u8>,
}

impl FrameTracker {
    /// The tracker names a valid page and carries one page of contents.
    pub open spec fn wf(self) -> bool {
        &&& self.ppn.0 < PPN_BOUND
        &&& self.data@.len() == PAGE_SIZE
    }

    /// A tracker for page `ppn` whose contents are all zeros.
    pub fn new(ppn: PhysPageNum) -> (r: Self)
        requires
            ppn.0 < PPN_BOUND,
        ensures
            r.wf(),
            r.ppn == ppn,
            r.data@ =~= Seq::new(PAGE_SIZE as nat, |i: int| 0u8),
    {
        let mut data: Vec<u8> = Vec::new();
        let mut i: u64 = 0;
        while i < PAGE_SIZE
            invariant
                i <= PAGE_SIZE,
                data@.len() == i,
                forall|j: int| 0 <= j < i ==> data@[j] == 0u8,
            decreases PAGE_SIZE - i,
        {
            data.push(0u8);
            i = i + 1;
        }
        FrameTracker { ppn, data }
    }
}

/// Allocates one frame and hands back its tracker; the frame is zeroed.
pub fn frame_alloc(fa: &mut StackFrameAllocator) -> (r: Option<FrameTracker>)
    requires
        old(fa)@.wf(),
    ensures
        final(fa)@.wf(),
        r.is_some() <==> old(fa)@.avail() > 0,
        r.is_some() ==> {
            let t = r.unwrap();
            &&& t.wf()
            &&& t.data@ =~= Seq::new(PAGE_SIZE as nat, |i: int| 0u8)
            &&& !old(fa)@.outstanding().contains(t.ppn.0 as int)
            &&& final(fa)@.outstanding() =~= old(fa)@.outstanding().insert(t.ppn.0 as int)
            &&& final(fa)@.avail() == old(fa)@.avail() - 1
            &&& final(fa)@.allocated_count() == old(fa)@.allocated_count() + 1
        },
        r.is_none() ==> final(fa)@ == old(fa)@,
        final(fa)@.start == old(fa)@.start,
        final(fa)@.end == old(fa)@.end,
{
    match fa.alloc_ppn() {
        Some(ppn) => Some(FrameTracker::new(ppn)),
        None => None,
    }
}

/// Returns the frame owned by `tracker` to the allocator.
pub fn frame_dealloc(fa: &mut StackFrameAllocator, tracker: FrameTracker)
    requires
        old(fa)@.wf(),
        old(fa)@.outstanding().contains(tracker.ppn.0 as int),
    ensures
        final(fa)@.wf(),
        final(fa)@ == old(fa)@.dealloc_m(tracker.ppn.0 as int),
        final(fa)@.outstanding() =~= old(fa)@.outstanding().remove(tracker.ppn.0 as int),
        final(fa)@.avail() == old(fa)@.avail() + 1,
        final(fa)@.allocated_count() == old(fa)@.allocated_count() - 1,
        final(fa)@.start == old(fa)@.start,
        final(fa)@.end == old(fa)@.end,
{
    fa.dealloc_ppn(tracker.ppn);
}

} // verus!
