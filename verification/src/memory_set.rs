//! Memory areas and address spaces.
//!
//! A `MapArea` is a contiguous range of virtual pages with one mapping type
//! and one set of permissions; a `MemorySet` is a page table together with
//! the areas mapped through it, and owns every frame backing them.

use vstd::prelude::*;
use crate::address::{PhysPageNum, VirtAddr, VirtPageNum};
use crate::config::{PAGE_SIZE, PPN_BOUND, TRAMPOLINE_VPN, TRAP_CONTEXT_VPN, USER_STACK_SIZE, VA_BOUND, VPN_BOUND};
use crate::elf::{
    elf_entry, elf_max_end_vpn, elf_pages_from, elf_phnum, elf_phoff, elf_wf, ph_end_vpn,
    ph_filesz, ph_flags, ph_is_load, ph_memsz, ph_offset, ph_pages, ph_vaddr, read_u16,
    read_u32, read_u64, PF_R, PF_W, PF_X, PH_ENTRY_SIZE, PT_LOAD,
};
use vstd::slice::slice_subrange;
use crate::frame_allocator::{frame_alloc, frame_dealloc, FrameAllocModel, FrameTracker, StackFrameAllocator};
use crate::page_table::{PageTable, PageTableEntry, PTE_U, PTE_V, PTE_W, PTE_X};

verus! {

/// Area permission bit: readable (same position as the PTE flag).
pub const MAP_PERM_R: u8 = 2;

/// Area permission bit: writable.
pub const MAP_PERM_W: u8 = 4;

/// Area permission bit: executable.
pub const MAP_PERM_X: u8 = 8;

/// Area permission bit: user-accessible.
pub const MAP_PERM_U: u8 = 16;

/// A half-open range `[start, end)` of virtual page numbers.
#[derive(Clone, Copy, Debug, PartialEq, Eq, Structural)]
pub struct VPNRange {
    /// First page of the range.
    pub start: VirtPageNum,
    /// One past the last page of the range.
    pub end: VirtPageNum,
}

impl VPNRange {
    /// The range `[start, end)`.
    pub fn new(start: VirtPageNum, end: VirtPageNum) -> (r: Self)
        ensures
            r.start == start,
            r.end == end,
    {
        VPNRange { start, end }
    }

    /// Walks the range from its first page.
    pub fn into_iter(self) -> (r: VPNRangeIterator)
        ensures
            r.current == self.start,
            r.end == self.end,
    {
        VPNRangeIterator { current: self.start, end: self.end }
    }
}

/// A cursor over a `VPNRange`.
pub struct VPNRangeIterator {
    /// The next page to yield.
    pub current: VirtPageNum,
    /// One past the last page to yield.
    pub end: VirtPageNum,
}

impl VPNRangeIterator {
    /// Yields the next page of the range, or `None` at its end.
    pub fn next(&mut self) -> (r: Option<VirtPageNum>)
        requires
            old(self).current.0 <= old(self).end.0,
        ensures
            final(self).end == old(self).end,
            if old(self).current.0 == old(self).end.0 {
                r.is_none() && final(self).current == old(self).current
            } else {
                r == Some(old(self).current) && final(self).current.0 == old(self).current.0 + 1
            },
    {
        if self.current.0 == self.end.0 {
            None
        } else {
            let cur = self.current;
            self.current = VirtPageNum(self.current.0 + 1);
            Some(cur)
        }
    }
}

/// How an area maps its pages: to the same physical page number, or to
/// freshly allocated frames.
#[derive(Clone, Copy, Debug, PartialEq, Eq, Structural)]
pub enum MapType {
    /// Virtual page number equals physical page number.
    Identical,
    /// Each page is backed by its own allocated frame.
    Framed,
}

/// A contiguous range of virtual pages with one mapping type and one
/// permission byte; for `Framed` areas, the owned backing frames, one per
/// page already mapped, in page order.
pub struct MapArea {
    /// The pages this area covers.
    pub vpn_range: VPNRange,
    /// Backing frames: `data_frames[i]` backs page `start + i`.
    pub data_frames: Vec<FrameTracker>,
    /// How the pages are mapped.
    pub map_type: MapType,
    /// Permission bits (`R`, `W`, `X`, `U`) of every page of the area.
    pub map_perm: u8,
}

impl MapArea {
    /// First page of the area.
    pub open spec fn start(self) -> int {
        self.vpn_range.start.0 as int
    }

    /// One past the last page of the area.
    pub open spec fn end_vpn(self) -> int {
        self.vpn_range.end.0 as int
    }

    /// Number of pages the area covers.
    pub open spec fn page_count(self) -> int {
        self.end_vpn() - self.start()
    }

    /// The set of frames owned by the area (as page numbers).
    pub open spec fn frame_ppns(self) -> Set<int> {
        Set::new(
            |p: int|
                exists|i: int|
                    0 <= i < self.data_frames@.len()
                        && self.data_frames@[i].ppn.0 as int == p,
        )
    }

    /// The first `n` pages of the area are mapped through `pt` as the area
    /// records: for `Framed` pages the leaf names the backing frame, for
    /// `Identical` pages it names the page itself, and the flags are the
    /// area's permissions with the valid bit set.
    pub open spec fn mapped_prefix(self, pt: PageTable, n: int) -> bool {
        &&& (self.map_type == MapType::Framed ==> self.data_frames@.len() == n)
        &&& (self.map_type == MapType::Identical ==> self.data_frames@.len() == 0)
        &&& forall|i: int|
            0 <= i < n ==> {
                let t = #[trigger] pt.translate_spec((self.start() + i) as u64);
                &&& t.is_some()
                &&& t.unwrap().spec_flags() == self.map_perm | PTE_V
                &&& t.unwrap().spec_ppn() == if self.map_type == MapType::Framed {
                    self.data_frames@[i].ppn.0
                } else {
                    (self.start() + i) as u64
                }
            }
        &&& forall|i: int|
            0 <= i < self.data_frames@.len() ==> (#[trigger] self.data_frames@[i]).wf()
    }

    /// The whole area is mapped through `pt` as it records.
    pub open spec fn mapped(self, pt: PageTable) -> bool {
        self.mapped_prefix(pt, self.page_count())
    }

    /// Basic shape of the area: a range of legal page numbers.
    pub open spec fn range_wf(self) -> bool {
        0 <= self.start() <= self.end_vpn() <= VPN_BOUND
    }

    /// A new, not yet mapped area covering `[floor(start_va), ceil(end_va))`.
    pub fn new(start_va: VirtAddr, end_va: VirtAddr, map_type: MapType, map_perm: u8) -> (r: Self)
        requires
            start_va.0 <= end_va.0,
            end_va.0 <= VPN_BOUND * PAGE_SIZE,
        ensures
            r.vpn_range.start.0 == start_va.0 / PAGE_SIZE,
            r.vpn_range.end.0 == (end_va.0 + PAGE_SIZE - 1) / (PAGE_SIZE as int),
            r.data_frames@.len() == 0,
            r.map_type == map_type,
            r.map_perm == map_perm,
            r.range_wf(),
    {
        let start = start_va.floor();
        let end = end_va.ceil();
        MapArea { vpn_range: VPNRange::new(start, end), data_frames: Vec::new(), map_type, map_perm }
    }

    /// Maps one more page of the area: the next unmapped page for `Framed`
    /// areas, any requested page for `Identical` ones.
    fn map_one(
        &mut self,
        page_table: &mut PageTable,
        fa: &mut StackFrameAllocator,
        vpn: VirtPageNum,
    )
        requires
            old(self).range_wf(),
            old(self).start() <= vpn.0 < old(self).end_vpn(),
            old(self).map_type == MapType::Framed
                ==> vpn.0 == old(self).start() + old(self).data_frames@.len(),
            old(page_table).wf(),
            old(fa)@.wf(),
            old(page_table).owned_by(old(fa)@),
            old(fa)@.avail() >= 3,
            old(page_table).translate_spec(vpn.0).is_none(),
            forall|i: int|
                0 <= i < old(self).data_frames@.len()
                    ==> old(fa)@.outstanding().contains(
                    (#[trigger] old(self).data_frames@[i]).ppn.0 as int,
                ),
        ensures
            final(self).vpn_range == old(self).vpn_range,
            final(self).map_type == old(self).map_type,
            final(self).map_perm == old(self).map_perm,
            final(page_table).wf(),
            final(fa)@.wf(),
            final(page_table).owned_by(final(fa)@),
            final(page_table).root_ppn == old(page_table).root_ppn,
            // the new page is mapped as the area records
            ({
                let t = final(page_table).translate_spec(vpn.0);
                &&& t.is_some()
                &&& t.unwrap().spec_flags() == old(self).map_perm | PTE_V
                &&& t.unwrap().spec_ppn() == if old(self).map_type == MapType::Framed {
                    final(self).data_frames@[final(self).data_frames@.len() - 1].ppn.0
                } else {
                    vpn.0
                }
            }),
            forall|v2: u64|
                v2 < VPN_BOUND && v2 != vpn.0
                    ==> final(page_table).translate_spec(v2)
                        == old(page_table).translate_spec(v2),
            // frame bookkeeping
            final(self).map_type == MapType::Framed ==> {
                &&& final(self).data_frames@.len() == old(self).data_frames@.len() + 1
                &&& final(self).data_frames@.subrange(0, old(self).data_frames@.len() as int)
                    == old(self).data_frames@
                &&& final(self).data_frames@[old(self).data_frames@.len() as int].wf()
                &&& final(self).data_frames@[old(self).data_frames@.len() as int].data@
                    =~= Seq::new(PAGE_SIZE as nat, |i: int| 0u8)
                &&& !old(fa)@.outstanding().contains(
                    final(self).data_frames@[old(self).data_frames@.len() as int].ppn.0 as int,
                )
                &&& !final(page_table).owned_ppns().contains(
                    final(self).data_frames@[old(self).data_frames@.len() as int].ppn.0 as int,
                )
            },
            final(self).map_type == MapType::Identical
                ==> final(self).data_frames@ == old(self).data_frames@,
            forall|i: int|
                0 <= i < final(self).data_frames@.len()
                    ==> final(fa)@.outstanding().contains(
                    (#[trigger] final(self).data_frames@[i]).ppn.0 as int,
                ),
            // allocator bookkeeping
            old(page_table).owned_ppns().subset_of(final(page_table).owned_ppns()),
            forall|p: int|
                final(page_table).owned_ppns().contains(p)
                    ==> old(page_table).owned_ppns().contains(p)
                        || !old(fa)@.outstanding().contains(p),
            old(fa)@.outstanding().subset_of(final(fa)@.outstanding()),
            forall|p: int|
                final(fa)@.outstanding().contains(p)
                    ==> old(fa)@.outstanding().contains(p)
                        || final(page_table).owned_ppns().contains(p)
                        || final(self).frame_ppns().contains(p),
            final(fa)@.avail() >= old(fa)@.avail() - 3,
            final(fa)@.allocated_count() == old(fa)@.allocated_count()
                + (final(page_table).frames@.len() - old(page_table).frames@.len())
                + (final(self).data_frames@.len() - old(self).data_frames@.len()),
            final(page_table).frames@.len() >= old(page_table).frames@.len(),
            final(fa)@.start == old(fa)@.start,
            final(fa)@.end == old(fa)@.end,
    {
        let is_framed = match self.map_type {
            MapType::Framed => true,
            MapType::Identical => false,
        };
        if is_framed {
            let frame = frame_alloc(fa).unwrap();
            let ppn = frame.ppn;
            let ghost m_mid = fa@;
            proof {
                assert(!old(page_table).owned_ppns().contains(ppn.0 as int));
            }
            self.data_frames.push(frame);
            page_table.map(fa, vpn, ppn, self.map_perm);
            proof {
                assert(final(self).data_frames@.subrange(0, old(self).data_frames@.len() as int)
                    =~= old(self).data_frames@);
                assert(!page_table.owned_ppns().contains(ppn.0 as int)) by {
                    assert(m_mid.outstanding().contains(ppn.0 as int));
                }
            }
        } else {
            let ppn = PhysPageNum(vpn.0);
            page_table.map(fa, vpn, ppn, self.map_perm);
        }
    }

    /// Maps every page of the area, in page order. The area must be fresh
    /// and its whole range unmapped.
    #[verifier::rlimit(60)]
    pub fn map(&mut self, page_table: &mut PageTable, fa: &mut StackFrameAllocator)
        requires
            old(self).range_wf(),
            old(self).data_frames@.len() == 0,
            old(page_table).wf(),
            old(fa)@.wf(),
            old(page_table).owned_by(old(fa)@),
            old(fa)@.avail() >= 3 * old(self).page_count(),
            forall|v: u64|
                old(self).start() <= v < old(self).end_vpn()
                    ==> (#[trigger] old(page_table).translate_spec(v)).is_none(),
        ensures
            final(self).vpn_range == old(self).vpn_range,
            final(self).map_type == old(self).map_type,
            final(self).map_perm == old(self).map_perm,
            final(page_table).wf(),
            final(fa)@.wf(),
            final(page_table).owned_by(final(fa)@),
            final(page_table).root_ppn == old(page_table).root_ppn,
            final(self).mapped(*final(page_table)),
            forall|v2: u64|
                v2 < VPN_BOUND && !(old(self).start() <= v2 < old(self).end_vpn())
                    ==> final(page_table).translate_spec(v2)
                        == old(page_table).translate_spec(v2),
            final(self).map_type == MapType::Framed ==> forall|i: int|
                0 <= i < final(self).data_frames@.len()
                    ==> (#[trigger] final(self).data_frames@[i]).data@
                        =~= Seq::new(PAGE_SIZE as nat, |b: int| 0u8),
            // every owned frame is distinct and accounted for
            forall|i: int|
                0 <= i < final(self).data_frames@.len()
                    ==> final(fa)@.outstanding().contains(
                    (#[trigger] final(self).data_frames@[i]).ppn.0 as int,
                ) && !old(fa)@.outstanding().contains(final(self).data_frames@[i].ppn.0 as int)
                    && !final(page_table).owned_ppns().contains(
                    final(self).data_frames@[i].ppn.0 as int,
                ),
            forall|i: int, j: int|
                0 <= i < j < final(self).data_frames@.len()
                    ==> final(self).data_frames@[i].ppn.0 != final(self).data_frames@[j].ppn.0,
            old(page_table).owned_ppns().subset_of(final(page_table).owned_ppns()),
            forall|p: int|
                final(page_table).owned_ppns().contains(p)
                    ==> old(page_table).owned_ppns().contains(p)
                        || !old(fa)@.outstanding().contains(p),
            old(fa)@.outstanding().subset_of(final(fa)@.outstanding()),
            forall|p: int|
                final(fa)@.outstanding().contains(p)
                    ==> old(fa)@.outstanding().contains(p)
                        || final(page_table).owned_ppns().contains(p)
                        || final(self).frame_ppns().contains(p),
            final(fa)@.avail() >= old(fa)@.avail() - 3 * old(self).page_count(),
            final(fa)@.allocated_count() == old(fa)@.allocated_count()
                + (final(page_table).frames@.len() - old(page_table).frames@.len())
                + final(self).data_frames@.len(),
            final(page_table).frames@.len() >= old(page_table).frames@.len(),
            final(fa)@.start == old(fa)@.start,
            final(fa)@.end == old(fa)@.end,
    {
        let ghost t0 = *page_table;
        let ghost m0 = fa@;
        let ghost a0 = *self;
        let start = self.vpn_range.start.0;
        let end = self.vpn_range.end.0;
        let mut vpn: u64 = start;
        while vpn < end
            invariant
                start == a0.start(),
                end == a0.end_vpn(),
                a0.range_wf(),
                start <= vpn <= end,
                self.vpn_range == a0.vpn_range,
                self.map_type == a0.map_type,
                self.map_perm == a0.map_perm,
                page_table.wf(),
                fa@.wf(),
                page_table.owned_by(fa@),
                page_table.root_ppn == t0.root_ppn,
                self.mapped_prefix(*page_table, vpn - start),
                forall|v2: u64|
                    v2 < VPN_BOUND && !(start <= v2 < vpn)
                        ==> page_table.translate_spec(v2) == t0.translate_spec(v2),
                forall|v: u64|
                    start <= v < end ==> (#[trigger] t0.translate_spec(v)).is_none(),
                self.map_type == MapType::Framed ==> forall|i: int|
                    0 <= i < self.data_frames@.len()
                        ==> (#[trigger] self.data_frames@[i]).data@
                            =~= Seq::new(PAGE_SIZE as nat, |b: int| 0u8),
                forall|i: int|
                    0 <= i < self.data_frames@.len()
                        ==> fa@.outstanding().contains(
                        (#[trigger] self.data_frames@[i]).ppn.0 as int,
                    ) && !m0.outstanding().contains(self.data_frames@[i].ppn.0 as int)
                        && !page_table.owned_ppns().contains(
                        self.data_frames@[i].ppn.0 as int,
                    ),
                forall|i: int, j: int|
                    0 <= i < j < self.data_frames@.len()
                        ==> self.data_frames@[i].ppn.0 != self.data_frames@[j].ppn.0,
                t0.owned_ppns().subset_of(page_table.owned_ppns()),
                forall|p: int|
                    page_table.owned_ppns().contains(p)
                        ==> t0.owned_ppns().contains(p) || !m0.outstanding().contains(p),
                m0.outstanding().subset_of(fa@.outstanding()),
                forall|p: int|
                    fa@.outstanding().contains(p)
                        ==> m0.outstanding().contains(p)
                            || page_table.owned_ppns().contains(p)
                            || self.frame_ppns().contains(p),
                fa@.avail() >= m0.avail() - 3 * (vpn - start),
                fa@.avail() >= 3 * (end - vpn),
                fa@.allocated_count() == m0.allocated_count()
                    + (page_table.frames@.len() - t0.frames@.len())
                    + self.data_frames@.len(),
                page_table.frames@.len() >= t0.frames@.len(),
                fa@.start == m0.start,
                fa@.end == m0.end,
            decreases end - vpn,
        {
            let ghost a_prev = *self;
            let ghost t_prev = *page_table;
            let ghost m_prev = fa@;
            proof {
                assert(page_table.translate_spec(vpn) == t0.translate_spec(vpn));
                assert(t0.translate_spec(vpn).is_none());
            }
            self.map_one(page_table, fa, VirtPageNum(vpn));
            vpn = vpn + 1;
            proof {
                if self.map_type == MapType::Framed {
                    assert forall|i: int| 0 <= i < a_prev.data_frames@.len()
                        implies self.data_frames@[i] == a_prev.data_frames@[i] by {
                        assert(self.data_frames@.subrange(
                            0,
                            a_prev.data_frames@.len() as int,
                        )[i] == a_prev.data_frames@[i]);
                    }
                    assert forall|i: int| 0 <= i < self.data_frames@.len()
                        implies (#[trigger] self.data_frames@[i]).wf()
                            && self.data_frames@[i].data@
                                =~= Seq::new(PAGE_SIZE as nat, |b: int| 0u8) by {
                        if i < a_prev.data_frames@.len() {
                            assert(self.data_frames@[i] == a_prev.data_frames@[i]);
                            assert(a_prev.data_frames@[i].wf());
                            assert(a_prev.data_frames@[i].data@
                                =~= Seq::new(PAGE_SIZE as nat, |b: int| 0u8));
                        } else {
                            assert(i == a_prev.data_frames@.len());
                        }
                    }
                }
                assert forall|i: int| 0 <= i < self.data_frames@.len()
                    implies fa@.outstanding().contains(
                    (#[trigger] self.data_frames@[i]).ppn.0 as int,
                ) && !m0.outstanding().contains(self.data_frames@[i].ppn.0 as int)
                    && !page_table.owned_ppns().contains(self.data_frames@[i].ppn.0 as int) by {
                    if i < a_prev.data_frames@.len() {
                        assert(self.data_frames@[i] == a_prev.data_frames@[i]);
                        let p = a_prev.data_frames@[i].ppn.0 as int;
                        assert(m_prev.outstanding().contains(p));
                        assert(!page_table.owned_ppns().contains(p)) by {
                            if page_table.owned_ppns().contains(p) {
                                assert(t_prev.owned_ppns().contains(p)
                                    || !m_prev.outstanding().contains(p));
                            }
                        }
                    }
                }
                assert forall|i: int, j: int| 0 <= i < j < self.data_frames@.len()
                    implies self.data_frames@[i].ppn.0 != self.data_frames@[j].ppn.0 by {
                    if j < a_prev.data_frames@.len() {
                        assert(self.data_frames@[i] == a_prev.data_frames@[i]);
                        assert(self.data_frames@[j] == a_prev.data_frames@[j]);
                    } else {
                        assert(self.data_frames@[i] == a_prev.data_frames@[i]);
                        assert(m_prev.outstanding().contains(
                            a_prev.data_frames@[i].ppn.0 as int,
                        ));
                        assert(!m_prev.outstanding().contains(
                            self.data_frames@[j].ppn.0 as int,
                        ));
                    }
                }
                assert forall|i: int| 0 <= i < vpn - start implies {
                    let t = #[trigger] page_table.translate_spec((start + i) as u64);
                    &&& t.is_some()
                    &&& t.unwrap().spec_flags() == self.map_perm | PTE_V
                    &&& t.unwrap().spec_ppn() == if self.map_type == MapType::Framed {
                        self.data_frames@[i].ppn.0
                    } else {
                        (start + i) as u64
                    }
                } by {
                    if i < vpn - start - 1 {
                        assert((start + i) as u64 != (vpn - 1) as u64);
                        assert(page_table.translate_spec((start + i) as u64)
                            == t_prev.translate_spec((start + i) as u64));
                    }
                }
                assert(self.mapped_prefix(*page_table, vpn - start));
            }
        }
    }
}


impl MapArea {
    /// Unmaps every page of the area and returns its backing frames to the
    /// allocator.
    pub fn unmap(&mut self, page_table: &mut PageTable, fa: &mut StackFrameAllocator)
        requires
            old(self).range_wf(),
            old(self).mapped(*old(page_table)),
            old(page_table).wf(),
            old(fa)@.wf(),
            old(page_table).owned_by(old(fa)@),
            forall|i: int|
                0 <= i < old(self).data_frames@.len()
                    ==> old(fa)@.outstanding().contains(
                    (#[trigger] old(self).data_frames@[i]).ppn.0 as int,
                ) && !old(page_table).owned_ppns().contains(
                    old(self).data_frames@[i].ppn.0 as int,
                ),
            forall|i: int, j: int|
                0 <= i < j < old(self).data_frames@.len()
                    ==> old(self).data_frames@[i].ppn.0 != old(self).data_frames@[j].ppn.0,
        ensures
            final(self).vpn_range == old(self).vpn_range,
            final(self).map_type == old(self).map_type,
            final(self).map_perm == old(self).map_perm,
            final(self).data_frames@.len() == 0,
            final(page_table).wf(),
            final(fa)@.wf(),
            final(page_table).owned_by(final(fa)@),
            final(page_table).root_ppn == old(page_table).root_ppn,
            final(page_table).owned_ppns() =~= old(page_table).owned_ppns(),
            final(page_table).frames@ == old(page_table).frames@,
            forall|v: u64|
                old(self).start() <= v < old(self).end_vpn()
                    ==> (#[trigger] final(page_table).translate_spec(v)).is_none(),
            forall|v2: u64|
                v2 < VPN_BOUND && !(old(self).start() <= v2 < old(self).end_vpn())
                    ==> final(page_table).translate_spec(v2)
                        == old(page_table).translate_spec(v2),
            final(fa)@.outstanding().subset_of(old(fa)@.outstanding()),
            forall|p: int|
                old(fa)@.outstanding().contains(p) && !old(self).frame_ppns().contains(p)
                    ==> final(fa)@.outstanding().contains(p),
            final(fa)@.allocated_count() == old(fa)@.allocated_count()
                - old(self).data_frames@.len(),
            final(fa)@.avail() == old(fa)@.avail() + old(self).data_frames@.len(),
            final(fa)@.start == old(fa)@.start,
            final(fa)@.end == old(fa)@.end,
    {
        let ghost t0 = *page_table;
        let ghost m0 = fa@;
        let ghost a0 = *self;
        let start = self.vpn_range.start.0;
        let end = self.vpn_range.end.0;
        let mut vpn: u64 = start;
        while vpn < end
            invariant
                start == a0.start(),
                end == a0.end_vpn(),
                a0.range_wf(),
                a0.mapped(t0),
                start <= vpn <= end,
                *self == a0,
                page_table.wf(),
                page_table.root_ppn == t0.root_ppn,
                page_table.owned_ppns() =~= t0.owned_ppns(),
                page_table.frames@ == t0.frames@,
                forall|v: u64|
                    start <= v < vpn
                        ==> (#[trigger] page_table.translate_spec(v)).is_none(),
                forall|v2: u64|
                    v2 < VPN_BOUND && !(start <= v2 < vpn)
                        ==> page_table.translate_spec(v2) == t0.translate_spec(v2),
            decreases end - vpn,
        {
            let ghost t_prev = *page_table;
            proof {
                assert(page_table.translate_spec(vpn) == t0.translate_spec(vpn));
                assert(t0.translate_spec(vpn).is_some()) by {
                    let i = vpn - a0.start();
                    assert(t0.translate_spec((a0.start() + i) as u64).is_some());
                }
            }
            page_table.unmap(VirtPageNum(vpn));
            vpn = vpn + 1;
        }
        let ghost m_loop = fa@;
        let ghost n0 = a0.data_frames@.len() as int;
        while self.data_frames.len() > 0
            invariant
                fa@.wf(),
                n0 == a0.data_frames@.len(),
                self.vpn_range == a0.vpn_range,
                self.map_type == a0.map_type,
                self.map_perm == a0.map_perm,
                self.data_frames@.len() <= n0,
                forall|k: int|
                    0 <= k < self.data_frames@.len()
                        ==> (#[trigger] self.data_frames@[k]) == a0.data_frames@[k],
                forall|i: int, j: int|
                    0 <= i < j < n0
                        ==> a0.data_frames@[i].ppn.0 != a0.data_frames@[j].ppn.0,
                forall|i: int|
                    0 <= i < n0 ==> !t0.owned_ppns().contains(
                        (#[trigger] a0.data_frames@[i]).ppn.0 as int,
                    ),
                page_table.owned_ppns() =~= t0.owned_ppns(),
                fa@.outstanding().subset_of(m0.outstanding()),
                forall|p: int|
                    m0.outstanding().contains(p) && !a0.frame_ppns().contains(p)
                        ==> fa@.outstanding().contains(p),
                forall|i: int|
                    0 <= i < self.data_frames@.len()
                        ==> fa@.outstanding().contains(
                        (#[trigger] self.data_frames@[i]).ppn.0 as int,
                    ),
                fa@.allocated_count() == m0.allocated_count() - (n0 - self.data_frames@.len()),
                fa@.avail() == m0.avail() + (n0 - self.data_frames@.len()),
                fa@.start == m0.start,
                fa@.end == m0.end,
                page_table.owned_by(fa@),
            decreases self.data_frames@.len(),
        {
            let ghost m_prev = fa@;
            let ghost len_prev = self.data_frames@.len() as int;
            let t = self.data_frames.pop().unwrap();
            let ghost tp = t.ppn.0 as int;
            proof {
                assert(t == a0.data_frames@[len_prev - 1]);
            }
            frame_dealloc(fa, t);
            proof {
                assert forall|i: int| 0 <= i < self.data_frames@.len()
                    implies fa@.outstanding().contains(
                    (#[trigger] self.data_frames@[i]).ppn.0 as int,
                ) by {
                    assert(self.data_frames@[i] == a0.data_frames@[i]);
                    assert(a0.data_frames@[i].ppn.0 != a0.data_frames@[len_prev - 1].ppn.0);
                }
                assert forall|p: int|
                    m0.outstanding().contains(p) && !a0.frame_ppns().contains(p)
                    implies fa@.outstanding().contains(p) by {
                    assert(a0.frame_ppns().contains(tp)) by {
                        assert(0 <= len_prev - 1 < a0.data_frames@.len()
                            && a0.data_frames@[len_prev - 1].ppn.0 as int == tp);
                    }
                }
                assert forall|p: int| page_table.owned_ppns().contains(p)
                    implies fa@.outstanding().contains(p) by {
                    assert(m_prev.outstanding().contains(p));
                    assert(p != tp) by {
                        assert(!t0.owned_ppns().contains(tp)) by {
                            assert(a0.data_frames@[len_prev - 1].ppn.0 as int == tp);
                        }
                        assert(t0.owned_ppns().contains(p));
                    }
                }
            }
        }
    }

    /// Copies `bytes` into the area's backing frames, page by page: frame
    /// `i` receives the bytes at offsets `[i * PAGE_SIZE, (i+1) * PAGE_SIZE)`,
    /// and bytes past the end of `bytes` are left as they were.
    pub fn write_bytes(&mut self, page_table: &PageTable, bytes: &[u8])
        requires
            old(self).range_wf(),
            old(self).map_type == MapType::Framed,
            old(self).mapped(*page_table),
            bytes@.len() <= old(self).page_count() * PAGE_SIZE,
        ensures
            final(self).vpn_range == old(self).vpn_range,
            final(self).map_type == old(self).map_type,
            final(self).map_perm == old(self).map_perm,
            final(self).data_frames@.len() == old(self).data_frames@.len(),
            forall|i: int|
                0 <= i < old(self).data_frames@.len()
                    ==> (#[trigger] final(self).data_frames@[i]).ppn
                        == old(self).data_frames@[i].ppn
                    && final(self).data_frames@[i].wf(),
            forall|i: int, b: int|
                0 <= i < old(self).data_frames@.len() && 0 <= b < PAGE_SIZE
                    ==> (#[trigger] final(self).data_frames@[i].data@[b]) == if i * PAGE_SIZE + b
                    < bytes@.len() {
                    bytes@[i * PAGE_SIZE + b]
                } else {
                    old(self).data_frames@[i].data@[b]
                },
            final(self).mapped(*page_table),
    {
        let ghost a0 = *self;
        let mut i: usize = 0;
        let n = self.data_frames.len();
        proof {
            assert(n == a0.page_count());
        }
        while i < n
            invariant
                n == a0.data_frames@.len(),
                n == a0.page_count(),
                a0.range_wf(),
                a0.map_type == MapType::Framed,
                a0.mapped(*page_table),
                bytes@.len() <= a0.page_count() * PAGE_SIZE,
                i <= n,
                self.vpn_range == a0.vpn_range,
                self.map_type == a0.map_type,
                self.map_perm == a0.map_perm,
                self.data_frames@.len() == n,
                forall|k: int|
                    0 <= k < n ==> (#[trigger] self.data_frames@[k]).ppn
                        == a0.data_frames@[k].ppn && self.data_frames@[k].wf(),
                forall|k: int| i <= k < n
                    ==> (#[trigger] self.data_frames@[k]).data@ == a0.data_frames@[k].data@,
                forall|k: int, b: int|
                    0 <= k < i && 0 <= b < PAGE_SIZE
                        ==> (#[trigger] self.data_frames@[k].data@[b]) == if k * PAGE_SIZE + b
                        < bytes@.len() {
                        bytes@[k * PAGE_SIZE + b]
                    } else {
                        a0.data_frames@[k].data@[b]
                    },
            decreases n - i,
        {
            let ghost fprev = self.data_frames@;
            let base: u64 = (i as u64) * PAGE_SIZE;
            proof {
                assert((i as int) * PAGE_SIZE + PAGE_SIZE <= n * PAGE_SIZE) by (nonlinear_arith)
                    requires
                        0 <= (i as int) < n,
                ;
                assert(n * PAGE_SIZE <= VPN_BOUND * PAGE_SIZE) by (nonlinear_arith)
                    requires
                        n <= VPN_BOUND,
                ;
            }
            let mut b: u64 = 0;
            while b < PAGE_SIZE
                invariant
                    0 <= b <= PAGE_SIZE,
                    0 <= i < n,
                    n == self.data_frames@.len(),
                    base == i * PAGE_SIZE,
                    base + PAGE_SIZE <= n * PAGE_SIZE <= VPN_BOUND * PAGE_SIZE,
                    self.vpn_range == a0.vpn_range,
                    self.map_type == a0.map_type,
                    self.map_perm == a0.map_perm,
                    forall|k: int|
                        0 <= k < n && k != i ==> (#[trigger] self.data_frames@[k]) == fprev[k],
                    self.data_frames@[i as int].ppn == fprev[i as int].ppn,
                    self.data_frames@[i as int].data@.len() == PAGE_SIZE,
                    fprev[i as int].data@.len() == PAGE_SIZE,
                    fprev[i as int].ppn.0 < PPN_BOUND,
                    forall|bb: int| b <= bb < PAGE_SIZE
                        ==> (#[trigger] self.data_frames@[i as int].data@[bb])
                            == fprev[i as int].data@[bb],
                    forall|bb: int| 0 <= bb < b
                        ==> (#[trigger] self.data_frames@[i as int].data@[bb]) == if base + bb
                        < bytes@.len() {
                        bytes@[base + bb]
                    } else {
                        fprev[i as int].data@[bb]
                    },
                decreases PAGE_SIZE - b,
            {
                let idx = base + b;
                if idx < bytes.len() as u64 {
                    let v = bytes[idx as usize];
                    let fr = &mut self.data_frames[i];
                    let slot = &mut fr.data[b as usize];
                    *slot = v;
                }
                b = b + 1;
            }
            i = i + 1;
            proof {
                assert forall|k: int, b2: int|
                    0 <= k < i && 0 <= b2 < PAGE_SIZE
                    implies (#[trigger] self.data_frames@[k].data@[b2]) == (if k * PAGE_SIZE + b2
                        < bytes@.len() {
                        bytes@[k * PAGE_SIZE + b2]
                    } else {
                        a0.data_frames@[k].data@[b2]
                    }) by {
                    if k < i - 1 {
                        assert(self.data_frames@[k] == fprev[k]);
                    } else {
                        assert(k == i - 1);
                        assert(fprev[k].data@ == a0.data_frames@[k].data@);
                        assert(base == k * PAGE_SIZE);
                    }
                }
            }
        }
    }

}


/// Total number of backing frames held by a sequence of areas.
pub open spec fn areas_frame_count(s: Seq<MapArea>) -> int
    decreases s.len(),
{
    if s.len() == 0 {
        0
    } else {
        areas_frame_count(s.drop_last()) + s.last().data_frames@.len()
    }
}

/// An address space: a page table and the areas mapped through it.
pub struct MemorySet {
    /// The page table of this address space.
    pub page_table: PageTable,
    /// All areas mapped in this address space.
    pub areas: Vec<MapArea>,
}

impl MemorySet {
    /// Every frame owned by this address space: the page-table pages and
    /// the areas' backing frames.
    pub open spec fn owned_ppns(self) -> Set<int> {
        Set::new(
            |p: int|
                self.page_table.owned_ppns().contains(p) || exists|k: int, i: int|
                    0 <= k < self.areas@.len() && 0 <= i
                        < self.areas@[k].data_frames@.len()
                        && (#[trigger] self.areas@[k].data_frames@[i]).ppn.0 as int == p,
        )
    }

    /// Number of frames owned by this address space.
    pub open spec fn total_frames(self) -> int {
        self.page_table.frames@.len() + areas_frame_count(self.areas@)
    }

    /// The address space is consistent: the page table is well-formed,
    /// every area is mapped exactly as it records, area ranges do not
    /// overlap, and every owned frame is owned exactly once.
    pub open spec fn wf(self) -> bool {
        &&& self.page_table.wf()
        &&& forall|k: int|
            0 <= k < self.areas@.len() ==> (#[trigger] self.areas@[k]).range_wf()
                && self.areas@[k].mapped(self.page_table)
        &&& forall|k: int, i: int|
            0 <= k < self.areas@.len() && 0 <= i < self.areas@[k].data_frames@.len()
                ==> !self.page_table.owned_ppns().contains(
                (#[trigger] self.areas@[k].data_frames@[i]).ppn.0 as int,
            )
        &&& forall|k1: int, i1: int, k2: int, i2: int|
            0 <= k1 < self.areas@.len() && 0 <= i1 < self.areas@[k1].data_frames@.len() && 0 <= k2
                < self.areas@.len() && 0 <= i2 < self.areas@[k2].data_frames@.len() && (k1 != k2
                || i1 != i2)
                ==> (#[trigger] self.areas@[k1].data_frames@[i1]).ppn.0
                    != (#[trigger] self.areas@[k2].data_frames@[i2]).ppn.0
    }

    /// Every owned frame is outstanding in allocator state `m`.
    pub open spec fn owned_by(self, m: FrameAllocModel) -> bool {
        self.owned_ppns().subset_of(m.outstanding())
    }

    /// A new, empty address space with a fresh root page-table page.
    pub fn default(fa: &mut StackFrameAllocator) -> (r: Self)
        requires
            old(fa)@.wf(),
            old(fa)@.avail() >= 1,
        ensures
            final(fa)@.wf(),
            r.wf(),
            r.owned_by(final(fa)@),
            r.areas@.len() == 0,
            forall|v: u64| v < VPN_BOUND ==> r.page_table.translate_spec(v).is_none(),
            r.total_frames() == 1,
            forall|p: int|
                r.owned_ppns().contains(p) ==> !old(fa)@.outstanding().contains(p),
            old(fa)@.outstanding().subset_of(final(fa)@.outstanding()),
            forall|p: int|
                final(fa)@.outstanding().contains(p)
                    ==> old(fa)@.outstanding().contains(p) || r.owned_ppns().contains(p),
            final(fa)@.avail() == old(fa)@.avail() - 1,
            final(fa)@.allocated_count() == old(fa)@.allocated_count() + 1,
            final(fa)@.start == old(fa)@.start,
            final(fa)@.end == old(fa)@.end,
    {
        let page_table = PageTable::new(fa);
        let r = MemorySet { page_table, areas: Vec::new() };
        proof {
            assert(r.total_frames() == 1) by {
                assert(areas_frame_count(r.areas@) == 0);
                assert(r.page_table.frames@.len() == 1);
            }
            assert forall|p: int| r.owned_ppns().contains(p)
                implies r.page_table.owned_ppns().contains(p) by {
            }
        }
        r
    }

    /// The valid leaf entry mapped for `vpn` in this address space, if any.
    pub fn translate(&self, vpn: VirtPageNum) -> (r: Option<PageTableEntry>)
        requires
            self.page_table.wf(),
            vpn.0 < VPN_BOUND,
        ensures
            r == self.page_table.translate_spec(vpn.0),
    {
        self.page_table.translate(vpn)
    }

    /// The value to load into the address-translation CSR for this address
    /// space: the SV39 mode bits, address-space id zero, and the root page
    /// number.
    pub fn token(&self) -> (r: u64)
        requires
            self.page_table.root_ppn.0 < PPN_BOUND,
        ensures
            r == 0x8000_0000_0000_0000u64 + self.page_table.root_ppn.0,
    {
        0x8000_0000_0000_0000u64 + self.page_table.root_ppn.0
    }

    /// Maps `map_area` into this address space and, when `bytes` is given,
    /// fills the area's frames with it, page by page.
    #[verifier::rlimit(100)]
    pub fn push(
        &mut self,
        map_area: MapArea,
        bytes: Option<&[u8]>,
        fa: &mut StackFrameAllocator,
    )
        requires
            old(self).wf(),
            old(fa)@.wf(),
            old(self).owned_by(old(fa)@),
            map_area.range_wf(),
            map_area.data_frames@.len() == 0,
            old(fa)@.avail() >= 3 * map_area.page_count(),
            forall|v: u64|
                map_area.start() <= v < map_area.end_vpn()
                    ==> (#[trigger] old(self).page_table.translate_spec(v)).is_none(),
            bytes.is_some() ==> map_area.map_type == MapType::Framed
                && bytes.unwrap()@.len() <= map_area.page_count() * PAGE_SIZE,
        ensures
            final(self).wf(),
            final(fa)@.wf(),
            final(self).owned_by(final(fa)@),
            final(self).page_table.root_ppn == old(self).page_table.root_ppn,
            // the new area is recorded last, covering the same range
            final(self).areas@.len() == old(self).areas@.len() + 1,
            forall|k: int|
                0 <= k < old(self).areas@.len()
                    ==> final(self).areas@[k] == old(self).areas@[k],
            ({
                let a = final(self).areas@.last();
                &&& a.vpn_range == map_area.vpn_range
                &&& a.map_type == map_area.map_type
                &&& a.map_perm == map_area.map_perm
                &&& a.mapped(final(self).page_table)
                &&& a.map_type == MapType::Framed ==> forall|i: int, b: int|
                    0 <= i < a.data_frames@.len() && 0 <= b < PAGE_SIZE
                        ==> (#[trigger] a.data_frames@[i].data@[b]) == (match bytes {
                        Some(d) => if i * PAGE_SIZE + b < d@.len() {
                            d@[i * PAGE_SIZE + b]
                        } else {
                            0u8
                        },
                        None => 0u8,
                    })
            }),
            forall|v2: u64|
                v2 < VPN_BOUND && !(map_area.start() <= v2 < map_area.end_vpn())
                    ==> final(self).page_table.translate_spec(v2)
                        == old(self).page_table.translate_spec(v2),
            old(self).owned_ppns().subset_of(final(self).owned_ppns()),
            forall|p: int|
                final(self).owned_ppns().contains(p)
                    ==> old(self).owned_ppns().contains(p)
                        || !old(fa)@.outstanding().contains(p),
            old(fa)@.outstanding().subset_of(final(fa)@.outstanding()),
            forall|p: int|
                final(fa)@.outstanding().contains(p)
                    ==> old(fa)@.outstanding().contains(p)
                        || final(self).owned_ppns().contains(p),
            final(fa)@.avail() >= old(fa)@.avail() - 3 * map_area.page_count(),
            final(fa)@.allocated_count() == old(fa)@.allocated_count()
                + (final(self).total_frames() - old(self).total_frames()),
            final(fa)@.start == old(fa)@.start,
            final(fa)@.end == old(fa)@.end,
    {
        let mut map_area = map_area;
        let ghost ms0 = *self;
        let ghost m0 = fa@;
        map_area.map(&mut self.page_table, fa);
        let ghost m1 = fa@;
        let ghost a_mid = map_area;
        if let Some(data) = bytes {
            map_area.write_bytes(&self.page_table, data);
        }
        let ghost a_new = map_area;
        proof {
            assert(areas_frame_count(self.areas@.push(a_new))
                == areas_frame_count(self.areas@) + a_new.data_frames@.len()) by {
            assert(self.areas@.push(a_new).drop_last() =~= self.areas@);
            }
        }
        self.areas.push(map_area);
        proof {
            let msf = *self;
            // the old areas are untouched and still mapped
            assert forall|k: int| 0 <= k < ms0.areas@.len()
                implies msf.areas@[k] == ms0.areas@[k] by {
            }
            assert forall|k: int| 0 <= k < msf.areas@.len()
                implies (#[trigger] msf.areas@[k]).range_wf()
                    && msf.areas@[k].mapped(msf.page_table) by {
                if k < ms0.areas@.len() {
                    let a = ms0.areas@[k];
                    assert(a.mapped(ms0.page_table));
                    assert forall|i: int| 0 <= i < a.page_count() implies {
                        let t = #[trigger] msf.page_table.translate_spec((a.start() + i) as u64);
                        &&& t.is_some()
                        &&& t.unwrap().spec_flags() == a.map_perm | PTE_V
                        &&& t.unwrap().spec_ppn() == if a.map_type == MapType::Framed {
                            a.data_frames@[i].ppn.0
                        } else {
                            (a.start() + i) as u64
                        }
                    } by {
                        let v = (a.start() + i) as u64;
                        assert(ms0.page_table.translate_spec(v).is_some());
                        assert(!(a_new.start() <= v < a_new.end_vpn())) by {
                            if a_new.start() <= v < a_new.end_vpn() {
                                assert(ms0.page_table.translate_spec(v).is_none());
                            }
                        }
                        assert(msf.page_table.translate_spec(v)
                            == ms0.page_table.translate_spec(v));
                    }
                }
            }
            // every frame is owned exactly once
            assert forall|k: int, i: int|
                0 <= k < msf.areas@.len() && 0 <= i < msf.areas@[k].data_frames@.len()
                implies !msf.page_table.owned_ppns().contains(
                (#[trigger] msf.areas@[k].data_frames@[i]).ppn.0 as int,
            ) by {
                let p = msf.areas@[k].data_frames@[i].ppn.0 as int;
                if k < ms0.areas@.len() {
                    assert(ms0.owned_ppns().contains(p));
                    assert(m0.outstanding().contains(p));
                    assert(!ms0.page_table.owned_ppns().contains(p));
                    if msf.page_table.owned_ppns().contains(p) {
                        assert(ms0.page_table.owned_ppns().contains(p)
                            || !m0.outstanding().contains(p));
                    }
                }
            }
            assert forall|k1: int, i1: int, k2: int, i2: int|
                0 <= k1 < msf.areas@.len() && 0 <= i1 < msf.areas@[k1].data_frames@.len() && 0
                    <= k2 < msf.areas@.len() && 0 <= i2 < msf.areas@[k2].data_frames@.len() && (k1
                    != k2 || i1 != i2)
                implies (#[trigger] msf.areas@[k1].data_frames@[i1]).ppn.0
                    != (#[trigger] msf.areas@[k2].data_frames@[i2]).ppn.0 by {
                let last = msf.areas@.len() - 1;
                if k1 == last && k2 == last {
                } else if k1 == last {
                    let p2 = ms0.areas@[k2].data_frames@[i2].ppn.0;
                    assert(ms0.owned_ppns().contains(p2 as int));
                    assert(m0.outstanding().contains(p2 as int));
                    assert(!m0.outstanding().contains(
                        msf.areas@[k1].data_frames@[i1].ppn.0 as int,
                    ));
                } else if k2 == last {
                    let p1 = ms0.areas@[k1].data_frames@[i1].ppn.0;
                    assert(ms0.owned_ppns().contains(p1 as int));
                    assert(m0.outstanding().contains(p1 as int));
                    assert(!m0.outstanding().contains(
                        msf.areas@[k2].data_frames@[i2].ppn.0 as int,
                    ));
                }
            }
            assert(msf.wf());
            // ownership bookkeeping
            assert forall|p: int| msf.owned_ppns().contains(p)
                implies ms0.owned_ppns().contains(p) || !m0.outstanding().contains(p) by {
                if msf.page_table.owned_ppns().contains(p) {
                    if !ms0.page_table.owned_ppns().contains(p) {
                        assert(!m0.outstanding().contains(p));
                    } else {
                        assert(ms0.owned_ppns().contains(p));
                    }
                }
            }
            assert forall|p: int| msf.owned_ppns().contains(p)
                implies fa@.outstanding().contains(p) by {
                if msf.page_table.owned_ppns().contains(p) {
                } else {
                    let (k, i) = choose|k: int, i: int|
                        0 <= k < msf.areas@.len() && 0 <= i
                            < msf.areas@[k].data_frames@.len()
                            && (#[trigger] msf.areas@[k].data_frames@[i]).ppn.0 as int == p;
                    if k < ms0.areas@.len() {
                        assert(ms0.owned_ppns().contains(p));
                        assert(m0.outstanding().contains(p));
                    } else {
                        assert(fa@.outstanding().contains(p));
                    }
                }
            }
            assert forall|p: int| ms0.owned_ppns().contains(p)
                implies msf.owned_ppns().contains(p) by {
                if !ms0.page_table.owned_ppns().contains(p) {
                    let (k, i) = choose|k: int, i: int|
                        0 <= k < ms0.areas@.len() && 0 <= i
                            < ms0.areas@[k].data_frames@.len()
                            && (#[trigger] ms0.areas@[k].data_frames@[i]).ppn.0 as int == p;
                    assert(msf.areas@[k].data_frames@[i].ppn.0 as int == p);
                }
            }
            assert(a_mid.frame_ppns() =~= a_new.frame_ppns()) by {
                assert forall|p: int| a_mid.frame_ppns().contains(p)
                    implies a_new.frame_ppns().contains(p) by {
                    let i = choose|i: int|
                        0 <= i < a_mid.data_frames@.len()
                            && a_mid.data_frames@[i].ppn.0 as int == p;
                    assert(a_new.data_frames@[i].ppn.0 as int == p);
                }
                assert forall|p: int| a_new.frame_ppns().contains(p)
                    implies a_mid.frame_ppns().contains(p) by {
                    let i = choose|i: int|
                        0 <= i < a_new.data_frames@.len()
                            && a_new.data_frames@[i].ppn.0 as int == p;
                    assert(a_mid.data_frames@[i].ppn.0 as int == p);
                }
            }
            assert forall|p: int| fa@.outstanding().contains(p)
                implies m0.outstanding().contains(p) || msf.owned_ppns().contains(p) by {
                if !m0.outstanding().contains(p) {
                    assert(m0.outstanding().contains(p)
                        || msf.page_table.owned_ppns().contains(p)
                        || a_mid.frame_ppns().contains(p));
                    if msf.page_table.owned_ppns().contains(p) {
                    } else if a_new.frame_ppns().contains(p) {
                        let i = choose|i: int|
                            0 <= i < a_new.data_frames@.len()
                                && a_new.data_frames@[i].ppn.0 as int == p;
                        let last = msf.areas@.len() - 1;
                        assert(msf.areas@[last].data_frames@[i].ppn.0 as int == p);
                        assert(msf.owned_ppns().contains(p));
                    }
                }
            }
        }
    }

    /// Maps a new framed area covering `[start_va, end_va)` with the given
    /// permissions, without initial contents.
    pub fn insert_framed_area(
        &mut self,
        start_va: VirtAddr,
        end_va: VirtAddr,
        permission: u8,
        fa: &mut StackFrameAllocator,
    )
        requires
            old(self).wf(),
            old(fa)@.wf(),
            old(self).owned_by(old(fa)@),
            start_va.0 <= end_va.0 <= VPN_BOUND * PAGE_SIZE,
            old(fa)@.avail() >= 3 * ((end_va.0 + PAGE_SIZE - 1) / (PAGE_SIZE as int)
                - start_va.0 / PAGE_SIZE),
            forall|v: u64|
                start_va.0 / PAGE_SIZE <= v < (end_va.0 + PAGE_SIZE - 1) / (PAGE_SIZE as int)
                    ==> (#[trigger] old(self).page_table.translate_spec(v)).is_none(),
        ensures
            final(self).wf(),
            final(fa)@.wf(),
            final(self).owned_by(final(fa)@),
            final(self).page_table.root_ppn == old(self).page_table.root_ppn,
            final(self).areas@.len() == old(self).areas@.len() + 1,
            forall|k: int|
                0 <= k < old(self).areas@.len()
                    ==> final(self).areas@[k] == old(self).areas@[k],
            ({
                let a = final(self).areas@.last();
                &&& a.start() == start_va.0 / PAGE_SIZE
                &&& a.end_vpn() == (end_va.0 + PAGE_SIZE - 1) / (PAGE_SIZE as int)
                &&& a.map_type == MapType::Framed
                &&& a.map_perm == permission
                &&& a.mapped(final(self).page_table)
            }),
            forall|v2: u64|
                v2 < VPN_BOUND && !(start_va.0 / PAGE_SIZE <= v2 < (end_va.0 + PAGE_SIZE - 1)
                    / (PAGE_SIZE as int))
                    ==> final(self).page_table.translate_spec(v2)
                        == old(self).page_table.translate_spec(v2),
            old(fa)@.outstanding().subset_of(final(fa)@.outstanding()),
            final(fa)@.allocated_count() == old(fa)@.allocated_count()
                + (final(self).total_frames() - old(self).total_frames()),
            final(fa)@.start == old(fa)@.start,
            final(fa)@.end == old(fa)@.end,
    {
        let area = MapArea::new(start_va, end_va, MapType::Framed, permission);
        self.push(area, None, fa);
    }
}


/// The page numbers of a sequence of frame trackers.
pub open spec fn tracker_ppns(s: Seq<FrameTracker>) -> Set<int> {
    Set::new(|p: int| exists|i: int| 0 <= i < s.len() && (#[trigger] s[i]).ppn.0 as int == p)
}

/// Returns every frame in `frames` to the allocator.
fn release_frames(frames: Vec<FrameTracker>, fa: &mut StackFrameAllocator)
    requires
        old(fa)@.wf(),
        forall|i: int, j: int|
            0 <= i < j < frames@.len() ==> frames@[i].ppn.0 != frames@[j].ppn.0,
        forall|i: int|
            0 <= i < frames@.len() ==> old(fa)@.outstanding().contains(
                (#[trigger] frames@[i]).ppn.0 as int,
            ),
    ensures
        final(fa)@.wf(),
        final(fa)@.allocated_count() == old(fa)@.allocated_count() - frames@.len(),
        final(fa)@.avail() == old(fa)@.avail() + frames@.len(),
        final(fa)@.outstanding().subset_of(old(fa)@.outstanding()),
        forall|p: int|
            old(fa)@.outstanding().contains(p) && !tracker_ppns(frames@).contains(p)
                ==> final(fa)@.outstanding().contains(p),
        final(fa)@.start == old(fa)@.start,
        final(fa)@.end == old(fa)@.end,
{
    let ghost f0 = frames@;
    let ghost m0 = fa@;
    let mut frames = frames;
    while frames.len() > 0
        invariant
            fa@.wf(),
            frames@.len() <= f0.len(),
            forall|k: int| 0 <= k < frames@.len() ==> (#[trigger] frames@[k]) == f0[k],
            forall|i: int, j: int| 0 <= i < j < f0.len() ==> f0[i].ppn.0 != f0[j].ppn.0,
            forall|i: int|
                0 <= i < frames@.len() ==> fa@.outstanding().contains(
                    (#[trigger] frames@[i]).ppn.0 as int,
                ),
            fa@.outstanding().subset_of(m0.outstanding()),
            forall|p: int|
                m0.outstanding().contains(p) && !tracker_ppns(f0).contains(p)
                    ==> fa@.outstanding().contains(p),
            fa@.allocated_count() == m0.allocated_count() - (f0.len() - frames@.len()),
            fa@.avail() == m0.avail() + (f0.len() - frames@.len()),
            fa@.start == m0.start,
            fa@.end == m0.end,
        decreases frames@.len(),
    {
        let ghost len_prev = frames@.len() as int;
        let t = frames.pop().unwrap();
        let ghost tp = t.ppn.0 as int;
        proof {
            assert(t == f0[len_prev - 1]);
        }
        frame_dealloc(fa, t);
        proof {
            assert forall|i: int| 0 <= i < frames@.len()
                implies fa@.outstanding().contains((#[trigger] frames@[i]).ppn.0 as int) by {
                assert(frames@[i] == f0[i]);
                assert(f0[i].ppn.0 != f0[len_prev - 1].ppn.0);
            }
            assert forall|p: int|
                m0.outstanding().contains(p) && !tracker_ppns(f0).contains(p)
                implies fa@.outstanding().contains(p) by {
                assert(tracker_ppns(f0).contains(tp)) by {
                    assert(0 <= len_prev - 1 < f0.len() && f0[len_prev - 1].ppn.0 as int == tp);
                }
            }
        }
    }
}

impl MemorySet {
    /// Tears the address space down, returning every frame it owns — the
    /// areas' backing frames and the page-table pages — to the allocator.
    /// The allocator's count of handed-out frames drops by exactly the
    /// number of frames the address space held.
    pub fn recycle(self, fa: &mut StackFrameAllocator)
        requires
            self.wf(),
            old(fa)@.wf(),
            self.owned_by(old(fa)@),
        ensures
            final(fa)@.wf(),
            final(fa)@.allocated_count() == old(fa)@.allocated_count() - self.total_frames(),
            final(fa)@.avail() == old(fa)@.avail() + self.total_frames(),
            final(fa)@.outstanding().subset_of(old(fa)@.outstanding()),
            forall|p: int|
                old(fa)@.outstanding().contains(p) && !self.owned_ppns().contains(p)
                    ==> final(fa)@.outstanding().contains(p),
            final(fa)@.start == old(fa)@.start,
            final(fa)@.end == old(fa)@.end,
    {
        let ghost ms0 = self;
        let ghost m0 = fa@;
        let MemorySet { page_table, areas } = self;
        let mut areas = areas;
        while areas.len() > 0
            invariant
                ms0.wf(),
                fa@.wf(),
                areas@.len() <= ms0.areas@.len(),
                forall|k: int| 0 <= k < areas@.len() ==> (#[trigger] areas@[k]) == ms0.areas@[k],
                page_table == ms0.page_table,
                forall|k: int, i: int|
                    0 <= k < areas@.len() && 0 <= i < areas@[k].data_frames@.len()
                        ==> fa@.outstanding().contains(
                        (#[trigger] areas@[k].data_frames@[i]).ppn.0 as int,
                    ),
                page_table.owned_by(fa@),
                fa@.outstanding().subset_of(m0.outstanding()),
                forall|p: int|
                    m0.outstanding().contains(p) && !ms0.owned_ppns().contains(p)
                        ==> fa@.outstanding().contains(p),
                fa@.allocated_count() == m0.allocated_count()
                    - (areas_frame_count(ms0.areas@) - areas_frame_count(areas@)),
                fa@.avail() == m0.avail()
                    + (areas_frame_count(ms0.areas@) - areas_frame_count(areas@)),
                fa@.start == m0.start,
                fa@.end == m0.end,
            decreases areas@.len(),
        {
            let ghost areas_prev = areas@;
            let ghost m_prev = fa@;
            let area = areas.pop().unwrap();
            let ghost ak = areas_prev.len() - 1;
            proof {
                assert(area == ms0.areas@[ak]);
                assert(areas_frame_count(areas_prev)
                    == areas_frame_count(areas@) + area.data_frames@.len()) by {
                    assert(areas_prev.drop_last() =~= areas@);
                }
                assert forall|i: int, j: int|
                    0 <= i < j < area.data_frames@.len()
                    implies area.data_frames@[i].ppn.0 != area.data_frames@[j].ppn.0 by {
                    assert(ms0.areas@[ak].data_frames@[i].ppn.0
                        != ms0.areas@[ak].data_frames@[j].ppn.0);
                }
            }
            let ghost released = area.data_frames@;
            release_frames(area.data_frames, fa);
            proof {
                assert forall|k: int, i: int|
                    0 <= k < areas@.len() && 0 <= i < areas@[k].data_frames@.len()
                    implies fa@.outstanding().contains(
                    (#[trigger] areas@[k].data_frames@[i]).ppn.0 as int,
                ) by {
                    assert(areas@[k] == ms0.areas@[k]);
                    let p = ms0.areas@[k].data_frames@[i].ppn.0 as int;
                    assert(m_prev.outstanding().contains(p));
                    assert(!tracker_ppns(released).contains(p)) by {
                        if tracker_ppns(released).contains(p) {
                            let i2 = choose|i2: int|
                                0 <= i2 < released.len()
                                    && released[i2].ppn.0 as int == p;
                            assert(ms0.areas@[ak].data_frames@[i2].ppn.0
                                != ms0.areas@[k].data_frames@[i].ppn.0);
                        }
                    }
                }
                assert forall|p: int| page_table.owned_ppns().contains(p)
                    implies fa@.outstanding().contains(p) by {
                    assert(m_prev.outstanding().contains(p));
                    assert(!tracker_ppns(released).contains(p)) by {
                        if tracker_ppns(released).contains(p) {
                            let i2 = choose|i2: int|
                                0 <= i2 < released.len()
                                    && released[i2].ppn.0 as int == p;
                            assert(!ms0.page_table.owned_ppns().contains(
                                ms0.areas@[ak].data_frames@[i2].ppn.0 as int,
                            ));
                        }
                    }
                }
                assert forall|p: int|
                    m0.outstanding().contains(p) && !ms0.owned_ppns().contains(p)
                    implies fa@.outstanding().contains(p) by {
                    assert(!tracker_ppns(released).contains(p)) by {
                        if tracker_ppns(released).contains(p) {
                            let i2 = choose|i2: int|
                                0 <= i2 < released.len()
                                    && released[i2].ppn.0 as int == p;
                            assert(ms0.areas@[ak].data_frames@[i2].ppn.0 as int == p);
                            assert(ms0.owned_ppns().contains(p));
                        }
                    }
                    assert(m_prev.outstanding().contains(p));
                }
            }
        }
        proof {
            assert(areas_frame_count(areas@) == 0);
            assert forall|i: int, j: int|
                0 <= i < j < page_table.frames@.len()
                implies page_table.frames@[i].ppn.0 != page_table.frames@[j].ppn.0 by {
                assert(page_table.frames@[i].ppn.0 == page_table.nodes@[i].ppn);
                assert(page_table.frames@[j].ppn.0 == page_table.nodes@[j].ppn);
            }
            assert forall|i: int| 0 <= i < page_table.frames@.len()
                implies fa@.outstanding().contains(
                (#[trigger] page_table.frames@[i]).ppn.0 as int,
            ) by {
                assert(page_table.owned_ppns().contains(
                    page_table.nodes@[i].ppn as int,
                ));
            }
        }
        let ghost m_mid = fa@;
        let ghost pt_frames = page_table.frames@;
        let PageTable { root_ppn: _, frames: pt_frame_vec, nodes: _ } = page_table;
        release_frames(pt_frame_vec, fa);
        proof {
            assert forall|p: int|
                m0.outstanding().contains(p) && !ms0.owned_ppns().contains(p)
                implies final(fa)@.outstanding().contains(p) by {
                assert(m_mid.outstanding().contains(p));
                assert(!tracker_ppns(pt_frames).contains(p)) by {
                    if tracker_ppns(pt_frames).contains(p) {
                        let i2 = choose|i2: int|
                            0 <= i2 < pt_frames.len() && pt_frames[i2].ppn.0 as int == p;
                        assert(ms0.page_table.nodes@[i2].ppn as int == p);
                        assert(ms0.page_table.owned_ppns().contains(p));
                        assert(ms0.owned_ppns().contains(p));
                    }
                }
            }
        }
    }
}


/// The addresses of the kernel image's sections and of physical memory, as
/// the linker script lays them out. All boundaries are page-aligned.
#[derive(Clone, Copy, Debug, PartialEq, Eq, Structural)]
pub struct KernelLayout {
    /// Start of the kernel's code.
    pub stext: u64,
    /// End of the kernel's code.
    pub etext: u64,
    /// Start of the read-only data.
    pub srodata: u64,
    /// End of the read-only data.
    pub erodata: u64,
    /// Start of the initialized data.
    pub sdata: u64,
    /// End of the initialized data.
    pub edata: u64,
    /// Start of the zero-initialized data, boot stack included.
    pub sbss_with_stack: u64,
    /// End of the zero-initialized data.
    pub ebss: u64,
    /// End of the kernel image; usable frames start here.
    pub ekernel: u64,
    /// Physical address of the trampoline code page.
    pub strampoline: u64,
    /// One past the last usable physical address.
    pub memory_end: u64,
}

impl KernelLayout {
    /// The sections are page-aligned, ordered, and below the pages reserved
    /// for the trampoline and trap contexts.
    pub open spec fn wf(self) -> bool {
        &&& self.stext % PAGE_SIZE == 0
        &&& self.etext % PAGE_SIZE == 0
        &&& self.srodata % PAGE_SIZE == 0
        &&& self.erodata % PAGE_SIZE == 0
        &&& self.sdata % PAGE_SIZE == 0
        &&& self.edata % PAGE_SIZE == 0
        &&& self.sbss_with_stack % PAGE_SIZE == 0
        &&& self.ebss % PAGE_SIZE == 0
        &&& self.ekernel % PAGE_SIZE == 0
        &&& self.strampoline % PAGE_SIZE == 0
        &&& self.memory_end % PAGE_SIZE == 0
        &&& 0 < self.stext <= self.etext <= self.srodata <= self.erodata <= self.sdata
            <= self.edata <= self.sbss_with_stack <= self.ebss <= self.ekernel
            <= self.memory_end
        &&& self.memory_end / PAGE_SIZE < TRAMPOLINE_VPN - 1
        &&& self.strampoline / PAGE_SIZE < PPN_BOUND
    }

    /// Number of page-table allocations that building the kernel space may
    /// need: two for the trampoline and three per identity-mapped page.
    pub open spec fn frame_budget(self) -> int {
        2 + 3 * ((self.etext - self.stext) / (PAGE_SIZE as int) + (self.erodata - self.srodata)
            / (PAGE_SIZE as int) + (self.edata - self.sdata) / (PAGE_SIZE as int) + (self.ebss
            - self.sbss_with_stack) / (PAGE_SIZE as int) + (self.memory_end - self.ekernel)
            / (PAGE_SIZE as int))
    }
}


/// With page-aligned boundaries, the sections' page ranges are ordered and
/// rounding up equals rounding down.
proof fn lemma_layout_pages_ordered(layout: KernelLayout)
    requires
        layout.wf(),
    ensures
        (layout.etext + PAGE_SIZE - 1) / (PAGE_SIZE as int) == layout.etext / PAGE_SIZE,
        (layout.erodata + PAGE_SIZE - 1) / (PAGE_SIZE as int) == layout.erodata / PAGE_SIZE,
        (layout.edata + PAGE_SIZE - 1) / (PAGE_SIZE as int) == layout.edata / PAGE_SIZE,
        (layout.ebss + PAGE_SIZE - 1) / (PAGE_SIZE as int) == layout.ebss / PAGE_SIZE,
        (layout.memory_end + PAGE_SIZE - 1) / (PAGE_SIZE as int) == layout.memory_end / PAGE_SIZE,
        layout.stext / PAGE_SIZE <= layout.etext / PAGE_SIZE,
        layout.etext / PAGE_SIZE <= layout.srodata / PAGE_SIZE,
        layout.srodata / PAGE_SIZE <= layout.erodata / PAGE_SIZE,
        layout.erodata / PAGE_SIZE <= layout.sdata / PAGE_SIZE,
        layout.sdata / PAGE_SIZE <= layout.edata / PAGE_SIZE,
        layout.edata / PAGE_SIZE <= layout.sbss_with_stack / PAGE_SIZE,
        layout.sbss_with_stack / PAGE_SIZE <= layout.ebss / PAGE_SIZE,
        layout.ebss / PAGE_SIZE <= layout.ekernel / PAGE_SIZE,
        layout.ekernel / PAGE_SIZE <= layout.memory_end / PAGE_SIZE,
        layout.memory_end / PAGE_SIZE < TRAMPOLINE_VPN - 1,
        layout.etext / PAGE_SIZE - layout.stext / PAGE_SIZE
            == (layout.etext - layout.stext) / (PAGE_SIZE as int),
        layout.erodata / PAGE_SIZE - layout.srodata / PAGE_SIZE
            == (layout.erodata - layout.srodata) / (PAGE_SIZE as int),
        layout.edata / PAGE_SIZE - layout.sdata / PAGE_SIZE
            == (layout.edata - layout.sdata) / (PAGE_SIZE as int),
        layout.ebss / PAGE_SIZE - layout.sbss_with_stack / PAGE_SIZE
            == (layout.ebss - layout.sbss_with_stack) / (PAGE_SIZE as int),
        layout.memory_end / PAGE_SIZE - layout.ekernel / PAGE_SIZE
            == (layout.memory_end - layout.ekernel) / (PAGE_SIZE as int),
{
    lemma_aligned_div(layout.stext, layout.etext);
    lemma_aligned_div(layout.etext, layout.srodata);
    lemma_aligned_div(layout.srodata, layout.erodata);
    lemma_aligned_div(layout.erodata, layout.sdata);
    lemma_aligned_div(layout.sdata, layout.edata);
    lemma_aligned_div(layout.edata, layout.sbss_with_stack);
    lemma_aligned_div(layout.sbss_with_stack, layout.ebss);
    lemma_aligned_div(layout.ebss, layout.ekernel);
    lemma_aligned_div(layout.ekernel, layout.memory_end);
}

/// Division by the page size of two ordered page-aligned addresses.
proof fn lemma_aligned_div(a: u64, b: u64)
    by (nonlinear_arith)
    requires
        a % PAGE_SIZE == 0,
        b % PAGE_SIZE == 0,
        a <= b,
    ensures
        a / PAGE_SIZE <= b / PAGE_SIZE,
        (a + PAGE_SIZE - 1) / (PAGE_SIZE as int) == a / PAGE_SIZE,
        (b + PAGE_SIZE - 1) / (PAGE_SIZE as int) == b / PAGE_SIZE,
        b / PAGE_SIZE - a / PAGE_SIZE == (b - a) / (PAGE_SIZE as int),
{
}

/// Flag combinations of the kernel's sections keep code unwritable and data
/// non-executable.
pub proof fn lemma_kernel_section_flags()
    by (bit_vector)
    ensures
        ((2u8 | 8u8) | 1u8) & 4u8 == 0u8,
        (2u8 | 1u8) & 4u8 == 0u8,
        ((2u8 | 4u8) | 1u8) & 8u8 == 0u8,
        ((2u8 | 8u8) | 1u8) & 8u8 != 0u8,
        ((2u8 | 4u8) | 1u8) & 4u8 != 0u8,
        ((2u8 | 8u8) | 1u8) & 16u8 == 0u8,
        (2u8 | 1u8) & 16u8 == 0u8,
        ((2u8 | 4u8) | 1u8) & 16u8 == 0u8,
{
}

impl MemorySet {
    /// Maps the trampoline code page at the top of the virtual address
    /// space, readable and executable, owned by no area.
    fn map_trampoline(&mut self, strampoline_ppn: PhysPageNum, fa: &mut StackFrameAllocator)
        requires
            old(self).wf(),
            old(fa)@.wf(),
            old(self).owned_by(old(fa)@),
            old(fa)@.avail() >= 2,
            strampoline_ppn.0 < PPN_BOUND,
            old(self).page_table.translate_spec(TRAMPOLINE_VPN).is_none(),
        ensures
            final(self).wf(),
            final(fa)@.wf(),
            final(self).owned_by(final(fa)@),
            final(self).page_table.root_ppn == old(self).page_table.root_ppn,
            final(self).areas@ == old(self).areas@,
            ({
                let t = final(self).page_table.translate_spec(TRAMPOLINE_VPN);
                &&& t.is_some()
                &&& t.unwrap().spec_ppn() == strampoline_ppn.0
                &&& t.unwrap().spec_flags() == (MAP_PERM_R | MAP_PERM_X) | PTE_V
            }),
            forall|v2: u64|
                v2 < VPN_BOUND && v2 != TRAMPOLINE_VPN
                    ==> final(self).page_table.translate_spec(v2)
                        == old(self).page_table.translate_spec(v2),
            old(fa)@.outstanding().subset_of(final(fa)@.outstanding()),
            forall|p: int|
                final(fa)@.outstanding().contains(p)
                    ==> old(fa)@.outstanding().contains(p)
                        || final(self).owned_ppns().contains(p),
            forall|p: int|
                final(self).owned_ppns().contains(p)
                    ==> old(self).owned_ppns().contains(p)
                        || !old(fa)@.outstanding().contains(p),
            final(fa)@.avail() >= old(fa)@.avail() - 2,
            final(fa)@.allocated_count() == old(fa)@.allocated_count()
                + (final(self).total_frames() - old(self).total_frames()),
            final(fa)@.start == old(fa)@.start,
            final(fa)@.end == old(fa)@.end,
    {
        let ghost ms0 = *self;
        let ghost m0 = fa@;
        self.page_table.map(fa, VirtPageNum(TRAMPOLINE_VPN), strampoline_ppn, MAP_PERM_R
            | MAP_PERM_X);
        proof {
            let msf = *self;
            assert forall|k: int| 0 <= k < msf.areas@.len()
                implies (#[trigger] msf.areas@[k]).range_wf()
                    && msf.areas@[k].mapped(msf.page_table) by {
                let a = ms0.areas@[k];
                assert(a.mapped(ms0.page_table));
                assert forall|i: int| 0 <= i < a.page_count() implies {
                    let t = #[trigger] msf.page_table.translate_spec((a.start() + i) as u64);
                    &&& t.is_some()
                    &&& t.unwrap().spec_flags() == a.map_perm | PTE_V
                    &&& t.unwrap().spec_ppn() == if a.map_type == MapType::Framed {
                        a.data_frames@[i].ppn.0
                    } else {
                        (a.start() + i) as u64
                    }
                } by {
                    let v = (a.start() + i) as u64;
                    assert(ms0.page_table.translate_spec(v).is_some());
                    assert(v != TRAMPOLINE_VPN) by {
                        if v == TRAMPOLINE_VPN {
                            assert(ms0.page_table.translate_spec(v).is_none());
                        }
                    }
                }
            }
            assert forall|k: int, i: int|
                0 <= k < msf.areas@.len() && 0 <= i < msf.areas@[k].data_frames@.len()
                implies !msf.page_table.owned_ppns().contains(
                (#[trigger] msf.areas@[k].data_frames@[i]).ppn.0 as int,
            ) by {
                let p = msf.areas@[k].data_frames@[i].ppn.0 as int;
                assert(ms0.owned_ppns().contains(p));
                assert(m0.outstanding().contains(p));
                if msf.page_table.owned_ppns().contains(p) {
                    assert(ms0.page_table.owned_ppns().contains(p)
                        || !m0.outstanding().contains(p));
                }
            }
            assert(msf.wf());
            assert forall|p: int| msf.owned_ppns().contains(p)
                implies fa@.outstanding().contains(p) by {
                if !msf.page_table.owned_ppns().contains(p) {
                    let (k, i) = choose|k: int, i: int|
                        0 <= k < msf.areas@.len() && 0 <= i
                            < msf.areas@[k].data_frames@.len()
                            && (#[trigger] msf.areas@[k].data_frames@[i]).ppn.0 as int == p;
                    assert(ms0.owned_ppns().contains(p));
                    assert(m0.outstanding().contains(p));
                }
            }
            assert forall|p: int| msf.owned_ppns().contains(p)
                implies ms0.owned_ppns().contains(p) || !m0.outstanding().contains(p) by {
            }
            assert forall|p: int| fa@.outstanding().contains(p)
                implies m0.outstanding().contains(p) || msf.owned_ppns().contains(p) by {
            }
        }
    }

    /// Builds the kernel's address space: the trampoline page plus identity
    /// maps of `.text` (read/execute), `.rodata` (read), `.data` and `.bss`
    /// (read/write), and the remaining physical memory (read/write), none of
    /// them user-accessible. Code stays unwritable and data non-executable.
    #[verifier::rlimit(100)]
    pub fn init_kernel_space(layout: KernelLayout, fa: &mut StackFrameAllocator) -> (r: Self)
        requires
            old(fa)@.wf(),
            layout.wf(),
            old(fa)@.avail() >= 1 + layout.frame_budget(),
        ensures
            final(fa)@.wf(),
            r.wf(),
            r.owned_by(final(fa)@),
            ({
                let t = r.page_table.translate_spec(TRAMPOLINE_VPN);
                &&& t.is_some()
                &&& t.unwrap().spec_ppn() == layout.strampoline / PAGE_SIZE
                &&& t.unwrap().spec_flags() == (MAP_PERM_R | MAP_PERM_X) | PTE_V
            }),
            forall|v: u64|
                layout.stext / PAGE_SIZE <= v < layout.etext / PAGE_SIZE ==> {
                    let t = #[trigger] r.page_table.translate_spec(v);
                    &&& t.is_some()
                    &&& t.unwrap().spec_ppn() == v
                    &&& t.unwrap().spec_flags() == (MAP_PERM_R | MAP_PERM_X) | PTE_V
                    &&& t.unwrap().spec_flags() & PTE_W == 0
                    &&& t.unwrap().spec_flags() & PTE_U == 0
                },
            forall|v: u64|
                layout.srodata / PAGE_SIZE <= v < layout.erodata / PAGE_SIZE ==> {
                    let t = #[trigger] r.page_table.translate_spec(v);
                    &&& t.is_some()
                    &&& t.unwrap().spec_ppn() == v
                    &&& t.unwrap().spec_flags() == MAP_PERM_R | PTE_V
                    &&& t.unwrap().spec_flags() & PTE_W == 0
                    &&& t.unwrap().spec_flags() & PTE_U == 0
                },
            forall|v: u64|
                layout.sdata / PAGE_SIZE <= v < layout.edata / PAGE_SIZE ==> {
                    let t = #[trigger] r.page_table.translate_spec(v);
                    &&& t.is_some()
                    &&& t.unwrap().spec_ppn() == v
                    &&& t.unwrap().spec_flags() == (MAP_PERM_R | MAP_PERM_W) | PTE_V
                    &&& t.unwrap().spec_flags() & PTE_X == 0
                    &&& t.unwrap().spec_flags() & PTE_U == 0
                },
            forall|v: u64|
                layout.sbss_with_stack / PAGE_SIZE <= v < layout.ebss / PAGE_SIZE ==> {
                    let t = #[trigger] r.page_table.translate_spec(v);
                    &&& t.is_some()
                    &&& t.unwrap().spec_ppn() == v
                    &&& t.unwrap().spec_flags() == (MAP_PERM_R | MAP_PERM_W) | PTE_V
                    &&& t.unwrap().spec_flags() & PTE_U == 0
                },
            forall|v: u64|
                layout.ekernel / PAGE_SIZE <= v < layout.memory_end / PAGE_SIZE ==> {
                    let t = #[trigger] r.page_table.translate_spec(v);
                    &&& t.is_some()
                    &&& t.unwrap().spec_ppn() == v
                    &&& t.unwrap().spec_flags() == (MAP_PERM_R | MAP_PERM_W) | PTE_V
                    &&& t.unwrap().spec_flags() & PTE_U == 0
                },
            // every page outside the five sections and the trampoline is
            // unmapped, so no kernel page is ever user-accessible
            forall|v: u64|
                v < VPN_BOUND && v != TRAMPOLINE_VPN && !(layout.stext / PAGE_SIZE <= v
                    < layout.etext / PAGE_SIZE) && !(layout.srodata / PAGE_SIZE <= v
                    < layout.erodata / PAGE_SIZE) && !(layout.sdata / PAGE_SIZE <= v
                    < layout.edata / PAGE_SIZE) && !(layout.sbss_with_stack / PAGE_SIZE <= v
                    < layout.ebss / PAGE_SIZE) && !(layout.ekernel / PAGE_SIZE <= v
                    < layout.memory_end / PAGE_SIZE)
                    ==> (#[trigger] r.page_table.translate_spec(v)).is_none(),
            final(fa)@.allocated_count() == old(fa)@.allocated_count() + r.total_frames(),
            final(fa)@.start == old(fa)@.start,
            final(fa)@.end == old(fa)@.end,
    {
        proof {
            lemma_kernel_section_flags();
            assert((layout.stext + PAGE_SIZE - 1) / (PAGE_SIZE as int)
                == layout.stext / PAGE_SIZE) by (nonlinear_arith)
                requires
                    layout.stext % PAGE_SIZE == 0,
                    PAGE_SIZE == 4096,
            ;
        }
        let ghost pages = seq![
            (layout.stext / PAGE_SIZE, layout.etext / PAGE_SIZE),
            (layout.srodata / PAGE_SIZE, layout.erodata / PAGE_SIZE),
            (layout.sdata / PAGE_SIZE, layout.edata / PAGE_SIZE),
            (layout.sbss_with_stack / PAGE_SIZE, layout.ebss / PAGE_SIZE),
            (layout.ekernel / PAGE_SIZE, layout.memory_end / PAGE_SIZE),
        ];
        proof {
            lemma_layout_pages_ordered(layout);
        }
        let mut memory_set = MemorySet::default(fa);
        let ghost ms_d = memory_set;
        memory_set.map_trampoline(PhysPageNum(layout.strampoline / PAGE_SIZE), fa);
        let ghost ms0 = memory_set;
        memory_set.push(
            MapArea::new(
                VirtAddr(layout.stext),
                VirtAddr(layout.etext),
                MapType::Identical,
                MAP_PERM_R | MAP_PERM_X,
            ),
            None,
            fa,
        );
        let ghost ms1 = memory_set;
        memory_set.push(
            MapArea::new(
                VirtAddr(layout.srodata),
                VirtAddr(layout.erodata),
                MapType::Identical,
                MAP_PERM_R,
            ),
            None,
            fa,
        );
        let ghost ms2 = memory_set;
        memory_set.push(
            MapArea::new(
                VirtAddr(layout.sdata),
                VirtAddr(layout.edata),
                MapType::Identical,
                MAP_PERM_R | MAP_PERM_W,
            ),
            None,
            fa,
        );
        let ghost ms3 = memory_set;
        memory_set.push(
            MapArea::new(
                VirtAddr(layout.sbss_with_stack),
                VirtAddr(layout.ebss),
                MapType::Identical,
                MAP_PERM_R | MAP_PERM_W,
            ),
            None,
            fa,
        );
        let ghost ms4 = memory_set;
        memory_set.push(
            MapArea::new(
                VirtAddr(layout.ekernel),
                VirtAddr(layout.memory_end),
                MapType::Identical,
                MAP_PERM_R | MAP_PERM_W,
            ),
            None,
            fa,
        );
        proof {
            let msf = memory_set;
            assert forall|v: u64| layout.stext / PAGE_SIZE <= v < layout.etext / PAGE_SIZE
                implies msf.page_table.translate_spec(v) == ms1.page_table.translate_spec(v) by {
                assert(v < VPN_BOUND);
                assert(ms2.page_table.translate_spec(v) == ms1.page_table.translate_spec(v));
                assert(ms3.page_table.translate_spec(v) == ms2.page_table.translate_spec(v));
                assert(ms4.page_table.translate_spec(v) == ms3.page_table.translate_spec(v));
            }
            assert forall|v: u64| layout.srodata / PAGE_SIZE <= v < layout.erodata / PAGE_SIZE
                implies msf.page_table.translate_spec(v) == ms2.page_table.translate_spec(v) by {
                assert(v < VPN_BOUND);
                assert(ms3.page_table.translate_spec(v) == ms2.page_table.translate_spec(v));
                assert(ms4.page_table.translate_spec(v) == ms3.page_table.translate_spec(v));
            }
            assert forall|v: u64| layout.sdata / PAGE_SIZE <= v < layout.edata / PAGE_SIZE
                implies msf.page_table.translate_spec(v) == ms3.page_table.translate_spec(v) by {
                assert(v < VPN_BOUND);
                assert(ms4.page_table.translate_spec(v) == ms3.page_table.translate_spec(v));
            }
            assert forall|v: u64|
                layout.sbss_with_stack / PAGE_SIZE <= v < layout.ebss / PAGE_SIZE
                implies msf.page_table.translate_spec(v) == ms4.page_table.translate_spec(v) by {
                assert(v < VPN_BOUND);
            }
            assert(msf.page_table.translate_spec(TRAMPOLINE_VPN)
                == ms1.page_table.translate_spec(TRAMPOLINE_VPN)) by {
                assert(ms2.page_table.translate_spec(TRAMPOLINE_VPN)
                    == ms1.page_table.translate_spec(TRAMPOLINE_VPN));
                assert(ms3.page_table.translate_spec(TRAMPOLINE_VPN)
                    == ms2.page_table.translate_spec(TRAMPOLINE_VPN));
                assert(ms4.page_table.translate_spec(TRAMPOLINE_VPN)
                    == ms3.page_table.translate_spec(TRAMPOLINE_VPN));
            }
            assert(ms1.page_table.translate_spec(TRAMPOLINE_VPN)
                == ms0.page_table.translate_spec(TRAMPOLINE_VPN));
            assert forall|v: u64|
                v < VPN_BOUND && v != TRAMPOLINE_VPN && !(layout.stext / PAGE_SIZE <= v
                    < layout.etext / PAGE_SIZE) && !(layout.srodata / PAGE_SIZE <= v
                    < layout.erodata / PAGE_SIZE) && !(layout.sdata / PAGE_SIZE <= v
                    < layout.edata / PAGE_SIZE) && !(layout.sbss_with_stack / PAGE_SIZE <= v
                    < layout.ebss / PAGE_SIZE) && !(layout.ekernel / PAGE_SIZE <= v
                    < layout.memory_end / PAGE_SIZE)
                implies msf.page_table.translate_spec(v).is_none() by {
                assert(ms0.page_table.translate_spec(v) == ms_d.page_table.translate_spec(v));
                assert(ms1.page_table.translate_spec(v) == ms0.page_table.translate_spec(v));
                assert(ms2.page_table.translate_spec(v) == ms1.page_table.translate_spec(v));
                assert(ms3.page_table.translate_spec(v) == ms2.page_table.translate_spec(v));
                assert(ms4.page_table.translate_spec(v) == ms3.page_table.translate_spec(v));
                assert(msf.page_table.translate_spec(v) == ms4.page_table.translate_spec(v));
            }
            // the translations of each section come from the area that
            // mapped it, one page in from the area's start
            assert forall|v: u64| layout.stext / PAGE_SIZE <= v < layout.etext / PAGE_SIZE
                implies {
                let t = #[trigger] msf.page_table.translate_spec(v);
                &&& t.is_some()
                &&& t.unwrap().spec_ppn() == v
                &&& t.unwrap().spec_flags() == (MAP_PERM_R | MAP_PERM_X) | PTE_V
            } by {
                let a = ms1.areas@.last();
                let i = v - a.start();
                assert(ms1.page_table.translate_spec((a.start() + i) as u64).is_some());
            }
            assert forall|v: u64| layout.srodata / PAGE_SIZE <= v < layout.erodata / PAGE_SIZE
                implies {
                let t = #[trigger] msf.page_table.translate_spec(v);
                &&& t.is_some()
                &&& t.unwrap().spec_ppn() == v
                &&& t.unwrap().spec_flags() == MAP_PERM_R | PTE_V
            } by {
                let a = ms2.areas@.last();
                let i = v - a.start();
                assert(ms2.page_table.translate_spec((a.start() + i) as u64).is_some());
            }
            assert forall|v: u64| layout.sdata / PAGE_SIZE <= v < layout.edata / PAGE_SIZE
                implies {
                let t = #[trigger] msf.page_table.translate_spec(v);
                &&& t.is_some()
                &&& t.unwrap().spec_ppn() == v
                &&& t.unwrap().spec_flags() == (MAP_PERM_R | MAP_PERM_W) | PTE_V
            } by {
                let a = ms3.areas@.last();
                let i = v - a.start();
                assert(ms3.page_table.translate_spec((a.start() + i) as u64).is_some());
            }
            assert forall|v: u64|
                layout.sbss_with_stack / PAGE_SIZE <= v < layout.ebss / PAGE_SIZE implies {
                let t = #[trigger] msf.page_table.translate_spec(v);
                &&& t.is_some()
                &&& t.unwrap().spec_ppn() == v
                &&& t.unwrap().spec_flags() == (MAP_PERM_R | MAP_PERM_W) | PTE_V
            } by {
                let a = ms4.areas@.last();
                let i = v - a.start();
                assert(ms4.page_table.translate_spec((a.start() + i) as u64).is_some());
            }
            assert forall|v: u64|
                layout.ekernel / PAGE_SIZE <= v < layout.memory_end / PAGE_SIZE implies {
                let t = #[trigger] msf.page_table.translate_spec(v);
                &&& t.is_some()
                &&& t.unwrap().spec_ppn() == v
                &&& t.unwrap().spec_flags() == (MAP_PERM_R | MAP_PERM_W) | PTE_V
            } by {
                let a = msf.areas@.last();
                let i = v - a.start();
                assert(msf.page_table.translate_spec((a.start() + i) as u64).is_some());
            }
        }
        memory_set
    }
}


impl MemorySet {
    /// Whether some framed area of this address space covers page `vpn`.
    pub open spec fn has_framed_page(self, vpn: int) -> bool {
        exists|k: int|
            0 <= k < self.areas@.len() && (#[trigger] self.areas@[k]).map_type == MapType::Framed
                && self.areas@[k].start() <= vpn < self.areas@[k].end_vpn()
    }

    /// The index of the framed area covering page `vpn`.
    pub open spec fn framed_area_idx(self, vpn: int) -> int {
        choose|k: int|
            0 <= k < self.areas@.len() && (#[trigger] self.areas@[k]).map_type == MapType::Framed
                && self.areas@[k].start() <= vpn < self.areas@[k].end_vpn()
    }

    /// The byte stored at user virtual address `addr`.
    pub open spec fn user_byte(self, addr: int) -> u8 {
        let vpn = addr / (PAGE_SIZE as int);
        let a = self.areas@[self.framed_area_idx(vpn)];
        a.data_frames@[vpn - a.start()].data@[addr % (PAGE_SIZE as int)]
    }

    /// Every page of `[va, va + len)` lies in a framed area that is both
    /// readable and user-accessible.
    pub open spec fn range_user_readable(self, va: int, len: int) -> bool {
        forall|vpn: int|
            va / (PAGE_SIZE as int) <= vpn <= (va + len - 1) / (PAGE_SIZE as int)
                ==> #[trigger] self.has_framed_page(vpn) && self.areas@[self.framed_area_idx(
                vpn,
            )].map_perm & MAP_PERM_R != 0 && self.areas@[self.framed_area_idx(vpn)].map_perm
                & MAP_PERM_U != 0
    }

    /// Every page in `[lo, hi)` lies in a framed area that is readable
    /// and user-accessible.
    pub open spec fn pages_user_readable(self, lo: int, hi: int) -> bool {
        forall|v: int|
            lo <= v < hi ==> #[trigger] self.has_framed_page(v) && self.areas@[
                self.framed_area_idx(v)
            ].map_perm & MAP_PERM_R != 0 && self.areas@[self.framed_area_idx(v)].map_perm
                & MAP_PERM_U != 0
    }

    /// At most one framed area covers any page.
    pub proof fn lemma_framed_area_unique(self, vpn: int, k1: int, k2: int)
        requires
            self.wf(),
            0 <= k1 < self.areas@.len(),
            0 <= k2 < self.areas@.len(),
            self.areas@[k1].map_type == MapType::Framed,
            self.areas@[k2].map_type == MapType::Framed,
            self.areas@[k1].start() <= vpn < self.areas@[k1].end_vpn(),
            self.areas@[k2].start() <= vpn < self.areas@[k2].end_vpn(),
        ensures
            k1 == k2,
    {
        if k1 != k2 {
            let a1 = self.areas@[k1];
            let a2 = self.areas@[k2];
            let i1 = vpn - a1.start();
            let i2 = vpn - a2.start();
            assert(a1.mapped(self.page_table));
            assert(a2.mapped(self.page_table));
            assert(self.page_table.translate_spec((a1.start() + i1) as u64).unwrap().spec_ppn()
                == a1.data_frames@[i1].ppn.0);
            assert(self.page_table.translate_spec((a2.start() + i2) as u64).unwrap().spec_ppn()
                == a2.data_frames@[i2].ppn.0);
            assert(a1.data_frames@[i1].ppn.0 == a2.data_frames@[i2].ppn.0);
            assert(self.areas@[k1].data_frames@[i1].ppn.0
                != self.areas@[k2].data_frames@[i2].ppn.0);
        }
    }

    /// Finds the framed area covering page `vpn`, if any.
    fn find_framed_area(&self, vpn: u64) -> (r: Option<usize>)
        requires
            self.wf(),
        ensures
            r.is_some() == self.has_framed_page(vpn as int),
            match r {
                Some(k) => k < self.areas@.len() && self.framed_area_idx(vpn as int) == k
                    && self.areas@[k as int].map_type == MapType::Framed
                    && self.areas@[k as int].start() <= vpn < self.areas@[k as int].end_vpn(),
                None => true,
            },
    {
        let mut k: usize = 0;
        while k < self.areas.len()
            invariant
                self.wf(),
                k <= self.areas@.len(),
                forall|k2: int|
                    0 <= k2 < k ==> !((#[trigger] self.areas@[k2]).map_type == MapType::Framed
                        && self.areas@[k2].start() <= vpn < self.areas@[k2].end_vpn()),
            decreases self.areas@.len() - k,
        {
            let a = &self.areas[k];
            let is_framed = match a.map_type {
                MapType::Framed => true,
                MapType::Identical => false,
            };
            if is_framed && a.vpn_range.start.0 <= vpn && vpn < a.vpn_range.end.0 {
                proof {
                    assert(self.has_framed_page(vpn as int));
                    let kc = self.framed_area_idx(vpn as int);
                    self.lemma_framed_area_unique(vpn as int, kc, k as int);
                }
                return Some(k);
            }
            k = k + 1;
        }
        proof {
            if self.has_framed_page(vpn as int) {
                let kc = self.framed_area_idx(vpn as int);
                assert(!(self.areas@[kc].map_type == MapType::Framed
                    && self.areas@[kc].start() <= vpn < self.areas@[kc].end_vpn()));
            }
        }
        None
    }

    /// Reads `len` bytes of user memory starting at virtual address `va`.
    /// Succeeds exactly when the whole range lies in framed, readable,
    /// user-accessible pages of this address space: a page mapped without
    /// the read or user bit fails the whole read, since the hardware would
    /// fault on it too. `lemma_walk_matches_user_bytes` proves that the
    /// bytes read here are the ones the page-table walk of
    /// `translated_byte_buffer` reaches.
    pub fn read_bytes(&self, va: u64, len: u64) -> (r: Option<Vec<u8>>)
        requires
            self.wf(),
        ensures
            r.is_some() == (len == 0 || (va + len <= VA_BOUND && self.range_user_readable(
                va as int,
                len as int,
            ))),
            match r {
                Some(b) => b@.len() == len && forall|i: int|
                    0 <= i < len ==> b@[i] == self.user_byte(va + i),
                None => true,
            },
    {
        if len == 0 {
            return Some(Vec::new());
        }
        if va >= VA_BOUND || len > VA_BOUND - va {
            return None;
        }
        let first: u64 = va / PAGE_SIZE;
        let last: u64 = (va + len - 1) / PAGE_SIZE;
        proof {
            lemma_div_ordered(va as int, va + len - 1, PAGE_SIZE as int);
        }
        // first pass: every page of the range must be framed, readable,
        // and user-accessible
        let mut vpn: u64 = first;
        while vpn <= last
            invariant
                self.wf(),
                0 < len,
                va + len <= VA_BOUND,
                first == va / PAGE_SIZE,
                last == (va + len - 1) / (PAGE_SIZE as int),
                first <= vpn <= last + 1,
                self.pages_user_readable(first as int, vpn as int),
            decreases last + 1 - vpn,
        {
            let found = self.find_framed_area(vpn);
            let k = match found {
                Some(k) => k,
                None => {
                    proof {
                        assert(!self.range_user_readable(va as int, len as int)) by {
                            if self.range_user_readable(va as int, len as int) {
                                assert(self.has_framed_page(vpn as int));
                            }
                        }
                    }
                    return None;
                },
            };
            let a = &self.areas[k];
            if a.map_perm & MAP_PERM_R == 0 || a.map_perm & MAP_PERM_U == 0 {
                proof {
                    assert(!self.range_user_readable(va as int, len as int)) by {
                        if self.range_user_readable(va as int, len as int) {
                            assert(self.has_framed_page(vpn as int));
                        }
                    }
                }
                return None;
            }
            vpn = vpn + 1;
            proof {
                assert(self.has_framed_page(vpn - 1));
                assert(self.framed_area_idx(vpn - 1) == k as int);
                assert(self.pages_user_readable(first as int, vpn as int)) by {
                    assert forall|v: int|
                        first <= v < vpn implies #[trigger] self.has_framed_page(v)
                            && self.areas@[self.framed_area_idx(v)].map_perm & MAP_PERM_R != 0
                            && self.areas@[self.framed_area_idx(v)].map_perm & MAP_PERM_U
                            != 0 by {
                        if v == vpn - 1 {
                        } else {
                            assert(first <= v < vpn - 1);
                            assert(self.pages_user_readable(first as int, vpn - 1));
                        }
                    }
                }
            }
        }
        proof {
            assert(self.range_user_readable(va as int, len as int)) by {
                assert(self.pages_user_readable(first as int, last + 1));
                assert forall|v: int|
                    (va as int) / (PAGE_SIZE as int) <= v <= (va + len - 1) / (PAGE_SIZE as int)
                    implies #[trigger] self.has_framed_page(v) && self.areas@[
                    self.framed_area_idx(v)
                ].map_perm & MAP_PERM_R != 0 && self.areas@[self.framed_area_idx(
                    v,
                )].map_perm & MAP_PERM_U != 0 by {
                    assert(first <= v < last + 1);
                }
            }
        }
        // second pass: copy the bytes out
        let mut out: Vec<u8> = Vec::new();
        let mut i: u64 = 0;
        while i < len
            invariant
                self.wf(),
                0 < len,
                va + len <= VA_BOUND,
                self.range_user_readable(va as int, len as int),
                i <= len,
                out@.len() == i,
                forall|j: int| 0 <= j < i ==> out@[j] == self.user_byte(va + j),
            decreases len - i,
        {
            let addr = va + i;
            let page: u64 = addr / PAGE_SIZE;
            proof {
                lemma_page_of_range(va as int, len as int, addr as int);
                assert(self.has_framed_page(page as int));
            }
            let k = self.find_framed_area(page).unwrap();
            let a = &self.areas[k];
            let idx = (page - a.vpn_range.start.0) as usize;
            let off = (addr % PAGE_SIZE) as usize;
            proof {
                assert(a.mapped(self.page_table));
                assert(a.data_frames@[idx as int].wf());
            }
            let byte = a.data_frames[idx].data[off];
            out.push(byte);
            i = i + 1;
        }
        Some(out)
    }
}

/// The two ways of reading user memory agree. `sys_write` reads a buffer
/// through the areas' backing frames (`read_bytes` / `user_byte`); on the
/// machine the bytes are reached through the page-table walk that
/// `translated_byte_buffer` performs. For any user-readable range, every
/// page's walk succeeds, and the frame number the walk yields is exactly
/// the frame whose bytes `user_byte` reads. With
/// `translated_byte_buffer`'s contract — its chunks tile `[va, va + len)`
/// and carry the walk's frame numbers — reading the chunks out of those
/// frames gives exactly the `user_byte` sequence.
pub proof fn lemma_walk_matches_user_bytes(ms: MemorySet, va: u64, len: u64)
    requires
        ms.wf(),
        0 < len,
        va + len <= VA_BOUND,
        ms.range_user_readable(va as int, len as int),
    ensures
        forall|v: u64|
            va / PAGE_SIZE <= v <= (va + len - 1) / (PAGE_SIZE as int) ==> {
                let t = #[trigger] ms.page_table.translate_spec(v);
                &&& t.is_some()
                &&& t.unwrap().spec_ppn() == ms.areas@[
                    ms.framed_area_idx(v as int)
                ].data_frames@[v - ms.areas@[ms.framed_area_idx(v as int)].start()].ppn.0
            },
{
    assert forall|v: u64|
        va / PAGE_SIZE <= v <= (va + len - 1) / (PAGE_SIZE as int) implies {
        let t = #[trigger] ms.page_table.translate_spec(v);
        &&& t.is_some()
        &&& t.unwrap().spec_ppn() == ms.areas@[
            ms.framed_area_idx(v as int)
        ].data_frames@[v - ms.areas@[ms.framed_area_idx(v as int)].start()].ppn.0
    } by {
        assert(ms.has_framed_page(v as int));
        let k = ms.framed_area_idx(v as int);
        let a = ms.areas@[k];
        assert(a.mapped(ms.page_table));
        let i = v - a.start();
        assert(ms.page_table.translate_spec((a.start() + i) as u64).is_some());
    }
}

/// The page of any address in `[va, va + len)` lies between the pages of
/// the range's first and last byte.
proof fn lemma_page_of_range(va: int, len: int, addr: int)
    by (nonlinear_arith)
    requires
        0 < len,
        va <= addr < va + len,
        0 <= va,
    ensures
        va / (PAGE_SIZE as int) <= addr / (PAGE_SIZE as int) <= (va + len - 1) / (PAGE_SIZE as int),
{
}

/// Dividing consecutive numbers moves the quotient by at most one.
proof fn lemma_div_succ(a: int, d: int)
    by (nonlinear_arith)
    requires
        a >= 1,
        d > 0,
    ensures
        a / d - 1 <= (a - 1) / d,
{
}

/// Division by the page size is monotone.
proof fn lemma_div_ordered(a: int, b: int, d: int)
    by (nonlinear_arith)
    requires
        a <= b,
        d > 0,
        0 <= a,
    ensures
        a / d <= b / d,
{
}


/// The area permissions a segment's ELF flags ask for: always
/// user-accessible, with read, write and execute taken from the flags.
pub open spec fn spec_seg_perm(f: u64) -> u8 {
    ((MAP_PERM_U | (if f & PF_R != 0 {
        MAP_PERM_R
    } else {
        0
    })) | (if f & PF_W != 0 {
        MAP_PERM_W
    } else {
        0
    })) | (if f & PF_X != 0 {
        MAP_PERM_X
    } else {
        0
    })
}

/// Computes the area permissions of a segment from its ELF flags.
fn seg_perm(f: u64) -> (r: u8)
    ensures
        r == spec_seg_perm(f),
{
    let mut p: u8 = MAP_PERM_U;
    if f & PF_R != 0 {
        p = p | MAP_PERM_R;
    } else {
        p = p | 0;
    }
    if f & PF_W != 0 {
        p = p | MAP_PERM_W;
    } else {
        p = p | 0;
    }
    if f & PF_X != 0 {
        p = p | MAP_PERM_X;
    } else {
        p = p | 0;
    }
    p
}

/// The bytes of loadable segment `i` as this address space holds them:
/// the file's bytes for the first `filesz` bytes, zeros up to `memsz`,
/// in pages whose area carries the segment's permissions.
pub open spec fn segment_loaded(ms: MemorySet, s: Seq<u8>, i: int) -> bool {
    forall|a: int|
        ph_vaddr(s, i) <= a < ph_vaddr(s, i) + ph_memsz(s, i) ==> {
            &&& #[trigger] ms.has_framed_page(a / (PAGE_SIZE as int))
            &&& ms.areas@[ms.framed_area_idx(a / (PAGE_SIZE as int))].map_perm == spec_seg_perm(
                ph_flags(s, i) as u64,
            )
            &&& ms.user_byte(a) == if a - ph_vaddr(s, i) < ph_filesz(s, i) {
                s[ph_offset(s, i) + (a - ph_vaddr(s, i))]
            } else {
                0u8
            }
        }
}

/// Loadable segments cover a non-negative number of pages, so the page
/// total of any suffix of the table is non-negative.
proof fn lemma_elf_pages_nonneg(s: Seq<u8>, i: int)
    requires
        elf_wf(s),
    ensures
        elf_pages_from(s, i) >= 0,
    decreases elf_phnum(s) - i,
{
    if 0 <= i < elf_phnum(s) {
        lemma_elf_pages_nonneg(s, i + 1);
        if ph_is_load(s, i) {
            assert(ph_pages(s, i) >= 0) by {
                assert((ph_vaddr(s, i) + ph_memsz(s, i) + PAGE_SIZE - 1) / (PAGE_SIZE as int)
                    >= ph_vaddr(s, i) / (PAGE_SIZE as int)) by (nonlinear_arith)
                    requires
                        ph_memsz(s, i) >= 0,
                        ph_vaddr(s, i) >= 0,
                        PAGE_SIZE == 4096,
                ;
            }
        }
    }
}

/// The bytes of the loadable segment pushed last sit in memory as the
/// file says.
proof fn lemma_pushed_segment_loaded(ms: MemorySet, s: Seq<u8>, i: int)
    requires
        ms.wf(),
        elf_wf(s),
        0 <= i < elf_phnum(s),
        ph_is_load(s, i),
        ms.areas@.len() >= 1,
        ({
            let a = ms.areas@.last();
            &&& a.map_type == MapType::Framed
            &&& a.start() == ph_vaddr(s, i) / (PAGE_SIZE as int)
            &&& a.end_vpn() == ph_end_vpn(s, i)
            &&& a.map_perm == spec_seg_perm(ph_flags(s, i) as u64)
            &&& a.data_frames@.len() == a.page_count()
            &&& forall|ip: int, b: int|
                0 <= ip < a.data_frames@.len() && 0 <= b < PAGE_SIZE
                    ==> (#[trigger] a.data_frames@[ip].data@[b]) == if ip * PAGE_SIZE + b
                    < ph_filesz(s, i) {
                    s[ph_offset(s, i) + ip * (PAGE_SIZE as int) + b]
                } else {
                    0u8
                }
        }),
    ensures
        segment_loaded(ms, s, i),
{
    let ps = PAGE_SIZE as int;
    let last = ms.areas@.len() - 1;
    let area_f = ms.areas@.last();
    let vaddr = ph_vaddr(s, i);
    let memsz = ph_memsz(s, i);
    assert forall|a: int| vaddr <= a < vaddr + memsz implies {
        &&& #[trigger] ms.has_framed_page(a / ps)
        &&& ms.areas@[ms.framed_area_idx(a / ps)].map_perm == spec_seg_perm(
            ph_flags(s, i) as u64,
        )
        &&& ms.user_byte(a) == if a - vaddr < ph_filesz(s, i) {
            s[ph_offset(s, i) + (a - vaddr)]
        } else {
            0u8
        }
    } by {
        let vpn = a / ps;
        let b = a % ps;
        assert(vaddr / ps <= vpn < (vaddr + memsz + ps - 1) / ps && a == vpn * ps + b && 0 <= b
            < ps && (vpn - vaddr / ps) * ps + b == a - vaddr) by (nonlinear_arith)
            requires
                vaddr <= a < vaddr + memsz,
                vaddr % ps == 0,
                ps == 4096,
                vpn == a / ps,
                b == a % ps,
                vaddr >= 0,
        ;
        assert(ms.has_framed_page(vpn)) by {
            assert(area_f.map_type == MapType::Framed && area_f.start() <= vpn
                < area_f.end_vpn());
        }
        let kc = ms.framed_area_idx(vpn);
        ms.lemma_framed_area_unique(vpn, kc, last);
        let ipg = vpn - area_f.start();
        assert(area_f.data_frames@[ipg].data@[b] == if ipg * ps + b < ph_filesz(s, i) {
            s[ph_offset(s, i) + ipg * ps + b]
        } else {
            0u8
        });
        assert(ipg * ps + b == a - vaddr);
    }
}

/// Pushing one more area changes no framed page that already existed.
proof fn lemma_user_byte_preserved(ms1: MemorySet, ms2: MemorySet, vpn: int)
    requires
        ms1.wf(),
        ms2.wf(),
        ms2.areas@.len() >= ms1.areas@.len(),
        forall|k: int| 0 <= k < ms1.areas@.len() ==> ms2.areas@[k] == ms1.areas@[k],
        ms1.has_framed_page(vpn),
    ensures
        ms2.has_framed_page(vpn),
        ms2.framed_area_idx(vpn) == ms1.framed_area_idx(vpn),
        0 <= ms1.framed_area_idx(vpn) < ms1.areas@.len(),
        forall|a: int|
            a / (PAGE_SIZE as int) == vpn ==> ms2.user_byte(a) == ms1.user_byte(a),
{
    let k1 = ms1.framed_area_idx(vpn);
    assert(0 <= k1 < ms1.areas@.len() && ms1.areas@[k1].map_type == MapType::Framed
        && ms1.areas@[k1].start() <= vpn < ms1.areas@[k1].end_vpn());
    assert(ms2.areas@[k1] == ms1.areas@[k1]);
    assert(ms2.has_framed_page(vpn));
    let k2 = ms2.framed_area_idx(vpn);
    assert(0 <= k2 < ms2.areas@.len() && ms2.areas@[k2].map_type == MapType::Framed
        && ms2.areas@[k2].start() <= vpn < ms2.areas@[k2].end_vpn());
    ms2.lemma_framed_area_unique(vpn, k1, k2);
}

/// Maps and fills one framed area per loadable segment of the image,
/// in table order. Returns one past the last page any segment uses.
#[verifier::rlimit(100)]
fn load_segments(
    memory_set: &mut MemorySet,
    elf_data: &[u8],
    fa: &mut StackFrameAllocator,
) -> (max_end_vpn: u64)
    requires
        old(memory_set).wf(),
        old(fa)@.wf(),
        old(memory_set).owned_by(old(fa)@),
        elf_wf(elf_data@),
        old(fa)@.avail() >= 9 + 3 * elf_pages_from(elf_data@, 0),
        forall|v: u64|
            v < TRAMPOLINE_VPN
                ==> (#[trigger] old(memory_set).page_table.translate_spec(v)).is_none(),
    ensures
        final(memory_set).wf(),
        final(fa)@.wf(),
        final(memory_set).owned_by(final(fa)@),
        max_end_vpn == elf_max_end_vpn(elf_data@, elf_phnum(elf_data@)),
        max_end_vpn <= TRAP_CONTEXT_VPN - 4,
        final(fa)@.avail() >= 9,
        final(fa)@.avail() >= old(fa)@.avail() - 3 * elf_pages_from(elf_data@, 0),
        old(fa)@.outstanding().subset_of(final(fa)@.outstanding()),
        final(fa)@.allocated_count() == old(fa)@.allocated_count()
            + (final(memory_set).total_frames() - old(memory_set).total_frames()),
        final(fa)@.start == old(fa)@.start,
        final(fa)@.end == old(fa)@.end,
        forall|v: u64|
            max_end_vpn <= v < TRAMPOLINE_VPN
                ==> (#[trigger] final(memory_set).page_table.translate_spec(v)).is_none(),
        final(memory_set).page_table.translate_spec(TRAMPOLINE_VPN)
            == old(memory_set).page_table.translate_spec(TRAMPOLINE_VPN),
        forall|ii: int|
            0 <= ii < elf_phnum(elf_data@) && #[trigger] ph_is_load(elf_data@, ii)
                ==> segment_loaded(*final(memory_set), elf_data@, ii),
{
    let ghost s = elf_data@;
    let ghost ms_start = *memory_set;
    let ghost m_start = fa@;
    let phoff = read_u64(elf_data, 32);
    let phnum = read_u16(elf_data, 56);
    let mut max_end_vpn: u64 = 0;
    let mut i: u64 = 0;
    proof {
        assert(elf_max_end_vpn(s, 0) == 0);
        assert(phoff + phnum * PH_ENTRY_SIZE <= s.len());
        lemma_elf_pages_nonneg(s, 0);
    }
    while i < phnum
        invariant
            elf_wf(s),
            s == elf_data@,
            phoff == elf_phoff(s),
            phnum == elf_phnum(s),
            i <= phnum,
            memory_set.wf(),
            fa@.wf(),
            memory_set.owned_by(fa@),
            max_end_vpn == elf_max_end_vpn(s, i as int),
            0 <= max_end_vpn <= TRAP_CONTEXT_VPN - 4,
            fa@.avail() >= 9 + 3 * elf_pages_from(s, i as int),
            fa@.avail() >= m_start.avail() - 3 * (elf_pages_from(s, 0) - elf_pages_from(
                s,
                i as int,
            )),
            m_start.outstanding().subset_of(fa@.outstanding()),
            fa@.allocated_count() == m_start.allocated_count()
                + (memory_set.total_frames() - ms_start.total_frames()),
            fa@.start == m_start.start,
            fa@.end == m_start.end,
            forall|v: u64|
                max_end_vpn <= v < TRAMPOLINE_VPN
                    ==> (#[trigger] memory_set.page_table.translate_spec(v)).is_none(),
            memory_set.page_table.translate_spec(TRAMPOLINE_VPN)
                == ms_start.page_table.translate_spec(TRAMPOLINE_VPN),
            forall|ii: int|
                0 <= ii < i && #[trigger] ph_is_load(s, ii)
                    ==> segment_loaded(*memory_set, s, ii),
        decreases phnum - i,
    {
        let pos = phoff + i * PH_ENTRY_SIZE;
        proof {
            assert(pos + PH_ENTRY_SIZE <= s.len()) by (nonlinear_arith)
                requires
                    pos == phoff + i * PH_ENTRY_SIZE,
                    i < phnum,
                    phoff + phnum * PH_ENTRY_SIZE <= s.len(),
                    PH_ENTRY_SIZE == 56,
                    phoff >= 0,
                    i >= 0,
            ;
        }
        let ptype = read_u32(elf_data, pos as usize);
        if ptype == PT_LOAD {
            proof {
                assert(ph_is_load(s, i as int));
            }
            let flags = read_u32(elf_data, (pos + 4) as usize);
            let offset = read_u64(elf_data, (pos + 8) as usize);
            let vaddr = read_u64(elf_data, (pos + 16) as usize);
            let filesz = read_u64(elf_data, (pos + 32) as usize);
            let memsz = read_u64(elf_data, (pos + 40) as usize);
            let perm = seg_perm(flags);
            let ghost ms_before = *memory_set;
            let area = MapArea::new(
                VirtAddr(vaddr),
                VirtAddr(vaddr + memsz),
                MapType::Framed,
                perm,
            );
            proof {
                assert(vaddr / PAGE_SIZE >= max_end_vpn);
                assert(area.start() == vaddr / PAGE_SIZE);
                assert(area.end_vpn() == ph_end_vpn(s, i as int));
                assert forall|v: u64| area.start() <= v < area.end_vpn()
                    implies (#[trigger] ms_before.page_table.translate_spec(v)).is_none() by {
                    assert(max_end_vpn <= v < TRAMPOLINE_VPN);
                }
                assert(ph_pages(s, i as int) == area.page_count());
                assert(elf_pages_from(s, i as int) == ph_pages(s, i as int) + elf_pages_from(
                    s,
                    i as int + 1,
                ));
                lemma_elf_pages_nonneg(s, i as int + 1);
                assert(fa@.avail() >= 3 * area.page_count());
            }
            let data = slice_subrange(elf_data, offset as usize, (offset + filesz) as usize);
            proof {
                assert(data@.len() == filesz);
                assert(filesz <= memsz);
                assert(memsz <= area.page_count() * PAGE_SIZE) by (nonlinear_arith)
                    requires
                        area.page_count() == (vaddr + memsz + PAGE_SIZE - 1) / (
                        PAGE_SIZE as int) - (vaddr as int) / (PAGE_SIZE as int),
                        vaddr % PAGE_SIZE == 0,
                        PAGE_SIZE == 4096,
                        vaddr >= 0,
                        memsz >= 0,
                ;
            }
            memory_set.push(area, Some(data), fa);
            max_end_vpn = VirtAddr(vaddr + memsz).ceil().0;
            proof {
                let ps = PAGE_SIZE as int;
                let area_f = memory_set.areas@.last();
                assert(area_f.data_frames@.len() == area_f.page_count());
                assert forall|ip: int, b: int|
                    0 <= ip < area_f.data_frames@.len() && 0 <= b < PAGE_SIZE
                    implies (#[trigger] area_f.data_frames@[ip].data@[b]) == (if ip * PAGE_SIZE
                        + b < ph_filesz(s, i as int) {
                        s[ph_offset(s, i as int) + ip * ps + b]
                    } else {
                        0u8
                    }) by {
                    if ip * PAGE_SIZE + b < data@.len() {
                        assert(data@[ip * (PAGE_SIZE as int) + b] == s[offset + ip * ps + b]);
                    }
                }
                lemma_pushed_segment_loaded(*memory_set, s, i as int);
                assert forall|ii: int|
                    0 <= ii < i + 1 && #[trigger] ph_is_load(s, ii)
                    implies segment_loaded(*memory_set, s, ii) by {
                    if ii < i {
                        lemma_segment_preserved(ms_before, *memory_set, s, ii);
                    }
                }
                assert(max_end_vpn == elf_max_end_vpn(s, i as int + 1));
                assert(max_end_vpn <= TRAP_CONTEXT_VPN - 4) by {
                    assert((vaddr + memsz + PAGE_SIZE - 1) / (PAGE_SIZE as int)
                        <= TRAP_CONTEXT_VPN - 4) by (nonlinear_arith)
                        requires
                            vaddr + memsz < (TRAP_CONTEXT_VPN - 4) * PAGE_SIZE,
                            PAGE_SIZE == 4096,
                            vaddr >= 0,
                            memsz >= 0,
                            TRAP_CONTEXT_VPN == 0x7FF_FFFE,
                    ;
                }
            }
        } else {
            proof {
                assert(!ph_is_load(s, i as int));
                assert(elf_max_end_vpn(s, i as int + 1) == elf_max_end_vpn(s, i as int));
                assert(elf_pages_from(s, i as int + 1) == elf_pages_from(s, i as int));
                lemma_elf_pages_nonneg(s, i as int + 1);
            }
        }
        i = i + 1;
    }
    max_end_vpn
}

/// Maps the guard-separated two-page user stack and the trap-context page
/// into an address space whose pages from `max_end_vpn` up are free.
/// Returns the initial user stack top.
#[verifier::rlimit(100)]
fn add_stack_and_trap_context(
    memory_set: &mut MemorySet,
    max_end_vpn: u64,
    fa: &mut StackFrameAllocator,
) -> (user_stack_top: u64)
    requires
        old(memory_set).wf(),
        old(fa)@.wf(),
        old(memory_set).owned_by(old(fa)@),
        old(fa)@.avail() >= 9,
        max_end_vpn <= TRAP_CONTEXT_VPN - 4,
        forall|v: u64|
            max_end_vpn <= v < TRAMPOLINE_VPN
                ==> (#[trigger] old(memory_set).page_table.translate_spec(v)).is_none(),
    ensures
        final(memory_set).wf(),
        final(fa)@.wf(),
        final(memory_set).owned_by(final(fa)@),
        user_stack_top == (max_end_vpn + 3) * PAGE_SIZE,
        final(memory_set).areas@.len() == old(memory_set).areas@.len() + 2,
        forall|k: int|
            0 <= k < old(memory_set).areas@.len()
                ==> final(memory_set).areas@[k] == old(memory_set).areas@[k],
        final(memory_set).page_table.translate_spec(max_end_vpn).is_none(),
        forall|v: u64|
            max_end_vpn + 1 <= v < max_end_vpn + 3 ==> {
                let t = #[trigger] final(memory_set).page_table.translate_spec(v);
                t.is_some() && t.unwrap().spec_flags() == ((MAP_PERM_R | MAP_PERM_W)
                    | MAP_PERM_U) | PTE_V
            },
        ({
            let t = final(memory_set).page_table.translate_spec(TRAP_CONTEXT_VPN);
            t.is_some() && t.unwrap().spec_flags() == (MAP_PERM_R | MAP_PERM_W) | PTE_V
        }),
        final(memory_set).page_table.translate_spec(TRAMPOLINE_VPN)
            == old(memory_set).page_table.translate_spec(TRAMPOLINE_VPN),
        final(fa)@.avail() >= old(fa)@.avail() - 9,
        old(fa)@.outstanding().subset_of(final(fa)@.outstanding()),
        final(fa)@.allocated_count() == old(fa)@.allocated_count()
            + (final(memory_set).total_frames() - old(memory_set).total_frames()),
        final(fa)@.start == old(fa)@.start,
        final(fa)@.end == old(fa)@.end,
{
    let user_stack_bottom: u64 = (max_end_vpn + 1) * PAGE_SIZE;
    let user_stack_top: u64 = user_stack_bottom + USER_STACK_SIZE;
    let ghost ms_a = *memory_set;
    proof {
        lemma_aligned_div(user_stack_bottom, user_stack_top);
        assert(user_stack_bottom / PAGE_SIZE == max_end_vpn + 1
            && user_stack_top / PAGE_SIZE == max_end_vpn + 3) by (nonlinear_arith)
            requires
                user_stack_bottom == (max_end_vpn + 1) * PAGE_SIZE,
                user_stack_top == user_stack_bottom + USER_STACK_SIZE,
                PAGE_SIZE == 4096,
                USER_STACK_SIZE == 8192,
                max_end_vpn <= TRAP_CONTEXT_VPN - 4,
        ;
    }
    memory_set.push(
        MapArea::new(
            VirtAddr(user_stack_bottom),
            VirtAddr(user_stack_top),
            MapType::Framed,
            (MAP_PERM_R | MAP_PERM_W) | MAP_PERM_U,
        ),
        None,
        fa,
    );
    let ghost ms_b = *memory_set;
    let trap_cx_base: u64 = TRAP_CONTEXT_VPN * PAGE_SIZE;
    proof {
        assert(trap_cx_base / PAGE_SIZE == TRAP_CONTEXT_VPN && (trap_cx_base + PAGE_SIZE)
            / (PAGE_SIZE as int) == TRAP_CONTEXT_VPN + 1) by (nonlinear_arith)
            requires
                trap_cx_base == TRAP_CONTEXT_VPN * PAGE_SIZE,
                PAGE_SIZE == 4096,
                TRAP_CONTEXT_VPN == 0x7FF_FFFE,
        ;
        assert forall|v: u64|
            TRAP_CONTEXT_VPN <= v < TRAP_CONTEXT_VPN + 1
            implies (#[trigger] ms_b.page_table.translate_spec(v)).is_none() by {
            assert(ms_a.page_table.translate_spec(v).is_none());
        }
    }
    memory_set.push(
        MapArea::new(
            VirtAddr(trap_cx_base),
            VirtAddr(trap_cx_base + PAGE_SIZE),
            MapType::Framed,
            MAP_PERM_R | MAP_PERM_W,
        ),
        None,
        fa,
    );
    proof {
        let a_stack = ms_b.areas@.last();
        assert forall|v: u64| max_end_vpn + 1 <= v < max_end_vpn + 3 implies {
            let t = #[trigger] memory_set.page_table.translate_spec(v);
            t.is_some() && t.unwrap().spec_flags() == ((MAP_PERM_R | MAP_PERM_W) | MAP_PERM_U)
                | PTE_V
        } by {
            let i = v - a_stack.start();
            assert(ms_b.page_table.translate_spec((a_stack.start() + i) as u64).is_some());
            assert(memory_set.page_table.translate_spec(v)
                == ms_b.page_table.translate_spec(v));
        }
        let a_cx = memory_set.areas@.last();
        assert(memory_set.page_table.translate_spec(
            (a_cx.start() + 0) as u64,
        ).is_some());
        assert(memory_set.page_table.translate_spec(max_end_vpn).is_none()) by {
            assert(ms_a.page_table.translate_spec(max_end_vpn).is_none());
            assert(ms_b.page_table.translate_spec(max_end_vpn)
                == ms_a.page_table.translate_spec(max_end_vpn));
        }
    }
    user_stack_top
}

impl MemorySet {
    /// Builds a user address space from an ELF image: the trampoline page,
    /// one framed area per loadable segment (initialized from the file and
    /// zero-padded to its memory size), a guard page, a two-page user
    /// stack, and the trap-context page. Returns the address space, the
    /// initial user stack top, and the image's entry point.
    #[verifier::rlimit(100)]
    pub fn from_elf(elf_data: &[u8], trampoline_ppn: PhysPageNum, fa: &mut StackFrameAllocator)
        -> (r: (Self, u64, u64))
        requires
            old(fa)@.wf(),
            elf_wf(elf_data@),
            old(fa)@.avail() >= 12 + 3 * elf_pages_from(elf_data@, 0),
            trampoline_ppn.0 < PPN_BOUND,
        ensures
            final(fa)@.wf(),
            r.0.wf(),
            r.0.owned_by(final(fa)@),
            r.2 == elf_entry(elf_data@),
            r.1 == (elf_max_end_vpn(elf_data@, elf_phnum(elf_data@)) + 3) * PAGE_SIZE,
            // every loadable segment sits in memory as the file says
            forall|i: int|
                0 <= i < elf_phnum(elf_data@) && #[trigger] ph_is_load(elf_data@, i)
                    ==> segment_loaded(r.0, elf_data@, i),
            // the guard page under the user stack is unmapped
            r.0.page_table.translate_spec(
                elf_max_end_vpn(elf_data@, elf_phnum(elf_data@)) as u64,
            ).is_none(),
            // the two user-stack pages are mapped read/write for user mode
            forall|v: u64|
                elf_max_end_vpn(elf_data@, elf_phnum(elf_data@)) + 1 <= v < elf_max_end_vpn(
                    elf_data@,
                    elf_phnum(elf_data@),
                ) + 3 ==> {
                    let t = #[trigger] r.0.page_table.translate_spec(v);
                    t.is_some() && t.unwrap().spec_flags() == ((MAP_PERM_R | MAP_PERM_W)
                        | MAP_PERM_U) | PTE_V
                },
            // the trap-context page is mapped read/write, kernel only
            ({
                let t = r.0.page_table.translate_spec(TRAP_CONTEXT_VPN);
                t.is_some() && t.unwrap().spec_flags() == (MAP_PERM_R | MAP_PERM_W) | PTE_V
            }),
            // the trampoline is mapped read/execute at the top page
            ({
                let t = r.0.page_table.translate_spec(TRAMPOLINE_VPN);
                t.is_some() && t.unwrap().spec_ppn() == trampoline_ppn.0
                    && t.unwrap().spec_flags() == (MAP_PERM_R | MAP_PERM_X) | PTE_V
            }),
            final(fa)@.allocated_count() == old(fa)@.allocated_count() + r.0.total_frames(),
            final(fa)@.avail() >= old(fa)@.avail() - 12 - 3 * elf_pages_from(elf_data@, 0),
            old(fa)@.outstanding().subset_of(final(fa)@.outstanding()),
            final(fa)@.start == old(fa)@.start,
            final(fa)@.end == old(fa)@.end,
    {
        let ghost s = elf_data@;
        let ghost m_start = fa@;
        proof {
            lemma_elf_pages_nonneg(s, 0);
        }
        let mut memory_set = MemorySet::default(fa);
        memory_set.map_trampoline(trampoline_ppn, fa);
        let entry = read_u64(elf_data, 24);
        let max_end_vpn = load_segments(&mut memory_set, elf_data, fa);
        let ghost ms_loaded = memory_set;
        let user_stack_top = add_stack_and_trap_context(&mut memory_set, max_end_vpn, fa);
        proof {
            let n = elf_phnum(s);
            assert forall|ii: int| 0 <= ii < n && #[trigger] ph_is_load(s, ii)
                implies segment_loaded(memory_set, s, ii) by {
                lemma_segment_preserved(ms_loaded, memory_set, s, ii);
            }
        }
        (memory_set, user_stack_top, entry)
    }
}

/// A segment already in memory stays there when a later area is pushed.
proof fn lemma_segment_preserved(ms1: MemorySet, ms2: MemorySet, s: Seq<u8>, i: int)
    requires
        ms1.wf(),
        ms2.wf(),
        ms2.areas@.len() >= ms1.areas@.len(),
        forall|k: int| 0 <= k < ms1.areas@.len() ==> ms2.areas@[k] == ms1.areas@[k],
        segment_loaded(ms1, s, i),
    ensures
        segment_loaded(ms2, s, i),
{
    assert forall|a: int|
        ph_vaddr(s, i) <= a < ph_vaddr(s, i) + ph_memsz(s, i) implies {
        &&& #[trigger] ms2.has_framed_page(a / (PAGE_SIZE as int))
        &&& ms2.areas@[ms2.framed_area_idx(a / (PAGE_SIZE as int))].map_perm == spec_seg_perm(
            ph_flags(s, i) as u64,
        )
        &&& ms2.user_byte(a) == if a - ph_vaddr(s, i) < ph_filesz(s, i) {
            s[ph_offset(s, i) + (a - ph_vaddr(s, i))]
        } else {
            0u8
        }
    } by {
        let vpn = a / (PAGE_SIZE as int);
        assert(ms1.has_framed_page(vpn));
        lemma_user_byte_preserved(ms1, ms2, vpn);
    }
}

} // verus!
