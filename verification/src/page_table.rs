//! SV39 three-level page tables.
//!
//! A `PageTable` owns the frames of its page-table pages; each page-table
//! page is modelled by a `PtNode` holding the 512 entries that live in the
//! frame named by its `ppn`. `map`, `unmap` and `translate` are proved
//! against `translate_spec`, the mathematical meaning of the three-level
//! walk.

use vstd::prelude::*;
use crate::address::{PhysPageNum, VirtPageNum};
use crate::config::{PAGE_SIZE, PPN_BOUND, VPN_BOUND};
use crate::frame_allocator::{frame_alloc, FrameAllocModel, FrameTracker, StackFrameAllocator};

verus! {

/// PTE flag bit: entry is valid.
pub const PTE_V: u8 = 1;

/// PTE flag bit: page is readable.
pub const PTE_R: u8 = 2;

/// PTE flag bit: page is writable.
pub const PTE_W: u8 = 4;

/// PTE flag bit: page is executable.
pub const PTE_X: u8 = 8;

/// PTE flag bit: page is accessible in user mode.
pub const PTE_U: u8 = 16;

/// PTE flag bit: mapping is global.
pub const PTE_G: u8 = 32;

/// PTE flag bit: page has been accessed.
pub const PTE_A: u8 = 64;

/// PTE flag bit: page has been written.
pub const PTE_D: u8 = 128;

/// A 64-bit SV39 page-table entry: bits 0..8 are the flags, bits 10..54
/// carry the physical page number.
#[derive(Clone, Copy, Debug, PartialEq, Eq, Structural)]
pub struct PageTableEntry {
    /// The raw bits of the entry.
    pub bits: u64,
}

/// Packing a page number and flags into entry bits and reading them back
/// are inverses, and the packed value fits in 64 bits.
proof fn lemma_pte_encode(p: u64, f: u8)
    by (bit_vector)
    requires
        p < 0x1000_0000_0000,
    ensures
        ((p * 1024 + (f as u64)) / 1024) % 0x1000_0000_0000 == p,
        (p * 1024 + (f as u64)) % 256 == f as u64,
        p * 1024 + (f as u64) < 0x40_0000_0000_0000,
{
}

/// Setting the valid bit keeps every permission bit as it was.
pub proof fn lemma_flags_or_v(f: u8)
    by (bit_vector)
    ensures
        (f | 1) & 1 != 0,
        (f | 1) & 2 == f & 2,
        (f | 1) & 4 == f & 4,
        (f | 1) & 8 == f & 8,
        (f | 1) & 16 == f & 16,
{
}

impl PageTableEntry {
    /// The physical page number stored in the entry.
    pub open spec fn spec_ppn(self) -> u64 {
        (((self.bits / 1024) % 0x1000_0000_0000) as u64)
    }

    /// The flag byte stored in the entry.
    pub open spec fn spec_flags(self) -> u8 {
        (self.bits % 256) as u8
    }

    /// Whether the valid bit is set.
    pub open spec fn spec_valid(self) -> bool {
        self.spec_flags() & PTE_V != 0
    }

    /// An entry for page `ppn` with flag byte `flags`.
    pub fn new(ppn: PhysPageNum, flags: u8) -> (r: Self)
        requires
            ppn.0 < PPN_BOUND,
        ensures
            r.spec_ppn() == ppn.0,
            r.spec_flags() == flags,
            r.spec_valid() == (flags & PTE_V != 0),
    {
        proof {
            lemma_pte_encode(ppn.0, flags);
        }
        PageTableEntry { bits: ppn.0 * 1024 + flags as u64 }
    }

    /// The all-zero, invalid entry.
    pub fn empty() -> (r: Self)
        ensures
            r.bits == 0,
            !r.spec_valid(),
            r.spec_flags() == 0,
            r.spec_ppn() == 0,
    {
        proof {
            assert((0u64 % 256) as u8 & 1 == 0) by (bit_vector);
        }
        PageTableEntry { bits: 0 }
    }

    /// The physical page number stored in the entry.
    pub fn ppn(&self) -> (r: PhysPageNum)
        ensures
            r.0 == self.spec_ppn(),
            r.0 < PPN_BOUND,
    {
        PhysPageNum((self.bits / 1024) % 0x1000_0000_0000)
    }

    /// The flag byte stored in the entry.
    pub fn flags(&self) -> (r: u8)
        ensures
            r == self.spec_flags(),
    {
        (self.bits % 256) as u8
    }

    /// Whether the valid bit is set.
    pub fn is_valid(&self) -> (r: bool)
        ensures
            r == self.spec_valid(),
    {
        self.flags() & PTE_V != 0
    }

    /// Whether the readable bit is set.
    pub fn readable(&self) -> (r: bool)
        ensures
            r == (self.spec_flags() & PTE_R != 0),
    {
        self.flags() & PTE_R != 0
    }

    /// Whether the writable bit is set.
    pub fn writable(&self) -> (r: bool)
        ensures
            r == (self.spec_flags() & PTE_W != 0),
    {
        self.flags() & PTE_W != 0
    }

    /// Whether the executable bit is set.
    pub fn executable(&self) -> (r: bool)
        ensures
            r == (self.spec_flags() & PTE_X != 0),
    {
        self.flags() & PTE_X != 0
    }

    /// Whether the user bit is set.
    pub fn user(&self) -> (r: bool)
        ensures
            r == (self.spec_flags() & PTE_U != 0),
    {
        self.flags() & PTE_U != 0
    }
}

/// The top-level (bits 26..18) page-table index of a virtual page number.
pub open spec fn vpn_idx0(vpn: u64) -> int {
    ((vpn / 0x40000) % 512) as int
}

/// The mid-level (bits 17..9) page-table index of a virtual page number.
pub open spec fn vpn_idx1(vpn: u64) -> int {
    ((vpn / 0x200) % 512) as int
}

/// The leaf-level (bits 8..0) page-table index of a virtual page number.
pub open spec fn vpn_idx2(vpn: u64) -> int {
    (vpn % 512) as int
}

/// Two virtual page numbers with the same three indices are the same page.
pub proof fn lemma_vpn_indexes_inj(v1: u64, v2: u64)
    by (bit_vector)
    requires
        v1 < 0x800_0000,
        v2 < 0x800_0000,
        (v1 / 0x40000) % 512 == (v2 / 0x40000) % 512,
        (v1 / 0x200) % 512 == (v2 / 0x200) % 512,
        v1 % 512 == v2 % 512,
    ensures
        v1 == v2,
{
}

/// One page-table page: the frame `ppn`, its depth in the tree (0 is the
/// root), and the 512 entries stored in the frame.
pub struct PtNode {
    /// The frame holding this page-table page.
    pub ppn: u64,
    /// Depth of this page in the tree: 0, 1, or 2.
    pub level: u64,
    /// The 512 entries of the page.
    pub entries: Vec<PageTableEntry>,
}

/// An SV39 page table: the root page number, the trackers of the owned
/// page-table frames, and the contents of those frames.
pub struct PageTable {
    /// The root physical page number, loaded into the translation CSR.
    pub root_ppn: PhysPageNum,
    /// Frames allocated for page-table pages; `frames[i]` backs `nodes[i]`.
    pub frames: Vec<FrameTracker>,
    /// The page-table pages themselves; `nodes[0]` is the root.
    pub nodes: Vec<PtNode>,
}

impl PageTable {
    /// Whether some page-table page sits in frame `ppn`.
    pub open spec fn has_node(self, ppn: u64) -> bool {
        exists|i: int| 0 <= i < self.nodes@.len() && self.nodes@[i].ppn == ppn
    }

    /// The index of the page-table page in frame `ppn`.
    pub open spec fn node_idx(self, ppn: u64) -> int {
        choose|i: int| 0 <= i < self.nodes@.len() && self.nodes@[i].ppn == ppn
    }

    /// The set of frames owned by this table (as page numbers).
    pub open spec fn owned_ppns(self) -> Set<int> {
        Set::new(
            |p: int|
                exists|i: int| 0 <= i < self.nodes@.len() && self.nodes@[i].ppn as int == p,
        )
    }

    /// Every owned frame is outstanding in allocator state `m`.
    pub open spec fn owned_by(self, m: FrameAllocModel) -> bool {
        self.owned_ppns().subset_of(m.outstanding())
    }

    /// Structural well-formedness of the tree of page-table pages.
    pub open spec fn wf(self) -> bool {
        let ns = self.nodes@;
        &&& ns.len() >= 1
        &&& ns[0].ppn == self.root_ppn.0
        &&& ns[0].level == 0
        &&& self.root_ppn.0 < PPN_BOUND
        &&& forall|i: int|
            0 <= i < ns.len() ==> (#[trigger] ns[i]).entries@.len() == 512 && ns[i].level <= 2
                && ns[i].ppn < PPN_BOUND
        &&& forall|i: int| 0 <= i < ns.len() && (#[trigger] ns[i]).level == 0 ==> i == 0
        &&& forall|i: int, j: int|
            0 <= i < j < ns.len() ==> ns[i].ppn != ns[j].ppn
        &&& forall|i: int, s: int|
            0 <= i < ns.len() && ns[i].level < 2 && 0 <= s < 512
                && (#[trigger] ns[i].entries@[s]).spec_valid() ==> {
                &&& self.has_node(ns[i].entries@[s].spec_ppn())
                &&& ns[self.node_idx(ns[i].entries@[s].spec_ppn())].level == ns[i].level + 1
            }
        &&& forall|i1: int, s1: int, i2: int, s2: int|
            0 <= i1 < ns.len() && ns[i1].level < 2 && 0 <= s1 < 512
                && (#[trigger] ns[i1].entries@[s1]).spec_valid() && 0 <= i2 < ns.len()
                && ns[i2].level < 2 && 0 <= s2 < 512
                && (#[trigger] ns[i2].entries@[s2]).spec_valid() && (i1 != i2 || s1 != s2)
                ==> ns[i1].entries@[s1].spec_ppn() != ns[i2].entries@[s2].spec_ppn()
        &&& self.frames@.len() == ns.len()
        &&& forall|i: int|
            0 <= i < ns.len() ==> (#[trigger] self.frames@[i]).ppn.0 == ns[i].ppn
                && self.frames@[i].wf()
    }

    /// The mid-level page reached from the root for `vpn`, if any.
    pub open spec fn l1_node(self, vpn: u64) -> Option<int> {
        let e = self.nodes@[0].entries@[vpn_idx0(vpn)];
        if e.spec_valid() && self.has_node(e.spec_ppn()) {
            Option::Some(self.node_idx(e.spec_ppn()))
        } else {
            Option::None
        }
    }

    /// The leaf-level page reached for `vpn`, if any.
    pub open spec fn l2_node(self, vpn: u64) -> Option<int> {
        match self.l1_node(vpn) {
            Option::Some(j) => {
                let e = self.nodes@[j].entries@[vpn_idx1(vpn)];
                if e.spec_valid() && self.has_node(e.spec_ppn()) {
                    Option::Some(self.node_idx(e.spec_ppn()))
                } else {
                    Option::None
                }
            },
            Option::None => Option::None,
        }
    }

    /// The leaf entry stored for `vpn`, if the walk reaches one.
    pub open spec fn leaf_pte(self, vpn: u64) -> Option<PageTableEntry> {
        match self.l2_node(vpn) {
            Option::Some(j) => Option::Some(self.nodes@[j].entries@[vpn_idx2(vpn)]),
            Option::None => Option::None,
        }
    }

    /// What the three-level walk yields for `vpn`: the leaf entry, if it
    /// exists and is valid.
    pub open spec fn translate_spec(self, vpn: u64) -> Option<PageTableEntry> {
        match self.leaf_pte(vpn) {
            Option::Some(e) => if e.spec_valid() {
                Option::Some(e)
            } else {
                Option::None
            },
            Option::None => Option::None,
        }
    }
}

/// If a frame holds a page-table page, `node_idx` names a real index whose
/// page sits in that frame.
pub proof fn lemma_node_idx_props(t: PageTable, ppn: u64)
    requires
        t.has_node(ppn),
    ensures
        0 <= t.node_idx(ppn) < t.nodes@.len(),
        t.nodes@[t.node_idx(ppn)].ppn == ppn,
{
}

/// A fresh vector of 512 invalid entries: the contents of a newly zeroed
/// page-table frame.
fn empty_entries() -> (r: Vec<PageTableEntry>)
    ensures
        r@.len() == 512,
        forall|s: int| 0 <= s < 512 ==> !(#[trigger] r@[s]).spec_valid() && r@[s].bits == 0,
{
    let mut v: Vec<PageTableEntry> = Vec::new();
    let mut i: u64 = 0;
    while i < 512
        invariant
            i <= 512,
            v@.len() == i,
            forall|s: int| 0 <= s < i ==> !(#[trigger] v@[s]).spec_valid() && v@[s].bits == 0,
        decreases 512 - i,
    {
        v.push(PageTableEntry::empty());
        i = i + 1;
    }
    v
}

impl PageTable {
    /// A new page table with a freshly allocated, empty root page.
    pub fn new(fa: &mut StackFrameAllocator) -> (r: Self)
        requires
            old(fa)@.wf(),
            old(fa)@.avail() >= 1,
        ensures
            final(fa)@.wf(),
            r.wf(),
            r.owned_by(final(fa)@),
            r.owned_ppns() =~= Set::empty().insert(r.root_ppn.0 as int),
            !old(fa)@.outstanding().contains(r.root_ppn.0 as int),
            final(fa)@.outstanding() =~= old(fa)@.outstanding().insert(r.root_ppn.0 as int),
            final(fa)@.avail() == old(fa)@.avail() - 1,
            final(fa)@.allocated_count() == old(fa)@.allocated_count() + 1,
            final(fa)@.start == old(fa)@.start,
            final(fa)@.end == old(fa)@.end,
            forall|v: u64| v < VPN_BOUND ==> r.translate_spec(v).is_none(),
            r.nodes@.len() == 1,
            r.frames@.len() == 1,
    {
        let frame = frame_alloc(fa).unwrap();
        let root_ppn = frame.ppn;
        let root = PtNode { ppn: root_ppn.0, level: 0, entries: empty_entries() };
        let mut frames: Vec<FrameTracker> = Vec::new();
        let mut nodes: Vec<PtNode> = Vec::new();
        frames.push(frame);
        nodes.push(root);
        let r = PageTable { root_ppn, frames, nodes };
        proof {
            assert(r.owned_ppns() =~= Set::empty().insert(r.root_ppn.0 as int));
            assert forall|v: u64| v < VPN_BOUND implies r.translate_spec(v).is_none() by {
                assert(!r.nodes@[0].entries@[vpn_idx0(v)].spec_valid());
            }
        }
        r
    }

    /// Finds the index of the page-table page sitting in frame `ppn`.
    fn find_node(&self, ppn: u64) -> (r: Option<usize>)
        ensures
            r.is_some() <==> self.has_node(ppn),
            match r {
                Some(i) => 0 <= i < self.nodes@.len() && self.nodes@[i as int].ppn == ppn,
                None => true,
            },
    {
        let mut i: usize = 0;
        while i < self.nodes.len()
            invariant
                i <= self.nodes@.len(),
                forall|k: int| 0 <= k < i ==> self.nodes@[k].ppn != ppn,
            decreases self.nodes@.len() - i,
        {
            if self.nodes[i].ppn == ppn {
                return Some(i);
            }
            i = i + 1;
        }
        None
    }

    /// Overwrites entry `s` of page-table page `j`.
    fn set_entry(&mut self, j: usize, s: usize, e: PageTableEntry)
        requires
            j < old(self).nodes@.len(),
            s < old(self).nodes@[j as int].entries@.len(),
        ensures
            final(self).nodes@.len() == old(self).nodes@.len(),
            forall|i: int|
                0 <= i < old(self).nodes@.len() && i != j
                    ==> final(self).nodes@[i] == old(self).nodes@[i],
            final(self).nodes@[j as int].ppn == old(self).nodes@[j as int].ppn,
            final(self).nodes@[j as int].level == old(self).nodes@[j as int].level,
            final(self).nodes@[j as int].entries@
                == old(self).nodes@[j as int].entries@.update(s as int, e),
            final(self).frames == old(self).frames,
            final(self).root_ppn == old(self).root_ppn,
    {
        let node = &mut self.nodes[j];
        let slot = &mut node.entries[s];
        *slot = e;
    }

    /// Returns a copy of the valid leaf entry mapped for `vpn`, or `None`
    /// if the walk fails or the leaf is invalid.
    pub fn translate(&self, vpn: VirtPageNum) -> (r: Option<PageTableEntry>)
        requires
            self.wf(),
            vpn.0 < VPN_BOUND,
        ensures
            r == self.translate_spec(vpn.0),
    {
        let idx = vpn.indexes();
        let e0 = self.nodes[0].entries[idx[0] as usize];
        if !e0.is_valid() {
            return None;
        }
        let j1 = match self.find_node(e0.ppn().0) {
            Some(j) => j,
            None => {
                proof {
                    assert(false);
                }
                return None;
            },
        };
        proof {
            lemma_node_idx_props(*self, e0.spec_ppn());
            assert(self.l1_node(vpn.0) == Option::Some(j1 as int));
        }
        let e1 = self.nodes[j1].entries[idx[1] as usize];
        if !e1.is_valid() {
            return None;
        }
        let j2 = match self.find_node(e1.ppn().0) {
            Some(j) => j,
            None => {
                proof {
                    assert(false);
                }
                return None;
            },
        };
        proof {
            lemma_node_idx_props(*self, e1.spec_ppn());
            assert(self.l2_node(vpn.0) == Option::Some(j2 as int));
        }
        let e2 = self.nodes[j2].entries[idx[2] as usize];
        if e2.is_valid() {
            Some(e2)
        } else {
            None
        }
    }
}


/// A frame holds at most one page-table page, so `node_idx` is the index of
/// any page known to sit in that frame.
proof fn lemma_node_idx_unique(t: PageTable, ppn: u64, i: int)
    requires
        forall|a: int, b: int| 0 <= a < b < t.nodes@.len() ==> t.nodes@[a].ppn != t.nodes@[b].ppn,
        0 <= i < t.nodes@.len(),
        t.nodes@[i].ppn == ppn,
    ensures
        t.has_node(ppn),
        t.node_idx(ppn) == i,
{
    assert(t.has_node(ppn));
    let k = t.node_idx(ppn);
    assert(0 <= k < t.nodes@.len() && t.nodes@[k].ppn == ppn);
    if k < i {
        assert(t.nodes@[k].ppn != t.nodes@[i].ppn);
    } else if i < k {
        assert(t.nodes@[i].ppn != t.nodes@[k].ppn);
    }
}

/// Two tables whose pages sit in the same frames, in the same order, agree
/// on which frames hold pages and at which index.
proof fn lemma_lookup_eq(t1: PageTable, t2: PageTable, p: u64)
    requires
        forall|a: int, b: int| 0 <= a < b < t1.nodes@.len() ==> t1.nodes@[a].ppn != t1.nodes@[b].ppn,
        t2.nodes@.len() == t1.nodes@.len(),
        forall|i: int| 0 <= i < t1.nodes@.len() ==> t2.nodes@[i].ppn == t1.nodes@[i].ppn,
    ensures
        t1.has_node(p) == t2.has_node(p),
        t1.has_node(p) ==> t1.node_idx(p) == t2.node_idx(p),
{
    if t1.has_node(p) {
        let i = t1.node_idx(p);
        assert(0 <= i < t1.nodes@.len() && t1.nodes@[i].ppn == p);
        assert(t2.nodes@[i].ppn == p);
        lemma_node_idx_unique(t2, p, i);
    } else if t2.has_node(p) {
        let i = t2.node_idx(p);
        assert(0 <= i < t2.nodes@.len() && t2.nodes@[i].ppn == p);
        assert(t1.nodes@[i].ppn == p);
        assert(t1.has_node(p));
    }
}

impl PageTable {
    /// Facts the walk gives about the pages on the path for `vpn`: the
    /// mid-level page has depth 1 and the leaf-level page depth 2.
    proof fn lemma_path_levels(self, vpn: u64)
        requires
            self.wf(),
            vpn < VPN_BOUND,
        ensures
            match self.l1_node(vpn) {
                Option::Some(j) => 0 <= j < self.nodes@.len() && self.nodes@[j].level == 1,
                Option::None => true,
            },
            match self.l2_node(vpn) {
                Option::Some(j) => 0 <= j < self.nodes@.len() && self.nodes@[j].level == 2,
                Option::None => true,
            },
    {
        if let Option::Some(j1) = self.l1_node(vpn) {
            let e0 = self.nodes@[0].entries@[vpn_idx0(vpn)];
            assert(e0.spec_valid());
            lemma_node_idx_props(*&self, e0.spec_ppn());
            if let Option::Some(j2) = self.l2_node(vpn) {
                let e1 = self.nodes@[j1].entries@[vpn_idx1(vpn)];
                assert(e1.spec_valid());
                lemma_node_idx_props(*&self, e1.spec_ppn());
            }
        }
    }

    /// Two page numbers whose walks share the leaf-level page and the leaf
    /// slot are the same page: parent edges are unique.
    proof fn lemma_same_leaf_slot_same_vpn(self, v1: u64, v2: u64)
        requires
            self.wf(),
            v1 < VPN_BOUND,
            v2 < VPN_BOUND,
            self.l2_node(v1).is_some(),
            self.l2_node(v1) == self.l2_node(v2),
            vpn_idx2(v1) == vpn_idx2(v2),
        ensures
            v1 == v2,
    {
        let j = self.l2_node(v1)->Some_0;
        let a1 = self.l1_node(v1)->Some_0;
        let a2 = self.l1_node(v2)->Some_0;
        let e0a = self.nodes@[0].entries@[vpn_idx0(v1)];
        let e0b = self.nodes@[0].entries@[vpn_idx0(v2)];
        let e1a = self.nodes@[a1].entries@[vpn_idx1(v1)];
        let e1b = self.nodes@[a2].entries@[vpn_idx1(v2)];
        lemma_node_idx_props(*&self, e0a.spec_ppn());
        lemma_node_idx_props(*&self, e0b.spec_ppn());
        lemma_node_idx_props(*&self, e1a.spec_ppn());
        lemma_node_idx_props(*&self, e1b.spec_ppn());
        assert(self.nodes@[a1].level == 1);
        assert(self.nodes@[a2].level == 1);
        assert(e1a.spec_ppn() == self.nodes@[j].ppn);
        assert(e1b.spec_ppn() == self.nodes@[j].ppn);
        assert(a1 == a2 && vpn_idx1(v1) == vpn_idx1(v2));
        assert(e0a.spec_ppn() == self.nodes@[a1].ppn);
        assert(e0b.spec_ppn() == self.nodes@[a1].ppn);
        assert(vpn_idx0(v1) == vpn_idx0(v2));
        lemma_vpn_indexes_inj(v1, v2);
    }
}

/// Overwriting one leaf entry changes the walk of exactly the page numbers
/// whose walk ends at that slot, and the table stays well-formed.
proof fn lemma_leaf_update(t1: PageTable, t2: PageTable, j: int, s: int, e: PageTableEntry, vpn: u64)
    requires
        t1.wf(),
        vpn < VPN_BOUND,
        t1.l2_node(vpn) == Option::Some(j),
        s == vpn_idx2(vpn),
        t2.root_ppn == t1.root_ppn,
        t2.nodes@.len() == t1.nodes@.len(),
        t2.frames@ == t1.frames@,
        forall|i: int|
            0 <= i < t1.nodes@.len() && i != j ==> t2.nodes@[i] == t1.nodes@[i],
        t2.nodes@[j].ppn == t1.nodes@[j].ppn,
        t2.nodes@[j].level == t1.nodes@[j].level,
        t2.nodes@[j].entries@ == t1.nodes@[j].entries@.update(s, e),
    ensures
        t2.wf(),
        t2.translate_spec(vpn) == if e.spec_valid() {
            Option::Some(e)
        } else {
            Option::None::<PageTableEntry>
        },
        forall|v2: u64|
            v2 < VPN_BOUND && v2 != vpn ==> t2.translate_spec(v2) == t1.translate_spec(v2),
        t2.owned_ppns() =~= t1.owned_ppns(),
        t2.l2_node(vpn) == Option::Some(j),
    {
    t1.lemma_path_levels(vpn);
    assert(t1.nodes@[j].level == 2);
    assert(0 <= vpn_idx2(vpn) < 512);
    assert(j != 0);
    assert forall|p: u64| true implies t1.has_node(p) == t2.has_node(p)
        && (t1.has_node(p) ==> t1.node_idx(p) == t2.node_idx(p)) by {
        lemma_lookup_eq(t1, t2, p);
    }
    // well-formedness of the updated table
    assert forall|i: int, s2: int|
        0 <= i < t2.nodes@.len() && t2.nodes@[i].level < 2 && 0 <= s2 < 512
            && (#[trigger] t2.nodes@[i].entries@[s2]).spec_valid() implies {
            &&& t2.has_node(t2.nodes@[i].entries@[s2].spec_ppn())
            &&& t2.nodes@[t2.node_idx(t2.nodes@[i].entries@[s2].spec_ppn())].level
                == t2.nodes@[i].level + 1
        } by {
        assert(i != j);
        assert(t2.nodes@[i] == t1.nodes@[i]);
        assert(t1.nodes@[i].entries@[s2].spec_valid());
        let cp = t1.nodes@[i].entries@[s2].spec_ppn();
        assert(t1.has_node(cp));
        assert(t1.nodes@[t1.node_idx(cp)].level == t1.nodes@[i].level + 1);
    }
    assert(t2.wf());
    // lookup of each page number
    assert forall|v2: u64| v2 < VPN_BOUND implies t2.l1_node(v2) == t1.l1_node(v2)
        && t2.l2_node(v2) == t1.l2_node(v2) by {
        assert(t2.nodes@[0] == t1.nodes@[0]);
        let e0 = t1.nodes@[0].entries@[vpn_idx0(v2)];
        if e0.spec_valid() && t1.has_node(e0.spec_ppn()) {
            let a = t1.node_idx(e0.spec_ppn());
            lemma_node_idx_props(t1, e0.spec_ppn());
            t1.lemma_path_levels(v2);
            assert(t1.nodes@[a].level == 1);
            assert(a != j);
            assert(t2.nodes@[a] == t1.nodes@[a]);
        }
    }
    assert forall|v2: u64| v2 < VPN_BOUND && v2 != vpn
        implies t2.translate_spec(v2) == t1.translate_spec(v2) by {
        if let Option::Some(m2) = t1.l2_node(v2) {
            if m2 == j && vpn_idx2(v2) == s {
                t1.lemma_same_leaf_slot_same_vpn(v2, vpn);
                assert(false);
            } else if m2 == j {
                assert(t2.nodes@[j].entries@[vpn_idx2(v2)]
                    == t1.nodes@[j].entries@[vpn_idx2(v2)]);
            } else {
                assert(t2.nodes@[m2] == t1.nodes@[m2]);
            }
        }
    }
    assert(t2.owned_ppns() =~= t1.owned_ppns());
}


/// Giving an invalid interior slot a fresh, empty child page changes no
/// walk result, and the table stays well-formed.
proof fn lemma_push_child(t1: PageTable, t2: PageTable, j: int, s: int, e_new: PageTableEntry)
    requires
        t1.wf(),
        0 <= j < t1.nodes@.len(),
        t1.nodes@[j].level < 2,
        0 <= s < 512,
        !t1.nodes@[j].entries@[s].spec_valid(),
        t2.nodes@.len() == t1.nodes@.len() + 1,
        t2.root_ppn == t1.root_ppn,
        forall|i: int|
            0 <= i < t1.nodes@.len() && i != j ==> t2.nodes@[i] == t1.nodes@[i],
        t2.nodes@[j].ppn == t1.nodes@[j].ppn,
        t2.nodes@[j].level == t1.nodes@[j].level,
        t2.nodes@[j].entries@ == t1.nodes@[j].entries@.update(s, e_new),
        e_new.spec_valid(),
        e_new.spec_ppn() == t2.nodes@[t1.nodes@.len() as int].ppn,
        !t1.has_node(t2.nodes@[t1.nodes@.len() as int].ppn),
        t2.nodes@[t1.nodes@.len() as int].ppn < PPN_BOUND,
        t2.nodes@[t1.nodes@.len() as int].level == t1.nodes@[j].level + 1,
        t2.nodes@[t1.nodes@.len() as int].entries@.len() == 512,
        forall|s2: int|
            0 <= s2 < 512
                ==> !(#[trigger] t2.nodes@[t1.nodes@.len() as int].entries@[s2]).spec_valid(),
        t2.frames@.len() == t1.frames@.len() + 1,
        forall|i: int| 0 <= i < t1.frames@.len() ==> t2.frames@[i] == t1.frames@[i],
        t2.frames@[t1.frames@.len() as int].ppn.0 == t2.nodes@[t1.nodes@.len() as int].ppn,
        t2.frames@[t1.frames@.len() as int].wf(),
    ensures
        t2.wf(),
        forall|v2: u64| v2 < VPN_BOUND ==> t2.translate_spec(v2) == t1.translate_spec(v2),
        t2.owned_ppns() =~= t1.owned_ppns().insert(
            t2.nodes@[t1.nodes@.len() as int].ppn as int,
        ),
        t2.has_node(t2.nodes@[t1.nodes@.len() as int].ppn),
        t2.node_idx(t2.nodes@[t1.nodes@.len() as int].ppn) == t1.nodes@.len(),
        t1.nodes@[j].level == 0 ==> j == 0 && forall|v: u64|
            #![trigger vpn_idx0(v)]
            v < VPN_BOUND ==> if vpn_idx0(v) == s {
                t2.l1_node(v) == Option::Some(t1.nodes@.len() as int)
            } else {
                t2.l1_node(v) == t1.l1_node(v)
            },
        t1.nodes@[j].level == 1 ==> forall|v: u64|
            #![trigger vpn_idx1(v)]
            v < VPN_BOUND ==> {
                &&& t2.l1_node(v) == t1.l1_node(v)
                &&& if t1.l1_node(v) == Option::Some(j) && vpn_idx1(v) == s {
                    t2.l2_node(v) == Option::Some(t1.nodes@.len() as int)
                } else {
                    t2.l2_node(v) == t1.l2_node(v)
                }
            },
{
    let n1 = t1.nodes@.len() as int;
    let cppn = t2.nodes@[n1].ppn;
    // distinctness of the extended table
    assert forall|a: int, b: int| 0 <= a < b < t2.nodes@.len()
        implies t2.nodes@[a].ppn != t2.nodes@[b].ppn by {
        if b < n1 {
            assert(t2.nodes@[a].ppn == t1.nodes@[a].ppn);
            assert(t2.nodes@[b].ppn == t1.nodes@[b].ppn);
        } else {
            assert(t2.nodes@[a].ppn == t1.nodes@[a].ppn);
            if t2.nodes@[a].ppn == cppn {
                assert(t1.has_node(cppn));
            }
        }
    }
    lemma_node_idx_unique(t2, cppn, n1);
    assert forall|p: u64| p != cppn implies t1.has_node(p) == t2.has_node(p)
        && (t1.has_node(p) ==> t1.node_idx(p) == t2.node_idx(p)) by {
        if t1.has_node(p) {
            let i = t1.node_idx(p);
            assert(0 <= i < n1 && t1.nodes@[i].ppn == p);
            assert(t2.nodes@[i].ppn == p);
            lemma_node_idx_unique(t2, p, i);
        } else if t2.has_node(p) {
            let i = t2.node_idx(p);
            assert(0 <= i < t2.nodes@.len() && t2.nodes@[i].ppn == p);
            assert(i != n1);
            assert(t1.nodes@[i].ppn == p);
            assert(t1.has_node(p));
        }
    }
    // old valid interior entries never point at the fresh frame
    assert forall|i: int, s2: int|
        0 <= i < n1 && t1.nodes@[i].level < 2 && 0 <= s2 < 512
            && (#[trigger] t1.nodes@[i].entries@[s2]).spec_valid()
        implies t1.nodes@[i].entries@[s2].spec_ppn() != cppn by {
        assert(t1.has_node(t1.nodes@[i].entries@[s2].spec_ppn()));
    }
    // well-formedness of the extended table
    assert forall|i: int, s2: int|
        0 <= i < t2.nodes@.len() && t2.nodes@[i].level < 2 && 0 <= s2 < 512
            && (#[trigger] t2.nodes@[i].entries@[s2]).spec_valid() implies {
            &&& t2.has_node(t2.nodes@[i].entries@[s2].spec_ppn())
            &&& t2.nodes@[t2.node_idx(t2.nodes@[i].entries@[s2].spec_ppn())].level
                == t2.nodes@[i].level + 1
        } by {
        if i == n1 {
            assert(false);
        } else if i == j && s2 == s {
            assert(t2.nodes@[i].entries@[s2] == e_new);
        } else {
            if i == j {
                assert(t2.nodes@[i].entries@[s2] == t1.nodes@[i].entries@[s2]);
            } else {
                assert(t2.nodes@[i] == t1.nodes@[i]);
            }
            let cp = t1.nodes@[i].entries@[s2].spec_ppn();
            assert(t1.has_node(cp));
            lemma_node_idx_props(t1, cp);
            assert(cp != cppn);
        }
    }
    assert forall|i1: int, s1: int, i2: int, s2: int|
        0 <= i1 < t2.nodes@.len() && t2.nodes@[i1].level < 2 && 0 <= s1 < 512
            && (#[trigger] t2.nodes@[i1].entries@[s1]).spec_valid() && 0 <= i2 < t2.nodes@.len()
            && t2.nodes@[i2].level < 2 && 0 <= s2 < 512
            && (#[trigger] t2.nodes@[i2].entries@[s2]).spec_valid() && (i1 != i2 || s1 != s2)
        implies t2.nodes@[i1].entries@[s1].spec_ppn() != t2.nodes@[i2].entries@[s2].spec_ppn() by {
        assert(i1 != n1 && i2 != n1);
        if i1 == j && s1 == s {
            assert(t2.nodes@[i2].entries@[s2] == t1.nodes@[i2].entries@[s2]);
        } else if i2 == j && s2 == s {
            assert(t2.nodes@[i1].entries@[s1] == t1.nodes@[i1].entries@[s1]);
        } else {
            assert(t2.nodes@[i1].entries@[s1] == t1.nodes@[i1].entries@[s1]);
            assert(t2.nodes@[i2].entries@[s2] == t1.nodes@[i2].entries@[s2]);
        }
    }
    assert(t2.wf());
    assert(t2.owned_ppns() =~= t1.owned_ppns().insert(cppn as int));
    // walks are unchanged
    assert forall|v2: u64| v2 < VPN_BOUND
        implies t2.translate_spec(v2) == t1.translate_spec(v2) by {
        t1.lemma_path_levels(v2);
        t2.lemma_path_levels(v2);
        let i0 = vpn_idx0(v2);
        if j == 0 && i0 == s {
            // the walk now enters the fresh, still empty child
            assert(t1.l1_node(v2).is_none());
            assert(t2.nodes@[0].entries@[i0] == e_new);
            assert(t2.l1_node(v2) == Option::Some(n1));
            assert(!t2.nodes@[n1].entries@[vpn_idx1(v2)].spec_valid());
            assert(t2.l2_node(v2).is_none());
        } else {
            if j == 0 {
                assert(t2.nodes@[0].entries@[i0] == t1.nodes@[0].entries@[i0]);
            } else {
                assert(t2.nodes@[0] == t1.nodes@[0]);
            }
            let e0 = t1.nodes@[0].entries@[i0];
            if e0.spec_valid() && t1.has_node(e0.spec_ppn()) {
                let a = t1.node_idx(e0.spec_ppn());
                lemma_node_idx_props(t1, e0.spec_ppn());
                assert(t1.nodes@[a].level == 1);
                assert(e0.spec_ppn() != cppn);
                assert(t2.l1_node(v2) == Option::Some(a));
                let i1 = vpn_idx1(v2);
                if a == j && i1 == s {
                    // the walk now enters the fresh, still empty child
                    assert(t1.l2_node(v2).is_none());
                    assert(t2.nodes@[a].entries@[i1] == e_new);
                    assert(t2.l2_node(v2) == Option::Some(n1));
                    assert(!t2.nodes@[n1].entries@[vpn_idx2(v2)].spec_valid());
                    assert(t2.translate_spec(v2).is_none());
                } else {
                    if a == j {
                        assert(t2.nodes@[a].entries@[i1] == t1.nodes@[a].entries@[i1]);
                    } else {
                        assert(t2.nodes@[a] == t1.nodes@[a]);
                    }
                    let e1 = t1.nodes@[a].entries@[i1];
                    if e1.spec_valid() && t1.has_node(e1.spec_ppn()) {
                        let b = t1.node_idx(e1.spec_ppn());
                        lemma_node_idx_props(t1, e1.spec_ppn());
                        assert(t1.nodes@[b].level == 2);
                        assert(e1.spec_ppn() != cppn);
                        assert(t2.l2_node(v2) == Option::Some(b));
                        assert(b != j && b != n1);
                        assert(t2.nodes@[b] == t1.nodes@[b]);
                    }
                }
            } else {
                assert(t2.l1_node(v2).is_none() == t1.l1_node(v2).is_none());
                if e0.spec_valid() {
                    assert(e0.spec_ppn() != cppn || !t1.nodes@[0].entries@[i0].spec_valid() || j != 0);
                }
            }
        }
    }
    // helper facts for the caller continuing its walk
    if t1.nodes@[j].level == 0 {
        assert(j == 0);
        assert forall|v: u64| v < VPN_BOUND implies if vpn_idx0(v) == s {
            t2.l1_node(v) == Option::Some(n1)
        } else {
            t2.l1_node(v) == t1.l1_node(v)
        } by {
            if vpn_idx0(v) == s {
                assert(t2.nodes@[0].entries@[vpn_idx0(v)] == e_new);
            } else {
                assert(t2.nodes@[0].entries@[vpn_idx0(v)] == t1.nodes@[0].entries@[vpn_idx0(v)]);
                let e0 = t1.nodes@[0].entries@[vpn_idx0(v)];
                if e0.spec_valid() && t1.has_node(e0.spec_ppn()) {
                    lemma_node_idx_props(t1, e0.spec_ppn());
                    assert(e0.spec_ppn() != cppn);
                }
            }
        }
    }
    if t1.nodes@[j].level == 1 {
        assert forall|v: u64| v < VPN_BOUND implies {
            &&& t2.l1_node(v) == t1.l1_node(v)
            &&& if t1.l1_node(v) == Option::Some(j) && vpn_idx1(v) == s {
                t2.l2_node(v) == Option::Some(n1)
            } else {
                t2.l2_node(v) == t1.l2_node(v)
            }
        } by {
            assert(j != 0);
            assert(t2.nodes@[0] == t1.nodes@[0]);
            let e0 = t1.nodes@[0].entries@[vpn_idx0(v)];
            if e0.spec_valid() && t1.has_node(e0.spec_ppn()) {
                lemma_node_idx_props(t1, e0.spec_ppn());
                assert(e0.spec_ppn() != cppn);
                let a = t1.node_idx(e0.spec_ppn());
                t1.lemma_path_levels(v);
                assert(t2.l1_node(v) == Option::Some(a));
                if a == j && vpn_idx1(v) == s {
                    assert(t2.nodes@[a].entries@[vpn_idx1(v)] == e_new);
                } else {
                    if a == j {
                        assert(t2.nodes@[a].entries@[vpn_idx1(v)]
                            == t1.nodes@[a].entries@[vpn_idx1(v)]);
                    } else {
                        assert(t2.nodes@[a] == t1.nodes@[a]);
                    }
                    let e1 = t1.nodes@[a].entries@[vpn_idx1(v)];
                    if e1.spec_valid() && t1.has_node(e1.spec_ppn()) {
                        lemma_node_idx_props(t1, e1.spec_ppn());
                        assert(e1.spec_ppn() != cppn);
                    }
                }
            }
        }
    }
}


impl PageTable {
    /// Returns the index of the child page behind slot `s` of interior page
    /// `j`, allocating a fresh empty child page when the slot is invalid.
    fn find_or_create_child(
        &mut self,
        fa: &mut StackFrameAllocator,
        j: usize,
        s: usize,
    ) -> (r: usize)
        requires
            old(self).wf(),
            old(fa)@.wf(),
            old(self).owned_by(old(fa)@),
            old(fa)@.avail() >= 1,
            j < old(self).nodes@.len(),
            old(self).nodes@[j as int].level < 2,
            s < 512,
        ensures
            final(self).wf(),
            final(fa)@.wf(),
            final(self).owned_by(final(fa)@),
            final(self).root_ppn == old(self).root_ppn,
            final(self).nodes@.len() >= old(self).nodes@.len(),
            r < final(self).nodes@.len(),
            forall|i: int|
                0 <= i < old(self).nodes@.len() && i != j
                    ==> final(self).nodes@[i] == old(self).nodes@[i],
            final(self).nodes@[j as int].ppn == old(self).nodes@[j as int].ppn,
            final(self).nodes@[j as int].level == old(self).nodes@[j as int].level,
            final(self).nodes@[j as int].entries@.len() == 512,
            forall|s2: int|
                0 <= s2 < 512 && s2 != s
                    ==> final(self).nodes@[j as int].entries@[s2]
                        == old(self).nodes@[j as int].entries@[s2],
            final(self).nodes@[j as int].entries@[s as int].spec_valid(),
            final(self).nodes@[j as int].entries@[s as int].spec_ppn()
                == final(self).nodes@[r as int].ppn,
            final(self).nodes@[r as int].level == old(self).nodes@[j as int].level + 1,
            forall|v2: u64|
                v2 < VPN_BOUND
                    ==> final(self).translate_spec(v2) == old(self).translate_spec(v2),
            old(self).owned_ppns().subset_of(final(self).owned_ppns()),
            forall|p: int|
                final(self).owned_ppns().contains(p)
                    ==> old(self).owned_ppns().contains(p)
                        || !old(fa)@.outstanding().contains(p),
            old(fa)@.outstanding().subset_of(final(fa)@.outstanding()),
            forall|p: int|
                final(fa)@.outstanding().contains(p)
                    ==> old(fa)@.outstanding().contains(p)
                        || final(self).owned_ppns().contains(p),
            final(fa)@.avail() >= old(fa)@.avail() - 1,
            final(fa)@.allocated_count() == old(fa)@.allocated_count()
                + final(self).frames@.len() - old(self).frames@.len(),
            final(self).frames@.len() >= old(self).frames@.len(),
            final(fa)@.start == old(fa)@.start,
            final(fa)@.end == old(fa)@.end,
    {
        let e = self.nodes[j].entries[s];
        if e.is_valid() {
            let found = self.find_node(e.ppn().0);
            let r = match found {
                Some(r) => r,
                None => {
                    proof {
                        assert(false);
                    }
                    0
                },
            };
            proof {
                lemma_node_idx_props(*self, e.spec_ppn());
                lemma_node_idx_unique(*self, e.spec_ppn(), r as int);
            }
            r
        } else {
            let ghost t1 = *self;
            let ghost m1 = fa@;
            let frame = frame_alloc(fa).unwrap();
            let child_ppn = frame.ppn;
            proof {
                assert(!t1.has_node(child_ppn.0)) by {
                    if t1.has_node(child_ppn.0) {
                        assert(t1.owned_ppns().contains(child_ppn.0 as int));
                    }
                }
                assert(1u8 & 1u8 == 1u8) by (bit_vector);
            }
            let e_new = PageTableEntry::new(child_ppn, PTE_V);
            self.set_entry(j, s, e_new);
            let level = self.nodes[j].level;
            let node = PtNode { ppn: child_ppn.0, level: level + 1, entries: empty_entries() };
            let r = self.nodes.len();
            self.nodes.push(node);
            self.frames.push(frame);
            proof {
                lemma_push_child(t1, *self, j as int, s as int, e_new);
            }
            r
        }
    }

    /// Maps `vpn` to `ppn` with flag byte `flags | V`, allocating interior
    /// page-table pages as needed. The page must not be mapped yet.
    pub fn map(&mut self, fa: &mut StackFrameAllocator, vpn: VirtPageNum, ppn: PhysPageNum, flags: u8)
        requires
            old(self).wf(),
            old(fa)@.wf(),
            old(self).owned_by(old(fa)@),
            old(fa)@.avail() >= 2,
            vpn.0 < VPN_BOUND,
            ppn.0 < PPN_BOUND,
            old(self).translate_spec(vpn.0).is_none(),
        ensures
            final(self).wf(),
            final(fa)@.wf(),
            final(self).owned_by(final(fa)@),
            final(self).root_ppn == old(self).root_ppn,
            ({
                let t = final(self).translate_spec(vpn.0);
                &&& t.is_some()
                &&& t.unwrap().spec_ppn() == ppn.0
                &&& t.unwrap().spec_flags() == flags | PTE_V
            }),
            forall|v2: u64|
                v2 < VPN_BOUND && v2 != vpn.0
                    ==> final(self).translate_spec(v2) == old(self).translate_spec(v2),
            old(self).owned_ppns().subset_of(final(self).owned_ppns()),
            forall|p: int|
                final(self).owned_ppns().contains(p)
                    ==> old(self).owned_ppns().contains(p)
                        || !old(fa)@.outstanding().contains(p),
            old(fa)@.outstanding().subset_of(final(fa)@.outstanding()),
            forall|p: int|
                final(fa)@.outstanding().contains(p)
                    ==> old(fa)@.outstanding().contains(p)
                        || final(self).owned_ppns().contains(p),
            final(fa)@.avail() >= old(fa)@.avail() - 2,
            final(fa)@.allocated_count() == old(fa)@.allocated_count()
                + final(self).frames@.len() - old(self).frames@.len(),
            final(self).frames@.len() >= old(self).frames@.len(),
            final(fa)@.start == old(fa)@.start,
            final(fa)@.end == old(fa)@.end,
    {
        let idx = vpn.indexes();
        let ghost t0 = *self;
        let ghost m0 = fa@;
        let j1 = self.find_or_create_child(fa, 0, idx[0] as usize);
        let ghost ta = *self;
        let ghost ma = fa@;
        proof {
            assert(ta.nodes@[j1 as int].level == 1);
            assert(j1 != 0);
        }
        let j2 = self.find_or_create_child(fa, j1, idx[1] as usize);
        let ghost tb = *self;
        let ghost mb = fa@;
        proof {
            // the walk in the current table reaches node j2 at the leaf level
            assert(tb.nodes@[0].ppn == ta.nodes@[0].ppn);
            assert(tb.nodes@[0].entries@[vpn_idx0(vpn.0)]
                == ta.nodes@[0].entries@[vpn_idx0(vpn.0)]);
            assert(tb.nodes@[0].entries@[vpn_idx0(vpn.0)].spec_valid());
            assert(tb.nodes@[j1 as int].ppn == ta.nodes@[j1 as int].ppn);
            assert(ta.nodes@[0].entries@[vpn_idx0(vpn.0)].spec_ppn()
                == tb.nodes@[j1 as int].ppn);
            lemma_node_idx_unique(tb, tb.nodes@[j1 as int].ppn, j1 as int);
            assert(tb.l1_node(vpn.0) == Option::Some(j1 as int));
            assert(tb.nodes@[j1 as int].entries@[vpn_idx1(vpn.0)].spec_valid());
            assert(tb.nodes@[j1 as int].entries@[vpn_idx1(vpn.0)].spec_ppn()
                == tb.nodes@[j2 as int].ppn);
            lemma_node_idx_unique(tb, tb.nodes@[j2 as int].ppn, j2 as int);
            assert(tb.l2_node(vpn.0) == Option::Some(j2 as int));
            assert(tb.translate_spec(vpn.0) == t0.translate_spec(vpn.0));
            assert(!tb.nodes@[j2 as int].entries@[vpn_idx2(vpn.0)].spec_valid());
        }
        let pte = PageTableEntry::new(ppn, flags | PTE_V);
        proof {
            lemma_flags_or_v(flags);
        }
        self.set_entry(j2, idx[2] as usize, pte);
        proof {
            lemma_leaf_update(tb, *self, j2 as int, vpn_idx2(vpn.0), pte, vpn.0);
        }
    }

    /// Unmaps `vpn`, zeroing its leaf entry. The page must be mapped.
    pub fn unmap(&mut self, vpn: VirtPageNum)
        requires
            old(self).wf(),
            vpn.0 < VPN_BOUND,
            old(self).translate_spec(vpn.0).is_some(),
        ensures
            final(self).wf(),
            final(self).root_ppn == old(self).root_ppn,
            final(self).translate_spec(vpn.0).is_none(),
            forall|v2: u64|
                v2 < VPN_BOUND && v2 != vpn.0
                    ==> final(self).translate_spec(v2) == old(self).translate_spec(v2),
            final(self).owned_ppns() =~= old(self).owned_ppns(),
            final(self).frames@ == old(self).frames@,
    {
        let ghost t0 = *self;
        let idx = vpn.indexes();
        let e0 = self.nodes[0].entries[idx[0] as usize];
        let j1 = self.find_node(e0.ppn().0).unwrap();
        proof {
            lemma_node_idx_props(*self, e0.spec_ppn());
            lemma_node_idx_unique(*self, e0.spec_ppn(), j1 as int);
            assert(self.l1_node(vpn.0) == Option::Some(j1 as int));
        }
        let e1 = self.nodes[j1].entries[idx[1] as usize];
        let j2 = self.find_node(e1.ppn().0).unwrap();
        proof {
            lemma_node_idx_props(*self, e1.spec_ppn());
            lemma_node_idx_unique(*self, e1.spec_ppn(), j2 as int);
            assert(self.l2_node(vpn.0) == Option::Some(j2 as int));
        }
        let zero = PageTableEntry::empty();
        self.set_entry(j2, idx[2] as usize, zero);
        proof {
            lemma_leaf_update(t0, *self, j2 as int, vpn_idx2(vpn.0), zero, vpn.0);
        }
    }
}


impl PageTable {
    /// The chunks of physical memory that cover the user buffer
    /// `[ptr, ptr + len)`: the walk covers exactly `len` bytes starting at
    /// `ptr`, splitting at page boundaries. Each chunk names the backing
    /// frame and the in-page byte range `[start, end)` it contributes.
    /// Every page of the buffer must be mapped.
    pub fn translated_byte_buffer(&self, ptr: u64, len: u64) -> (r: Vec<(PhysPageNum, u64, u64)>)
        requires
            self.wf(),
            ptr + len <= VPN_BOUND * PAGE_SIZE,
            forall|v: u64|
                ptr / PAGE_SIZE <= v <= (ptr + len - 1) / (PAGE_SIZE as int)
                    ==> (#[trigger] self.translate_spec(v)).is_some(),
        ensures
            len == 0 ==> r@.len() == 0,
            len > 0 ==> {
                let first = ptr / PAGE_SIZE;
                let n = (ptr + len - 1) / (PAGE_SIZE as int) - first + 1;
                &&& r@.len() == n
                &&& forall|k: int|
                    0 <= k < n ==> {
                        let t = #[trigger] r@[k];
                        &&& t.0.0 == self.translate_spec((first + k) as u64).unwrap().spec_ppn()
                        &&& t.1 == if k == 0 {
                            ptr % PAGE_SIZE
                        } else {
                            0
                        }
                        &&& t.2 == if k == n - 1 {
                            (ptr + len - 1) % (PAGE_SIZE as int) + 1
                        } else {
                            PAGE_SIZE as int
                        }
                    }
            },
    {
        let mut res: Vec<(PhysPageNum, u64, u64)> = Vec::new();
        if len == 0 {
            return res;
        }
        let first = ptr / PAGE_SIZE;
        let last = (ptr + len - 1) / PAGE_SIZE;
        proof {
            assert(first <= last < VPN_BOUND) by (nonlinear_arith)
                requires
                    first == ptr / PAGE_SIZE,
                    last == (ptr + len - 1) / (PAGE_SIZE as int),
                    0 < len,
                    ptr + len <= VPN_BOUND * PAGE_SIZE,
                    PAGE_SIZE == 4096,
                    VPN_BOUND == 0x800_0000,
            ;
        }
        let n = last - first + 1;
        let mut k: u64 = 0;
        while k < n
            invariant
                self.wf(),
                0 < len,
                first == ptr / PAGE_SIZE,
                last == (ptr + len - 1) / (PAGE_SIZE as int),
                first <= last < VPN_BOUND,
                n == last - first + 1,
                k <= n,
                forall|v: u64|
                    first <= v <= last ==> (#[trigger] self.translate_spec(v)).is_some(),
                res@.len() == k,
                forall|j: int|
                    0 <= j < k ==> {
                        let t = #[trigger] res@[j];
                        &&& t.0.0 == self.translate_spec(
                            (first + j) as u64,
                        ).unwrap().spec_ppn()
                        &&& t.1 == if j == 0 {
                            ptr % PAGE_SIZE
                        } else {
                            0
                        }
                        &&& t.2 == if j == n - 1 {
                            (ptr + len - 1) % (PAGE_SIZE as int) + 1
                        } else {
                            PAGE_SIZE as int
                        }
                    },
            decreases n - k,
        {
            let vpn = first + k;
            let pte = self.translate(VirtPageNum(vpn)).unwrap();
            let start_off: u64 = if k == 0 {
                ptr % PAGE_SIZE
            } else {
                0
            };
            let end_off: u64 = if k == n - 1 {
                (ptr + len - 1) % PAGE_SIZE + 1
            } else {
                PAGE_SIZE
            };
            res.push((pte.ppn(), start_off, end_off));
            k = k + 1;
        }
        res
    }
}

} // verus!
