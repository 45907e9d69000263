//! Newtype wrappers for SV39 physical/virtual addresses and page numbers,
//! with the arithmetic the rest of the kernel builds on.
//!
//! Conversions from raw integers mask to the width of the respective kind:
//! 56 bits for a physical address, 39 for a virtual address, 44 for a
//! physical page number, 27 for a virtual page number.

use vstd::prelude::*;
use crate::config::{PAGE_SIZE, PA_BOUND, VA_BOUND, PPN_BOUND, VPN_BOUND};

verus! {

/// A 56-bit SV39 physical address.
#[derive(Clone, Copy, Debug, PartialEq, Eq, Structural)]
pub struct PhysAddr(pub u64);

/// A 39-bit SV39 virtual address.
#[derive(Clone, Copy, Debug, PartialEq, Eq, Structural)]
pub struct VirtAddr(pub u64);

/// A 44-bit SV39 physical page number.
#[derive(Clone, Copy, Debug, PartialEq, Eq, Structural)]
pub struct PhysPageNum(pub u64);

/// A 27-bit SV39 virtual page number.
#[derive(Clone, Copy, Debug, PartialEq, Eq, Structural)]
pub struct VirtPageNum(pub u64);

impl From<u64> for PhysAddr {
    fn from(v: u64) -> (r: Self) {
        PhysAddr(v % PA_BOUND)
    }
}

impl vstd::std_specs::convert::FromSpecImpl<u64> for PhysAddr {
    open spec fn obeys_from_spec() -> bool {
        true
    }

    open spec fn from_spec(v: u64) -> Self {
        PhysAddr((v % PA_BOUND) as u64)
    }
}

impl From<u64> for VirtAddr {
    fn from(v: u64) -> (r: Self) {
        VirtAddr(v % VA_BOUND)
    }
}

impl vstd::std_specs::convert::FromSpecImpl<u64> for VirtAddr {
    open spec fn obeys_from_spec() -> bool {
        true
    }

    open spec fn from_spec(v: u64) -> Self {
        VirtAddr((v % VA_BOUND) as u64)
    }
}

impl From<u64> for PhysPageNum {
    fn from(v: u64) -> (r: Self) {
        PhysPageNum(v % PPN_BOUND)
    }
}

impl vstd::std_specs::convert::FromSpecImpl<u64> for PhysPageNum {
    open spec fn obeys_from_spec() -> bool {
        true
    }

    open spec fn from_spec(v: u64) -> Self {
        PhysPageNum((v % PPN_BOUND) as u64)
    }
}

impl From<u64> for VirtPageNum {
    fn from(v: u64) -> (r: Self) {
        VirtPageNum(v % VPN_BOUND)
    }
}

impl vstd::std_specs::convert::FromSpecImpl<u64> for VirtPageNum {
    open spec fn obeys_from_spec() -> bool {
        true
    }

    open spec fn from_spec(v: u64) -> Self {
        VirtPageNum((v % VPN_BOUND) as u64)
    }
}

impl VirtAddr {
    /// The raw address value.
    pub fn bits(&self) -> (r: u64)
        ensures
            r == self.0,
    {
        self.0
    }

    /// The offset of this address within its page.
    pub fn page_offset(&self) -> (r: u64)
        ensures
            r == self.0 % PAGE_SIZE,
    {
        self.0 % PAGE_SIZE
    }

    /// The virtual page number containing this address (rounded down).
    pub fn floor(&self) -> (r: VirtPageNum)
        ensures
            r.0 == self.0 / PAGE_SIZE,
    {
        VirtPageNum(self.0 / PAGE_SIZE)
    }

    /// The first virtual page number at or after this address (rounded up).
    pub fn ceil(&self) -> (r: VirtPageNum)
        ensures
            r.0 == (self.0 + PAGE_SIZE - 1) / (PAGE_SIZE as int),
    {
        if self.0 % PAGE_SIZE == 0 {
            VirtPageNum(self.0 / PAGE_SIZE)
        } else {
            VirtPageNum(self.0 / PAGE_SIZE + 1)
        }
    }

    /// Whether this address is page-aligned.
    pub fn aligned(&self) -> (r: bool)
        ensures
            r == (self.0 % PAGE_SIZE == 0),
    {
        self.0 % PAGE_SIZE == 0
    }
}

impl VirtPageNum {
    /// The raw page-number value.
    pub fn bits(&self) -> (r: u64)
        ensures
            r == self.0,
    {
        self.0
    }

    /// Advances this page number by `v` pages.
    pub fn add(&mut self, v: u64)
        requires
            old(self).0 + v <= u64::MAX,
        ensures
            final(self).0 == old(self).0 + v,
    {
        self.0 = self.0 + v;
    }

    /// The three 9-bit page-table indices of this page number, top level
    /// first: bits 26..18, 17..9, and 8..0.
    pub fn indexes(&self) -> (r: [u64; 3])
        ensures
            r@ == seq![
                (self.0 / 0x40000) % 512,
                (self.0 / 0x200) % 512,
                self.0 % 512,
            ],
            forall|i: int| 0 <= i < 3 ==> r@[i] < 512,
    {
        let r = [(self.0 / 0x40000) % 512, (self.0 / 0x200) % 512, self.0 % 512];
        proof {
            assert(r@ =~= seq![
                (self.0 / 0x40000) % 512,
                (self.0 / 0x200) % 512,
                self.0 % 512,
            ]);
        }
        r
    }

    /// The first virtual address of this page.
    pub fn get_first_addr(&self) -> (r: VirtAddr)
        requires
            self.0 < VPN_BOUND,
        ensures
            r.0 == self.0 * PAGE_SIZE,
    {
        VirtAddr(self.0 * PAGE_SIZE)
    }
}

impl PhysAddr {
    /// The raw address value.
    pub fn bits(&self) -> (r: u64)
        ensures
            r == self.0,
    {
        self.0
    }

    /// The offset of this address within its page.
    pub fn page_offset(&self) -> (r: u64)
        ensures
            r == self.0 % PAGE_SIZE,
    {
        self.0 % PAGE_SIZE
    }

    /// The physical page number containing this address (rounded down).
    pub fn floor(&self) -> (r: PhysPageNum)
        ensures
            r.0 == self.0 / PAGE_SIZE,
    {
        PhysPageNum(self.0 / PAGE_SIZE)
    }

    /// The first physical page number at or after this address (rounded up).
    pub fn ceil(&self) -> (r: PhysPageNum)
        ensures
            r.0 == (self.0 + PAGE_SIZE - 1) / (PAGE_SIZE as int),
    {
        if self.0 % PAGE_SIZE == 0 {
            PhysPageNum(self.0 / PAGE_SIZE)
        } else {
            PhysPageNum(self.0 / PAGE_SIZE + 1)
        }
    }

    /// Whether this address is page-aligned.
    pub fn aligned(&self) -> (r: bool)
        ensures
            r == (self.0 % PAGE_SIZE == 0),
    {
        self.0 % PAGE_SIZE == 0
    }
}

impl PhysPageNum {
    /// The raw page-number value.
    pub fn bits(&self) -> (r: u64)
        ensures
            r == self.0,
    {
        self.0
    }

    /// Advances this page number by `v` pages.
    pub fn add(&mut self, v: u64)
        requires
            old(self).0 + v <= u64::MAX,
        ensures
            final(self).0 == old(self).0 + v,
    {
        self.0 = self.0 + v;
    }

    /// The first physical address of this page.
    pub fn get_first_addr(&self) -> (r: PhysAddr)
        requires
            self.0 < PPN_BOUND,
        ensures
            r.0 == self.0 * PAGE_SIZE,
    {
        PhysAddr(self.0 * PAGE_SIZE)
    }
}

} // verus!
