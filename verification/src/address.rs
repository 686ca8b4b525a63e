//! Sv39 address types: physical/virtual addresses and page numbers.
//!
//! Raw integers are masked to the architecture's valid width on entry
//! (56 bits for physical addresses, 39 for virtual, 44/27 for the page
//! numbers). Page-granular rounding (`floor`, `ceil`) and the
//! three-level radix index split (`indexes`) live here.

use vstd::prelude::*;

verus! {

/// One physical page frame is 4096 bytes.
pub const PAGE_SIZE: u64 = 4096;

/// Exclusive upper bound of a physical address: 2^56.
pub const PA_LIMIT: u64 = 0x100_0000_0000_0000;
/// Exclusive upper bound of a virtual address: 2^39.
pub const VA_LIMIT: u64 = 0x80_0000_0000;
/// Exclusive upper bound of a physical page number: 2^44.
pub const PPN_LIMIT: u64 = 0x1000_0000_0000;
/// Exclusive upper bound of a virtual page number: 2^27.
pub const VPN_LIMIT: u64 = 0x800_0000;

/// Page number of the page containing address `a`.
pub open spec fn page_floor(a: nat) -> nat {
    a / (PAGE_SIZE as nat)
}

/// Page number of the first page boundary at or above address `a`.
pub open spec fn page_ceil(a: nat) -> nat {
    ((a + PAGE_SIZE - 1) as nat) / (PAGE_SIZE as nat)
}

#[derive(Copy, Clone, PartialEq, Eq, PartialOrd, Ord, Debug, Structural)]
pub struct PhysAddr(pub u64);

#[derive(Copy, Clone, PartialEq, Eq, PartialOrd, Ord, Debug, Structural)]
pub struct VirtAddr(pub u64);

#[derive(Copy, Clone, PartialEq, Eq, PartialOrd, Ord, Debug, Structural)]
pub struct PhysPageNum(pub u64);

#[derive(Copy, Clone, PartialEq, Eq, PartialOrd, Ord, Debug, Structural)]
pub struct VirtPageNum(pub u64);

/// Rounding down never passes the address, and rounding up never falls
/// more than one page short of it; on a page boundary the two agree.
pub proof fn lemma_page_round_bounds(a: nat)
    ensures
        page_floor(a) * (PAGE_SIZE as nat) <= a,
        a < page_ceil(a) * (PAGE_SIZE as nat) + (PAGE_SIZE as nat),
        a % (PAGE_SIZE as nat) == 0 ==> page_ceil(a) == page_floor(a),
{
    let p = PAGE_SIZE as nat;
    assert(page_floor(a) * p <= a) by (nonlinear_arith)
        requires p == 4096;
    assert(a < page_ceil(a) * p + p) by (nonlinear_arith)
        requires p == 4096;
    if a % p == 0 {
        assert(page_ceil(a) == page_floor(a)) by (nonlinear_arith)
            requires p == 4096, a % p == 0;
    }
}

impl PhysAddr {
    /// Builds a physical address from a raw integer, masking to 56 bits.
    pub fn from_u64(v: u64) -> (r: Self)
        ensures
            r.0 == v % PA_LIMIT,
    {
        PhysAddr(v % PA_LIMIT)
    }

    pub fn as_u64(self) -> (r: u64)
        ensures
            r == self.0,
    {
        self.0
    }

    pub fn floor(&self) -> (r: PhysPageNum)
        ensures
            r.0 == page_floor(self.0 as nat),
    {
        PhysPageNum(self.0 / PAGE_SIZE)
    }

    pub fn ceil(&self) -> (r: PhysPageNum)
        requires
            self.0 <= u64::MAX - (PAGE_SIZE - 1),
        ensures
            r.0 == page_ceil(self.0 as nat),
    {
        if self.0 == 0 {
            PhysPageNum(0)
        } else {
            PhysPageNum((self.0 - 1 + PAGE_SIZE) / PAGE_SIZE)
        }
    }

    pub fn page_offset(&self) -> (r: u64)
        ensures
            r == self.0 % PAGE_SIZE,
    {
        self.0 % PAGE_SIZE
    }

    pub fn aligned(&self) -> (r: bool)
        ensures
            r <==> self.0 % PAGE_SIZE == 0,
    {
        self.page_offset() == 0
    }

    /// The page number of an already page-aligned address.
    pub fn into_ppn(self) -> (r: PhysPageNum)
        requires
            self.0 % PAGE_SIZE == 0,
        ensures
            r.0 == page_floor(self.0 as nat),
    {
        self.floor()
    }
}

impl VirtAddr {
    /// Builds a virtual address from a raw integer, masking to 39 bits.
    pub fn from_u64(v: u64) -> (r: Self)
        ensures
            r.0 == v % VA_LIMIT,
    {
        VirtAddr(v % VA_LIMIT)
    }

    /// Widens back to a raw integer; bit 38 is sign-extended upward, as
    /// Sv39 requires of canonical addresses.
    pub fn as_u64(self) -> (r: u64)
        requires
            self.0 < VA_LIMIT,
        ensures
            self.0 < VA_LIMIT / 2 ==> r == self.0,
            self.0 >= VA_LIMIT / 2 ==> r == self.0 + (u64::MAX - VA_LIMIT + 1),
    {
        if self.0 >= VA_LIMIT / 2 {
            self.0 + (u64::MAX - VA_LIMIT + 1)
        } else {
            self.0
        }
    }

    pub fn floor(&self) -> (r: VirtPageNum)
        ensures
            r.0 == page_floor(self.0 as nat),
    {
        VirtPageNum(self.0 / PAGE_SIZE)
    }

    pub fn ceil(&self) -> (r: VirtPageNum)
        requires
            self.0 <= u64::MAX - (PAGE_SIZE - 1),
        ensures
            r.0 == page_ceil(self.0 as nat),
    {
        if self.0 == 0 {
            VirtPageNum(0)
        } else {
            VirtPageNum((self.0 - 1 + PAGE_SIZE) / PAGE_SIZE)
        }
    }

    pub fn page_offset(&self) -> (r: u64)
        ensures
            r == self.0 % PAGE_SIZE,
    {
        self.0 % PAGE_SIZE
    }

    pub fn aligned(&self) -> (r: bool)
        ensures
            r <==> self.0 % PAGE_SIZE == 0,
    {
        self.page_offset() == 0
    }

    /// The page number of an already page-aligned address.
    pub fn into_vpn(self) -> (r: VirtPageNum)
        requires
            self.0 % PAGE_SIZE == 0,
        ensures
            r.0 == page_floor(self.0 as nat),
    {
        self.floor()
    }
}

impl PhysPageNum {
    pub fn into_pa(self) -> (r: PhysAddr)
        requires
            self.0 < PPN_LIMIT,
        ensures
            r.0 == self.0 * PAGE_SIZE,
    {
        PhysAddr(self.0 * PAGE_SIZE)
    }

    pub fn step(&mut self)
        requires
            old(self).0 < u64::MAX,
        ensures
            final(self).0 == old(self).0 + 1,
    {
        self.0 = self.0 + 1;
    }
}

impl VirtPageNum {
    pub fn into_va(self) -> (r: VirtAddr)
        requires
            self.0 < VPN_LIMIT,
        ensures
            r.0 == self.0 * PAGE_SIZE,
    {
        VirtAddr(self.0 * PAGE_SIZE)
    }

    /// The three 9-bit radix indexes of this page number, most
    /// significant level first.
    pub fn indexes(&self) -> (r: [usize; 3])
        ensures
            r@.len() == 3,
            r@[0] == (self.0 as int / 0x40000) % 512,
            r@[1] == (self.0 as int / 512) % 512,
            r@[2] == self.0 as int % 512,
    {
        let i0 = ((self.0 / 0x40000) % 512) as usize;
        let i1 = ((self.0 / 512) % 512) as usize;
        let i2 = (self.0 % 512) as usize;
        [i0, i1, i2]
    }

    pub fn step(&mut self)
        requires
            old(self).0 < u64::MAX,
        ensures
            final(self).0 == old(self).0 + 1,
    {
        self.0 = self.0 + 1;
    }
}

} // verus!
