//! Bit-level encoding of one Sv39 page table entry: bits 0..8 hold the
//! flag set (V,R,W,X,U,G,A,D from the low end), bits 10..54 the child or
//! leaf physical page number; the rest stay zero.

use vstd::prelude::*;

use crate::address::{PhysPageNum, PPN_LIMIT};

verus! {

/// Entry is valid: the hardware may interpret the remaining bits.
pub const PTE_V: u8 = 0x01;
/// Leaf grants read access.
pub const PTE_R: u8 = 0x02;
/// Leaf grants write access.
pub const PTE_W: u8 = 0x04;
/// Leaf grants execute access.
pub const PTE_X: u8 = 0x08;
/// Leaf is reachable from user mode.
pub const PTE_U: u8 = 0x10;
/// Mapping is global across address spaces.
pub const PTE_G: u8 = 0x20;
/// Hardware has recorded an access through the entry.
pub const PTE_A: u8 = 0x40;
/// Hardware has recorded a write through the entry.
pub const PTE_D: u8 = 0x80;

/// A set of page-table-entry permission/state bits. A valid entry with
/// none of R/W/X set is an intermediate (pointer) node; any of R/W/X
/// marks a leaf.
#[derive(Copy, Clone, PartialEq, Eq, Debug, Structural)]
pub struct PTEFlags {
    pub bits: u8,
}

impl PTEFlags {
    pub fn empty() -> (r: Self)
        ensures
            r.bits == 0,
    {
        PTEFlags { bits: 0 }
    }

    pub fn from_bits(bits: u8) -> (r: Self)
        ensures
            r.bits == bits,
    {
        PTEFlags { bits }
    }

    pub fn union(self, other: Self) -> (r: Self)
        ensures
            r.bits == self.bits | other.bits,
    {
        PTEFlags { bits: self.bits | other.bits }
    }
}

#[derive(Copy, Clone, PartialEq, Eq, Debug, Structural)]
pub struct PageTableEntry {
    pub bits: u64,
}

/// How a physical page number and a flag set pack into one entry.
pub open spec fn pte_bits(ppn: nat, flags: nat) -> nat {
    ppn * 1024 + flags
}

proof fn lemma_pte_unpack(p: nat, f: nat)
    requires
        p < PPN_LIMIT,
        f < 256,
    ensures
        pte_bits(p, f) / 1024 == p,
        pte_bits(p, f) % 256 == f,
        pte_bits(p, f) % 2 == f % 2,
        pte_bits(p, f) < 0x40_0000_0000_0000,
{
    assert((p * 1024 + f) / 1024 == p) by (nonlinear_arith)
        requires
            f < 1024,
    ;
    assert((p * 1024 + f) % 256 == f % 256) by (nonlinear_arith)
        requires
            f < 256,
    ;
    assert((p * 1024 + f) % 2 == f % 2) by (nonlinear_arith);
    assert(p * 1024 + f < 0x40_0000_0000_0000) by (nonlinear_arith)
        requires
            p < 0x1000_0000_0000,
            f < 256,
    ;
}

/// How each decoded field of a packed entry reads back.
pub proof fn lemma_pte_fields(p: nat, f: nat)
    requires
        p < PPN_LIMIT,
        f < 256,
    ensures
        ({
            let e = (PageTableEntry { bits: pte_bits(p, f) as u64 });
            &&& e.spec_ppn() == p
            &&& e.spec_flags() == f
            &&& (e.spec_valid() <==> f % 2 == 1)
            &&& (e.spec_readable() <==> (f / 2) % 2 == 1)
            &&& (e.spec_writable() <==> (f / 4) % 2 == 1)
            &&& (e.spec_executable() <==> (f / 8) % 2 == 1)
        }),
{
    lemma_pte_unpack(p, f);
    let b = pte_bits(p, f);
    assert(b / 1024 == p && b % 256 == f && b % 2 == f % 2 && b < 0x40_0000_0000_0000);
    assert((p * 1024 + f) / 2 % 2 == (f / 2) % 2) by (nonlinear_arith)
        requires
            f < 256,
    ;
    assert((p * 1024 + f) / 4 % 2 == (f / 4) % 2) by (nonlinear_arith)
        requires
            f < 256,
    ;
    assert((p * 1024 + f) / 8 % 2 == (f / 8) % 2) by (nonlinear_arith)
        requires
            f < 256,
    ;
    assert(p % (PPN_LIMIT as nat) == p);
}

impl PageTableEntry {
    /// The flag byte held in the low bits.
    pub open spec fn spec_flags(self) -> u8 {
        (self.bits % 256) as u8
    }

    /// The physical page number held in bits 10..54.
    pub open spec fn spec_ppn(self) -> nat {
        ((self.bits as nat) / 1024) % (PPN_LIMIT as nat)
    }

    pub open spec fn spec_valid(self) -> bool {
        self.bits % 2 == 1
    }

    pub open spec fn spec_readable(self) -> bool {
        (self.bits / 2) % 2 == 1
    }

    pub open spec fn spec_writable(self) -> bool {
        (self.bits / 4) % 2 == 1
    }

    pub open spec fn spec_executable(self) -> bool {
        (self.bits / 8) % 2 == 1
    }

    pub fn new(ppn: PhysPageNum, flags: PTEFlags) -> (r: Self)
        requires
            ppn.0 < PPN_LIMIT,
        ensures
            r.bits == pte_bits(ppn.0 as nat, flags.bits as nat),
            r.spec_ppn() == ppn.0,
            r.spec_flags() == flags.bits,
            r.spec_valid() <==> flags.bits % 2 == 1,
    {
        proof {
            lemma_pte_unpack(ppn.0 as nat, flags.bits as nat);
        }
        PageTableEntry { bits: ppn.0 * 1024 + flags.bits as u64 }
    }

    pub fn empty() -> (r: Self)
        ensures
            r.bits == 0,
            !r.spec_valid(),
    {
        PageTableEntry { bits: 0 }
    }

    pub fn ppn(&self) -> (r: PhysPageNum)
        ensures
            r.0 == self.spec_ppn(),
            r.0 < PPN_LIMIT,
    {
        PhysPageNum((self.bits / 1024) % PPN_LIMIT)
    }

    pub fn flags(&self) -> (r: PTEFlags)
        ensures
            r.bits == self.spec_flags(),
    {
        PTEFlags { bits: (self.bits % 256) as u8 }
    }

    pub fn is_valid(&self) -> (r: bool)
        ensures
            r <==> self.spec_valid(),
    {
        self.bits % 2 == 1
    }

    pub fn readable(&self) -> (r: bool)
        ensures
            r <==> self.spec_readable(),
    {
        (self.bits / 2) % 2 == 1
    }

    pub fn writable(&self) -> (r: bool)
        ensures
            r <==> self.spec_writable(),
    {
        (self.bits / 4) % 2 == 1
    }

    pub fn executable(&self) -> (r: bool)
        ensures
            r <==> self.spec_executable(),
    {
        (self.bits / 8) % 2 == 1
    }
}

} // verus!
