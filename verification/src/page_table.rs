//! Sv39 page table: a three-level radix tree of 512-entry nodes.
//!
//! The table owns every frame it ever allocated for an intermediate
//! node, together with that frame's entry array; intermediate frames
//! are retained for the table's entire lifetime and never individually
//! freed. The abstract meaning of a table is the partial map from
//! virtual page numbers to their valid leaf entries (`interp`).

use vstd::prelude::*;

use crate::address::{page_ceil, PhysPageNum, VirtPageNum, PAGE_SIZE, PPN_LIMIT, VPN_LIMIT};
use crate::pte::{PTEFlags, PageTableEntry, PTE_V};

verus! {

/// Ownership token for one physical page frame. Created only by an
/// allocator; whoever holds it decides when the frame is returned.
#[derive(Debug)]
pub struct FrameTracker {
    pub ppn: PhysPageNum,
}

/// Capability to allocate and reclaim single physical page frames.
///
/// `issued` is the set of page numbers currently out on loan as
/// `FrameTracker`s; `avail` counts how many more allocations must still
/// succeed. A fresh allocation never aliases an outstanding frame.
pub trait AllocPageFrame: Sized {
    spec fn inv(&self) -> bool;

    spec fn issued(&self) -> Set<u64>;

    spec fn avail(&self) -> nat;

    fn page_frame_alloc(&mut self) -> (r: Option<FrameTracker>)
        requires
            old(self).inv(),
        ensures
            final(self).inv(),
            r is Some <==> old(self).avail() > 0,
            r is Some ==> final(self).avail() == old(self).avail() - 1,
            r is None ==> final(self).avail() == old(self).avail()
                && final(self).issued() == old(self).issued(),
            (match r {
                Some(f) => f.ppn.0 < PPN_LIMIT
                    && !old(self).issued().contains(f.ppn.0)
                    && final(self).issued() == old(self).issued().insert(f.ppn.0),
                None => true,
            }),
    ;

    fn page_frame_dealloc(&mut self, frame: FrameTracker)
        requires
            old(self).inv(),
            old(self).issued().contains(frame.ppn.0),
        ensures
            final(self).inv(),
            final(self).issued() == old(self).issued().remove(frame.ppn.0),
            final(self).avail() == old(self).avail() + 1,
    ;
}

/// Level-0 radix index of a virtual page number (most significant).
pub open spec fn idx0(vpn: nat) -> nat {
    (vpn / 0x40000) % 512
}

/// Level-1 radix index of a virtual page number.
pub open spec fn idx1(vpn: nat) -> nat {
    (vpn / 512) % 512
}

/// Level-2 radix index of a virtual page number (least significant).
pub open spec fn idx2(vpn: nat) -> nat {
    vpn % 512
}

/// Frames that mapping the `n` consecutive pages starting at `v` may
/// need for intermediate nodes: at most two for the first page, then
/// one more per 512-page boundary crossed and one per 262144-page
/// boundary crossed.
pub open spec fn span_cost(v: nat, n: nat) -> nat {
    if n == 0 {
        0
    } else {
        (2 + ((v + n - 1) / 512 - v / 512) + ((v + n - 1) / 0x40000 - v / 0x40000)) as nat
    }
}

/// The level-0 stride is the square of the level-1 stride.
proof fn lemma_div_div(q: nat)
    ensures
        q / 0x40000 == (q / 512) / 512,
{
    assert(q / 0x40000 == (q / 512) / 512) by (nonlinear_arith);
}

/// How division by the two radix strides moves across one increment.
proof fn lemma_step_div(q: nat)
    requires
        q >= 1,
    ensures
        q % 512 != 0 ==> q / 512 == (q - 1) as nat / 512,
        q % 512 == 0 ==> q / 512 == (q - 1) as nat / 512 + 1,
        q % 0x40000 != 0 ==> q / 0x40000 == (q - 1) as nat / 0x40000,
        q % 0x40000 == 0 ==> q / 0x40000 == (q - 1) as nat / 0x40000 + 1,
        q % 0x40000 == 0 ==> q % 512 == 0,
        q / 0x40000 == (q / 512) / 512,
{
    assert(q % 512 != 0 ==> q / 512 == (q - 1) as nat / 512) by (nonlinear_arith)
        requires
            q >= 1,
    ;
    assert(q % 512 == 0 ==> q / 512 == (q - 1) as nat / 512 + 1) by (nonlinear_arith)
        requires
            q >= 1,
    ;
    assert(q % 0x40000 != 0 ==> q / 0x40000 == (q - 1) as nat / 0x40000) by (nonlinear_arith)
        requires
            q >= 1,
    ;
    assert(q % 0x40000 == 0 ==> q / 0x40000 == (q - 1) as nat / 0x40000 + 1) by (nonlinear_arith)
        requires
            q >= 1,
    ;
    assert(q % 0x40000 == 0 ==> q % 512 == 0) by (nonlinear_arith);
    assert(q / 0x40000 == (q / 512) / 512) by (nonlinear_arith);
}

/// Two page numbers with the same three radix indexes are the same.
proof fn lemma_vpn_eq(a: nat, b: nat)
    requires
        a < VPN_LIMIT,
        b < VPN_LIMIT,
        idx0(a) == idx0(b),
        idx1(a) == idx1(b),
        idx2(a) == idx2(b),
    ensures
        a == b,
{
    assert(a == ((a / 0x40000) % 512) * 0x40000 + ((a / 512) % 512) * 512 + a % 512)
        by (nonlinear_arith)
        requires
            a < 0x800_0000,
    ;
    assert(b == ((b / 0x40000) % 512) * 0x40000 + ((b / 512) % 512) * 512 + b % 512)
        by (nonlinear_arith)
        requires
            b < 0x800_0000,
    ;
}

/// One node of the radix tree: the owned frame and that frame's 512
/// entries. The level tag (0 at the root, 2 at the leaves) is ghost
/// bookkeeping for the tree-shape invariant.
pub struct PtFrame {
    frame: FrameTracker,
    entries: Vec<PageTableEntry>,
    level: Ghost<nat>,
}

/// One Sv39 address space: the root node plus every intermediate node
/// frame the table ever allocated, and the allocator they came from.
pub struct PageTable<A: AllocPageFrame> {
    allocator: A,
    root_ppn: PhysPageNum,
    frames: Vec<PtFrame>,
}

impl<A: AllocPageFrame> PageTable<A> {
    pub closed spec fn nodes(self) -> Seq<PtFrame> {
        self.frames@
    }

    pub closed spec fn root(self) -> u64 {
        self.root_ppn.0
    }

    /// Allocations the owned frame allocator can still serve.
    pub closed spec fn avail(self) -> nat {
        self.allocator.avail()
    }

    spec fn has_node(self, p: nat) -> bool {
        exists|i: int| 0 <= i < self.nodes().len() && self.nodes()[i].frame.ppn.0 == p
    }

    spec fn node_idx(self, p: nat) -> int {
        choose|i: int| 0 <= i < self.nodes().len() && self.nodes()[i].frame.ppn.0 == p
    }

    spec fn node(self, p: nat) -> PtFrame {
        self.nodes()[self.node_idx(p)]
    }

    /// Entry `k` of node `i`.
    spec fn ent(self, i: int, k: int) -> PageTableEntry {
        self.nodes()[i].entries@[k]
    }

    /// A valid entry in an intermediate-level node: a pointer edge of
    /// the radix tree.
    spec fn is_edge(self, i: int, k: int) -> bool {
        &&& 0 <= i < self.nodes().len()
        &&& 0 <= k < 512
        &&& self.nodes()[i].level@ < 2
        &&& self.ent(i, k).spec_valid()
    }

    spec fn nodes_distinct(self) -> bool {
        forall|i: int, j: int|
            0 <= i < j < self.nodes().len() ==> self.nodes()[i].frame.ppn.0
                != self.nodes()[j].frame.ppn.0
    }

    /// Shape invariant of the radix tree.
    ///
    /// The first node is the root at level 0; every node holds 512
    /// entries and a frame on loan from the owned allocator; page
    /// numbers are distinct; every pointer edge leads to a node one
    /// level further down, carries no permission bits, and no two
    /// edges share a child.
    pub closed spec fn inv(self) -> bool {
        &&& self.allocator.inv()
        &&& self.nodes().len() >= 1
        &&& self.nodes()[0].frame.ppn.0 == self.root()
        &&& self.nodes()[0].level@ == 0
        &&& (forall|i: int|
            0 <= i < self.nodes().len() ==> (#[trigger] self.nodes()[i]).entries@.len() == 512)
        &&& (forall|i: int| 0 <= i < self.nodes().len() ==> (#[trigger] self.nodes()[i]).level@ <= 2)
        &&& (forall|i: int| 1 <= i < self.nodes().len() ==> (#[trigger] self.nodes()[i]).level@ >= 1)
        &&& (forall|i: int|
            0 <= i < self.nodes().len() ==> (#[trigger] self.nodes()[i]).frame.ppn.0 < PPN_LIMIT)
        &&& (forall|i: int|
            0 <= i < self.nodes().len() ==> self.allocator.issued().contains(
                (#[trigger] self.nodes()[i]).frame.ppn.0,
            ))
        &&& self.nodes_distinct()
        &&& (forall|i: int, k: int|
            #[trigger] self.is_edge(i, k) ==> !self.ent(i, k).spec_readable() && !self.ent(
                i,
                k,
            ).spec_writable() && !self.ent(i, k).spec_executable() && self.has_node(
                self.ent(i, k).spec_ppn(),
            ) && self.node(self.ent(i, k).spec_ppn()).level@ == self.nodes()[i].level@ + 1)
        &&& (forall|i1: int, k1: int, i2: int, k2: int|
            #[trigger] self.is_edge(i1, k1) && #[trigger] self.is_edge(i2, k2) && self.ent(
                i1,
                k1,
            ).spec_ppn() == self.ent(i2, k2).spec_ppn() ==> i1 == i2 && k1 == k2)
    }

    /// The walk the hardware would make for `vpn`: follow two pointer
    /// levels, then hand back the level-2 entry whatever its state;
    /// `None` when an intermediate entry was invalid.
    pub closed spec fn walk(self, vpn: nat) -> Option<PageTableEntry> {
        let e0 = self.nodes()[0].entries@[idx0(vpn) as int];
        if !e0.spec_valid() {
            None
        } else {
            let e1 = self.node(e0.spec_ppn()).entries@[idx1(vpn) as int];
            if !e1.spec_valid() {
                None
            } else {
                Some(self.node(e1.spec_ppn()).entries@[idx2(vpn) as int])
            }
        }
    }

    /// `vpn` is mapped: its walk reaches a valid leaf entry.
    pub closed spec fn leaf_at(self, vpn: nat) -> bool {
        vpn < VPN_LIMIT && match self.walk(vpn) {
            Some(e) => e.spec_valid(),
            None => false,
        }
    }

    /// The leaf entry a mapped `vpn` walks to.
    pub closed spec fn walk_entry(self, vpn: nat) -> PageTableEntry {
        match self.walk(vpn) {
            Some(e) => e,
            None => PageTableEntry { bits: 0 },
        }
    }

    /// The meaning of the table: the partial map from virtual page
    /// numbers to their valid leaf entries.
    pub closed spec fn interp(self) -> Map<nat, PageTableEntry> {
        Map::new(|vpn: nat| self.leaf_at(vpn), |vpn: nat| self.walk_entry(vpn))
    }

    /// How many fresh intermediate frames a mapping of `vpn` must
    /// allocate: none when its walk already reaches level 2, one when
    /// only the level-1 step is missing, two when both are.
    pub closed spec fn path_cost(self, vpn: nat) -> nat {
        if self.walk(vpn) is Some {
            0
        } else if self.nodes()[0].entries@[idx0(vpn) as int].spec_valid() {
            1
        } else {
            2
        }
    }

    /// The leaf map contains exactly the mapped pages, each at its
    /// walked entry.
    pub proof fn lemma_interp_dom(self, q: nat)
        ensures
            self.interp().dom().contains(q) == self.leaf_at(q),
            self.leaf_at(q) ==> self.interp()[q] == self.walk_entry(q),
    {
    }

    /// A single mapping never needs more than two fresh frames.
    pub proof fn lemma_path_cost_le_2(self, vpn: nat)
        ensures
            self.path_cost(vpn) <= 2,
    {
    }

    /// `vpn`'s walk crosses two valid pointers and ends in node `j`.
    spec fn path_to(self, vpn: nat, j: int) -> bool {
        let e0 = self.nodes()[0].entries@[idx0(vpn) as int];
        &&& e0.spec_valid()
        &&& {
            let e1 = self.node(e0.spec_ppn()).entries@[idx1(vpn) as int];
            &&& e1.spec_valid()
            &&& 0 <= j < self.nodes().len()
            &&& self.nodes()[j].frame.ppn.0 == e1.spec_ppn()
        }
    }

    /// With distinct page numbers, looking a node up by the page number
    /// found at index `i` gives back index `i`.
    proof fn lemma_node_is(self, i: int)
        requires
            self.nodes_distinct(),
            0 <= i < self.nodes().len(),
        ensures
            self.has_node(self.nodes()[i].frame.ppn.0 as nat),
            self.node_idx(self.nodes()[i].frame.ppn.0 as nat) == i,
            self.node(self.nodes()[i].frame.ppn.0 as nat) == self.nodes()[i],
    {
        let p = self.nodes()[i].frame.ppn.0 as nat;
        assert(self.has_node(p));
        let i2 = self.node_idx(p);
        assert(0 <= i2 < self.nodes().len() && self.nodes()[i2].frame.ppn.0 == p);
        if i2 != i {
            if i2 < i {
                assert(self.nodes()[i2].frame.ppn.0 != self.nodes()[i].frame.ppn.0);
            } else {
                assert(self.nodes()[i].frame.ppn.0 != self.nodes()[i2].frame.ppn.0);
            }
        }
    }

    /// A full path pins the walk down to one entry of node `j`.
    proof fn lemma_walk_from_path(self, vpn: nat, j: int)
        requires
            self.inv(),
            self.path_to(vpn, j),
        ensures
            self.walk(vpn) == Some(self.nodes()[j].entries@[idx2(vpn) as int]),
    {
        let e0 = self.nodes()[0].entries@[idx0(vpn) as int];
        assert(idx0(vpn) < 512) by (nonlinear_arith);
        assert(self.is_edge(0, idx0(vpn) as int));
        let e1 = self.node(e0.spec_ppn()).entries@[idx1(vpn) as int];
        self.lemma_node_is(j);
    }

    pub fn token(&self) -> (r: u64)
        requires
            self.inv(),
        ensures
            r == 0x8000_0000_0000_0000u64 + self.root(),
    {
        let p = self.root_ppn.0;
        proof {
            assert(self.nodes()[0].frame.ppn.0 < PPN_LIMIT);
            assert(0x8000_0000_0000_0000u64 | p == 0x8000_0000_0000_0000u64 + p) by (bit_vector)
                requires
                    p < 0x1000_0000_0000u64,
            ;
        }
        0x8000_0000_0000_0000u64 | p
    }
}

/// A 512-entry array of empty (invalid) entries: the contents of a
/// freshly allocated page-table node.
fn fresh_entries() -> (v: Vec<PageTableEntry>)
    ensures
        v@.len() == 512,
        forall|i: int| 0 <= i < 512 ==> (#[trigger] v@[i]).bits == 0 && !v@[i].spec_valid(),
{
    let mut v: Vec<PageTableEntry> = Vec::new();
    let mut i: usize = 0;
    while i < 512
        invariant
            i <= 512,
            v@.len() == i,
            forall|k: int| 0 <= k < i ==> (#[trigger] v@[k]).bits == 0,
        decreases 512 - i,
    {
        v.push(PageTableEntry::empty());
        i = i + 1;
    }
    v
}

impl<A: AllocPageFrame> PageTable<A> {
    /// Node lookup by page number stays put when nodes keep their page
    /// numbers, whatever happened to their contents.
    proof fn lemma_same_lookup(pre: Self, post: Self, p: nat)
        requires
            pre.nodes_distinct(),
            post.nodes_distinct(),
            pre.has_node(p),
            post.nodes().len() >= pre.nodes().len(),
            forall|i: int|
                0 <= i < pre.nodes().len() ==> (#[trigger] post.nodes()[i]).frame.ppn.0
                    == pre.nodes()[i].frame.ppn.0,
        ensures
            post.has_node(p),
            post.node_idx(p) == pre.node_idx(p),
            0 <= pre.node_idx(p) < pre.nodes().len(),
            pre.nodes()[pre.node_idx(p)].frame.ppn.0 == p,
            post.node(p) == post.nodes()[pre.node_idx(p)],
    {
        let i = pre.node_idx(p);
        assert(0 <= i < pre.nodes().len() && pre.nodes()[i].frame.ppn.0 == p);
        assert(post.nodes()[i].frame.ppn.0 == p);
        assert(post.has_node(p));
        let i2 = post.node_idx(p);
        assert(0 <= i2 < post.nodes().len() && post.nodes()[i2].frame.ppn.0 == p);
        if i2 != i {
            if i2 < i {
                assert(post.nodes()[i2].frame.ppn.0 != post.nodes()[i].frame.ppn.0);
            } else {
                assert(post.nodes()[i].frame.ppn.0 != post.nodes()[i2].frame.ppn.0);
            }
        }
    }

    /// Installing a pointer to a brand-new all-invalid node changes no
    /// walk outcome that matters: the tree shape survives and the leaf
    /// map is untouched.
    proof fn lemma_grow(pre: Self, post: Self, j: int, k: int, c: nat)
        requires
            pre.inv(),
            0 <= j < pre.nodes().len(),
            pre.nodes()[j].level@ < 2,
            0 <= k < 512,
            !pre.nodes()[j].entries@[k].spec_valid(),
            c < PPN_LIMIT,
            forall|i: int|
                0 <= i < pre.nodes().len() ==> (#[trigger] pre.nodes()[i]).frame.ppn.0 != c,
            post.allocator.inv(),
            forall|p: u64|
                pre.allocator.issued().contains(p) ==> post.allocator.issued().contains(p),
            post.allocator.issued().contains(c as u64),
            post.root() == pre.root(),
            post.nodes().len() == pre.nodes().len() + 1,
            forall|i: int|
                0 <= i < pre.nodes().len() && i != j ==> post.nodes()[i] == pre.nodes()[i],
            post.nodes()[j].frame == pre.nodes()[j].frame,
            post.nodes()[j].level@ == pre.nodes()[j].level@,
            post.nodes()[j].entries@.len() == 512,
            forall|k2: int|
                0 <= k2 < 512 && k2 != k ==> #[trigger] post.nodes()[j].entries@[k2]
                    == pre.nodes()[j].entries@[k2],
            post.nodes()[j].entries@[k].spec_valid(),
            !post.nodes()[j].entries@[k].spec_readable(),
            !post.nodes()[j].entries@[k].spec_writable(),
            !post.nodes()[j].entries@[k].spec_executable(),
            post.nodes()[j].entries@[k].spec_ppn() == c,
            post.nodes()[pre.nodes().len() as int].frame.ppn.0 == c,
            post.nodes()[pre.nodes().len() as int].level@ == pre.nodes()[j].level@ + 1,
            post.nodes()[pre.nodes().len() as int].entries@.len() == 512,
            forall|k2: int|
                0 <= k2 < 512 ==> !(#[trigger] post.nodes()[pre.nodes().len() as int].entries@[k2]).spec_valid(),
        ensures
            post.inv(),
            forall|q: nat|
                q < VPN_LIMIT ==> ((post.leaf_at(q) <==> pre.leaf_at(q)) && (pre.leaf_at(q)
                    ==> post.walk_entry(q) == pre.walk_entry(q)) && (pre.walk(q) is Some
                    ==> post.walk(q) == pre.walk(q))),
            post.interp() == pre.interp(),
    {
        let last = pre.nodes().len() as int;
        let lj = pre.nodes()[j].level@;

        // Page numbers are untouched at old indices, so distinctness
        // carries over; the new node's number is fresh.
        assert(forall|i: int|
            0 <= i < pre.nodes().len() ==> (#[trigger] post.nodes()[i]).frame.ppn.0
                == pre.nodes()[i].frame.ppn.0);
        assert(post.nodes_distinct());

        // Shape invariant.
        assert forall|i: int, k2: int| #[trigger] post.is_edge(i, k2) implies {
            &&& !post.ent(i, k2).spec_readable()
            &&& !post.ent(i, k2).spec_writable()
            &&& !post.ent(i, k2).spec_executable()
            &&& post.has_node(post.ent(i, k2).spec_ppn())
            &&& post.node(post.ent(i, k2).spec_ppn()).level@ == post.nodes()[i].level@ + 1
        } by {
            if i == last {
                assert(!post.ent(i, k2).spec_valid());
            } else if i == j && k2 == k {
                post.lemma_node_is(last);
                assert(post.node(c) == post.nodes()[last]);
            } else {
                assert(post.ent(i, k2) == pre.ent(i, k2));
                assert(pre.is_edge(i, k2));
                let ch = pre.ent(i, k2).spec_ppn();
                Self::lemma_same_lookup(pre, post, ch);
                let w = pre.node_idx(ch);
                assert(pre.node(ch) == pre.nodes()[w]);
                assert(post.nodes()[w].level@ == pre.nodes()[w].level@);
            }
        }
        assert forall|i1: int, k1: int, i2: int, k2: int|
            #[trigger] post.is_edge(i1, k1) && #[trigger] post.is_edge(i2, k2) && post.ent(
                i1,
                k1,
            ).spec_ppn() == post.ent(i2, k2).spec_ppn() implies i1 == i2 && k1 == k2 by {
            if i1 == last {
                assert(!post.ent(i1, k1).spec_valid());
            } else if i2 == last {
                assert(!post.ent(i2, k2).spec_valid());
            } else {
                let new1 = i1 == j && k1 == k;
                let new2 = i2 == j && k2 == k;
                if new1 && new2 {
                } else if new1 {
                    assert(post.ent(i2, k2) == pre.ent(i2, k2));
                    assert(pre.is_edge(i2, k2));
                    let ch = pre.ent(i2, k2).spec_ppn();
                    let w = pre.node_idx(ch);
                    assert(0 <= w < pre.nodes().len() && pre.nodes()[w].frame.ppn.0 == ch);
                    assert(ch != c);
                } else if new2 {
                    assert(post.ent(i1, k1) == pre.ent(i1, k1));
                    assert(pre.is_edge(i1, k1));
                    let ch = pre.ent(i1, k1).spec_ppn();
                    let w = pre.node_idx(ch);
                    assert(0 <= w < pre.nodes().len() && pre.nodes()[w].frame.ppn.0 == ch);
                    assert(ch != c);
                } else {
                    assert(post.ent(i1, k1) == pre.ent(i1, k1));
                    assert(post.ent(i2, k2) == pre.ent(i2, k2));
                    assert(pre.is_edge(i1, k1));
                    assert(pre.is_edge(i2, k2));
                }
            }
        }
        assert(post.inv());

        // No walk gains or loses a valid leaf.
        assert forall|q: nat| q < VPN_LIMIT implies ((post.leaf_at(q) <==> pre.leaf_at(q)) && (
        pre.leaf_at(q) ==> post.walk_entry(q) == pre.walk_entry(q)) && (pre.walk(q) is Some
            ==> post.walk(q) == pre.walk(q))) by {
            let a0 = idx0(q) as int;
            let a1 = idx1(q) as int;
            let a2 = idx2(q) as int;
            assert(0 <= a0 < 512 && 0 <= a1 < 512 && 0 <= a2 < 512);
            let e0pre = pre.nodes()[0].entries@[a0];
            let e0post = post.nodes()[0].entries@[a0];
            if j == 0 && a0 == k {
                assert(!e0pre.spec_valid());
                assert(pre.walk(q) is None);
                post.lemma_node_is(last);
                assert(post.node(c) == post.nodes()[last]);
                assert(!post.nodes()[last].entries@[a1].spec_valid());
                assert(post.walk(q) is None);
            } else {
                assert(e0post == e0pre);
                if !e0pre.spec_valid() {
                    assert(pre.walk(q) is None);
                    assert(post.walk(q) is None);
                } else {
                    assert(pre.is_edge(0, a0));
                    let c0 = e0pre.spec_ppn();
                    assert(pre.has_node(c0));
                    Self::lemma_same_lookup(pre, post, c0);
                    let i0n = pre.node_idx(c0);
                    assert(pre.node(c0) == pre.nodes()[i0n]);
                    assert(pre.nodes()[i0n].level@ == 1);
                    if i0n == j && a1 == k {
                        assert(!pre.nodes()[j].entries@[a1].spec_valid());
                        assert(pre.walk(q) is None);
                        let e1post = post.nodes()[j].entries@[a1];
                        assert(e1post.spec_ppn() == c);
                        post.lemma_node_is(last);
                        assert(post.node(c) == post.nodes()[last]);
                        let e2post = post.nodes()[last].entries@[a2];
                        assert(!e2post.spec_valid());
                        assert(post.walk(q) == Some(e2post));
                    } else {
                        let e1pre = pre.nodes()[i0n].entries@[a1];
                        let e1post = post.nodes()[i0n].entries@[a1];
                        assert(e1post == e1pre);
                        if !e1pre.spec_valid() {
                            assert(pre.walk(q) is None);
                            assert(post.walk(q) is None);
                        } else {
                            assert(pre.is_edge(i0n, a1));
                            let c1 = e1pre.spec_ppn();
                            assert(pre.has_node(c1));
                            Self::lemma_same_lookup(pre, post, c1);
                            let i1n = pre.node_idx(c1);
                            assert(pre.node(c1) == pre.nodes()[i1n]);
                            assert(pre.nodes()[i1n].level@ == 2);
                            assert(i1n != j);
                            assert(post.nodes()[i1n] == pre.nodes()[i1n]);
                            assert(pre.walk(q) == Some(pre.nodes()[i1n].entries@[a2]));
                            assert(post.walk(q) == Some(pre.nodes()[i1n].entries@[a2]));
                        }
                    }
                }
            }
        }
        assert(post.interp() =~= pre.interp());
    }

    /// Rewriting one level-2 entry moves exactly one virtual page in
    /// the leaf map and leaves every other walk outcome alone.
    proof fn lemma_set_leaf(pre: Self, post: Self, vpn: nat, j: int, e: PageTableEntry)
        requires
            pre.inv(),
            vpn < VPN_LIMIT,
            pre.path_to(vpn, j),
            pre.nodes()[j].level@ == 2,
            post.allocator == pre.allocator,
            post.root() == pre.root(),
            post.nodes().len() == pre.nodes().len(),
            forall|i: int|
                0 <= i < pre.nodes().len() && i != j ==> post.nodes()[i] == pre.nodes()[i],
            post.nodes()[j].frame == pre.nodes()[j].frame,
            post.nodes()[j].level@ == pre.nodes()[j].level@,
            post.nodes()[j].entries@ == pre.nodes()[j].entries@.update(idx2(vpn) as int, e),
        ensures
            post.inv(),
            post.walk(vpn) == Some(e),
            forall|q: nat|
                q < VPN_LIMIT && q != vpn ==> ((post.leaf_at(q) <==> pre.leaf_at(q)) && (
                pre.leaf_at(q) ==> post.walk_entry(q) == pre.walk_entry(q))),
            forall|q: nat|
                q < VPN_LIMIT ==> ((post.walk(q) is Some) <==> (pre.walk(q) is Some)),
            post.interp() == (if e.spec_valid() {
                pre.interp().insert(vpn, e)
            } else {
                pre.interp().remove(vpn)
            }),
    {
        let kk = idx2(vpn) as int;
        assert(0 <= kk < 512);
        assert(forall|i: int|
            0 <= i < pre.nodes().len() ==> (#[trigger] post.nodes()[i]).frame.ppn.0
                == pre.nodes()[i].frame.ppn.0);
        assert(post.nodes_distinct());
        assert(j != 0);

        // The path taken by `vpn` itself, in `pre`.
        let b0 = idx0(vpn) as int;
        let b1 = idx1(vpn) as int;
        assert(0 <= b0 < 512 && 0 <= b1 < 512);
        let f0 = pre.nodes()[0].entries@[b0];
        assert(f0.spec_valid());
        assert(pre.is_edge(0, b0));
        let d0 = f0.spec_ppn();
        let iv1 = pre.node_idx(d0);
        assert(pre.node(d0) == pre.nodes()[iv1]);
        assert(pre.nodes()[iv1].level@ == 1);
        let f1 = pre.nodes()[iv1].entries@[b1];
        assert(f1.spec_valid());
        assert(pre.is_edge(iv1, b1));
        assert(f1.spec_ppn() == pre.nodes()[j].frame.ppn.0);
        pre.lemma_node_is(j);
        assert(pre.node(f1.spec_ppn()) == pre.nodes()[j]);

        // Shape invariant: only a level-2 node changed, and pointer
        // edges live strictly above level 2.
        assert forall|i: int, k2: int| #[trigger] post.is_edge(i, k2) implies {
            &&& !post.ent(i, k2).spec_readable()
            &&& !post.ent(i, k2).spec_writable()
            &&& !post.ent(i, k2).spec_executable()
            &&& post.has_node(post.ent(i, k2).spec_ppn())
            &&& post.node(post.ent(i, k2).spec_ppn()).level@ == post.nodes()[i].level@ + 1
        } by {
            assert(i != j);
            assert(post.ent(i, k2) == pre.ent(i, k2));
            assert(pre.is_edge(i, k2));
            let ch = pre.ent(i, k2).spec_ppn();
            Self::lemma_same_lookup(pre, post, ch);
            let w = pre.node_idx(ch);
            assert(pre.node(ch) == pre.nodes()[w]);
            assert(post.nodes()[w].level@ == pre.nodes()[w].level@);
        }
        assert forall|i1: int, k1: int, i2: int, k2: int|
            #[trigger] post.is_edge(i1, k1) && #[trigger] post.is_edge(i2, k2) && post.ent(
                i1,
                k1,
            ).spec_ppn() == post.ent(i2, k2).spec_ppn() implies i1 == i2 && k1 == k2 by {
            assert(i1 != j && i2 != j);
            assert(post.ent(i1, k1) == pre.ent(i1, k1));
            assert(post.ent(i2, k2) == pre.ent(i2, k2));
            assert(pre.is_edge(i1, k1));
            assert(pre.is_edge(i2, k2));
        }
        assert(post.inv());

        // The walk of `vpn` now ends at `e`.
        Self::lemma_same_lookup(pre, post, d0);
        assert(post.nodes()[0] == pre.nodes()[0]);
        assert(iv1 != j);
        assert(post.node(d0) == post.nodes()[iv1]);
        assert(post.nodes()[iv1] == pre.nodes()[iv1]);
        Self::lemma_same_lookup(pre, post, f1.spec_ppn());
        assert(post.node(f1.spec_ppn()) == post.nodes()[j]);
        assert(post.nodes()[j].entries@[kk] == e);
        assert(post.walk(vpn) == Some(e));

        // Every other page walks exactly as before.
        pre.lemma_walk_from_path(vpn, j);
        assert(pre.walk(vpn) is Some);
        assert forall|q: nat| q < VPN_LIMIT && q != vpn implies ((post.leaf_at(q) <==> pre.leaf_at(
            q,
        )) && (pre.leaf_at(q) ==> post.walk_entry(q) == pre.walk_entry(q)) && ((post.walk(q)
            is Some) <==> (pre.walk(q) is Some))) by {
            let a0 = idx0(q) as int;
            let a1 = idx1(q) as int;
            let a2 = idx2(q) as int;
            assert(0 <= a0 < 512 && 0 <= a1 < 512 && 0 <= a2 < 512);
            let e0pre = pre.nodes()[0].entries@[a0];
            let e0post = post.nodes()[0].entries@[a0];
            assert(e0post == e0pre);
            if !e0pre.spec_valid() {
                assert(pre.walk(q) is None);
                assert(post.walk(q) is None);
            } else {
                assert(pre.is_edge(0, a0));
                let c0 = e0pre.spec_ppn();
                Self::lemma_same_lookup(pre, post, c0);
                let i0n = pre.node_idx(c0);
                assert(pre.node(c0) == pre.nodes()[i0n]);
                assert(pre.nodes()[i0n].level@ == 1);
                assert(i0n != j);
                assert(post.nodes()[i0n] == pre.nodes()[i0n]);
                let e1pre = pre.nodes()[i0n].entries@[a1];
                if !e1pre.spec_valid() {
                    assert(pre.walk(q) is None);
                    assert(post.walk(q) is None);
                } else {
                    assert(pre.is_edge(i0n, a1));
                    let c1 = e1pre.spec_ppn();
                    Self::lemma_same_lookup(pre, post, c1);
                    let i1n = pre.node_idx(c1);
                    assert(pre.node(c1) == pre.nodes()[i1n]);
                    assert(pre.nodes()[i1n].level@ == 2);
                    if i1n == j && a2 == kk {
                        // Both paths would end in the same slot of the
                        // same node; edge injectivity forces q == vpn.
                        assert(pre.ent(i0n, a1).spec_ppn() == pre.ent(iv1, b1).spec_ppn());
                        assert(i0n == iv1 && a1 == b1);
                        assert(pre.ent(0, a0).spec_ppn() == pre.ent(0, b0).spec_ppn());
                        assert(a0 == b0);
                        lemma_vpn_eq(q, vpn);
                        assert(false);
                    } else {
                        assert(post.nodes()[i1n].entries@[a2] == pre.nodes()[i1n].entries@[a2]);
                        assert(pre.walk(q) == Some(pre.nodes()[i1n].entries@[a2]));
                        assert(post.walk(q) == Some(pre.nodes()[i1n].entries@[a2]));
                    }
                }
            }
        }

        assert forall|q: nat| q < VPN_LIMIT implies ((post.walk(q) is Some) <==> (pre.walk(q)
            is Some)) by {
            if q != vpn {
                assert(post.leaf_at(q) <==> pre.leaf_at(q));
                assert((post.walk(q) is Some) <==> (pre.walk(q) is Some));
            }
        }

        // Fold the pointwise facts into the map-level statement.
        assert(post.leaf_at(vpn) == e.spec_valid());
        if e.spec_valid() {
            assert(post.interp() =~= pre.interp().insert(vpn, e));
        } else {
            assert(post.interp() =~= pre.interp().remove(vpn));
        }
    }

    /// Index of the node owning frame `ppn`.
    fn locate(&self, ppn: PhysPageNum) -> (r: usize)
        requires
            self.inv(),
            self.has_node(ppn.0 as nat),
        ensures
            r < self.nodes().len(),
            self.nodes()[r as int].frame.ppn.0 == ppn.0,
    {
        let n = self.frames.len();
        let mut i: usize = 0;
        while i < n
            invariant
                n == self.nodes().len(),
                i <= n,
                self.has_node(ppn.0 as nat),
                forall|w: int| 0 <= w < i ==> (#[trigger] self.nodes()[w]).frame.ppn.0 != ppn.0,
            decreases n - i,
        {
            if self.frames[i].frame.ppn.0 == ppn.0 {
                return i;
            }
            i = i + 1;
        }
        proof {
            let w = choose|w: int|
                0 <= w < self.nodes().len() && self.nodes()[w].frame.ppn.0 == ppn.0;
            assert(self.nodes()[w].frame.ppn.0 != ppn.0);
        }
        0
    }

    /// Allocates a fresh all-invalid node one level below node `j` and
    /// installs the pointer entry at slot `k`; returns the new node's
    /// index.
    fn grow_child(&mut self, j: usize, k: usize) -> (r: usize)
        requires
            old(self).inv(),
            (j as int) < old(self).nodes().len(),
            old(self).nodes()[j as int].level@ < 2,
            k < 512,
            !old(self).nodes()[j as int].entries@[k as int].spec_valid(),
            old(self).avail() >= 1,
        ensures
            final(self).inv(),
            final(self).root() == old(self).root(),
            final(self).interp() == old(self).interp(),
            final(self).avail() == old(self).avail() - 1,
            forall|q: nat|
                q < VPN_LIMIT && old(self).walk(q) is Some ==> final(self).walk(q) == old(
                    self,
                ).walk(q),
            final(self).nodes().len() == old(self).nodes().len() + 1,
            r == old(self).nodes().len(),
            forall|i: int|
                0 <= i < old(self).nodes().len() && i != j ==> final(self).nodes()[i] == old(self).nodes()[i],
            final(self).nodes()[j as int].frame == old(self).nodes()[j as int].frame,
            final(self).nodes()[j as int].level@ == old(self).nodes()[j as int].level@,
            final(self).nodes()[j as int].entries@.len() == 512,
            forall|k2: int|
                0 <= k2 < 512 && k2 != k ==> #[trigger] final(self).nodes()[j as int].entries@[k2]
                    == old(self).nodes()[j as int].entries@[k2],
            final(self).nodes()[j as int].entries@[k as int].spec_valid(),
            final(self).nodes()[j as int].entries@[k as int].spec_ppn() == final(self).nodes()[r as int].frame.ppn.0,
            final(self).nodes()[r as int].level@ == old(self).nodes()[j as int].level@ + 1,
            final(self).nodes()[r as int].entries@.len() == 512,
            forall|k2: int|
                0 <= k2 < 512 ==> !(#[trigger] final(self).nodes()[r as int].entries@[k2]).spec_valid(),
    {
        let f = self.allocator.page_frame_alloc().unwrap();
        let child = f.ppn;
        proof {
            assert(old(self).allocator.issued().contains(
                old(self).nodes()[j as int].frame.ppn.0,
            ));
            assert(forall|i: int|
                0 <= i < old(self).nodes().len() ==> (#[trigger] old(self).nodes()[i]).frame.ppn.0
                    != child.0);
        }
        let ghost lvl = self.frames@[j as int].level@ + 1;
        let node = PtFrame { frame: f, entries: fresh_entries(), level: Ghost(lvl) };
        let newj = self.frames.len();
        self.frames.push(node);
        let ptr = PageTableEntry::new(child, PTEFlags::from_bits(PTE_V));
        proof {
            crate::pte::lemma_pte_fields(child.0 as nat, 1);
        }
        self.frames[j].entries[k] = ptr;
        proof {
            Self::lemma_grow(*old(self), *self, j as int, k as int, child.0 as nat);
        }
        newj
    }

    /// Walks levels 0 and 1 for `vpn` and returns where its level-2
    /// entry lives, as (node index, entry index). A missing
    /// intermediate entry is created when `may_alloc` allows it and
    /// otherwise ends the walk with `None`. The level-2 entry itself is
    /// handed back whatever its state.
    fn find_pte(&mut self, vpn: VirtPageNum, may_alloc: bool) -> (r: Option<(usize, usize)>)
        requires
            old(self).inv(),
            vpn.0 < VPN_LIMIT,
            may_alloc ==> old(self).avail() >= old(self).path_cost(vpn.0 as nat),
        ensures
            final(self).inv(),
            final(self).root() == old(self).root(),
            final(self).interp() == old(self).interp(),
            final(self).avail() >= old(self).avail() - 2,
            may_alloc ==> final(self).avail() == old(self).avail() - old(self).path_cost(
                vpn.0 as nat,
            ),
            !may_alloc ==> *final(self) == *old(self),
            may_alloc ==> r is Some,
            r is None ==> old(self).walk(vpn.0 as nat) is None,
            forall|q: nat|
                q < VPN_LIMIT && old(self).walk(q) is Some ==> final(self).walk(q) == old(
                    self,
                ).walk(q),
            (match r {
                Some((j, k)) => {
                    &&& (j as int) < final(self).nodes().len()
                    &&& final(self).nodes()[j as int].level@ == 2
                    &&& k == idx2(vpn.0 as nat)
                    &&& k < 512
                    &&& final(self).path_to(vpn.0 as nat, j as int)
                    &&& final(self).walk(vpn.0 as nat) == Some(
                        final(self).nodes()[j as int].entries@[k as int],
                    )
                },
                None => true,
            }),
    {
        let ghost v = vpn.0 as nat;
        let idxs = vpn.indexes();
        let i0 = idxs[0];
        let i1 = idxs[1];
        let i2 = idxs[2];
        proof {
            assert(i0 == idx0(v) && i1 == idx1(v) && i2 == idx2(v));
            assert(i0 < 512 && i1 < 512 && i2 < 512);
        }
        let e0 = self.frames[0].entries[i0];
        let j1: usize = if e0.is_valid() {
            proof {
                assert(self.is_edge(0, i0 as int));
            }
            let j = self.locate(e0.ppn());
            proof {
                self.lemma_node_is(j as int);
                assert(self.node(e0.spec_ppn()) == self.nodes()[j as int]);
            }
            j
        } else {
            if !may_alloc {
                proof {
                    assert(old(self).walk(v) is None);
                }
                return None;
            }
            proof {
                assert(old(self).walk(v) is None);
                assert(old(self).path_cost(v) == 2);
            }
            self.grow_child(0, i0)
        };
        let ghost s1 = *self;
        proof {
            assert(s1.inv());
            assert(s1.nodes()[j1 as int].level@ == 1);
            assert(s1.nodes()[0].entries@[i0 as int].spec_valid());
            assert(s1.nodes()[0].entries@[i0 as int].spec_ppn()
                == s1.nodes()[j1 as int].frame.ppn.0);
            assert(j1 != 0);
        }
        let e1 = self.frames[j1].entries[i1];
        let j2: usize = if e1.is_valid() {
            proof {
                assert(s1.is_edge(j1 as int, i1 as int));
            }
            let j = self.locate(e1.ppn());
            proof {
                self.lemma_node_is(j as int);
                assert(s1.node(e1.spec_ppn()) == s1.nodes()[j as int]);
            }
            j
        } else {
            if !may_alloc {
                proof {
                    s1.lemma_node_is(j1 as int);
                    assert(s1.node(s1.nodes()[0].entries@[i0 as int].spec_ppn())
                        == s1.nodes()[j1 as int]);
                    assert(old(self).walk(v) is None);
                }
                return None;
            }
            proof {
                s1.lemma_node_is(j1 as int);
                assert(s1.node(s1.nodes()[0].entries@[i0 as int].spec_ppn())
                    == s1.nodes()[j1 as int]);
                if e0.spec_valid() {
                    assert(old(self).walk(v) is None);
                    assert(old(self).path_cost(v) == 1);
                } else {
                    assert(old(self).path_cost(v) == 2);
                }
            }
            self.grow_child(j1, i1)
        };
        proof {
            assert(self.nodes()[0] == s1.nodes()[0]);
            assert(self.nodes()[j1 as int].frame == s1.nodes()[j1 as int].frame);
            self.lemma_node_is(j1 as int);
            assert(self.node(self.nodes()[0].entries@[i0 as int].spec_ppn())
                == self.nodes()[j1 as int]);
            assert(self.nodes()[j1 as int].entries@[i1 as int].spec_valid());
            assert(self.nodes()[j1 as int].entries@[i1 as int].spec_ppn()
                == self.nodes()[j2 as int].frame.ppn.0);
            assert(self.path_to(v, j2 as int));
            self.lemma_walk_from_path(v, j2 as int);

            // Frame-cost accounting: one frame went out per level that
            // was missing when we arrived.
            s1.lemma_node_is(j1 as int);
            assert(s1.node(s1.nodes()[0].entries@[i0 as int].spec_ppn())
                == s1.nodes()[j1 as int]);
            if e0.spec_valid() {
                if e1.spec_valid() {
                    assert(old(self).walk(v) is Some);
                    assert(old(self).path_cost(v) == 0);
                } else {
                    assert(old(self).walk(v) is None);
                    assert(old(self).path_cost(v) == 1);
                }
            } else {
                assert(old(self).walk(v) is None);
                assert(old(self).path_cost(v) == 2);
                assert(!e1.spec_valid());
            }

            // Walks that already reached level 2 are untouched.
            assert forall|q: nat| q < VPN_LIMIT && old(self).walk(q) is Some implies self.walk(q)
                == old(self).walk(q) by {
                assert(s1.walk(q) == old(self).walk(q));
            }
        }
        Some((j2, i2))
    }

    /// Writes `e` into the level-2 slot that `vpn` walks to.
    fn set_leaf(&mut self, j: usize, k: usize, e: PageTableEntry, Ghost(vpn): Ghost<nat>)
        requires
            old(self).inv(),
            vpn < VPN_LIMIT,
            (j as int) < old(self).nodes().len(),
            old(self).nodes()[j as int].level@ == 2,
            old(self).path_to(vpn, j as int),
            k == idx2(vpn),
        ensures
            final(self).inv(),
            final(self).root() == old(self).root(),
            final(self).avail() == old(self).avail(),
            final(self).walk(vpn) == Some(e),
            final(self).leaf_at(vpn) == e.spec_valid(),
            forall|q: nat|
                q < VPN_LIMIT ==> ((final(self).walk(q) is Some) <==> (old(self).walk(q)
                    is Some)),
            final(self).interp() == (if e.spec_valid() {
                old(self).interp().insert(vpn, e)
            } else {
                old(self).interp().remove(vpn)
            }),
    {
        proof {
            assert(k < 512);
            assert(old(self).nodes()[j as int].entries@.len() == 512);
        }
        self.frames[j].entries[k] = e;
        proof {
            Self::lemma_set_leaf(*old(self), *self, vpn, j as int, e);
        }
    }

    /// Maps the single page `vpn` to frame `ppn` with `flags | V`.
    /// Mapping an already-valid page is a fatal contract violation,
    /// excluded by precondition.
    pub fn map_one(&mut self, vpn: VirtPageNum, ppn: PhysPageNum, flags: PTEFlags)
        requires
            old(self).inv(),
            vpn.0 < VPN_LIMIT,
            ppn.0 < PPN_LIMIT,
            old(self).avail() >= old(self).path_cost(vpn.0 as nat),
            !old(self).leaf_at(vpn.0 as nat),
        ensures
            final(self).inv(),
            final(self).root() == old(self).root(),
            final(self).avail() == old(self).avail() - old(self).path_cost(vpn.0 as nat),
            final(self).leaf_at(vpn.0 as nat),
            final(self).interp() == old(self).interp().insert(
                vpn.0 as nat,
                (PageTableEntry { bits: ((ppn.0 * 1024 + (flags.bits | PTE_V)) as u64) }),
            ),
            forall|q: nat|
                q < VPN_LIMIT && idx0(q) == idx0(vpn.0 as nat) && idx1(q) == idx1(vpn.0 as nat)
                    ==> final(self).walk(q) is Some,
            forall|q: nat|
                q < VPN_LIMIT && old(self).walk(q) is Some ==> final(self).walk(q) is Some,
    {
        let ghost v = vpn.0 as nat;
        let loc = self.find_pte(vpn, true).unwrap();
        let j = loc.0;
        let k = loc.1;
        proof {
            assert(old(self).interp().dom().contains(v) == old(self).leaf_at(v));
            assert(self.interp().dom().contains(v) == self.leaf_at(v));
            assert(!self.leaf_at(v));
        }
        let ghost m1 = *self;
        let fl = flags.union(PTEFlags::from_bits(PTE_V));
        let e = PageTableEntry::new(ppn, fl);
        self.set_leaf(j, k, e, Ghost(v));
        proof {
            let fb = flags.bits;
            assert(((fb | 1u8) % 2) == 1) by (bit_vector);
            assert(e.spec_valid());
            assert(e.bits == (ppn.0 * 1024 + (fb | 1u8)) as u64);

            // Pages sharing both pointer levels with `vpn` now have a
            // complete (if not necessarily valid) walk.
            assert forall|q: nat|
                q < VPN_LIMIT && idx0(q) == idx0(v) && idx1(q) == idx1(v) implies m1.walk(q)
                is Some by {
                assert(m1.walk(v) is Some);
            }
            assert forall|q: nat|
                q < VPN_LIMIT && old(self).walk(q) is Some implies self.walk(q) is Some by {
                assert(m1.walk(q) == old(self).walk(q));
                assert((self.walk(q) is Some) <==> (m1.walk(q) is Some));
            }
        }
    }

    /// Clears the single page `vpn`. Unmapping an absent or invalid
    /// page is a fatal contract violation, excluded by precondition.
    pub fn unmap_one(&mut self, vpn: VirtPageNum)
        requires
            old(self).inv(),
            vpn.0 < VPN_LIMIT,
            old(self).leaf_at(vpn.0 as nat),
        ensures
            final(self).inv(),
            final(self).root() == old(self).root(),
            final(self).avail() == old(self).avail(),
            !final(self).leaf_at(vpn.0 as nat),
            final(self).interp() == old(self).interp().remove(vpn.0 as nat),
    {
        let ghost v = vpn.0 as nat;
        let r = self.find_pte(vpn, false);
        proof {
            if r is None {
                assert(old(self).walk(v) is None);
                assert(false);
            }
        }
        let loc = r.unwrap();
        self.set_leaf(loc.0, loc.1, PageTableEntry::empty(), Ghost(v));
    }

    /// Reads the level-2 entry `vpn` walks to, without allocating:
    /// `None` when an intermediate level is missing, otherwise the
    /// entry whatever its state.
    pub fn translate(&mut self, vpn: VirtPageNum) -> (r: Option<PageTableEntry>)
        requires
            old(self).inv(),
            vpn.0 < VPN_LIMIT,
        ensures
            *final(self) == *old(self),
            r == old(self).walk(vpn.0 as nat),
    {
        let res = self.find_pte(vpn, false);
        match res {
            Some(loc) => Some(self.frames[loc.0].entries[loc.1]),
            None => None,
        }
    }

    /// Maps `size` bytes, rounded up to whole pages, as consecutive
    /// single-page mappings advancing both page numbers in step.
    pub fn map(&mut self, vpn: VirtPageNum, ppn: PhysPageNum, size: u64, flags: PTEFlags)
        requires
            old(self).inv(),
            size <= u64::MAX - (PAGE_SIZE - 1),
            vpn.0 + page_ceil(size as nat) <= VPN_LIMIT,
            ppn.0 + page_ceil(size as nat) <= PPN_LIMIT,
            old(self).avail() >= span_cost(vpn.0 as nat, page_ceil(size as nat)),
            forall|q: nat| vpn.0 <= q < vpn.0 + page_ceil(size as nat) ==> !old(self).leaf_at(q),
        ensures
            final(self).inv(),
            final(self).root() == old(self).root(),
            final(self).avail() >= old(self).avail() - span_cost(
                vpn.0 as nat,
                page_ceil(size as nat),
            ),
            forall|q: nat|
                vpn.0 <= q < vpn.0 + page_ceil(size as nat) ==> final(self).leaf_at(q) && final(self).walk_entry(q) == (PageTableEntry {
                    bits: (((ppn.0 + q - vpn.0) * 1024 + (flags.bits | PTE_V)) as u64),
                }),
            forall|q: nat|
                q < VPN_LIMIT && !(vpn.0 <= q < vpn.0 + page_ceil(size as nat)) ==> ((final(self).leaf_at(q) <==> old(self).leaf_at(q)) && (old(self).leaf_at(q) ==> final(self).walk_entry(q) == old(self).walk_entry(q))),
    {
        let ghost v0 = vpn.0 as nat;
        let count = (size + (PAGE_SIZE - 1)) / PAGE_SIZE;
        let mut v = vpn;
        let mut p = ppn;
        let mut i: u64 = 0;
        while i < count
            invariant
                self.inv(),
                self.root() == old(self).root(),
                v0 == vpn.0 as nat,
                count == page_ceil(size as nat),
                i <= count,
                v.0 == vpn.0 + i,
                p.0 == ppn.0 + i,
                vpn.0 + count <= VPN_LIMIT,
                ppn.0 + count <= PPN_LIMIT,
                old(self).avail() >= span_cost(v0, count as nat),
                self.avail() >= old(self).avail() - span_cost(v0, i as nat),
                i > 0 ==> forall|q: nat|
                    q < VPN_LIMIT && idx0(q) == idx0((vpn.0 + i - 1) as nat) && idx1(q) == idx1(
                        (vpn.0 + i - 1) as nat,
                    ) ==> self.walk(q) is Some,
                forall|q: nat| vpn.0 <= q < vpn.0 + count ==> !old(self).leaf_at(q),
                forall|q: nat|
                    vpn.0 <= q < vpn.0 + i ==> self.leaf_at(q) && self.walk_entry(q) == (
                    PageTableEntry {
                        bits: (((ppn.0 + q - vpn.0) * 1024 + (flags.bits | PTE_V)) as u64),
                    }),
                forall|q: nat|
                    q < VPN_LIMIT && !(vpn.0 <= q < vpn.0 + i) ==> ((self.leaf_at(q) <==> old(self).leaf_at(q)) && (old(self).leaf_at(q) ==> self.walk_entry(q) == old(self).walk_entry(q))),
            decreases count - i,
        {
            let ghost pre = *self;
            let ghost key = v.0 as nat;
            let ghost val = (PageTableEntry { bits: ((p.0 * 1024 + (flags.bits | PTE_V)) as u64) });
            proof {
                // This page costs no more frames than `span_cost`
                // budgeted for it.
                if i == 0 {
                    self.lemma_path_cost_le_2(key);
                    assert(span_cost(v0, (i + 1) as nat) == 2);
                } else {
                    let prev = (vpn.0 + i - 1) as nat;
                    lemma_step_div(key);
                    lemma_div_div(key);
                    lemma_div_div(prev);
                    if key % 512 != 0 {
                        assert(key / 512 == prev / 512);
                        assert(key / 0x40000 == prev / 0x40000);
                        assert(idx0(key) == idx0(prev) && idx1(key) == idx1(prev));
                        assert(self.walk(key) is Some);
                        assert(self.path_cost(key) == 0);
                        assert(span_cost(v0, (i + 1) as nat) == span_cost(v0, i as nat));
                    } else if key % 0x40000 != 0 {
                        assert(key / 0x40000 == prev / 0x40000);
                        assert(idx0(key) == idx0(prev));
                        assert(self.walk(prev) is Some);
                        assert(self.nodes()[0].entries@[idx0(key) as int].spec_valid());
                        assert(self.path_cost(key) <= 1);
                        assert(span_cost(v0, (i + 1) as nat) == span_cost(v0, i as nat) + 1);
                    } else {
                        self.lemma_path_cost_le_2(key);
                        assert(span_cost(v0, (i + 1) as nat) == span_cost(v0, i as nat) + 2);
                    }
                }
                assert((v0 + i) / 512 <= (v0 + count - 1) / 512 && (v0 + i) / 0x40000 <= (v0
                    + count - 1) / 0x40000) by (nonlinear_arith)
                    requires
                        i < count,
                ;
                assert(span_cost(v0, (i + 1) as nat) <= span_cost(v0, count as nat));
                assert(self.avail() >= self.path_cost(key));
            }
            self.map_one(v, p, flags);
            proof {
                assert(self.interp() == pre.interp().insert(key, val));
                assert forall|q: nat|
                    vpn.0 <= q < vpn.0 + (i + 1) implies self.leaf_at(q) && self.walk_entry(q) == (
                PageTableEntry {
                    bits: (((ppn.0 + q - vpn.0) * 1024 + (flags.bits | PTE_V)) as u64),
                }) by {
                    assert(self.interp().dom().contains(q) == self.leaf_at(q));
                    if q == key {
                        assert(self.interp()[q] == val);
                        assert(self.walk_entry(q) == val);
                    } else {
                        assert(pre.interp().dom().contains(q) == pre.leaf_at(q));
                        assert(self.interp()[q] == pre.interp()[q]);
                        assert(self.walk_entry(q) == pre.walk_entry(q));
                    }
                }
                assert forall|q: nat|
                    q < VPN_LIMIT && !(vpn.0 <= q < vpn.0 + (i + 1)) implies ((self.leaf_at(q)
                        <==> old(self).leaf_at(q)) && (old(self).leaf_at(q) ==> self.walk_entry(q)
                        == old(self).walk_entry(q))) by {
                    assert(self.interp().dom().contains(q) == self.leaf_at(q));
                    assert(pre.interp().dom().contains(q) == pre.leaf_at(q));
                    if pre.leaf_at(q) {
                        assert(self.interp()[q] == pre.interp()[q]);
                        assert(self.walk_entry(q) == pre.walk_entry(q));
                    }
                }
            }
            v.step();
            p.step();
            i = i + 1;
        }
    }

    /// Unmaps `size` bytes, rounded up to whole pages, as consecutive
    /// single-page unmappings.
    pub fn unmap(&mut self, vpn: VirtPageNum, size: u64)
        requires
            old(self).inv(),
            size <= u64::MAX - (PAGE_SIZE - 1),
            vpn.0 + page_ceil(size as nat) <= VPN_LIMIT,
            forall|q: nat| vpn.0 <= q < vpn.0 + page_ceil(size as nat) ==> old(self).leaf_at(q),
        ensures
            final(self).inv(),
            final(self).root() == old(self).root(),
            final(self).avail() == old(self).avail(),
            forall|q: nat| vpn.0 <= q < vpn.0 + page_ceil(size as nat) ==> !final(self).leaf_at(q),
            forall|q: nat|
                q < VPN_LIMIT && !(vpn.0 <= q < vpn.0 + page_ceil(size as nat)) ==> ((final(self).leaf_at(q) <==> old(self).leaf_at(q)) && (old(self).leaf_at(q) ==> final(self).walk_entry(q) == old(self).walk_entry(q))),
    {
        let count = (size + (PAGE_SIZE - 1)) / PAGE_SIZE;
        let mut v = vpn;
        let mut i: u64 = 0;
        while i < count
            invariant
                self.inv(),
                self.root() == old(self).root(),
                count == page_ceil(size as nat),
                i <= count,
                v.0 == vpn.0 + i,
                vpn.0 + count <= VPN_LIMIT,
                self.avail() == old(self).avail(),
                forall|q: nat| vpn.0 <= q < vpn.0 + count ==> old(self).leaf_at(q),
                forall|q: nat| vpn.0 <= q < vpn.0 + i ==> !self.leaf_at(q),
                forall|q: nat|
                    q < VPN_LIMIT && !(vpn.0 <= q < vpn.0 + i) ==> ((self.leaf_at(q) <==> old(self).leaf_at(q)) && (old(self).leaf_at(q) ==> self.walk_entry(q) == old(self).walk_entry(q))),
            decreases count - i,
        {
            let ghost pre = *self;
            let ghost key = v.0 as nat;
            self.unmap_one(v);
            proof {
                assert(self.interp() == pre.interp().remove(key));
                assert forall|q: nat| vpn.0 <= q < vpn.0 + (i + 1) implies !self.leaf_at(q) by {
                    assert(self.interp().dom().contains(q) == self.leaf_at(q));
                    if q != key {
                        assert(pre.interp().dom().contains(q) == pre.leaf_at(q));
                    }
                }
                assert forall|q: nat|
                    q < VPN_LIMIT && !(vpn.0 <= q < vpn.0 + (i + 1)) implies ((self.leaf_at(q)
                        <==> old(self).leaf_at(q)) && (old(self).leaf_at(q) ==> self.walk_entry(q)
                        == old(self).walk_entry(q))) by {
                    assert(self.interp().dom().contains(q) == self.leaf_at(q));
                    assert(pre.interp().dom().contains(q) == pre.leaf_at(q));
                    if pre.leaf_at(q) {
                        assert(self.interp()[q] == pre.interp()[q]);
                        assert(self.walk_entry(q) == pre.walk_entry(q));
                    }
                }
            }
            v.step();
            i = i + 1;
        }
    }
}

impl<A: AllocPageFrame> PageTable<A> {
    /// Builds an empty address space: allocates the root frame and
    /// nothing else.
    pub fn new(allocator: A) -> (r: Self)
        requires
            allocator.inv(),
            allocator.avail() > 0,
        ensures
            r.inv(),
            r.interp() == Map::<nat, PageTableEntry>::empty(),
            r.avail() == allocator.avail() - 1,
    {
        let mut a = allocator;
        let f = a.page_frame_alloc().unwrap();
        let rppn = f.ppn;
        let node = PtFrame { frame: f, entries: fresh_entries(), level: Ghost(0) };
        let mut frames: Vec<PtFrame> = Vec::new();
        frames.push(node);
        let r = PageTable { allocator: a, root_ppn: rppn, frames };
        proof {
            assert forall|vpn: nat| !r.leaf_at(vpn) by {
                assert(idx0(vpn) < 512) by (nonlinear_arith);
                assert(r.nodes()[0].entries@[idx0(vpn) as int].bits == 0);
            }
            assert(r.interp() =~= Map::<nat, PageTableEntry>::empty());
        }
        r
    }
}

} // verus!
