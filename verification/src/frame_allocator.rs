//! Physical frame allocator: a bump cursor over a contiguous range of
//! page numbers plus a LIFO recycle list.
//!
//! `alloc_frame` reuses recycled frames before advancing the cursor;
//! `alloc_more` reserves a run of frames all-or-nothing from the cursor
//! alone. Returning a frame at or past the cursor, or one already in
//! the recycle list, is a double free or out-of-range free — a contract
//! violation, excluded here by precondition.

use vstd::prelude::*;

use crate::address::{PhysAddr, PhysPageNum, PPN_LIMIT};
use crate::config::MEMORY_END;
use crate::page_table::{AllocPageFrame, FrameTracker};

verus! {

pub struct StackFrameAllocator {
    current: u64,
    end: u64,
    recycled: Vec<u64>,
    /// Left edge of the range given at initialization; frames below it
    /// were never this allocator's to give.
    base: Ghost<u64>,
}

impl StackFrameAllocator {
    /// Bump cursor: the next frame taken when the recycle list is empty.
    pub closed spec fn cur(&self) -> nat {
        self.current as nat
    }

    /// Exclusive right edge of the frame range.
    pub closed spec fn cap_end(&self) -> nat {
        self.end as nat
    }

    /// The recycle list, last-freed frame last.
    pub closed spec fn pool(&self) -> Seq<u64> {
        self.recycled@
    }

    /// Left edge of the frame range.
    pub closed spec fn low(&self) -> nat {
        self.base@ as nat
    }

    pub closed spec fn wf(&self) -> bool {
        &&& self.low() <= self.cur() <= self.cap_end()
        &&& self.cap_end() <= PPN_LIMIT
        &&& (forall|i: int|
            0 <= i < self.pool().len() ==> self.low() <= #[trigger] self.pool()[i] < self.cur())
        &&& (forall|i: int, j: int|
            0 <= i < j < self.pool().len() ==> #[trigger] self.pool()[i] != #[trigger] self.pool()[j])
    }

    /// How many allocations must still succeed.
    pub open spec fn avail(&self) -> nat {
        if self.cur() <= self.cap_end() {
            ((self.cap_end() - self.cur()) as nat + self.pool().len()) as nat
        } else {
            self.pool().len()
        }
    }

    /// The frames currently out on loan: inside the configured range,
    /// below the cursor, and not waiting in the recycle list.
    pub open spec fn issued(&self) -> Set<u64> {
        Set::new(|p: u64| self.low() <= p < self.cur() && !self.pool().contains(p))
    }

    pub fn new() -> (r: Self)
        ensures
            r.wf(),
            r.avail() == 0,
            r.pool().len() == 0,
            r.issued() == Set::<u64>::empty(),
    {
        let r = StackFrameAllocator { current: 0, end: 0, recycled: Vec::new(), base: Ghost(0) };
        proof {
            assert(r.issued() =~= Set::<u64>::empty());
        }
        r
    }

    /// Hands the allocator the frame range [l, r).
    pub fn init(&mut self, l: PhysPageNum, r: PhysPageNum)
        requires
            old(self).pool().len() == 0,
            l.0 <= r.0 <= PPN_LIMIT,
        ensures
            final(self).wf(),
            final(self).low() == l.0,
            final(self).cur() == l.0,
            final(self).cap_end() == r.0,
            final(self).pool().len() == 0,
            final(self).avail() == r.0 - l.0,
            final(self).issued() == Set::<u64>::empty(),
    {
        self.current = l.0;
        self.end = r.0;
        proof {
            self.base@ = l.0;
            assert(self.issued() =~= Set::<u64>::empty());
        }
    }

    pub fn alloc_frame(&mut self) -> (r: Option<PhysPageNum>)
        requires
            old(self).wf(),
        ensures
            final(self).wf(),
            final(self).low() == old(self).low(),
            final(self).cap_end() == old(self).cap_end(),
            r is Some <==> old(self).avail() > 0,
            old(self).pool().len() > 0 ==> r == Some(PhysPageNum(old(self).pool().last()))
                && final(self).pool() == old(self).pool().drop_last()
                && final(self).cur() == old(self).cur(),
            old(self).pool().len() == 0 && old(self).cur() < old(self).cap_end() ==> (match r {
                Some(p) => p.0 == old(self).cur(),
                None => false,
            }) && final(self).pool() == old(self).pool() && final(self).cur() == old(self).cur()
                + 1,
            old(self).pool().len() == 0 && old(self).cur() == old(self).cap_end() ==> r is None
                && final(self).pool() == old(self).pool() && final(self).cur() == old(self).cur(),
            (match r {
                Some(p) => p.0 < PPN_LIMIT,
                None => true,
            }),
    {
        if let Some(ppn) = self.recycled.pop() {
            Some(PhysPageNum(ppn))
        } else if self.current == self.end {
            None
        } else {
            self.current = self.current + 1;
            Some(PhysPageNum(self.current - 1))
        }
    }

    /// Reserves `pages` consecutive frames all-or-nothing by advancing
    /// the bump cursor; the recycle list is not consulted. The frames
    /// come back highest page number first.
    pub fn alloc_more(&mut self, pages: u64) -> (r: Option<Vec<PhysPageNum>>)
        requires
            old(self).wf(),
            old(self).cur() + pages <= u64::MAX,
        ensures
            final(self).wf(),
            final(self).low() == old(self).low(),
            final(self).cap_end() == old(self).cap_end(),
            final(self).pool() == old(self).pool(),
            r is Some <==> old(self).cur() + pages < old(self).cap_end(),
            (match r {
                Some(v) => final(self).cur() == old(self).cur() + pages && v@.len() == pages
                    && (forall|i: int|
                    0 <= i < pages ==> (#[trigger] v@[i]).0 == old(self).cur() + pages - 1 - i),
                None => *final(self) == *old(self),
            }),
    {
        if self.current + pages >= self.end {
            None
        } else {
            self.current = self.current + pages;
            let mut v: Vec<PhysPageNum> = Vec::new();
            let mut i: u64 = 0;
            while i < pages
                invariant
                    i <= pages,
                    pages <= self.current,
                    v@.len() == i,
                    forall|k: int|
                        0 <= k < i ==> (#[trigger] v@[k]).0 == self.current - 1 - k,
                decreases pages - i,
            {
                v.push(PhysPageNum(self.current - 1 - i));
                i = i + 1;
            }
            proof {
                assert(forall|k: int|
                    0 <= k < self.pool().len() ==> self.low() <= #[trigger] self.pool()[k]
                        < self.cur()) by {
                    assert(forall|k: int|
                        0 <= k < old(self).pool().len() ==> old(self).low()
                            <= #[trigger] old(self).pool()[k] < old(self).cur());
                }
            }
            Some(v)
        }
    }

    /// True when `ppn` would pass `dealloc`'s validity check: below the
    /// bump cursor and not already recycled.
    pub fn can_dealloc(&self, ppn: PhysPageNum) -> (r: bool)
        ensures
            r <==> ppn.0 < self.cur() && !self.pool().contains(ppn.0),
    {
        if ppn.0 >= self.current {
            return false;
        }
        let mut i: usize = 0;
        while i < self.recycled.len()
            invariant
                i <= self.recycled@.len(),
                forall|k: int| 0 <= k < i ==> self.recycled@[k] != ppn.0,
            decreases self.recycled@.len() - i,
        {
            if self.recycled[i] == ppn.0 {
                return false;
            }
            i = i + 1;
        }
        true
    }

    /// Pushes the frame onto the recycle list. Freeing a frame that was
    /// never issued is a fatal contract violation, so the precondition
    /// demands an issued frame.
    pub fn dealloc(&mut self, ppn: PhysPageNum)
        requires
            old(self).wf(),
            old(self).issued().contains(ppn.0),
        ensures
            final(self).wf(),
            final(self).low() == old(self).low(),
            final(self).cur() == old(self).cur(),
            final(self).cap_end() == old(self).cap_end(),
            final(self).pool() == old(self).pool().push(ppn.0),
            final(self).avail() == old(self).avail() + 1,
            final(self).issued() == old(self).issued().remove(ppn.0),
    {
        self.recycled.push(ppn.0);
        proof {
            let p0 = old(self).pool();
            let p1 = self.pool();
            assert forall|q: u64| p1.contains(q) implies (p0.contains(q) || q == ppn.0) by {
                let i = choose|i: int| 0 <= i < p1.len() && p1[i] == q;
                if i < p0.len() {
                    assert(p0[i] == q);
                }
            }
            assert forall|q: u64| p0.contains(q) implies p1.contains(q) by {
                let i = choose|i: int| 0 <= i < p0.len() && p0[i] == q;
                assert(p1[i] == q);
            }
            assert(p1[p0.len() as int] == ppn.0);
            assert(p1.contains(ppn.0));
            assert(self.issued() =~= old(self).issued().remove(ppn.0));
        }
    }
}

/// Builds the boot frame allocator over the physical memory left above
/// the kernel image, [ceil(kernel_end), floor(MEMORY_END)).
pub fn init_frame_allocator(kernel_end: PhysAddr) -> (r: StackFrameAllocator)
    requires
        kernel_end.0 <= MEMORY_END,
    ensures
        r.wf(),
        r.pool().len() == 0,
        r.low() == crate::address::page_ceil(kernel_end.0 as nat),
        r.cur() == r.low(),
        r.cap_end() == crate::address::page_floor(MEMORY_END as nat),
        r.issued() == Set::<u64>::empty(),
{
    let mut a = StackFrameAllocator::new();
    let l = kernel_end.ceil();
    let r = PhysAddr::from_u64(MEMORY_END).floor();
    proof {
        assert(l.0 <= r.0) by (nonlinear_arith)
            requires
                l.0 == (kernel_end.0 + 4096 - 1) as nat / 4096,
                r.0 == (MEMORY_END as nat) / 4096,
                kernel_end.0 <= MEMORY_END,
                MEMORY_END == 0x8800_0000,
        ;
    }
    a.init(l, r);
    a
}

/// The frame-allocation capability handed to page tables, backed by the
/// kernel's one `StackFrameAllocator`.
pub struct PageAllocator {
    inner: StackFrameAllocator,
}

impl PageAllocator {
    pub fn new(inner: StackFrameAllocator) -> (r: Self)
        ensures
            r.inv() == inner.wf(),
            r.issued() == inner.issued(),
            r.avail() == inner.avail(),
    {
        PageAllocator { inner }
    }
}

impl AllocPageFrame for PageAllocator {
    closed spec fn inv(&self) -> bool {
        self.inner.wf()
    }

    closed spec fn issued(&self) -> Set<u64> {
        self.inner.issued()
    }

    closed spec fn avail(&self) -> nat {
        self.inner.avail()
    }

    fn page_frame_alloc(&mut self) -> (r: Option<FrameTracker>) {
        let ghost pre = self.inner;
        let got = self.inner.alloc_frame();
        match got {
            Some(ppn) => {
                proof {
                    lemma_alloc_issued(pre, self.inner, ppn);
                }
                Some(FrameTracker { ppn })
            },
            None => None,
        }
    }

    fn page_frame_dealloc(&mut self, frame: FrameTracker) {
        let ghost pre = self.inner;
        proof {
            assert(frame.ppn.0 < pre.cur());
        }
        self.inner.dealloc(frame.ppn);
    }
}

/// What one successful `alloc` does to the issued set: the returned
/// frame was not on loan before and is exactly the one added.
proof fn lemma_alloc_issued(pre: StackFrameAllocator, post: StackFrameAllocator, p: PhysPageNum)
    requires
        pre.wf(),
        post.wf(),
        pre.avail() > 0,
        post.low() == pre.low(),
        post.cap_end() == pre.cap_end(),
        pre.pool().len() > 0 ==> p == PhysPageNum(pre.pool().last()) && post.pool()
            == pre.pool().drop_last() && post.cur() == pre.cur(),
        pre.pool().len() == 0 ==> pre.cur() < pre.cap_end() && p.0 == pre.cur() && post.pool()
            == pre.pool() && post.cur() == pre.cur() + 1,
    ensures
        !pre.issued().contains(p.0),
        post.issued() == pre.issued().insert(p.0),
        post.avail() == pre.avail() - 1,
{
    if pre.pool().len() > 0 {
        assert(pre.pool().contains(p.0));
        assert(!pre.issued().contains(p.0));
        assert forall|q: u64| post.issued().contains(q) implies pre.issued().insert(
            p.0,
        ).contains(q) by {
            if q != p.0 {
                if pre.pool().contains(q) {
                    let i = choose|i: int| 0 <= i < pre.pool().len() && pre.pool()[i] == q;
                    assert(i < pre.pool().len() - 1);
                    assert(post.pool()[i] == q);
                }
            }
        }
        assert forall|q: u64| pre.issued().insert(p.0).contains(q) implies post.issued().contains(
            q,
        ) by {
            if q == p.0 {
                assert(pre.low() <= p.0 < pre.cur());
                if post.pool().contains(p.0) {
                    let i = choose|i: int| 0 <= i < post.pool().len() && post.pool()[i] == p.0;
                    assert(pre.pool()[i] == p.0);
                    assert(pre.pool()[pre.pool().len() - 1] == p.0);
                }
            } else {
                if post.pool().contains(q) {
                    let i = choose|i: int| 0 <= i < post.pool().len() && post.pool()[i] == q;
                    assert(pre.pool()[i] == q);
                }
            }
        }
        assert(post.issued() =~= pre.issued().insert(p.0));
    } else {
        assert(!pre.pool().contains(p.0));
        assert(!pre.issued().contains(p.0));
        assert forall|q: u64| pre.issued().insert(p.0).contains(q) implies post.issued().contains(
            q,
        ) by {}
        assert(post.issued() =~= pre.issued().insert(p.0));
    }
}

} // verus!
