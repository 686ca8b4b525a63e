//! Kernel address space builder: identity-maps the five kernel regions
//! (text, rodata, data, bss with the boot stack, and the remaining
//! physical memory used as heap and frame pool) with region-appropriate
//! permissions. The table is built once at boot; activation (writing
//! the translation-control register and fencing) is the shell's job on
//! every core.

use vstd::prelude::*;

use crate::address::{page_ceil, page_floor, PhysAddr, VirtAddr, PAGE_SIZE, VA_LIMIT, VPN_LIMIT};
use crate::config::MEMORY_END;
use crate::page_table::{span_cost, AllocPageFrame, PageTable};
use crate::pte::{PTEFlags, PageTableEntry, PTE_R, PTE_V, PTE_W, PTE_X};

verus! {

/// Linker-provided boundaries of the kernel image, in ascending order.
/// Region starts (and the image end) are page-aligned by the linker
/// script.
pub struct KernelLayout {
    pub stext: u64,
    pub etext: u64,
    pub srodata: u64,
    pub erodata: u64,
    pub sdata: u64,
    pub edata: u64,
    pub sbss_with_stack: u64,
    pub ebss: u64,
    pub ekernel: u64,
}

impl KernelLayout {
    pub open spec fn wf(self) -> bool {
        &&& self.stext % PAGE_SIZE == 0
        &&& self.srodata % PAGE_SIZE == 0
        &&& self.sdata % PAGE_SIZE == 0
        &&& self.sbss_with_stack % PAGE_SIZE == 0
        &&& self.ekernel % PAGE_SIZE == 0
        &&& self.stext <= self.etext
        &&& self.etext <= self.srodata
        &&& self.srodata <= self.erodata
        &&& self.erodata <= self.sdata
        &&& self.sdata <= self.edata
        &&& self.edata <= self.sbss_with_stack
        &&& self.sbss_with_stack <= self.ebss
        &&& self.ebss <= self.ekernel
        &&& self.ekernel <= MEMORY_END
    }
}

/// Pages [floor(start), ceil(end)) are identity-mapped with `fl | V`.
pub open spec fn region_mapped<A: AllocPageFrame>(
    pt: PageTable<A>,
    start: u64,
    end: u64,
    fl: u8,
) -> bool {
    forall|q: nat|
        page_floor(start as nat) <= q < page_ceil(end as nat) ==> pt.leaf_at(q) && pt.walk_entry(q)
            == (PageTableEntry { bits: ((q * 1024 + (fl | PTE_V)) as u64) })
}

/// `q` lies in one of the five mapped kernel regions.
pub open spec fn kernel_page(l: KernelLayout, q: nat) -> bool {
    ||| page_floor(l.stext as nat) <= q < page_ceil(l.etext as nat)
    ||| page_floor(l.srodata as nat) <= q < page_ceil(l.erodata as nat)
    ||| page_floor(l.sdata as nat) <= q < page_ceil(l.edata as nat)
    ||| page_floor(l.sbss_with_stack as nat) <= q < page_ceil(l.ebss as nat)
    ||| page_floor(l.ekernel as nat) <= q < page_ceil(MEMORY_END as nat)
}

/// Frames the builder may consume: one root plus each region's
/// intermediate-node budget.
pub open spec fn kvm_frames_needed(l: KernelLayout) -> nat {
    1 + span_cost(page_floor(l.stext as nat), page_ceil((l.etext - l.stext) as nat)) + span_cost(
        page_floor(l.srodata as nat),
        page_ceil((l.erodata - l.srodata) as nat),
    ) + span_cost(page_floor(l.sdata as nat), page_ceil((l.edata - l.sdata) as nat)) + span_cost(
        page_floor(l.sbss_with_stack as nat),
        page_ceil((l.ebss - l.sbss_with_stack) as nat),
    ) + span_cost(page_floor(l.ekernel as nat), page_ceil((MEMORY_END - l.ekernel) as nat))
}

/// A region with an aligned start occupies exactly the pages
/// [floor(start), ceil(end)).
proof fn lemma_aligned_pages(s: nat, e: nat)
    requires
        s % 4096 == 0,
        s <= e,
    ensures
        page_floor(s) + page_ceil((e - s) as nat) == page_ceil(e),
        page_floor(s) <= page_ceil(e),
{
    assert(s / 4096 + (((e - s) + 4095) as nat) / 4096 == (e + 4095) / 4096) by (nonlinear_arith)
        requires
            s % 4096 == 0,
            s <= e,
    ;
}

/// Page rounding respects region order when the right edge is aligned.
proof fn lemma_pages_order(e: nat, s2: nat)
    requires
        e <= s2,
        s2 % 4096 == 0,
    ensures
        page_ceil(e) <= page_floor(s2),
{
    assert((e + 4095) / 4096 <= s2 / 4096) by (nonlinear_arith)
        requires
            e <= s2,
            s2 % 4096 == 0,
    ;
}

/// Identity-maps one kernel region: virtual page q goes to physical
/// frame q with flags `fl | V`, for every page of [start, end).
fn map_identity_region<A: AllocPageFrame>(
    page_table: &mut PageTable<A>,
    start: u64,
    end: u64,
    fl: PTEFlags,
)
    requires
        old(page_table).inv(),
        start % PAGE_SIZE == 0,
        start <= end <= MEMORY_END,
        old(page_table).avail() >= span_cost(
            page_floor(start as nat),
            page_ceil((end - start) as nat),
        ),
        forall|q: nat|
            page_floor(start as nat) <= q < page_ceil(end as nat) ==> !old(page_table).leaf_at(q),
    ensures
        final(page_table).inv(),
        final(page_table).root() == old(page_table).root(),
        final(page_table).avail() >= old(page_table).avail() - span_cost(
            page_floor(start as nat),
            page_ceil((end - start) as nat),
        ),
        region_mapped(*final(page_table), start, end, fl.bits),
        forall|q: nat|
            q < VPN_LIMIT && !(page_floor(start as nat) <= q < page_ceil(end as nat)) ==> ((final(page_table).leaf_at(q) <==> old(page_table).leaf_at(q)) && (old(page_table).leaf_at(q) ==> final(page_table).walk_entry(q) == old(page_table).walk_entry(q))),
{
    proof {
        lemma_aligned_pages(start as nat, end as nat);
        lemma_pages_order(end as nat, MEMORY_END as nat);
        assert(MEMORY_END / 4096 < VPN_LIMIT);
        assert(start % VA_LIMIT == start && start % crate::address::PA_LIMIT == start)
            by (nonlinear_arith)
            requires
                start <= 0x8800_0000u64,
        ;
    }
    let va = VirtAddr::from_u64(start);
    let pa = PhysAddr::from_u64(start);
    page_table.map(va.into_vpn(), pa.into_ppn(), end - start, fl);
}

/// Builds the kernel page table: one bulk identity map per region,
/// text executable+readable, rodata read-only, data and bss
/// read+write, and the tail of physical memory read+write.
#[verifier::rlimit(100)]
pub fn kvminit<A: AllocPageFrame>(allocator: A, layout: &KernelLayout) -> (r: PageTable<A>)
    requires
        allocator.inv(),
        layout.wf(),
        allocator.avail() >= kvm_frames_needed(*layout),
    ensures
        r.inv(),
        region_mapped(r, layout.stext, layout.etext, PTE_X | PTE_R),
        region_mapped(r, layout.srodata, layout.erodata, PTE_R),
        region_mapped(r, layout.sdata, layout.edata, PTE_R | PTE_W),
        region_mapped(r, layout.sbss_with_stack, layout.ebss, PTE_R | PTE_W),
        region_mapped(r, layout.ekernel, MEMORY_END, PTE_R | PTE_W),
        forall|q: nat| q < VPN_LIMIT && !kernel_page(*layout, q) ==> !r.leaf_at(q),
{
    proof {
        lemma_aligned_pages(layout.stext as nat, layout.etext as nat);
        lemma_pages_order(layout.etext as nat, layout.srodata as nat);
        lemma_aligned_pages(layout.srodata as nat, layout.erodata as nat);
        lemma_pages_order(layout.erodata as nat, layout.sdata as nat);
        lemma_aligned_pages(layout.sdata as nat, layout.edata as nat);
        lemma_pages_order(layout.edata as nat, layout.sbss_with_stack as nat);
        lemma_aligned_pages(layout.sbss_with_stack as nat, layout.ebss as nat);
        lemma_pages_order(layout.ebss as nat, layout.ekernel as nat);
        lemma_aligned_pages(layout.ekernel as nat, MEMORY_END as nat);
        lemma_pages_order(MEMORY_END as nat, MEMORY_END as nat);
    }
    let mut page_table = PageTable::new(allocator);
    proof {
        assert forall|q: nat| !page_table.leaf_at(q) by {
            page_table.lemma_interp_dom(q);
        }
    }

    map_identity_region(
        &mut page_table,
        layout.stext,
        layout.etext,
        PTEFlags::from_bits(PTE_X | PTE_R),
    );
    let ghost t1 = page_table;

    map_identity_region(
        &mut page_table,
        layout.srodata,
        layout.erodata,
        PTEFlags::from_bits(PTE_R),
    );
    let ghost t2 = page_table;
    proof {
        assert(region_mapped(page_table, layout.stext, layout.etext, PTE_X | PTE_R));
    }

    map_identity_region(
        &mut page_table,
        layout.sdata,
        layout.edata,
        PTEFlags::from_bits(PTE_R | PTE_W),
    );
    let ghost t3 = page_table;
    proof {
        assert(region_mapped(page_table, layout.stext, layout.etext, PTE_X | PTE_R));
        assert(region_mapped(page_table, layout.srodata, layout.erodata, PTE_R));
    }

    map_identity_region(
        &mut page_table,
        layout.sbss_with_stack,
        layout.ebss,
        PTEFlags::from_bits(PTE_R | PTE_W),
    );
    let ghost t4 = page_table;
    proof {
        assert(region_mapped(page_table, layout.stext, layout.etext, PTE_X | PTE_R));
        assert(region_mapped(page_table, layout.srodata, layout.erodata, PTE_R));
        assert(region_mapped(page_table, layout.sdata, layout.edata, PTE_R | PTE_W));
    }

    map_identity_region(
        &mut page_table,
        layout.ekernel,
        MEMORY_END,
        PTEFlags::from_bits(PTE_R | PTE_W),
    );
    proof {
        assert(region_mapped(page_table, layout.stext, layout.etext, PTE_X | PTE_R));
        assert(region_mapped(page_table, layout.srodata, layout.erodata, PTE_R));
        assert(region_mapped(page_table, layout.sdata, layout.edata, PTE_R | PTE_W));
        assert(region_mapped(page_table, layout.sbss_with_stack, layout.ebss, PTE_R | PTE_W));
    }

    page_table
}

} // verus!
