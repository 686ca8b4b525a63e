use kernel_core::address::{PhysPageNum, VirtPageNum};
use kernel_core::frame_allocator::{PageAllocator, StackFrameAllocator};
use kernel_core::page_table::PageTable;
use kernel_core::pte::{PTEFlags, PageTableEntry, PTE_R, PTE_V, PTE_W, PTE_X};

fn fresh_table() -> PageTable<PageAllocator> {
    let mut inner = StackFrameAllocator::new();
    inner.init(PhysPageNum(0x1000), PhysPageNum(0x2000));
    PageTable::new(PageAllocator::new(inner))
}

#[test]
fn pte_packs_ppn_and_flags() {
    let e = PageTableEntry::new(PhysPageNum(0x80), PTEFlags::from_bits(PTE_R | PTE_W | PTE_V));
    assert_eq!(e.bits, 0x80 * 1024 + 0x7);
    assert_eq!(e.ppn(), PhysPageNum(0x80));
    assert_eq!(e.flags().bits, PTE_R | PTE_W | PTE_V);
    assert!(e.is_valid());
    assert!(e.readable());
    assert!(e.writable());
    assert!(!e.executable());
}

#[test]
fn empty_pte_is_invalid() {
    let e = PageTableEntry::empty();
    assert_eq!(e.bits, 0);
    assert!(!e.is_valid());
}

#[test]
fn token_packs_mode_and_root() {
    let mut pt = fresh_table();
    // The root frame is the first one the allocator hands out.
    assert_eq!(pt.token(), (8u64 << 60) | 0x1000);
    assert!(pt.translate(VirtPageNum(0x80)).is_none());
}

#[test]
fn map_two_pages_creates_two_leaves() {
    let mut pt = fresh_table();
    pt.map(
        VirtPageNum(0x80),
        PhysPageNum(0x80),
        8192,
        PTEFlags::from_bits(PTE_R | PTE_W),
    );

    let e80 = pt.translate(VirtPageNum(0x80)).unwrap();
    assert!(e80.is_valid());
    assert!(e80.readable());
    assert!(e80.writable());
    assert!(!e80.executable());
    assert_eq!(e80.ppn(), PhysPageNum(0x80));

    let e81 = pt.translate(VirtPageNum(0x81)).unwrap();
    assert!(e81.is_valid());
    assert_eq!(e81.ppn(), PhysPageNum(0x81));

    // Neighbors inside the same leaf table exist but stay invalid.
    assert!(!pt.translate(VirtPageNum(0x82)).unwrap().is_valid());
    assert!(!pt.translate(VirtPageNum(0x7f)).unwrap().is_valid());
}

#[test]
fn unmap_one_clears_only_its_page() {
    let mut pt = fresh_table();
    pt.map(
        VirtPageNum(0x80),
        PhysPageNum(0x80),
        8192,
        PTEFlags::from_bits(PTE_R | PTE_W),
    );
    pt.unmap_one(VirtPageNum(0x80));
    assert!(!pt.translate(VirtPageNum(0x80)).unwrap().is_valid());
    let e81 = pt.translate(VirtPageNum(0x81)).unwrap();
    assert!(e81.is_valid());
    assert_eq!(e81.ppn(), PhysPageNum(0x81));
}

#[test]
fn bulk_map_rounds_byte_length_up() {
    let mut pt = fresh_table();
    // 4097 bytes cover two pages.
    pt.map(VirtPageNum(5), PhysPageNum(0x300), 4097, PTEFlags::from_bits(PTE_X | PTE_R));
    let e5 = pt.translate(VirtPageNum(5)).unwrap();
    let e6 = pt.translate(VirtPageNum(6)).unwrap();
    assert!(e5.is_valid() && e6.is_valid());
    assert_eq!(e5.ppn(), PhysPageNum(0x300));
    assert_eq!(e6.ppn(), PhysPageNum(0x301));
    assert!(e5.executable() && !e5.writable());
    assert!(!pt.translate(VirtPageNum(7)).unwrap().is_valid());
}

#[test]
fn bulk_unmap_clears_the_whole_run() {
    let mut pt = fresh_table();
    pt.map(VirtPageNum(0x80), PhysPageNum(0x80), 3 * 4096, PTEFlags::from_bits(PTE_R));
    pt.unmap(VirtPageNum(0x80), 2 * 4096);
    assert!(!pt.translate(VirtPageNum(0x80)).unwrap().is_valid());
    assert!(!pt.translate(VirtPageNum(0x81)).unwrap().is_valid());
    assert!(pt.translate(VirtPageNum(0x82)).unwrap().is_valid());
}

#[test]
fn bulk_map_crosses_a_leaf_table_boundary() {
    let mut pt = fresh_table();
    // Pages 510..514 straddle two level-2 tables (the split is at 512).
    pt.map(VirtPageNum(510), PhysPageNum(0x600), 4 * 4096, PTEFlags::from_bits(PTE_R));
    for i in 0..4u64 {
        let e = pt.translate(VirtPageNum(510 + i)).unwrap();
        assert!(e.is_valid());
        assert_eq!(e.ppn(), PhysPageNum(0x600 + i));
    }
    assert!(!pt.translate(VirtPageNum(514)).unwrap().is_valid());
    pt.unmap(VirtPageNum(510), 4 * 4096);
    for i in 0..4u64 {
        assert!(!pt.translate(VirtPageNum(510 + i)).unwrap().is_valid());
    }
}

#[test]
fn mappings_far_apart_share_nothing() {
    let mut pt = fresh_table();
    // Different level-0 subtrees.
    pt.map_one(VirtPageNum(0x40000), PhysPageNum(0x111), PTEFlags::from_bits(PTE_R));
    pt.map_one(VirtPageNum(3), PhysPageNum(0x222), PTEFlags::from_bits(PTE_W));
    let ea = pt.translate(VirtPageNum(0x40000)).unwrap();
    let eb = pt.translate(VirtPageNum(3)).unwrap();
    assert_eq!(ea.ppn(), PhysPageNum(0x111));
    assert_eq!(eb.ppn(), PhysPageNum(0x222));
    assert!(ea.readable() && !ea.writable());
    assert!(eb.writable() && !eb.readable());
}
