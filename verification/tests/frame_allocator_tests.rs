use kernel_core::address::{PhysAddr, PhysPageNum};
use kernel_core::frame_allocator::{init_frame_allocator, PageAllocator, StackFrameAllocator};
use kernel_core::page_table::AllocPageFrame;

#[test]
fn alloc_walks_the_range_then_runs_out() {
    let mut a = StackFrameAllocator::new();
    a.init(PhysPageNum(10), PhysPageNum(15));
    for expected in 10..15u64 {
        assert_eq!(a.alloc_frame(), Some(PhysPageNum(expected)));
    }
    assert_eq!(a.alloc_frame(), None);
}

#[test]
fn dealloc_reuses_lifo() {
    let mut a = StackFrameAllocator::new();
    a.init(PhysPageNum(10), PhysPageNum(15));
    for _ in 0..5 {
        a.alloc_frame().unwrap();
    }
    a.dealloc(PhysPageNum(12));
    assert_eq!(a.alloc_frame(), Some(PhysPageNum(12)));
    assert_eq!(a.alloc_frame(), None);
}

#[test]
fn recycled_frames_come_back_most_recent_first() {
    let mut a = StackFrameAllocator::new();
    a.init(PhysPageNum(10), PhysPageNum(15));
    for _ in 0..5 {
        a.alloc_frame().unwrap();
    }
    a.dealloc(PhysPageNum(11));
    a.dealloc(PhysPageNum(13));
    assert_eq!(a.alloc_frame(), Some(PhysPageNum(13)));
    assert_eq!(a.alloc_frame(), Some(PhysPageNum(11)));
    assert_eq!(a.alloc_frame(), None);
}

#[test]
fn double_free_fails_the_validity_check() {
    let mut a = StackFrameAllocator::new();
    a.init(PhysPageNum(10), PhysPageNum(15));
    for _ in 0..5 {
        a.alloc_frame().unwrap();
    }
    assert!(a.can_dealloc(PhysPageNum(12)));
    a.dealloc(PhysPageNum(12));
    // Freeing 12 again would be a double free: a fatal contract
    // violation the allocator's check rejects.
    assert!(!a.can_dealloc(PhysPageNum(12)));
    // A frame at or past the bump cursor was never issued.
    assert!(!a.can_dealloc(PhysPageNum(15)));
}

#[test]
fn alloc_more_reserves_descending_run() {
    let mut a = StackFrameAllocator::new();
    a.init(PhysPageNum(0), PhysPageNum(10));
    let v = a.alloc_more(5).unwrap();
    let got: Vec<u64> = v.iter().map(|p| p.0).collect();
    assert_eq!(got, vec![4, 3, 2, 1, 0]);
}

#[test]
fn alloc_more_is_all_or_nothing() {
    let mut a = StackFrameAllocator::new();
    a.init(PhysPageNum(0), PhysPageNum(10));
    a.alloc_more(5).unwrap();
    // 5 more would reach the end exactly, which the cursor check
    // already refuses; nothing is handed out and nothing moves.
    assert!(a.alloc_more(5).is_none());
    assert_eq!(a.alloc_frame(), Some(PhysPageNum(5)));
}

#[test]
fn alloc_more_ignores_the_recycle_list() {
    let mut a = StackFrameAllocator::new();
    a.init(PhysPageNum(0), PhysPageNum(8));
    for _ in 0..4 {
        a.alloc_frame().unwrap();
    }
    a.dealloc(PhysPageNum(1));
    let v = a.alloc_more(2).unwrap();
    let got: Vec<u64> = v.iter().map(|p| p.0).collect();
    assert_eq!(got, vec![5, 4]);
}

#[test]
fn boot_allocator_starts_above_the_kernel_image() {
    let mut a = init_frame_allocator(PhysAddr(0x8020_1234));
    // First free frame is the page above the image end.
    assert_eq!(a.alloc_frame(), Some(PhysPageNum(0x80202)));
    assert_eq!(a.alloc_frame(), Some(PhysPageNum(0x80203)));
}

#[test]
fn page_allocator_hands_out_frame_trackers() {
    let mut inner = StackFrameAllocator::new();
    inner.init(PhysPageNum(100), PhysPageNum(102));
    let mut pa = PageAllocator::new(inner);
    let f1 = pa.page_frame_alloc().unwrap();
    assert_eq!(f1.ppn, PhysPageNum(100));
    let f2 = pa.page_frame_alloc().unwrap();
    assert_eq!(f2.ppn, PhysPageNum(101));
    assert!(pa.page_frame_alloc().is_none());
    pa.page_frame_dealloc(f1);
    let f3 = pa.page_frame_alloc().unwrap();
    assert_eq!(f3.ppn, PhysPageNum(100));
}
