use kernel_core::address::{PhysAddr, VirtPageNum};
use kernel_core::config::MEMORY_END;
use kernel_core::frame_allocator::{init_frame_allocator, PageAllocator};
use kernel_core::kvm::{kvminit, KernelLayout};

fn boot_layout() -> KernelLayout {
    KernelLayout {
        stext: 0x8020_0000,
        etext: 0x8020_1000,
        srodata: 0x8020_1000,
        erodata: 0x8020_2000,
        sdata: 0x8020_2000,
        edata: 0x8020_2800,
        // One whole page of slack before the bss: it must stay
        // unmapped.
        sbss_with_stack: 0x8020_4000,
        ebss: 0x8020_4800,
        ekernel: 0x8020_5000,
    }
}

#[test]
fn kernel_regions_are_identity_mapped_with_their_permissions() {
    let layout = boot_layout();
    let allocator = PageAllocator::new(init_frame_allocator(PhysAddr(layout.ekernel)));
    let mut pt = kvminit(allocator, &layout);

    // Text: execute + read.
    let text = pt.translate(VirtPageNum(0x80200)).unwrap();
    assert!(text.is_valid() && text.executable() && text.readable() && !text.writable());
    assert_eq!(text.ppn().0, 0x80200);

    // Rodata: read only.
    let ro = pt.translate(VirtPageNum(0x80201)).unwrap();
    assert!(ro.is_valid() && ro.readable() && !ro.writable() && !ro.executable());

    // Data and bss: read + write.
    let data = pt.translate(VirtPageNum(0x80202)).unwrap();
    assert!(data.is_valid() && data.readable() && data.writable() && !data.executable());
    let bss = pt.translate(VirtPageNum(0x80204)).unwrap();
    assert!(bss.is_valid() && bss.readable() && bss.writable());

    // The physical-memory tail, up to the configured end.
    let heap = pt.translate(VirtPageNum(0x80205)).unwrap();
    assert!(heap.is_valid() && heap.readable() && heap.writable() && !heap.executable());
    assert_eq!(heap.ppn().0, 0x80205);
    let last = pt.translate(VirtPageNum(MEMORY_END / 4096 - 1)).unwrap();
    assert!(last.is_valid());
}

#[test]
fn pages_outside_the_kernel_stay_unmapped() {
    let layout = boot_layout();
    let allocator = PageAllocator::new(init_frame_allocator(PhysAddr(layout.ekernel)));
    let mut pt = kvminit(allocator, &layout);
    // Below the image there is no mapping at all.
    assert!(pt.translate(VirtPageNum(0x1000)).is_none());
    // The slack page between data and bss shares a leaf table with its
    // mapped neighbors but holds no mapping itself.
    assert!(!pt.translate(VirtPageNum(0x80203)).unwrap().is_valid());
    // Nothing lies at or past the configured memory end.
    assert!(pt.translate(VirtPageNum(MEMORY_END / 4096)).is_none());
}

#[test]
fn kernel_table_token_selects_sv39_and_the_root() {
    let layout = boot_layout();
    let allocator = PageAllocator::new(init_frame_allocator(PhysAddr(layout.ekernel)));
    let pt = kvminit(allocator, &layout);
    // The root frame is the first frame above the kernel image.
    assert_eq!(pt.token(), (8u64 << 60) | 0x80205);
}
