use kernel_core::address::{PhysAddr, PhysPageNum, VirtAddr, VirtPageNum};

#[test]
fn floor_and_ceil_on_page_boundary() {
    assert_eq!(VirtAddr(0x1000).floor(), VirtPageNum(1));
    assert_eq!(VirtAddr(0x1000).ceil(), VirtPageNum(1));
}

#[test]
fn ceil_rounds_up_past_boundary() {
    assert_eq!(VirtAddr(0x1001).ceil(), VirtPageNum(2));
    assert_eq!(VirtAddr(0x1001).floor(), VirtPageNum(1));
}

#[test]
fn ceil_of_zero_is_page_zero() {
    assert_eq!(VirtAddr(0).ceil(), VirtPageNum(0));
    assert_eq!(PhysAddr(0).ceil(), PhysPageNum(0));
}

#[test]
fn rounding_brackets_the_address() {
    for a in [0u64, 1, 4095, 4096, 4097, 0x7fff, 0x1_0000_0000] {
        let va = VirtAddr(a);
        assert!(va.floor().0 * 4096 <= a);
        assert!(a < va.ceil().0 * 4096 + 4096);
        if a % 4096 == 0 {
            assert_eq!(va.ceil(), va.floor());
        }
    }
}

#[test]
fn phys_addr_masks_to_56_bits() {
    assert_eq!(PhysAddr::from_u64(u64::MAX).0, 0x00ff_ffff_ffff_ffff);
    assert_eq!(PhysAddr::from_u64(0x8020_0000).0, 0x8020_0000);
}

#[test]
fn virt_addr_masks_to_39_bits() {
    assert_eq!(VirtAddr::from_u64(u64::MAX).0, 0x7f_ffff_ffff);
    assert_eq!(VirtAddr::from_u64(0x8020_0000).0, 0x8020_0000);
}

#[test]
fn virt_addr_widening_sign_extends_bit_38() {
    // Bit 38 set: the upper canonical half.
    assert_eq!(VirtAddr(0x40_0000_0000).as_u64(), 0xffff_ffc0_0000_0000);
    // Bit 38 clear: widening is the identity.
    assert_eq!(VirtAddr(0x3f_ffff_ffff).as_u64(), 0x3f_ffff_ffff);
    // A physical address never sign-extends.
    assert_eq!(PhysAddr(0x80_0000_0000_0000 - 1).as_u64(), 0x7f_ffff_ffff_ffff);
}

#[test]
fn page_offset_and_aligned() {
    assert_eq!(VirtAddr(0x1234).page_offset(), 0x234);
    assert!(!VirtAddr(0x1234).aligned());
    assert!(VirtAddr(0x2000).aligned());
    assert_eq!(PhysAddr(0x8020_0abc).page_offset(), 0xabc);
}

#[test]
fn indexes_splits_nine_bit_levels() {
    let vpn = VirtPageNum(0b000000001_000000010_000000011);
    assert_eq!(vpn.indexes(), [1, 2, 3]);
    assert_eq!(VirtPageNum(0).indexes(), [0, 0, 0]);
    assert_eq!(VirtPageNum(511).indexes(), [0, 0, 511]);
    assert_eq!(VirtPageNum(512).indexes(), [0, 1, 0]);
    assert_eq!(VirtPageNum(0x7ff_ffff).indexes(), [511, 511, 511]);
}

#[test]
fn page_number_address_round_trip() {
    assert_eq!(VirtAddr(0x3000).into_vpn(), VirtPageNum(3));
    assert_eq!(VirtPageNum(3).into_va(), VirtAddr(0x3000));
    assert_eq!(PhysAddr(0x8020_0000).into_ppn(), PhysPageNum(0x80200));
    assert_eq!(PhysPageNum(0x80200).into_pa(), PhysAddr(0x8020_0000));
}

#[test]
fn step_advances_by_one_page() {
    let mut v = VirtPageNum(7);
    v.step();
    assert_eq!(v, VirtPageNum(8));
    let mut p = PhysPageNum(0x80200);
    p.step();
    assert_eq!(p, PhysPageNum(0x80201));
}
