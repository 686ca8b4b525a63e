use kernel_core::board::{device_init, VIRT_PLIC};
use kernel_core::plic::{TargetPriority, PLIC};

const S: TargetPriority = TargetPriority::Supervisor;
const M: TargetPriority = TargetPriority::Machine;

#[test]
fn priority_register_round_trips() {
    let mut plic = PLIC::new(VIRT_PLIC);
    plic.set_intr_priority(10, 1);
    assert_eq!(plic.get_intr_priority(10), 1);
    assert_eq!(plic.get_intr_priority(9), 0);
}

#[test]
fn claim_returns_the_pending_enabled_source_once() {
    let mut plic = PLIC::new(VIRT_PLIC);
    plic.set_intr_priority(10, 1);
    plic.set_intr_enable(0, S, 10);
    plic.set_target_threshold(0, S, 0);
    plic.raise(10);
    assert_eq!(plic.claim(0, S), 10);
    // Nothing else pending: a second claim before completion gets 0.
    assert_eq!(plic.claim(0, S), 0);
}

#[test]
fn source_stays_silent_until_completed() {
    let mut plic = PLIC::new(VIRT_PLIC);
    plic.set_intr_priority(10, 1);
    plic.set_intr_enable(0, S, 10);
    plic.raise(10);
    assert_eq!(plic.claim(0, S), 10);
    // The gateway holds new interrupts while the source is in service.
    plic.raise(10);
    assert_eq!(plic.claim(0, S), 0);
    plic.complete(0, S, 10);
    plic.raise(10);
    assert_eq!(plic.claim(0, S), 10);
}

#[test]
fn priority_zero_disables_a_source() {
    let mut plic = PLIC::new(VIRT_PLIC);
    plic.set_intr_enable(0, S, 7);
    plic.raise(7);
    // Default priority 0 never exceeds the threshold.
    assert_eq!(plic.claim(0, S), 0);
    plic.set_intr_priority(7, 1);
    assert_eq!(plic.claim(0, S), 7);
}

#[test]
fn threshold_masks_low_priorities() {
    let mut plic = PLIC::new(VIRT_PLIC);
    plic.set_intr_priority(5, 1);
    plic.set_intr_enable(0, S, 5);
    plic.set_target_threshold(0, S, 1);
    assert_eq!(plic.get_target_threshold(0, S), 1);
    plic.raise(5);
    assert_eq!(plic.claim(0, S), 0);
    plic.set_intr_priority(5, 2);
    assert_eq!(plic.claim(0, S), 5);
}

#[test]
fn claim_prefers_higher_priority_then_lower_id() {
    let mut plic = PLIC::new(VIRT_PLIC);
    for id in [4usize, 6, 8] {
        plic.set_intr_enable(0, S, id);
        plic.raise(id);
    }
    plic.set_intr_priority(4, 1);
    plic.set_intr_priority(6, 3);
    plic.set_intr_priority(8, 3);
    assert_eq!(plic.claim(0, S), 6);
    assert_eq!(plic.claim(0, S), 8);
    assert_eq!(plic.claim(0, S), 4);
    assert_eq!(plic.claim(0, S), 0);
}

#[test]
fn contexts_have_separate_enables() {
    let mut plic = PLIC::new(VIRT_PLIC);
    plic.set_intr_priority(10, 1);
    plic.set_intr_enable(0, M, 10);
    plic.raise(10);
    // Enabled for the machine context only.
    assert_eq!(plic.claim(0, S), 0);
    assert_eq!(plic.claim(0, M), 10);
}

#[test]
fn disable_clears_the_enable_bit() {
    let mut plic = PLIC::new(VIRT_PLIC);
    plic.set_intr_priority(10, 1);
    plic.set_intr_enable(0, S, 10);
    plic.set_intr_disable(0, S, 10);
    plic.raise(10);
    assert_eq!(plic.claim(0, S), 0);
}

#[test]
fn register_addresses_follow_the_documented_layout() {
    let plic = PLIC::new(VIRT_PLIC);
    assert_eq!(plic.intr_priority_ptr(10), VIRT_PLIC + 10 * 4);
    assert_eq!(PLIC::intr_target(0, M), 0);
    assert_eq!(PLIC::intr_target(0, S), 1);
    assert_eq!(PLIC::intr_target(3, S), 7);
    assert_eq!(plic.intr_enable_ptr(0, S, 10), (VIRT_PLIC + 0x2000 + 0x80, 10));
    assert_eq!(plic.intr_enable_ptr(1, M, 40), (VIRT_PLIC + 0x2000 + 0x80 * 2 + 4, 8));
    assert_eq!(plic.priority_threshold_ptr(0, S), VIRT_PLIC + 0x200000 + 0x1000);
    assert_eq!(plic.intr_claim_ptr(0, S), VIRT_PLIC + 0x200004 + 0x1000);
    assert_eq!(TargetPriority::supported_number(), 2);
}

#[test]
fn board_device_init_routes_to_the_supervisor() {
    let mut plic = PLIC::new(VIRT_PLIC);
    device_init(&mut plic);
    assert_eq!(plic.get_target_threshold(0, S), 0);
    assert_eq!(plic.get_target_threshold(0, M), 1);
    for id in [5usize, 6, 8, 10] {
        assert_eq!(plic.get_intr_priority(id), 1);
        plic.raise(id);
    }
    // All four enabled sources share priority 1: claims drain them in
    // id order.
    assert_eq!(plic.claim(0, S), 5);
    assert_eq!(plic.claim(0, S), 6);
    assert_eq!(plic.claim(0, S), 8);
    assert_eq!(plic.claim(0, S), 10);
    assert_eq!(plic.claim(0, S), 0);
}
