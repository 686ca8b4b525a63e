//! QEMU virt board: fixed device addresses and the boot-time interrupt
//! controller setup.
//!
//! The real controller sits at `VIRT_PLIC`; the shell performs these
//! same writes through volatile accesses at the addresses the PLIC
//! address functions compute, and also sets the supervisor
//! external-interrupt enable bit, which is a privileged-register write
//! outside this crate.

use vstd::prelude::*;

use crate::plic::{TargetPriority, PLIC, PLIC_SOURCE_NUM};

verus! {

/// Physical base of the platform interrupt controller.
pub const VIRT_PLIC: usize = 0xC00_0000;

/// Physical base of the UART (with the GPU region behind it).
pub const VIRT_UART: usize = 0x1000_0000;

/// The board's MMIO regions as (base, length) pairs: the test/RTC
/// device, the core-local interrupter, the interrupt controller, and
/// the UART.
pub fn mmio_regions() -> (r: [(usize, usize); 4])
    ensures
        r@.len() == 4,
        r@[0] == (0x0010_0000usize, 0x00_2000usize),
        r@[1] == (0x200_0000usize, 0x1_0000usize),
        r@[2] == (0xc00_0000usize, 0x21_0000usize),
        r@[3] == (0x1000_0000usize, 0x9000usize),
{
    [
        (0x0010_0000, 0x00_2000),
        (0x200_0000, 0x1_0000),
        (0xc00_0000, 0x21_0000),
        (0x1000_0000, 0x9000),
    ]
}

/// Boot-time interrupt routing on hart 0: the supervisor context takes
/// everything (threshold 0), the machine context nothing at priority 1
/// (threshold 1), and the keyboard, mouse, block and UART sources are
/// enabled for the supervisor at priority 1.
pub fn device_init(plic: &mut PLIC)
    requires
        old(plic).wf(),
    ensures
        final(plic).wf(),
        final(plic).base() == old(plic).base(),
        final(plic).thresh() == old(plic).thresh().update(1, 0u32).update(0, 1u32),
        final(plic).enab() == old(plic).enab().update(1 * PLIC_SOURCE_NUM + 5, true).update(
            1 * PLIC_SOURCE_NUM + 6,
            true,
        ).update(1 * PLIC_SOURCE_NUM + 8, true).update(1 * PLIC_SOURCE_NUM + 10, true),
        final(plic).prio() == old(plic).prio().update(5, 1u32).update(6, 1u32).update(
            8,
            1u32,
        ).update(10, 1u32),
        final(plic).pend() == old(plic).pend(),
        final(plic).serv() == old(plic).serv(),
{
    let hart_id: usize = 0;
    let supervisor = TargetPriority::Supervisor;
    let machine = TargetPriority::Machine;
    plic.set_target_threshold(hart_id, supervisor, 0);
    plic.set_target_threshold(hart_id, machine, 1);
    // irq ids: 5 keyboard, 6 mouse, 8 block, 10 uart
    plic.set_intr_enable(hart_id, supervisor, 5);
    plic.set_intr_priority(5, 1);
    plic.set_intr_enable(hart_id, supervisor, 6);
    plic.set_intr_priority(6, 1);
    plic.set_intr_enable(hart_id, supervisor, 8);
    plic.set_intr_priority(8, 1);
    plic.set_intr_enable(hart_id, supervisor, 10);
    plic.set_intr_priority(10, 1);
}

} // verus!
