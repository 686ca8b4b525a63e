use kernel_core::trap::{
    Exception, Interrupt, TrapCause, TrapContext, TrapKind, VectoredTrapHandler, INTERRUPT_FLAG,
};

#[test]
fn interrupt_code_9_is_supervisor_external() {
    let cause = VectoredTrapHandler::cause_from_raw(INTERRUPT_FLAG | 9, 0);
    assert_eq!(cause.kind, TrapKind::Interrupt(Interrupt::SupervisorExternal));
    assert!(cause.is_supervisor_external());
}

#[test]
fn exception_code_13_is_load_page_fault() {
    let cause = VectoredTrapHandler::cause_from_raw(13, 0xdead_beef);
    assert_eq!(cause.kind, TrapKind::Exception(Exception::LoadPageFault));
    assert_eq!(cause.info, 0xdead_beef);
    assert!(!cause.is_supervisor_external());
}

#[test]
fn unused_exception_code_10_decodes_to_unknown() {
    let cause = VectoredTrapHandler::cause_from_raw(10, 0);
    assert_eq!(cause.kind, TrapKind::Exception(Exception::Unknown));
}

#[test]
fn interrupt_codes_decode_per_the_architecture() {
    assert_eq!(Interrupt::from(1), Interrupt::SupervisorSoft);
    assert_eq!(Interrupt::from(3), Interrupt::MachineSoft);
    assert_eq!(Interrupt::from(5), Interrupt::SupervisorTimer);
    assert_eq!(Interrupt::from(7), Interrupt::MachineTimer);
    assert_eq!(Interrupt::from(9), Interrupt::SupervisorExternal);
    assert_eq!(Interrupt::from(11), Interrupt::MachineExternal);
    assert_eq!(Interrupt::from(2), Interrupt::Unknown);
    assert_eq!(Interrupt::from(12), Interrupt::Unknown);
}

#[test]
fn exception_codes_decode_per_the_architecture() {
    assert_eq!(Exception::from(0), Exception::InstructionMisaligned);
    assert_eq!(Exception::from(1), Exception::InstructionFault);
    assert_eq!(Exception::from(2), Exception::IllegalInstruction);
    assert_eq!(Exception::from(3), Exception::Breakpoint);
    assert_eq!(Exception::from(4), Exception::LoadMisaligned);
    assert_eq!(Exception::from(5), Exception::LoadFault);
    assert_eq!(Exception::from(6), Exception::StoreMisaligned);
    assert_eq!(Exception::from(7), Exception::StoreFault);
    assert_eq!(Exception::from(8), Exception::UserEnvCall);
    assert_eq!(Exception::from(9), Exception::SupervisorEnvCall);
    assert_eq!(Exception::from(11), Exception::MachineEnvCall);
    assert_eq!(Exception::from(12), Exception::InstructionPageFault);
    assert_eq!(Exception::from(13), Exception::LoadPageFault);
    assert_eq!(Exception::from(15), Exception::StorePageFault);
    assert_eq!(Exception::from(14), Exception::Unknown);
}

#[test]
fn interrupt_flag_separates_the_two_classes() {
    let intr = VectoredTrapHandler::cause_from_raw(INTERRUPT_FLAG | 5, 0);
    assert_eq!(intr.kind, TrapKind::Interrupt(Interrupt::SupervisorTimer));
    let exc = VectoredTrapHandler::cause_from_raw(5, 0);
    assert_eq!(exc.kind, TrapKind::Exception(Exception::LoadFault));
}

#[test]
fn trap_context_holds_the_full_register_block() {
    let cx: TrapContext<()> = TrapContext {
        ra: 1,
        t: [2; 7],
        a: [3; 8],
        s: [4; 12],
        gp: 5,
        tp: 6,
        sp: 7,
        pc: 8,
        ext: (),
    };
    assert_eq!(cx.t.len() + cx.a.len() + cx.s.len(), 27);
    // 32 unsigned 64-bit registers in all, plus the empty extension.
    assert_eq!(core::mem::size_of::<TrapContext<()>>(), 32 * 8);
    let _ = TrapCause { kind: TrapKind::Interrupt(Interrupt::Unknown), info: 0 };
}
