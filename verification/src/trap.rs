//! Trap cause classification and dispatch policy.
//!
//! The hardware reports a trap through two registers: a cause word
//! whose top bit separates interrupts from exceptions and whose low
//! bits carry the code, and an auxiliary-information word. Decoding is
//! pure and verified here; reading the registers themselves, and the
//! assembly save/restore stub around the handler, belong to the
//! unverified shell. Unrecognized codes decode to `Unknown`, never to
//! an error.

use vstd::prelude::*;

verus! {

/// An interrupt cause class.
#[derive(Copy, Clone, Debug, Eq, PartialEq, Structural)]
pub enum Interrupt {
    SupervisorSoft,
    MachineSoft,
    SupervisorTimer,
    MachineTimer,
    SupervisorExternal,
    MachineExternal,
    Unknown,
}

/// An exception cause class.
#[derive(Copy, Clone, Debug, Eq, PartialEq, Structural)]
pub enum Exception {
    InstructionMisaligned,
    InstructionFault,
    IllegalInstruction,
    Breakpoint,
    LoadMisaligned,
    LoadFault,
    StoreMisaligned,
    StoreFault,
    UserEnvCall,
    SupervisorEnvCall,
    MachineEnvCall,
    InstructionPageFault,
    LoadPageFault,
    StorePageFault,
    Unknown,
}

#[derive(Copy, Clone, Debug, Eq, PartialEq, Structural)]
pub enum TrapKind {
    Exception(Exception),
    Interrupt(Interrupt),
}

/// A decoded trap: its class and the auxiliary value the hardware
/// latched alongside it.
#[derive(Copy, Clone, Debug, Eq, PartialEq, Structural)]
pub struct TrapCause {
    pub kind: TrapKind,
    pub info: u64,
}

/// The cause word's top bit: set for interrupts.
pub const INTERRUPT_FLAG: u64 = 0x8000_0000_0000_0000;

impl Interrupt {
    /// The architected numbering of interrupt codes.
    pub open spec fn spec_from_code(value: u64) -> Interrupt {
        if value == 1 {
            Interrupt::SupervisorSoft
        } else if value == 3 {
            Interrupt::MachineSoft
        } else if value == 5 {
            Interrupt::SupervisorTimer
        } else if value == 7 {
            Interrupt::MachineTimer
        } else if value == 9 {
            Interrupt::SupervisorExternal
        } else if value == 11 {
            Interrupt::MachineExternal
        } else {
            Interrupt::Unknown
        }
    }
}

impl vstd::std_specs::convert::FromSpecImpl<u64> for Interrupt {
    open spec fn obeys_from_spec() -> bool {
        true
    }

    open spec fn from_spec(value: u64) -> Self {
        Interrupt::spec_from_code(value)
    }
}

impl From<u64> for Interrupt {
    fn from(value: u64) -> Self {
        match value {
            1 => Self::SupervisorSoft,
            3 => Self::MachineSoft,
            5 => Self::SupervisorTimer,
            7 => Self::MachineTimer,
            9 => Self::SupervisorExternal,
            11 => Self::MachineExternal,
            _ => Self::Unknown,
        }
    }
}

impl Exception {
    /// The architected numbering of exception codes.
    pub open spec fn spec_from_code(value: u64) -> Exception {
        if value == 0 {
            Exception::InstructionMisaligned
        } else if value == 1 {
            Exception::InstructionFault
        } else if value == 2 {
            Exception::IllegalInstruction
        } else if value == 3 {
            Exception::Breakpoint
        } else if value == 4 {
            Exception::LoadMisaligned
        } else if value == 5 {
            Exception::LoadFault
        } else if value == 6 {
            Exception::StoreMisaligned
        } else if value == 7 {
            Exception::StoreFault
        } else if value == 8 {
            Exception::UserEnvCall
        } else if value == 9 {
            Exception::SupervisorEnvCall
        } else if value == 11 {
            Exception::MachineEnvCall
        } else if value == 12 {
            Exception::InstructionPageFault
        } else if value == 13 {
            Exception::LoadPageFault
        } else if value == 15 {
            Exception::StorePageFault
        } else {
            Exception::Unknown
        }
    }
}

impl vstd::std_specs::convert::FromSpecImpl<u64> for Exception {
    open spec fn obeys_from_spec() -> bool {
        true
    }

    open spec fn from_spec(value: u64) -> Self {
        Exception::spec_from_code(value)
    }
}

impl From<u64> for Exception {
    fn from(value: u64) -> Self {
        match value {
            0 => Self::InstructionMisaligned,
            1 => Self::InstructionFault,
            2 => Self::IllegalInstruction,
            3 => Self::Breakpoint,
            4 => Self::LoadMisaligned,
            5 => Self::LoadFault,
            6 => Self::StoreMisaligned,
            7 => Self::StoreFault,
            8 => Self::UserEnvCall,
            9 => Self::SupervisorEnvCall,
            11 => Self::MachineEnvCall,
            12 => Self::InstructionPageFault,
            13 => Self::LoadPageFault,
            15 => Self::StorePageFault,
            _ => Self::Unknown,
        }
    }
}

/// What a raw cause word decodes to.
pub open spec fn spec_decode_cause(scause: u64) -> TrapKind {
    if scause >= INTERRUPT_FLAG {
        TrapKind::Interrupt(Interrupt::spec_from_code((scause - INTERRUPT_FLAG) as u64))
    } else {
        TrapKind::Exception(Exception::spec_from_code(scause))
    }
}

impl TrapCause {
    /// The only trap class this kernel services in place; every other
    /// cause is fatal at this layer.
    pub fn is_supervisor_external(&self) -> (r: bool)
        ensures
            r <==> self.kind == TrapKind::Interrupt(Interrupt::SupervisorExternal),
    {
        match self.kind {
            TrapKind::Interrupt(Interrupt::SupervisorExternal) => true,
            _ => false,
        }
    }
}

/// Vectored trap delivery: a table of entry stubs indexed by cause
/// class, all of which funnel into one handler. The control-register
/// writes live in the unverified shell; the classification of what the
/// hardware latched is verified here.
pub struct VectoredTrapHandler;

impl VectoredTrapHandler {
    /// Classifies raw cause and auxiliary-information words into a
    /// `TrapCause`.
    pub fn cause_from_raw(scause: u64, info: u64) -> (r: TrapCause)
        ensures
            r.kind == spec_decode_cause(scause),
            r.info == info,
    {
        let kind = if scause >= INTERRUPT_FLAG {
            TrapKind::Interrupt(Interrupt::from(scause - INTERRUPT_FLAG))
        } else {
            TrapKind::Exception(Exception::from(scause))
        };
        TrapCause { kind, info }
    }
}

/// Operations a platform's trap machinery provides. Implementations
/// touch privileged control registers, so they live outside the
/// verified core.
pub trait TrapControl {
    fn cause() -> TrapCause;

    fn set_trap_entry(entry: u64);

    fn enable_supervisor_interrupt();

    fn disable_supervisor_interrupt();
}

/// Saved execution state across a trap. The field order is a fixed
/// contract with the assembly save/restore stub: link register, the
/// seven temporaries, the eight argument registers, the twelve saved
/// registers, global and thread pointers, stack pointer, program
/// counter, then a caller-defined extension region.
#[derive(Debug)]
pub struct TrapContext<T> {
    pub ra: u64,
    pub t: [u64; 7],
    pub a: [u64; 8],
    pub s: [u64; 12],
    pub gp: u64,
    pub tp: u64,
    pub sp: u64,
    pub pc: u64,
    pub ext: T,
}

} // verus!
