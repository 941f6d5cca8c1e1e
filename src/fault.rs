//! What an emulator host reports after executing one instruction: the
//! instruction word, or a code for the fault that the CPU raised.
use vstd::prelude::*;

verus! {

/// The faults that executing one instruction can raise.
#[derive(Debug, Clone, Copy, PartialEq, Eq, Structural)]
pub enum Fault {
    InstructionAddressMisaligned,
    InstructionAccessFault,
    IllegalInstruction,
    Breakpoint,
    LoadAddressMisaligned,
    LoadAccessFault,
    StoreAmoAddressMisaligned,
    StoreAmoAccessFault,
    EnvironmentCallFromUMode,
    EnvironmentCallFromSMode,
    EnvironmentCallFromMMode,
    InstructionPageFault,
    LoadPageFault,
    StoreAmoPageFault,
}

/// The opcode of `ecall`, reported in place of an environment call.
pub const ECALL_OPCODE: u32 = 0x73;

/// Width in bytes of the instruction that an environment call steps over.
pub const ECALL_WIDTH: u64 = 4;

pub open spec fn is_environment_call(f: Fault) -> bool {
    matches!(f, Fault::EnvironmentCallFromUMode | Fault::EnvironmentCallFromSMode
        | Fault::EnvironmentCallFromMMode)
}

/// The code reported for each fault.
pub open spec fn fault_code(f: Fault) -> u32 {
    match f {
        Fault::EnvironmentCallFromUMode => ECALL_OPCODE,
        Fault::EnvironmentCallFromSMode => ECALL_OPCODE,
        Fault::EnvironmentCallFromMMode => ECALL_OPCODE,
        Fault::InstructionAddressMisaligned => 12,
        Fault::InstructionAccessFault => 13,
        Fault::IllegalInstruction => 14,
        Fault::Breakpoint => 15,
        Fault::LoadAddressMisaligned => 16,
        Fault::LoadAccessFault => 17,
        Fault::StoreAmoAddressMisaligned => 18,
        Fault::StoreAmoAccessFault => 19,
        Fault::InstructionPageFault => 20,
        Fault::LoadPageFault => 21,
        Fault::StoreAmoPageFault => 22,
    }
}

/// What the host reports after one execution step, and how far it moves
/// the program counter on its own.
#[derive(Debug, Clone, Copy, PartialEq, Eq, Structural)]
pub struct StepReport {
    /// The executed instruction word, or the fault's code.
    pub reported: u32,
    /// Bytes to add to the program counter; an environment call is stepped
    /// over, as the CPU does not move past it.
    pub pc_advance: u64,
}

/// The code reported for `f`.
pub fn code_of(f: Fault) -> (r: u32)
    ensures
        r == fault_code(f),
{
    match f {
        Fault::EnvironmentCallFromUMode => ECALL_OPCODE,
        Fault::EnvironmentCallFromSMode => ECALL_OPCODE,
        Fault::EnvironmentCallFromMMode => ECALL_OPCODE,
        Fault::InstructionAddressMisaligned => 12,
        Fault::InstructionAccessFault => 13,
        Fault::IllegalInstruction => 14,
        Fault::Breakpoint => 15,
        Fault::LoadAddressMisaligned => 16,
        Fault::LoadAccessFault => 17,
        Fault::StoreAmoAddressMisaligned => 18,
        Fault::StoreAmoAccessFault => 19,
        Fault::InstructionPageFault => 20,
        Fault::LoadPageFault => 21,
        Fault::StoreAmoPageFault => 22,
    }
}

/// The report for the outcome of one execution step: the low 32 bits of
/// the executed instruction, or the fault's code, with the program counter
/// moved past an environment call.
pub fn report_step(outcome: Result<u64, Fault>) -> (r: StepReport)
    ensures
        match outcome {
            Ok(inst) => r.reported == inst as u32 && r.pc_advance == 0,
            Err(f) => r.reported == fault_code(f) && r.pc_advance == (if is_environment_call(f) {
                ECALL_WIDTH
            } else {
                0
            }),
        },
{
    match outcome {
        Ok(inst) => StepReport { reported: inst as u32, pc_advance: 0 },
        Err(f) => {
            let pc_advance: u64 = match f {
                Fault::EnvironmentCallFromUMode => ECALL_WIDTH,
                Fault::EnvironmentCallFromSMode => ECALL_WIDTH,
                Fault::EnvironmentCallFromMMode => ECALL_WIDTH,
                _ => 0,
            };
            StepReport { reported: code_of(f), pc_advance }
        },
    }
}

} // verus!
