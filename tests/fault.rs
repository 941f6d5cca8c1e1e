use rv_assembler::fault::{code_of, report_step, Fault, StepReport, ECALL_OPCODE};

#[test]
fn executed_instruction_is_reported_in_its_low_bits() {
    let r = report_step(Ok(0x1234_5678_0000_0013));
    assert_eq!(r, StepReport { reported: 0x0000_0013, pc_advance: 0 });
}

#[test]
fn environment_calls_are_stepped_over() {
    for f in [
        Fault::EnvironmentCallFromUMode,
        Fault::EnvironmentCallFromSMode,
        Fault::EnvironmentCallFromMMode,
    ] {
        assert_eq!(report_step(Err(f)), StepReport { reported: 0x73, pc_advance: 4 });
    }
    assert_eq!(ECALL_OPCODE, 0x73);
}

#[test]
fn faults_have_their_codes() {
    let expected = [
        (Fault::InstructionAddressMisaligned, 12),
        (Fault::InstructionAccessFault, 13),
        (Fault::IllegalInstruction, 14),
        (Fault::Breakpoint, 15),
        (Fault::LoadAddressMisaligned, 16),
        (Fault::LoadAccessFault, 17),
        (Fault::StoreAmoAddressMisaligned, 18),
        (Fault::StoreAmoAccessFault, 19),
        (Fault::InstructionPageFault, 20),
        (Fault::LoadPageFault, 21),
        (Fault::StoreAmoPageFault, 22),
    ];
    for (f, code) in expected {
        assert_eq!(code_of(f), code);
        assert_eq!(report_step(Err(f)), StepReport { reported: code, pc_advance: 0 });
    }
}
