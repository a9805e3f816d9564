use vmrs::vm::{
    Machine, RSTAT_HALT, RSTAT_WAITING_FOR_INPUT, SEGMENT_PROGRAM_CODE,
};
use vmrs::{get_sign_extended_value, VmError};

fn run_to_halt(m: &mut Machine) {
    let mut steps = 0;
    loop {
        let stat = m.execute_instruction().unwrap();
        steps += 1;
        if stat == RSTAT_HALT {
            break;
        }
        assert!(steps < 100, "program did not halt");
    }
}

#[test]
fn simple_add_program() {
    // LOAD R0 #3; LOAD R1 #6; ADD R2 R0 R1; BREAK.
    let mut m = Machine::default();
    m.load(
        SEGMENT_PROGRAM_CODE,
        0,
        &[0b0010000000000011, 0b0010001000000110, 0b0001010000000001, 0b0000000000000000],
    )
    .unwrap();
    m.set_pc(0).unwrap();
    run_to_halt(&mut m);
    let d = m.dump();
    assert_eq!(d.registers[0], 3);
    assert_eq!(d.registers[1], 6);
    assert_eq!(d.registers[2], 9);
    assert_eq!(d.registers[9], RSTAT_HALT as i16);
}

#[test]
fn sign_extension_on_add() {
    // LOAD R0 #0; ADD R0 R0 imm5=11111 (-1); BREAK.
    let mut m = Machine::default();
    m.load(SEGMENT_PROGRAM_CODE, 0, &[0x2000, 0x103F, 0x0000]).unwrap();
    m.set_pc(0).unwrap();
    m.execute_instruction().unwrap(); // LOAD
    m.execute_instruction().unwrap(); // ADD
    let d = m.dump();
    assert_eq!(d.registers[0], -1); // 0xFFFF as two's complement
    assert_eq!(d.registers[9], 2); // NEGATIVE
    // The BREAK then halts the program.
    assert_eq!(m.execute_instruction(), Ok(RSTAT_HALT));
}

#[test]
fn branch_taken_only_on_negative() {
    // With STAT at ZERO, JUMP_IF_SIGN +5 only advances the PC.
    let mut m = Machine::default();
    m.load(SEGMENT_PROGRAM_CODE, 0, &[0x5005]).unwrap();
    m.set_pc(0).unwrap(); // clears STAT to ZERO
    m.execute_instruction().unwrap();
    assert_eq!(m.dump().registers[8], 1);

    // After a LOAD that yields NEGATIVE, the same instruction branches by +5.
    let mut m = Machine::default();
    m.load(SEGMENT_PROGRAM_CODE, 0, &[0x20FF, 0x5005]).unwrap();
    m.set_pc(0).unwrap();
    m.execute_instruction().unwrap(); // R0 = -1, STAT = NEGATIVE
    assert_eq!(m.dump().registers[9], 2);
    m.execute_instruction().unwrap(); // branch: PC = 1 + 5
    assert_eq!(m.dump().registers[8], 6);
}

#[test]
fn jump_if_zero_branches_on_zero() {
    let mut m = Machine::default();
    m.load(SEGMENT_PROGRAM_CODE, 0, &[0x7003]).unwrap();
    m.set_pc(0).unwrap(); // STAT = ZERO
    m.execute_instruction().unwrap();
    assert_eq!(m.dump().registers[8], 3);
}

#[test]
fn jump_if_no_sign_needs_strictly_positive() {
    // ZERO does not branch.
    let mut m = Machine::default();
    m.load(SEGMENT_PROGRAM_CODE, 0, &[0x8003, 0x2003, 0x8003]).unwrap();
    m.set_pc(0).unwrap();
    m.execute_instruction().unwrap();
    assert_eq!(m.dump().registers[8], 1);
    // LOAD R0 #3 makes STAT POSITIVE; now the branch is taken: PC = 2 + 3.
    m.execute_instruction().unwrap();
    assert_eq!(m.dump().registers[9], 1);
    m.execute_instruction().unwrap();
    assert_eq!(m.dump().registers[8], 5);
}

#[test]
fn unconditional_jump_wraps_around() {
    // JUMP with offset -1 from address 0 wraps the PC to 0xFFFF.
    let mut m = Machine::default();
    m.load(SEGMENT_PROGRAM_CODE, 0, &[0x41FF]).unwrap();
    m.set_pc(0).unwrap();
    m.execute_instruction().unwrap();
    assert_eq!(m.dump().registers[8], -1); // 0xFFFF as two's complement
    // Fetching from 0xFFFF is an address fault, and the machine is unchanged.
    assert_eq!(m.execute_instruction(), Err(VmError::AddressOutOfRange));
    assert_eq!(m.dump().registers[8], -1);
}

#[test]
fn reserved_opcode_is_a_noop_that_advances_pc() {
    let mut m = Machine::default();
    m.load(SEGMENT_PROGRAM_CODE, 0, &[0x9000]).unwrap();
    m.set_pc(0).unwrap();
    assert_eq!(m.execute_instruction(), Ok(0));
    let d = m.dump();
    assert_eq!(d.registers[8], 1);
    assert_eq!(d.registers[9], 0);
}

#[test]
fn exec_with_pc_outside_memory_fails() {
    let mut m = Machine::default();
    m.set_pc(100).unwrap();
    assert_eq!(m.execute_instruction(), Err(VmError::AddressOutOfRange));
}

#[test]
fn trap_getc_gates_execution_until_input() {
    // TRAP 1 sets WAITING_FOR_INPUT; exec is then a no-op reporting it.
    let mut m = Machine::default();
    m.load(SEGMENT_PROGRAM_CODE, 0, &[0xF001, 0x2003]).unwrap();
    m.set_pc(0).unwrap();
    assert_eq!(m.execute_instruction(), Ok(RSTAT_WAITING_FOR_INPUT));
    assert_eq!(m.dump().registers[8], 0);
    assert_eq!(m.execute_instruction(), Ok(RSTAT_WAITING_FOR_INPUT));
    assert_eq!(m.dump().registers[8], 0);
    // The host supplies a byte: R0 takes it, STAT clears, execution resumes.
    m.supply_input(0x41).unwrap();
    let d = m.dump();
    assert_eq!(d.registers[0], 0x41);
    assert_eq!(d.registers[9], 0);
    assert_eq!(d.registers[8], 1);
    m.execute_instruction().unwrap(); // the LOAD after the trap
    assert_eq!(m.dump().registers[0], 3);
}

#[test]
fn supply_input_fails_when_not_waiting() {
    let mut m = Machine::default();
    assert_eq!(m.supply_input(0x41), Err(VmError::NotWaitingForInput));
    assert_eq!(m.dump().registers[0], 0);
}

#[test]
fn trap_halt_suspends_without_advancing_pc() {
    let mut m = Machine::default();
    m.load(SEGMENT_PROGRAM_CODE, 0, &[0xF000]).unwrap();
    m.set_pc(0).unwrap();
    assert_eq!(m.execute_instruction(), Ok(RSTAT_HALT));
    assert_eq!(m.dump().registers[8], 0);
}

#[test]
fn unknown_trap_code_only_advances_pc() {
    let mut m = Machine::default();
    m.load(SEGMENT_PROGRAM_CODE, 0, &[0xF077]).unwrap();
    m.set_pc(0).unwrap();
    assert_eq!(m.execute_instruction(), Ok(0));
    assert_eq!(m.dump().registers[8], 1);
}

#[test]
fn load_indirect_reads_pc_relative_word() {
    // LOAD_INDIRECT R0, offset +2: reads memory[0 + 2].
    let mut m = Machine::default();
    m.load(SEGMENT_PROGRAM_CODE, 0, &[0x3002, 0x0000, 0x0123]).unwrap();
    m.set_pc(0).unwrap();
    m.execute_instruction().unwrap();
    let d = m.dump();
    assert_eq!(d.registers[0], 0x123);
    assert_eq!(d.registers[8], 1);
}

#[test]
fn load_indirect_out_of_range_fails() {
    // Offset +8 from address 9 reaches slot 17, outside memory.
    let mut m = Machine::default();
    m.load(SEGMENT_PROGRAM_CODE, 9, &[0x3008]).unwrap();
    m.set_pc(9).unwrap();
    assert_eq!(m.execute_instruction(), Err(VmError::AddressOutOfRange));
    assert_eq!(m.dump().registers[8], 9);
}

#[test]
fn load_register_copies_and_sets_stat() {
    // LOAD R1 #-2; LOAD_REGISTER R3 <- R1.
    let mut m = Machine::default();
    m.load(SEGMENT_PROGRAM_CODE, 0, &[0x22FE, 0x6640]).unwrap();
    m.set_pc(0).unwrap();
    m.execute_instruction().unwrap();
    m.execute_instruction().unwrap();
    let d = m.dump();
    assert_eq!(d.registers[3], -2);
    assert_eq!(d.registers[9], 2); // NEGATIVE
}

#[test]
fn add_register_mode_uses_source_register() {
    // LOAD R0 #100; LOAD R1 #27; ADD R2 R0 R1.
    let mut m = Machine::default();
    m.load(SEGMENT_PROGRAM_CODE, 0, &[0x2064, 0x221B, 0x1401]).unwrap();
    m.set_pc(0).unwrap();
    m.execute_instruction().unwrap();
    m.execute_instruction().unwrap();
    m.execute_instruction().unwrap();
    let d = m.dump();
    assert_eq!(d.registers[2], 127);
    assert_eq!(d.registers[9], 1); // POSITIVE
}

#[test]
fn sign_extension_concrete_values() {
    assert_eq!(get_sign_extended_value(0b11111, 5), 0xFFFF);
    assert_eq!(get_sign_extended_value(0b01111, 5), 0b01111);
    assert_eq!(get_sign_extended_value(0b10000, 5), 0xFFF0);
    assert_eq!(get_sign_extended_value(0xFF, 8), 0xFFFF);
    assert_eq!(get_sign_extended_value(0x7F, 8), 0x7F);
    assert_eq!(get_sign_extended_value(1, 1), 0xFFFF);
    assert_eq!(get_sign_extended_value(0, 1), 0);
    assert_eq!(get_sign_extended_value(0x8000, 16), 0x8000);
    assert_eq!(get_sign_extended_value(0x7FFF, 16), 0x7FFF);
}

#[test]
fn sign_extension_is_idempotent_on_samples() {
    for k in 1..=16usize {
        for v in [0u16, 1, 0x000F, 0x0010, 0x00FF, 0x0100, 0x7FFF, 0x8000, 0xABCD, 0xFFFF] {
            let once = get_sign_extended_value(v, k);
            assert_eq!(get_sign_extended_value(once, k), once);
        }
    }
}
