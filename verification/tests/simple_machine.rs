use vmrs::simple::Machine;
use vmrs::VmError;

#[test]
fn simple_profile_runs_add_program() {
    let mut m = Machine::default();
    m.load(0, &[0x2003, 0x2206, 0x1401, 0x0000]).unwrap();
    m.run(0).unwrap();
    let d = m.dump();
    assert_eq!(d.registers[0], 3);
    assert_eq!(d.registers[1], 6);
    assert_eq!(d.registers[2], 9);
    assert_eq!(d.registers[9], 3); // HALT
}

#[test]
fn simple_profile_run_is_bounded() {
    // A JUMP to itself never halts; run gives the machine back after its
    // iteration cap instead of spinning forever.
    let mut m = Machine::default();
    m.load(0, &[0x4000]).unwrap();
    m.run(0).unwrap();
    let d = m.dump();
    assert_eq!(d.registers[8], 0);
    assert_eq!(d.registers[9], 0);
}

#[test]
fn simple_profile_load_past_end_fails() {
    let mut m = Machine::default();
    assert_eq!(m.load(15, &[1, 2]), Err(VmError::AddressOutOfRange));
    assert_eq!(m.dump().memory[15], 0);
}

#[test]
fn simple_profile_load_reads_back() {
    let mut m = Machine::default();
    m.load(2, &[0x8000, 7]).unwrap();
    let d = m.dump();
    assert_eq!(d.memory[2], -32768);
    assert_eq!(d.memory[3], 7);
    assert_eq!(d.memory[1], 0);
}

#[test]
fn simple_profile_fault_surfaces() {
    // LOAD_INDIRECT reaching outside memory stops the run with an error.
    let mut m = Machine::default();
    m.load(9, &[0x3008]).unwrap();
    assert_eq!(m.run(9), Err(VmError::AddressOutOfRange));
    assert_eq!(m.dump().registers[8], 9);
}

#[test]
fn simple_profile_trap_getc_waits() {
    // The reduced profile also parks the machine on TRAP 1; nothing clears
    // it, so the run returns after the iteration cap with STAT waiting.
    let mut m = Machine::default();
    m.load(0, &[0xF001]).unwrap();
    m.run(0).unwrap();
    let d = m.dump();
    assert_eq!(d.registers[9], 4); // WAITING_FOR_INPUT
    assert_eq!(d.registers[8], 0);
}

#[test]
fn simple_profile_treats_zero_jump_as_reserved() {
    // Opcode 7 is not part of the reduced instruction set: it only advances
    // the PC, and the BREAK behind it halts the run.
    let mut m = Machine::default();
    m.load(0, &[0x7003, 0x0000]).unwrap();
    m.run(0).unwrap();
    let d = m.dump();
    assert_eq!(d.registers[8], 1);
    assert_eq!(d.registers[9], 3);
}

#[test]
fn simple_profile_branch_on_negative() {
    // LOAD R0 #-1 makes STAT negative; JUMP_IF_SIGN +2 branches from 1 to 3.
    let mut m = Machine::default();
    m.load(0, &[0x20FF, 0x5002, 0x0000, 0x0000]).unwrap();
    m.run(0).unwrap();
    let d = m.dump();
    assert_eq!(d.registers[8], 3);
    assert_eq!(d.registers[9], 3); // halted by the BREAK at 3
}
