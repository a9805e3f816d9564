use vmrs::vm::{
    Machine, SEGMENT_INT_HANDLER_TABLE, SEGMENT_INT_PROGRAM_CODE, SEGMENT_PROGRAM_CODE,
};
use vmrs::{InterruptController, VmError};

#[test]
fn interrupt_dispatch_runs_handler_and_resumes() {
    // Program: one ADD at address 0. Handler table at 4 pairs interrupt 7
    // with handler address 8; slot 6 stays uninitialised as the terminator.
    // Handler at 8: LOAD R0 #5 then BREAK.
    let mut m = Machine::default();
    m.load(SEGMENT_PROGRAM_CODE, 0, &[0x1020]).unwrap(); // ADD R0 R0 #0
    m.load(SEGMENT_INT_HANDLER_TABLE, 4, &[7, 8]).unwrap();
    m.load(SEGMENT_INT_PROGRAM_CODE, 8, &[0x2005, 0x0000]).unwrap();
    m.set_pc(0).unwrap();
    m.execute_instruction().unwrap(); // the one ADD; PC is now 1

    let mut ic = InterruptController::new();
    ic.raise(1, 7).unwrap();
    assert_eq!(ic.pending(7), Some(1));

    m.handle_interrupt(1, 7).unwrap();
    let d = m.dump();
    assert_eq!(d.registers[8], 2); // resumed at saved PC + 1
    assert_eq!(d.registers[9], 0); // STAT cleared to ZERO
    assert_eq!(d.registers[0], 5); // the handler ran

    ic.int_ack(7).unwrap();
    assert_eq!(ic.pending(7), None);
}

#[test]
fn interrupt_without_table_fails() {
    let mut m = Machine::default();
    assert_eq!(m.handle_interrupt(1, 7), Err(VmError::NoInterruptTable));
}

#[test]
fn interrupt_not_in_table_fails() {
    let mut m = Machine::default();
    m.load(SEGMENT_INT_HANDLER_TABLE, 4, &[7, 8]).unwrap();
    m.load(SEGMENT_INT_PROGRAM_CODE, 8, &[0x0000]).unwrap();
    m.set_pc(0).unwrap();
    assert_eq!(m.handle_interrupt(1, 9), Err(VmError::UnknownInterrupt));
    // The machine is untouched.
    let d = m.dump();
    assert_eq!(d.registers[8], 0);
    assert_eq!(d.registers[9], 0);
}

#[test]
fn malformed_table_fails() {
    // The pair's address slot is missing: the matching id is the last
    // table-tagged slot.
    let mut m = Machine::default();
    m.load(SEGMENT_INT_HANDLER_TABLE, 4, &[7]).unwrap();
    assert_eq!(
        m.handle_interrupt(1, 7),
        Err(VmError::MalformedInterruptTable)
    );
}

#[test]
fn table_scan_skips_earlier_pairs() {
    // Two pairs: (3, 10) then (7, 12); interrupt 7 must dispatch to 12.
    let mut m = Machine::default();
    m.load(SEGMENT_INT_HANDLER_TABLE, 4, &[3, 10, 7, 12]).unwrap();
    m.load(SEGMENT_INT_PROGRAM_CODE, 12, &[0x2001, 0x0000]).unwrap();
    m.set_pc(0).unwrap();
    m.handle_interrupt(2, 7).unwrap();
    let d = m.dump();
    assert_eq!(d.registers[0], 1); // handler at 12 ran
    assert_eq!(d.registers[8], 1);
    assert_eq!(d.registers[9], 0);
}

#[test]
fn handler_that_never_halts_exhausts_budget() {
    // The handler is a JUMP to itself.
    let mut m = Machine::default();
    m.load(SEGMENT_INT_HANDLER_TABLE, 4, &[7, 8]).unwrap();
    m.load(SEGMENT_INT_PROGRAM_CODE, 8, &[0x4000]).unwrap(); // JUMP +0
    m.set_pc(0).unwrap();
    assert_eq!(m.handle_interrupt(1, 7), Err(VmError::HandlerDidNotHalt));
}

#[test]
fn handler_fault_is_reported() {
    // The handler jumps far outside memory; the next fetch faults.
    let mut m = Machine::default();
    m.load(SEGMENT_INT_HANDLER_TABLE, 4, &[7, 8]).unwrap();
    m.load(SEGMENT_INT_PROGRAM_CODE, 8, &[0x40FF]).unwrap(); // JUMP +255
    m.set_pc(0).unwrap();
    assert_eq!(m.handle_interrupt(1, 7), Err(VmError::AddressOutOfRange));
}

#[test]
fn controller_tracks_pending_interrupts() {
    let mut ic = InterruptController::new();
    assert_eq!(ic.pending(9), None);
    ic.raise(3, 9).unwrap();
    assert_eq!(ic.pending(9), Some(3));
    // Raising again overwrites the device.
    ic.raise(4, 9).unwrap();
    assert_eq!(ic.pending(9), Some(4));
    // Other interrupts are unaffected.
    assert_eq!(ic.pending(8), None);
    ic.int_ack(9).unwrap();
    assert_eq!(ic.pending(9), None);
    // Acknowledging an absent interrupt is harmless.
    ic.int_ack(9).unwrap();
    assert_eq!(ic.pending(9), None);
}

#[test]
fn controller_default_is_empty() {
    let ic = InterruptController::default();
    assert_eq!(ic.pending(0), None);
    assert_eq!(ic.pending(7), None);
}
