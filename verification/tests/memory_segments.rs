use vmrs::vm::{
    Machine, SEGMENT_DYNAMIC_DATA, SEGMENT_PROGRAM_CODE, SEGMENT_PROGRAM_DATA,
};
use vmrs::VmError;

#[test]
fn segment_violation_keeps_first_write() {
    let mut m = Machine::default();
    m.load(SEGMENT_PROGRAM_CODE, 0, &[0x1234]).unwrap();
    assert_eq!(
        m.load(SEGMENT_PROGRAM_DATA, 0, &[0x0042]),
        Err(VmError::SegmentViolation)
    );
    let d = m.dump();
    assert_eq!(d.memory[0], (SEGMENT_PROGRAM_CODE, 0x1234));
}

#[test]
fn written_region_reads_back_with_tags() {
    let mut m = Machine::default();
    m.load(SEGMENT_DYNAMIC_DATA, 2, &[10, 20]).unwrap();
    let d = m.dump();
    assert_eq!(d.memory[2], (SEGMENT_DYNAMIC_DATA, 10));
    assert_eq!(d.memory[3], (SEGMENT_DYNAMIC_DATA, 20));
    // Slots around the region keep their uninitialised tag.
    assert_eq!(d.memory[1], (0, 0));
    assert_eq!(d.memory[4], (0, 0));
}

#[test]
fn overwrite_within_same_segment_is_permitted() {
    let mut m = Machine::default();
    m.load(SEGMENT_DYNAMIC_DATA, 2, &[10]).unwrap();
    m.load(SEGMENT_DYNAMIC_DATA, 2, &[30]).unwrap();
    assert_eq!(m.dump().memory[2], (SEGMENT_DYNAMIC_DATA, 30));
}

#[test]
fn load_past_end_of_memory_fails_atomically() {
    let mut m = Machine::default();
    assert_eq!(
        m.load(SEGMENT_PROGRAM_CODE, 15, &[1, 2]),
        Err(VmError::AddressOutOfRange)
    );
    // Nothing was written, not even the in-range slot.
    assert_eq!(m.dump().memory[15], (0, 0));
}

#[test]
fn failed_segmented_write_is_atomic() {
    // The conflict sits in the middle of the region: the slots before it
    // must stay untouched too.
    let mut m = Machine::default();
    m.load(SEGMENT_PROGRAM_CODE, 1, &[0x1111]).unwrap();
    assert_eq!(
        m.load(SEGMENT_PROGRAM_DATA, 0, &[7, 8, 9]),
        Err(VmError::SegmentViolation)
    );
    let d = m.dump();
    assert_eq!(d.memory[0], (0, 0));
    assert_eq!(d.memory[1], (SEGMENT_PROGRAM_CODE, 0x1111));
    assert_eq!(d.memory[2], (0, 0));
}

#[test]
fn dump_shows_words_as_signed_values() {
    let mut m = Machine::default();
    m.load(SEGMENT_PROGRAM_DATA, 5, &[0x8000, 0xFFFF, 0x7FFF]).unwrap();
    let d = m.dump();
    assert_eq!(d.memory[5], (SEGMENT_PROGRAM_DATA, -32768));
    assert_eq!(d.memory[6], (SEGMENT_PROGRAM_DATA, -1));
    assert_eq!(d.memory[7], (SEGMENT_PROGRAM_DATA, 32767));
}

#[test]
fn empty_load_succeeds_and_writes_nothing() {
    let mut m = Machine::default();
    m.load(SEGMENT_PROGRAM_CODE, 3, &[]).unwrap();
    assert_eq!(m.dump().memory[3], (0, 0));
}
