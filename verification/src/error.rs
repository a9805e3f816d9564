//! The error taxonomy of the machine: address range faults, segment
//! violations and the faults of interrupt dispatch.

use vstd::prelude::*;

verus! {

/// Everything a machine or memory operation can fail with. The status
/// register is never used as an error channel; these values are returned
/// to the caller instead.
#[derive(Clone, Copy, Debug, PartialEq, Eq, Structural)]
pub enum VmError {
    /// A read or write reached past the end of memory.
    AddressOutOfRange,
    /// A write would have re-tagged a slot that already belongs to a
    /// different segment.
    SegmentViolation,
    /// Interrupt dispatch was requested before any handler table was loaded.
    NoInterruptTable,
    /// A handler table entry matched but its address slot is missing or
    /// carries the wrong segment tag.
    MalformedInterruptTable,
    /// The handler table holds no entry for the raised interrupt.
    UnknownInterrupt,
    /// An interrupt handler ran for the whole step budget without halting.
    HandlerDidNotHalt,
    /// Input was supplied while the machine was not waiting for any.
    NotWaitingForInput,
}

} // verus!
