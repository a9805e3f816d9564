//! A verified 16-bit educational virtual machine in the LC-3 family: a
//! register machine with a small segment-tagged memory, a compact instruction
//! set, trap service routines and a software-interrupt mechanism driven by an
//! external interrupt controller.
//!
//! The crate holds two machine profiles. [`vm::Machine`] is the full machine:
//! segmented write-once memory, halt/wait lifecycle states and interrupt
//! dispatch through a handler table. [`simple::Machine`] is a reduced profile
//! with untagged memory and a bounded run loop. [`intc::InterruptController`]
//! tracks pending interrupts between raise and acknowledgement.

pub mod bits;
pub mod error;
pub mod intc;
pub mod simple;
pub mod vm;

pub use bits::get_sign_extended_value;
pub use error::VmError;
pub use intc::InterruptController;
pub use vm::{Dump, Machine, RSTAT_HALT, RSTAT_WAITING_FOR_INPUT};
