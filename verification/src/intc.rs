//! The interrupt controller: a table of pending interrupts, filled when a
//! device raises one and cleared when the machine acknowledges it.

use std::collections::HashMap;

use vstd::prelude::*;

use crate::error::VmError;

verus! {

broadcast use vstd::std_specs::hash::group_hash_axioms;

/// Maps each pending interrupt id to the device that raised it. An entry is
/// present from raise until acknowledgement.
#[derive(Debug)]
pub struct InterruptController {
    interrupts: HashMap<u16, u8>,
}

impl View for InterruptController {
    type V = Map<u16, u8>;

    closed spec fn view(&self) -> Map<u16, u8> {
        self.interrupts@
    }
}

impl InterruptController {
    /// A controller with no pending interrupt.
    pub fn new() -> (r: Self)
        ensures
            r@ == Map::<u16, u8>::empty(),
    {
        InterruptController { interrupts: HashMap::new() }
    }

    /// Record that device `dev` raised `interrupt`; it stays pending until
    /// acknowledged. Raising the same interrupt again overwrites the device.
    pub fn raise(&mut self, dev: u8, interrupt: u16) -> (r: Result<(), VmError>)
        ensures
            r is Ok,
            final(self)@ == old(self)@.insert(interrupt, dev),
    {
        self.interrupts.insert(interrupt, dev);
        Ok(())
    }

    /// Acknowledge `interrupt`: it is no longer pending. Acknowledging an
    /// interrupt that was not pending changes nothing.
    pub fn int_ack(&mut self, interrupt: u16) -> (r: Result<(), VmError>)
        ensures
            r is Ok,
            final(self)@ == old(self)@.remove(interrupt),
    {
        self.interrupts.remove(&interrupt);
        Ok(())
    }

    /// The device whose raise of `interrupt` is still pending, if any.
    pub fn pending(&self, interrupt: u16) -> (r: Option<u8>)
        ensures
            r == (if self@.contains_key(interrupt) {
                Some(self@[interrupt])
            } else {
                None
            }),
    {
        match self.interrupts.get(&interrupt) {
            Some(d) => Some(*d),
            None => None,
        }
    }
}

impl Default for InterruptController {
    /// Same as [`InterruptController::new`]: no pending interrupt.
    fn default() -> (r: Self)
        ensures
            r@ == Map::<u16, u8>::empty(),
    {
        Self::new()
    }
}

} // verus!
