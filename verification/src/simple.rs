//! The reduced machine profile: the same register file and instruction
//! word layout as the full machine, but an untagged memory, no interrupt
//! mechanism and a bounded run loop instead of single stepping. Its
//! instruction set leaves out the zero and no-sign conditional jumps, which
//! behave as reserved opcodes here.

use vstd::prelude::*;

use crate::bits::{dr_of, get_sign_extended_value, op_of, wrapping_add_words};
use crate::error::VmError;
use crate::vm::{
    add_regs, as_signed, branch_target, bump_pc, cond_jump_regs, jump_regs, load_register_regs,
    load_regs, to_signed_word, trap_regs, write_gp, MEMORY_SLOT_COUNT, OP_ADD, OP_BREAK, OP_JUMP,
    OP_JUMP_IF_SIGN, OP_LOAD, OP_LOAD_INDIRECT, OP_LOAD_REGISTER, OP_TRAP, REG_COUNT, RPC, RSTAT,
    RSTAT_CONDITION_NEGATIVE, RSTAT_CONDITION_POSITIVE, RSTAT_CONDITION_ZERO, RSTAT_HALT,
    TRAP_CODE_GETC, TRAP_CODE_HALT,
};

verus! {

/// The most instructions one `run` call will execute before giving the
/// machine back to the caller.
pub const MAX_LOOP_ITERS: u16 = 30;

/// The mathematical image of the reduced machine: its register file and its
/// untagged memory words.
#[verifier::ext_equal]
pub struct MachineState {
    /// The ten registers; indices 8 and 9 are PC and STAT.
    pub regs: Seq<u16>,
    /// The memory words.
    pub mem: Seq<u16>,
}

/// The shape every reachable machine has: ten registers and a full word
/// array.
pub open spec fn state_wf(s: MachineState) -> bool {
    &&& s.regs.len() == REG_COUNT
    &&& s.mem.len() == MEMORY_SLOT_COUNT
}

/// The memory after `values` is written at `addr`.
pub open spec fn write_words(mem: Seq<u16>, addr: int, values: Seq<u16>) -> Seq<u16> {
    Seq::new(
        mem.len(),
        |j: int|
            if addr <= j < addr + values.len() {
                values[j - addr]
            } else {
                mem[j]
            },
    )
}

/// One fetch-decode-execute step of the reduced machine. `None` is an
/// address fault. Unlike the full machine there is no suspension check: the
/// bounded run loop stops on HALT itself. Opcodes outside the reduced set
/// are no-ops that advance the PC by one.
pub open spec fn step_spec(s: MachineState) -> Option<MachineState>
    recommends
        state_wf(s),
{
    let pc = s.regs[RPC as int];
    if pc as int >= MEMORY_SLOT_COUNT as int {
        None
    } else {
        let i = s.mem[pc as int];
        let op = op_of(i);
        if op == OP_BREAK {
            Some(MachineState { regs: s.regs.update(RSTAT as int, RSTAT_HALT), ..s })
        } else if op == OP_ADD {
            Some(MachineState { regs: add_regs(s.regs, i), ..s })
        } else if op == OP_LOAD {
            Some(MachineState { regs: load_regs(s.regs, i), ..s })
        } else if op == OP_LOAD_INDIRECT {
            let ea = branch_target(s.regs, i);
            if ea as int >= MEMORY_SLOT_COUNT as int {
                None
            } else {
                Some(
                    MachineState {
                        regs: bump_pc(write_gp(s.regs, dr_of(i), s.mem[ea as int])),
                        ..s
                    },
                )
            }
        } else if op == OP_JUMP {
            Some(MachineState { regs: jump_regs(s.regs, i), ..s })
        } else if op == OP_JUMP_IF_SIGN {
            Some(
                MachineState {
                    regs: cond_jump_regs(
                        s.regs,
                        i,
                        s.regs[RSTAT as int] == RSTAT_CONDITION_NEGATIVE,
                    ),
                    ..s
                },
            )
        } else if op == OP_LOAD_REGISTER {
            Some(MachineState { regs: load_register_regs(s.regs, i), ..s })
        } else if op == OP_TRAP {
            Some(MachineState { regs: trap_regs(s.regs, i), ..s })
        } else {
            Some(MachineState { regs: bump_pc(s.regs), ..s })
        }
    }
}

/// How a bounded run ends: the machine ran out of fuel or halted
/// (`Done`), or an address fault stopped it (`Stuck`). Either way the
/// carried state is the machine at that moment.
pub enum RunOutcome {
    /// The run completed: the machine halted or the fuel was spent.
    Done(MachineState),
    /// A step faulted; the machine is as the fault left it.
    Stuck(MachineState),
}

/// Run the machine for at most `fuel` steps, stopping early at HALT or at a
/// fault.
pub open spec fn run_spec(s: MachineState, fuel: nat) -> RunOutcome
    decreases fuel,
{
    if fuel == 0 {
        RunOutcome::Done(s)
    } else {
        match step_spec(s) {
            None => RunOutcome::Stuck(s),
            Some(s2) => {
                if s2.regs[RSTAT as int] == RSTAT_HALT || fuel == 1 {
                    RunOutcome::Done(s2)
                } else {
                    run_spec(s2, (fuel - 1) as nat)
                }
            },
        }
    }
}

/// The fixed word array backing the reduced machine.
struct Memory {
    slots: Vec<u16>,
}

impl Memory {
    /// The word array is always full-sized.
    spec fn wf(&self) -> bool {
        self.slots@.len() == MEMORY_SLOT_COUNT
    }

    /// Write `values` starting at `addr`; fails, changing nothing, if and
    /// only if the run leaves the address space.
    fn write(&mut self, addr: usize, values: &[u16]) -> (r: Result<(), VmError>)
        requires
            old(self).wf(),
        ensures
            final(self).wf(),
            match r {
                Ok(()) => {
                    &&& addr + values@.len() <= old(self).slots@.len()
                    &&& final(self).slots@ == write_words(old(self).slots@, addr as int, values@)
                },
                Err(e) => {
                    &&& final(self).slots@ == old(self).slots@
                    &&& addr + values@.len() > old(self).slots@.len()
                    &&& e == VmError::AddressOutOfRange
                },
            },
    {
        let n = values.len();
        if addr > self.slots.len() || n > self.slots.len() - addr {
            return Err(VmError::AddressOutOfRange);
        }
        let ghost pre = self.slots@;
        let mut i: usize = 0;
        while i < n
            invariant
                self.wf(),
                addr + n <= self.slots@.len(),
                n == values@.len(),
                i <= n,
                self.slots@ == write_words(pre, addr as int, values@.subrange(0, i as int)),
            decreases n - i,
        {
            self.slots.set(addr + i, values[i]);
            proof {
                assert(self.slots@ =~= write_words(
                    pre,
                    addr as int,
                    values@.subrange(0, (i + 1) as int),
                ));
            }
            i = i + 1;
        }
        proof {
            assert(values@.subrange(0, n as int) =~= values@);
        }
        Ok(())
    }
}

/// The reduced machine: a register file over an untagged word memory.
pub struct Machine {
    registers: Vec<u16>,
    memory: Memory,
}

/// A read-only snapshot of the reduced machine, words shown as signed
/// 16-bit values.
#[derive(Debug)]
pub struct Dump {
    /// The ten registers, reinterpreted as two's-complement values.
    pub registers: Vec<i16>,
    /// The memory words, reinterpreted as two's-complement values.
    pub memory: Vec<i16>,
}

impl View for Machine {
    type V = MachineState;

    closed spec fn view(&self) -> MachineState {
        MachineState { regs: self.registers@, mem: self.memory.slots@ }
    }
}

impl Machine {
    /// The shape every reachable machine has; all public operations preserve
    /// it.
    pub open spec fn wf(&self) -> bool {
        state_wf(self@)
    }

    /// Write `data` into memory at `addr`. The write is atomic: on a range
    /// fault nothing changes.
    pub fn load(&mut self, addr: u16, data: &[u16]) -> (r: Result<(), VmError>)
        requires
            old(self).wf(),
        ensures
            final(self).wf(),
            final(self)@.regs == old(self)@.regs,
            match r {
                Ok(()) => {
                    &&& addr as int + data@.len() <= old(self)@.mem.len()
                    &&& final(self)@.mem == write_words(old(self)@.mem, addr as int, data@)
                },
                Err(e) => {
                    &&& final(self)@ == old(self)@
                    &&& addr as int + data@.len() > old(self)@.mem.len()
                    &&& e == VmError::AddressOutOfRange
                },
            },
    {
        match self.memory.write(addr as usize, data) {
            Ok(()) => Ok(()),
            Err(e) => Err(e),
        }
    }

    /// Point the PC at `addr` and execute until the machine halts, a step
    /// faults, or `MAX_LOOP_ITERS` instructions have run, exactly as
    /// [`run_spec`] says.
    #[verifier::loop_isolation(false)]
    pub fn run(&mut self, addr: u16) -> (r: Result<(), VmError>)
        requires
            old(self).wf(),
        ensures
            final(self).wf(),
            ({
                let start = MachineState {
                    regs: old(self)@.regs.update(RPC as int, addr),
                    mem: old(self)@.mem,
                };
                match r {
                    Ok(()) => run_spec(start, MAX_LOOP_ITERS as nat) == RunOutcome::Done(
                        final(self)@,
                    ),
                    Err(e) => {
                        &&& run_spec(start, MAX_LOOP_ITERS as nat) == RunOutcome::Stuck(
                            final(self)@,
                        )
                        &&& e == VmError::AddressOutOfRange
                    },
                }
            }),
    {
        self.registers.set(RPC, addr);
        let ghost start = self@;
        let mut ic: u16 = 0;
        let mut running: bool = true;
        while running
            invariant
                self.wf(),
                ic <= MAX_LOOP_ITERS,
                running ==> ic < MAX_LOOP_ITERS && run_spec(start, MAX_LOOP_ITERS as nat)
                    == run_spec(self@, (MAX_LOOP_ITERS - ic) as nat),
                !running ==> run_spec(start, MAX_LOOP_ITERS as nat) == RunOutcome::Done(self@),
            decreases MAX_LOOP_ITERS - ic,
        {
            match self.step() {
                Ok(()) => (),
                Err(e) => {
                    return Err(e);
                },
            }
            ic = ic + 1;
            if self.registers[RSTAT] == RSTAT_HALT || ic == MAX_LOOP_ITERS {
                running = false;
            }
        }
        Ok(())
    }

    /// A snapshot of the machine with every word shown as a signed value.
    pub fn dump(&self) -> (d: Dump)
        requires
            self.wf(),
        ensures
            d.registers@.len() == REG_COUNT,
            forall|i: int|
                0 <= i < REG_COUNT ==> d.registers@[i] == as_signed(self@.regs[i]),
            d.memory@.len() == MEMORY_SLOT_COUNT,
            forall|i: int|
                0 <= i < MEMORY_SLOT_COUNT ==> d.memory@[i] == as_signed(self@.mem[i]),
    {
        let mut registers: Vec<i16> = Vec::new();
        let mut i: usize = 0;
        while i < REG_COUNT
            invariant
                self.wf(),
                i <= REG_COUNT,
                registers@.len() == i,
                forall|j: int| 0 <= j < i ==> registers@[j] == as_signed(self@.regs[j]),
            decreases REG_COUNT - i,
        {
            registers.push(to_signed_word(self.registers[i]));
            i = i + 1;
        }
        let mut memory: Vec<i16> = Vec::new();
        let mut i: usize = 0;
        while i < MEMORY_SLOT_COUNT
            invariant
                self.wf(),
                i <= MEMORY_SLOT_COUNT,
                memory@.len() == i,
                forall|j: int| 0 <= j < i ==> memory@[j] == as_signed(self@.mem[j]),
            decreases MEMORY_SLOT_COUNT - i,
        {
            memory.push(to_signed_word(self.memory.slots[i]));
            i = i + 1;
        }
        Dump { registers, memory }
    }

    /// Execute one instruction; the machine moves exactly as [`step_spec`]
    /// says, and an address fault leaves it unchanged.
    fn step(&mut self) -> (r: Result<(), VmError>)
        requires
            old(self).wf(),
        ensures
            final(self).wf(),
            match r {
                Ok(()) => step_spec(old(self)@) == Some(final(self)@),
                Err(e) => {
                    &&& final(self)@ == old(self)@
                    &&& step_spec(old(self)@) is None
                    &&& e == VmError::AddressOutOfRange
                },
            },
    {
        let pc = self.registers[RPC];
        if pc as usize >= MEMORY_SLOT_COUNT {
            return Err(VmError::AddressOutOfRange);
        }
        let instr = self.memory.slots[pc as usize];
        proof {
            crate::bits::lemma_instruction_fields_bounded(instr);
        }
        let op = instr >> 12;
        if op == OP_BREAK {
            self.registers.set(RSTAT, RSTAT_HALT);
        } else if op == OP_ADD {
            match self.instr_add(instr) {
                Ok(()) => (),
                Err(e) => {
                    return Err(e);
                },
            }
        } else if op == OP_LOAD {
            match self.instr_load(instr) {
                Ok(()) => (),
                Err(e) => {
                    return Err(e);
                },
            }
        } else if op == OP_LOAD_INDIRECT {
            match self.instr_load_indirect(instr) {
                Ok(()) => (),
                Err(e) => {
                    return Err(e);
                },
            }
        } else if op == OP_LOAD_REGISTER {
            match self.instr_load_register(instr) {
                Ok(()) => (),
                Err(e) => {
                    return Err(e);
                },
            }
        } else if op == OP_JUMP {
            match self.instr_jump(instr) {
                Ok(()) => (),
                Err(e) => {
                    return Err(e);
                },
            }
        } else if op == OP_JUMP_IF_SIGN {
            match self.instr_jump_if_sign(instr) {
                Ok(()) => (),
                Err(e) => {
                    return Err(e);
                },
            }
        } else if op == OP_TRAP {
            match self.instr_trap(instr) {
                Ok(()) => (),
                Err(e) => {
                    return Err(e);
                },
            }
        } else {
            let pc2 = self.registers[RPC];
            self.registers.set(RPC, wrapping_add_words(pc2, 1));
        }
        proof {
            assert(step_spec(old(self)@) == Some(self@));
        }
        Ok(())
    }

    fn instr_add(&mut self, instr: u16) -> (r: Result<(), VmError>)
        requires
            old(self).wf(),
        ensures
            final(self).wf(),
            r is Ok,
            final(self)@.regs == add_regs(old(self)@.regs, instr),
            final(self)@.mem == old(self)@.mem,
    {
        proof {
            crate::bits::lemma_instruction_fields_bounded(instr);
        }
        let dest_reg = ((instr >> 9) & 7) as usize;
        let source_reg_1 = ((instr >> 6) & 7) as usize;
        let mode = ((instr >> 5) & 1) as usize;
        let b: u16 = if mode == 1 {
            get_sign_extended_value(instr & 0x1f, 5)
        } else {
            let source_reg_2 = (instr & 7) as usize;
            self.registers[source_reg_2]
        };
        let a = self.registers[source_reg_1];
        let v = wrapping_add_words(a, b);
        match self.write_to_register(dest_reg, v) {
            Ok(()) => (),
            Err(e) => {
                return Err(e);
            },
        }
        let pc = self.registers[RPC];
        self.registers.set(RPC, wrapping_add_words(pc, 1));
        Ok(())
    }

    fn instr_load(&mut self, instr: u16) -> (r: Result<(), VmError>)
        requires
            old(self).wf(),
        ensures
            final(self).wf(),
            r is Ok,
            final(self)@.regs == load_regs(old(self)@.regs, instr),
            final(self)@.mem == old(self)@.mem,
    {
        proof {
            crate::bits::lemma_instruction_fields_bounded(instr);
        }
        let reg = ((instr >> 9) & 7) as usize;
        let v = get_sign_extended_value(instr & 0xff, 8);
        match self.write_to_register(reg, v) {
            Ok(()) => (),
            Err(e) => {
                return Err(e);
            },
        }
        let pc = self.registers[RPC];
        self.registers.set(RPC, wrapping_add_words(pc, 1));
        Ok(())
    }

    fn instr_load_indirect(&mut self, instr: u16) -> (r: Result<(), VmError>)
        requires
            old(self).wf(),
        ensures
            final(self).wf(),
            final(self)@.mem == old(self)@.mem,
            ({
                let ea = branch_target(old(self)@.regs, instr);
                match r {
                    Ok(()) => {
                        &&& (ea as int) < (MEMORY_SLOT_COUNT as int)
                        &&& final(self)@.regs == bump_pc(
                            write_gp(old(self)@.regs, dr_of(instr), old(self)@.mem[ea as int]),
                        )
                    },
                    Err(e) => {
                        &&& ea as int >= MEMORY_SLOT_COUNT as int
                        &&& final(self)@ == old(self)@
                        &&& e == VmError::AddressOutOfRange
                    },
                }
            }),
    {
        proof {
            crate::bits::lemma_instruction_fields_bounded(instr);
        }
        let reg = ((instr >> 9) & 7) as usize;
        let relative = get_sign_extended_value(instr & 0x1ff, 9);
        let pc = self.registers[RPC];
        let ea = wrapping_add_words(pc, relative);
        if ea as usize >= MEMORY_SLOT_COUNT {
            return Err(VmError::AddressOutOfRange);
        }
        let word = self.memory.slots[ea as usize];
        match self.write_to_register(reg, word) {
            Ok(()) => (),
            Err(e) => {
                return Err(e);
            },
        }
        let pc2 = self.registers[RPC];
        self.registers.set(RPC, wrapping_add_words(pc2, 1));
        Ok(())
    }

    fn instr_load_register(&mut self, instr: u16) -> (r: Result<(), VmError>)
        requires
            old(self).wf(),
        ensures
            final(self).wf(),
            r is Ok,
            final(self)@.regs == load_register_regs(old(self)@.regs, instr),
            final(self)@.mem == old(self)@.mem,
    {
        proof {
            crate::bits::lemma_instruction_fields_bounded(instr);
        }
        let dest_reg = ((instr >> 9) & 7) as usize;
        let source_reg = ((instr >> 6) & 7) as usize;
        let v = self.registers[source_reg];
        match self.write_to_register(dest_reg, v) {
            Ok(()) => (),
            Err(e) => {
                return Err(e);
            },
        }
        let pc = self.registers[RPC];
        self.registers.set(RPC, wrapping_add_words(pc, 1));
        Ok(())
    }

    fn instr_jump(&mut self, instr: u16) -> (r: Result<(), VmError>)
        requires
            old(self).wf(),
        ensures
            final(self).wf(),
            r is Ok,
            final(self)@.regs == jump_regs(old(self)@.regs, instr),
            final(self)@.mem == old(self)@.mem,
    {
        let relative = get_sign_extended_value(instr & 0x1ff, 9);
        let pc = self.registers[RPC];
        self.registers.set(RPC, wrapping_add_words(pc, relative));
        Ok(())
    }

    fn instr_jump_if_sign(&mut self, instr: u16) -> (r: Result<(), VmError>)
        requires
            old(self).wf(),
        ensures
            final(self).wf(),
            r is Ok,
            final(self)@.regs == cond_jump_regs(
                old(self)@.regs,
                instr,
                old(self)@.regs[RSTAT as int] == RSTAT_CONDITION_NEGATIVE,
            ),
            final(self)@.mem == old(self)@.mem,
    {
        let pc = self.registers[RPC];
        if self.registers[RSTAT] == RSTAT_CONDITION_NEGATIVE {
            let relative = get_sign_extended_value(instr & 0x1ff, 9);
            self.registers.set(RPC, wrapping_add_words(pc, relative));
        } else {
            self.registers.set(RPC, wrapping_add_words(pc, 1));
        }
        Ok(())
    }

    fn instr_trap(&mut self, instr: u16) -> (r: Result<(), VmError>)
        requires
            old(self).wf(),
        ensures
            final(self).wf(),
            r is Ok,
            final(self)@.regs == trap_regs(old(self)@.regs, instr),
            final(self)@.mem == old(self)@.mem,
    {
        let trap_code = instr & 0xff;
        if trap_code == TRAP_CODE_HALT {
            match self.trap_halt() {
                Ok(()) => (),
                Err(e) => {
                    return Err(e);
                },
            }
        } else if trap_code == TRAP_CODE_GETC {
            match self.trap_getc() {
                Ok(()) => (),
                Err(e) => {
                    return Err(e);
                },
            }
        } else {
            let pc = self.registers[RPC];
            self.registers.set(RPC, wrapping_add_words(pc, 1));
        }
        Ok(())
    }

    fn trap_halt(&mut self) -> (r: Result<(), VmError>)
        requires
            old(self).wf(),
        ensures
            final(self).wf(),
            r is Ok,
            final(self)@.regs == old(self)@.regs.update(RSTAT as int, RSTAT_HALT),
            final(self)@.mem == old(self)@.mem,
    {
        self.registers.set(RSTAT, RSTAT_HALT);
        Ok(())
    }

    fn trap_getc(&mut self) -> (r: Result<(), VmError>)
        requires
            old(self).wf(),
        ensures
            final(self).wf(),
            r is Ok,
            final(self)@.regs == old(self)@.regs.update(
                RSTAT as int,
                crate::vm::RSTAT_WAITING_FOR_INPUT,
            ),
            final(self)@.mem == old(self)@.mem,
    {
        self.registers.set(RSTAT, crate::vm::RSTAT_WAITING_FOR_INPUT);
        Ok(())
    }

    fn write_to_register(&mut self, dest_reg: usize, val: u16) -> (r: Result<(), VmError>)
        requires
            old(self).wf(),
            dest_reg < RPC,
        ensures
            final(self).wf(),
            r is Ok,
            final(self)@.regs == write_gp(old(self)@.regs, dest_reg as u16, val),
            final(self)@.mem == old(self)@.mem,
    {
        self.registers.set(dest_reg, val);
        let stat = if val == 0 {
            RSTAT_CONDITION_ZERO
        } else if (val >> 15) == 0 {
            RSTAT_CONDITION_POSITIVE
        } else {
            RSTAT_CONDITION_NEGATIVE
        };
        self.registers.set(RSTAT, stat);
        Ok(())
    }
}

impl Default for Machine {
    /// A fresh reduced machine: all registers and memory words zero.
    fn default() -> (r: Self)
        ensures
            r.wf(),
            r@.regs == Seq::new(REG_COUNT as nat, |i: int| 0u16),
            r@.mem == Seq::new(MEMORY_SLOT_COUNT as nat, |i: int| 0u16),
    {
        let mut registers: Vec<u16> = Vec::new();
        let mut i: usize = 0;
        while i < REG_COUNT
            invariant
                i <= REG_COUNT,
                registers@.len() == i,
                forall|j: int| 0 <= j < i ==> registers@[j] == 0u16,
            decreases REG_COUNT - i,
        {
            registers.push(0);
            i = i + 1;
        }
        let mut slots: Vec<u16> = Vec::new();
        let mut i: usize = 0;
        while i < MEMORY_SLOT_COUNT
            invariant
                i <= MEMORY_SLOT_COUNT,
                slots@.len() == i,
                forall|j: int| 0 <= j < i ==> slots@[j] == 0u16,
            decreases MEMORY_SLOT_COUNT - i,
        {
            slots.push(0);
            i = i + 1;
        }
        let r = Machine { registers, memory: Memory { slots } };
        proof {
            assert(r@.regs =~= Seq::new(REG_COUNT as nat, |i: int| 0u16));
            assert(r@.mem =~= Seq::new(MEMORY_SLOT_COUNT as nat, |i: int| 0u16));
        }
        r
    }
}

} // verus!
