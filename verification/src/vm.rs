//! The full machine profile: ten registers, a segment-tagged write-once
//! memory, the instruction semantics, traps and interrupt dispatch.
//!
//! The whole observable behaviour of the machine is stated over
//! [`MachineState`], a mathematical image of the machine, and the one-step
//! transition function [`step_spec`].

use vstd::prelude::*;

use crate::bits::{
    dr_of, imm5_of, imm8_of, imm_mode_of, off9_of, op_of, sext, sr1_of, sr2_of, trap_code_of,
    wrap_add, get_sign_extended_value, lemma_instruction_fields_bounded, wrapping_add_words,
};
use crate::error::VmError;

verus! {

/// Number of memory slots.
pub const MEMORY_SLOT_COUNT: usize = 16;

/// Number of registers: eight general-purpose ones, the program counter and
/// the status register.
pub const REG_COUNT: usize = 10;

/// Index of the program counter register.
pub const RPC: usize = 8;

/// Index of the status register.
pub const RSTAT: usize = 9;

/// Status: the last value written to a general-purpose register was zero.
pub const RSTAT_CONDITION_ZERO: u16 = 0;

/// Status: the last value written was strictly positive (bit 15 clear).
pub const RSTAT_CONDITION_POSITIVE: u16 = 1;

/// Status: the last value written was negative (bit 15 set).
pub const RSTAT_CONDITION_NEGATIVE: u16 = 2;

/// Status: the machine is halted until the next `set_pc`.
pub const RSTAT_HALT: u16 = 3;

/// Status: the machine waits for a byte of input from the host.
pub const RSTAT_WAITING_FOR_INPUT: u16 = 4;

/// Opcode of BREAK.
pub const OP_BREAK: u16 = 0;

/// Opcode of ADD.
pub const OP_ADD: u16 = 1;

/// Opcode of LOAD immediate.
pub const OP_LOAD: u16 = 2;

/// Opcode of LOAD_INDIRECT.
pub const OP_LOAD_INDIRECT: u16 = 3;

/// Opcode of JUMP.
pub const OP_JUMP: u16 = 4;

/// Opcode of JUMP_IF_SIGN.
pub const OP_JUMP_IF_SIGN: u16 = 5;

/// Opcode of LOAD_REGISTER.
pub const OP_LOAD_REGISTER: u16 = 6;

/// Opcode of JUMP_IF_ZERO.
pub const OP_JUMP_IF_ZERO: u16 = 7;

/// Opcode of JUMP_IF_NO_SIGN.
pub const OP_JUMP_IF_NO_SIGN: u16 = 8;

/// Opcode of TRAP.
pub const OP_TRAP: u16 = 15;

/// Trap code: halt the program.
pub const TRAP_CODE_HALT: u16 = 0;

/// Trap code: request one byte of input from the host.
pub const TRAP_CODE_GETC: u16 = 1;

/// Segment tag of a slot that was never written.
pub const SEGMENT_UNINIT: u8 = 0;

/// Segment tag for data delivered by devices.
pub const SEGMENT_INT_DATA: u8 = 1;

/// Segment tag of the interrupt handler table.
pub const SEGMENT_INT_HANDLER_TABLE: u8 = 2;

/// Segment tag of interrupt handler code.
pub const SEGMENT_INT_PROGRAM_CODE: u8 = 3;

/// Segment tag of static program data.
pub const SEGMENT_PROGRAM_DATA: u8 = 4;

/// Segment tag of program code.
pub const SEGMENT_PROGRAM_CODE: u8 = 5;

/// Segment tag of dynamic data.
pub const SEGMENT_DYNAMIC_DATA: u8 = 6;

/// How many instructions an interrupt handler may execute before dispatch
/// gives up with [`VmError::HandlerDidNotHalt`].
pub const HANDLER_STEP_BUDGET: u32 = 65536;

/// The mathematical image of a machine: register file, memory slots (a
/// segment tag paired with a word) and the recorded base address of the
/// interrupt handler table.
#[verifier::ext_equal]
pub struct MachineState {
    /// The ten registers; indices 8 and 9 are PC and STAT.
    pub regs: Seq<u16>,
    /// The memory slots, each a `(segment tag, word)` pair.
    pub mem: Seq<(u8, u16)>,
    /// Base address captured when an `INT_HANDLER_TABLE` region was loaded.
    pub table: Option<u16>,
}

/// The shape every reachable machine has: ten registers and a full slot
/// array.
pub open spec fn state_wf(s: MachineState) -> bool {
    &&& s.regs.len() == REG_COUNT
    &&& s.mem.len() == MEMORY_SLOT_COUNT
}

/// The state of a machine as freshly constructed: all registers zero, all
/// memory uninitialised, no handler table.
pub open spec fn init_state() -> MachineState {
    MachineState {
        regs: Seq::new(REG_COUNT as nat, |i: int| 0u16),
        mem: Seq::new(MEMORY_SLOT_COUNT as nat, |i: int| (0u8, 0u16)),
        table: None,
    }
}

/// A write of `values` at `addr` is accepted: it stays in range and no
/// target slot already carries a different, non-uninitialised segment tag.
pub open spec fn write_ok(mem: Seq<(u8, u16)>, addr: int, values: Seq<(u8, u16)>) -> bool {
    &&& addr + values.len() <= mem.len()
    &&& forall|i: int|
        0 <= i < values.len() ==> (mem[addr + i].0 == SEGMENT_UNINIT || mem[addr + i].0 == (
        #[trigger] values[i]).0)
}

/// The memory after a successful write of `values` at `addr`.
pub open spec fn write_result(mem: Seq<(u8, u16)>, addr: int, values: Seq<(u8, u16)>) -> Seq<
    (u8, u16),
> {
    Seq::new(
        mem.len(),
        |j: int|
            if addr <= j < addr + values.len() {
                values[j - addr]
            } else {
                mem[j]
            },
    )
}

/// What a read of `n` slots at `addr` returns: the slot run if it lies in
/// range, nothing otherwise.
pub open spec fn read_result(mem: Seq<(u8, u16)>, addr: int, n: int) -> Option<Seq<(u8, u16)>> {
    if 0 <= addr && 0 <= n && addr + n <= mem.len() {
        Some(mem.subrange(addr, addr + n))
    } else {
        None
    }
}

/// The fixed slot array backing a machine.
struct Memory {
    slots: Vec<(u8, u16)>,
}

impl Memory {
    /// The slot array is always full-sized.
    spec fn wf(&self) -> bool {
        self.slots@.len() == MEMORY_SLOT_COUNT
    }

    /// A copy of the `slot_count` slots starting at `addr`; fails if and only
    /// if the run leaves the address space.
    fn read(&self, addr: usize, slot_count: usize) -> (r: Result<Vec<(u8, u16)>, VmError>)
        requires
            self.wf(),
        ensures
            match r {
                Ok(v) => read_result(self.slots@, addr as int, slot_count as int) == Some(v@),
                Err(e) => {
                    &&& read_result(self.slots@, addr as int, slot_count as int) is None
                    &&& e == VmError::AddressOutOfRange
                },
            },
    {
        if addr > self.slots.len() || slot_count > self.slots.len() - addr {
            return Err(VmError::AddressOutOfRange);
        }
        let mut out: Vec<(u8, u16)> = Vec::new();
        let mut i: usize = 0;
        while i < slot_count
            invariant
                self.wf(),
                addr + slot_count <= self.slots@.len(),
                i <= slot_count,
                out@ == self.slots@.subrange(addr as int, addr as int + i as int),
            decreases slot_count - i,
        {
            out.push(self.slots[addr + i]);
            proof {
                assert(out@ =~= self.slots@.subrange(addr as int, addr as int + (i + 1) as int));
            }
            i = i + 1;
        }
        Ok(out)
    }

    /// Write `values` starting at `addr`. The write is atomic: on any
    /// failure, range or segment conflict, memory is unchanged.
    fn write(&mut self, addr: usize, values: &[(u8, u16)]) -> (r: Result<(), VmError>)
        requires
            old(self).wf(),
        ensures
            final(self).wf(),
            match r {
                Ok(()) => {
                    &&& write_ok(old(self).slots@, addr as int, values@)
                    &&& final(self).slots@ == write_result(old(self).slots@, addr as int, values@)
                },
                Err(e) => {
                    &&& final(self).slots@ == old(self).slots@
                    &&& !write_ok(old(self).slots@, addr as int, values@)
                    &&& (e == VmError::AddressOutOfRange <==> addr + values@.len()
                        > old(self).slots@.len())
                    &&& (e == VmError::AddressOutOfRange || e == VmError::SegmentViolation)
                },
            },
    {
        let n = values.len();
        if addr > self.slots.len() || n > self.slots.len() - addr {
            return Err(VmError::AddressOutOfRange);
        }
        let mut i: usize = 0;
        while i < n
            invariant
                self.wf(),
                addr + n <= self.slots@.len(),
                n == values@.len(),
                i <= n,
                forall|j: int|
                    0 <= j < i ==> (self.slots@[addr + j].0 == SEGMENT_UNINIT || self.slots@[addr
                        + j].0 == (#[trigger] values@[j]).0),
            decreases n - i,
        {
            let current_segment = self.slots[addr + i].0;
            if current_segment != SEGMENT_UNINIT && current_segment != values[i].0 {
                return Err(VmError::SegmentViolation);
            }
            i = i + 1;
        }
        let ghost pre = self.slots@;
        let mut i: usize = 0;
        while i < n
            invariant
                self.wf(),
                addr + n <= self.slots@.len(),
                n == values@.len(),
                i <= n,
                self.slots@ == write_result(pre, addr as int, values@.subrange(0, i as int)),
            decreases n - i,
        {
            self.slots.set(addr + i, values[i]);
            proof {
                assert(self.slots@ =~= write_result(
                    pre,
                    addr as int,
                    values@.subrange(0, (i + 1) as int),
                ));
            }
            i = i + 1;
        }
        proof {
            assert(values@.subrange(0, n as int) =~= values@);
        }
        Ok(())
    }
}

/// The status value recorded after `v` is written to a general-purpose
/// register: ZERO for zero, NEGATIVE when bit 15 is set, POSITIVE otherwise.
pub open spec fn stat_of_value(v: u16) -> u16 {
    if v == 0 {
        RSTAT_CONDITION_ZERO
    } else if v >> 15 == 0 {
        RSTAT_CONDITION_POSITIVE
    } else {
        RSTAT_CONDITION_NEGATIVE
    }
}

/// The register file after `v` is written to general-purpose register `r`:
/// the register takes the value and STAT records its sign class.
pub open spec fn write_gp(regs: Seq<u16>, r: u16, v: u16) -> Seq<u16> {
    regs.update(r as int, v).update(RSTAT as int, stat_of_value(v))
}

/// The register file with the program counter advanced by one, modulo 2^16.
pub open spec fn bump_pc(regs: Seq<u16>) -> Seq<u16> {
    regs.update(RPC as int, wrap_add(regs[RPC as int], 1))
}

/// The register file after executing ADD with instruction word `i`.
pub open spec fn add_regs(regs: Seq<u16>, i: u16) -> Seq<u16> {
    let a = regs[sr1_of(i) as int];
    let b = if imm_mode_of(i) == 1 {
        sext(imm5_of(i), 5)
    } else {
        regs[sr2_of(i) as int]
    };
    bump_pc(write_gp(regs, dr_of(i), wrap_add(a, b)))
}

/// The register file after executing LOAD immediate with word `i`.
pub open spec fn load_regs(regs: Seq<u16>, i: u16) -> Seq<u16> {
    bump_pc(write_gp(regs, dr_of(i), sext(imm8_of(i), 8)))
}

/// The register file after LOAD_REGISTER: the source register's value moves
/// to the destination.
pub open spec fn load_register_regs(regs: Seq<u16>, i: u16) -> Seq<u16> {
    bump_pc(write_gp(regs, dr_of(i), regs[sr1_of(i) as int]))
}

/// The PC-relative target of the jump family: the current PC plus the
/// sign-extended 9-bit offset, modulo 2^16.
pub open spec fn branch_target(regs: Seq<u16>, i: u16) -> u16 {
    wrap_add(regs[RPC as int], sext(off9_of(i), 9))
}

/// The register file after an unconditional JUMP.
pub open spec fn jump_regs(regs: Seq<u16>, i: u16) -> Seq<u16> {
    regs.update(RPC as int, branch_target(regs, i))
}

/// The register file after a conditional jump: the branch is taken exactly
/// when `cond` holds, otherwise the PC advances by one.
pub open spec fn cond_jump_regs(regs: Seq<u16>, i: u16, cond: bool) -> Seq<u16> {
    if cond {
        jump_regs(regs, i)
    } else {
        bump_pc(regs)
    }
}

/// The register file after TRAP: HALT and GETC suspend the machine with the
/// PC unchanged; an unknown trap code only advances the PC.
pub open spec fn trap_regs(regs: Seq<u16>, i: u16) -> Seq<u16> {
    let t = trap_code_of(i);
    if t == TRAP_CODE_HALT {
        regs.update(RSTAT as int, RSTAT_HALT)
    } else if t == TRAP_CODE_GETC {
        regs.update(RSTAT as int, RSTAT_WAITING_FOR_INPUT)
    } else {
        bump_pc(regs)
    }
}

/// A machine whose status register holds HALT or WAITING_FOR_INPUT executes
/// nothing until the host intervenes.
pub open spec fn suspended(s: MachineState) -> bool {
    ||| s.regs[RSTAT as int] == RSTAT_HALT
    ||| s.regs[RSTAT as int] == RSTAT_WAITING_FOR_INPUT
}

/// One fetch-decode-execute step of the machine. A suspended machine steps
/// to itself. `None` is an address fault: the PC, or the effective address
/// of a LOAD_INDIRECT, lies outside memory. Reserved opcodes are no-ops
/// that advance the PC by one.
pub open spec fn step_spec(s: MachineState) -> Option<MachineState>
    recommends
        state_wf(s),
{
    if suspended(s) {
        Some(s)
    } else {
        let pc = s.regs[RPC as int];
        if pc as int >= MEMORY_SLOT_COUNT as int {
            None
        } else {
            let i = s.mem[pc as int].1;
            let op = op_of(i);
            if op == OP_BREAK {
                Some(MachineState { regs: s.regs.update(RSTAT as int, RSTAT_HALT), ..s })
            } else if op == OP_ADD {
                Some(MachineState { regs: add_regs(s.regs, i), ..s })
            } else if op == OP_LOAD {
                Some(MachineState { regs: load_regs(s.regs, i), ..s })
            } else if op == OP_LOAD_INDIRECT {
                let ea = branch_target(s.regs, i);
                if ea as int >= MEMORY_SLOT_COUNT as int {
                    None
                } else {
                    Some(
                        MachineState {
                            regs: bump_pc(write_gp(s.regs, dr_of(i), s.mem[ea as int].1)),
                            ..s
                        },
                    )
                }
            } else if op == OP_JUMP {
                Some(MachineState { regs: jump_regs(s.regs, i), ..s })
            } else if op == OP_JUMP_IF_SIGN {
                Some(
                    MachineState {
                        regs: cond_jump_regs(
                            s.regs,
                            i,
                            s.regs[RSTAT as int] == RSTAT_CONDITION_NEGATIVE,
                        ),
                        ..s
                    },
                )
            } else if op == OP_LOAD_REGISTER {
                Some(MachineState { regs: load_register_regs(s.regs, i), ..s })
            } else if op == OP_JUMP_IF_ZERO {
                Some(
                    MachineState {
                        regs: cond_jump_regs(
                            s.regs,
                            i,
                            s.regs[RSTAT as int] == RSTAT_CONDITION_ZERO,
                        ),
                        ..s
                    },
                )
            } else if op == OP_JUMP_IF_NO_SIGN {
                Some(
                    MachineState {
                        regs: cond_jump_regs(
                            s.regs,
                            i,
                            s.regs[RSTAT as int] == RSTAT_CONDITION_POSITIVE,
                        ),
                        ..s
                    },
                )
            } else if op == OP_TRAP {
                Some(MachineState { regs: trap_regs(s.regs, i), ..s })
            } else {
                Some(MachineState { regs: bump_pc(s.regs), ..s })
            }
        }
    }
}

/// What scanning the handler table yields for a raised interrupt: the
/// handler's start address, or the way the scan failed.
pub enum HandlerLookup {
    /// The table pairs the interrupt with this handler address.
    Found(u16),
    /// The scan hit a slot outside the table segment before any pair
    /// matched: the table has no entry for the interrupt.
    Missing,
    /// A pair matched but its address slot does not carry the table's
    /// segment tag: the table is malformed.
    Malformed,
    /// The scan ran past the end of memory.
    OutOfRange,
}

/// Scan the handler table for `interrupt`, reading pairs of slots from `p`:
/// the first slot of a pair is an interrupt id, the second the handler's
/// start address. A slot without the table's segment tag terminates the
/// table.
pub open spec fn find_handler(mem: Seq<(u8, u16)>, p: int, interrupt: u16) -> HandlerLookup
    decreases mem.len() + 2 - p,
        when 0 <= p
{
    if p >= mem.len() {
        HandlerLookup::OutOfRange
    } else if mem[p].0 != SEGMENT_INT_HANDLER_TABLE {
        HandlerLookup::Missing
    } else if mem[p].1 == interrupt {
        if p + 1 >= mem.len() {
            HandlerLookup::OutOfRange
        } else if mem[p + 1].0 != SEGMENT_INT_HANDLER_TABLE {
            HandlerLookup::Malformed
        } else {
            HandlerLookup::Found(mem[p + 1].1)
        }
    } else {
        find_handler(mem, p + 2, interrupt)
    }
}

/// The machine as interrupt dispatch starts a handler: the PC at the
/// handler's start address and the status register cleared to ZERO.
pub open spec fn handler_entry(s: MachineState, handler: u16) -> MachineState {
    MachineState {
        regs: s.regs.update(RPC as int, handler).update(RSTAT as int, RSTAT_CONDITION_ZERO),
        ..s
    }
}

/// `tr` is an execution of the machine from `start`: consecutive states are
/// related by [`step_spec`] and no state before the last is halted.
pub open spec fn handler_run(tr: Seq<MachineState>, start: MachineState) -> bool {
    &&& tr.len() >= 1
    &&& tr[0] == start
    &&& forall|i: int|
        0 <= i < tr.len() - 1 ==> ((#[trigger] tr[i]).regs[RSTAT as int] != RSTAT_HALT
            && step_spec(tr[i]) == Some(tr[i + 1]))
}

/// The machine after a handler ran to completion: the interrupted PC is
/// treated as completed, so the PC resumes one past it, and the status
/// register is cleared to ZERO.
pub open spec fn resume_state(s: MachineState, saved_pc: u16) -> MachineState {
    MachineState {
        regs: s.regs.update(RPC as int, wrap_add(saved_pc, 1)).update(
            RSTAT as int,
            RSTAT_CONDITION_ZERO,
        ),
        ..s
    }
}

/// Executing an instruction never writes memory or moves the handler table:
/// the instruction set has no store, so a step changes registers alone.
pub proof fn lemma_step_preserves_memory(s: MachineState)
    requires
        step_spec(s) is Some,
    ensures
        step_spec(s)->Some_0.mem == s.mem,
        step_spec(s)->Some_0.table == s.table,
{
}

/// A write that succeeds is faithful: immediately reading the same run
/// returns exactly the written slots, segment tags included.
pub proof fn lemma_write_then_read(mem: Seq<(u8, u16)>, addr: int, values: Seq<(u8, u16)>)
    requires
        0 <= addr,
        write_ok(mem, addr, values),
    ensures
        read_result(write_result(mem, addr, values), addr, values.len() as int) == Some(values),
{
    assert(write_result(mem, addr, values).subrange(addr, addr + values.len() as int) =~= values);
}

/// Segment tags are write-once: a successful write never changes the tag of
/// a slot that already carried one, inside or outside the written run.
pub proof fn lemma_tags_write_once(mem: Seq<(u8, u16)>, addr: int, values: Seq<(u8, u16)>, j: int)
    requires
        0 <= addr,
        write_ok(mem, addr, values),
        0 <= j < mem.len(),
        mem[j].0 != SEGMENT_UNINIT,
    ensures
        write_result(mem, addr, values)[j].0 == mem[j].0,
{
    if addr <= j < addr + values.len() {
        assert(mem[addr + (j - addr)].0 == SEGMENT_UNINIT || mem[addr + (j - addr)].0 == values[j
            - addr].0);
    }
}

/// The opcodes whose effect on the PC may be a PC-relative branch.
pub open spec fn is_branch(i: u16) -> bool {
    ||| op_of(i) == OP_JUMP
    ||| op_of(i) == OP_JUMP_IF_SIGN
    ||| op_of(i) == OP_JUMP_IF_ZERO
    ||| op_of(i) == OP_JUMP_IF_NO_SIGN
}

/// PC discipline: every executed instruction either advances the PC by
/// exactly one, or is a branch whose target is the old PC plus the
/// sign-extended 9-bit offset modulo 2^16, or suspends the machine (HALT or
/// WAITING_FOR_INPUT) leaving the PC unchanged.
pub proof fn lemma_step_pc_discipline(s: MachineState)
    requires
        state_wf(s),
        !suspended(s),
        step_spec(s) is Some,
    ensures
        ({
            let s2 = step_spec(s)->Some_0;
            let i = s.mem[s.regs[RPC as int] as int].1;
            ||| s2.regs[RPC as int] as int == s.regs[RPC as int] as int + 1
            ||| (is_branch(i) && s2.regs[RPC as int] == branch_target(s.regs, i))
            ||| ((s2.regs[RSTAT as int] == RSTAT_HALT || s2.regs[RSTAT as int]
                == RSTAT_WAITING_FOR_INPUT) && s2.regs[RPC as int] == s.regs[RPC as int])
        }),
{
    let i = s.mem[s.regs[RPC as int] as int].1;
    lemma_instruction_fields_bounded(i);
}

/// The instructions that write a general-purpose register.
pub open spec fn writes_gp_register(i: u16) -> bool {
    ||| op_of(i) == OP_ADD
    ||| op_of(i) == OP_LOAD
    ||| op_of(i) == OP_LOAD_INDIRECT
    ||| op_of(i) == OP_LOAD_REGISTER
}

/// The status rule at instruction level: after any instruction that writes
/// a general-purpose register, STAT is ZERO iff the written value is zero,
/// NEGATIVE iff its bit 15 is set, and POSITIVE otherwise.
pub proof fn lemma_gp_write_sets_stat(s: MachineState)
    requires
        state_wf(s),
        !suspended(s),
        step_spec(s) is Some,
        writes_gp_register(s.mem[s.regs[RPC as int] as int].1),
    ensures
        ({
            let s2 = step_spec(s)->Some_0;
            let i = s.mem[s.regs[RPC as int] as int].1;
            let v = s2.regs[dr_of(i) as int];
            &&& (s2.regs[RSTAT as int] == RSTAT_CONDITION_ZERO <==> v == 0)
            &&& (s2.regs[RSTAT as int] == RSTAT_CONDITION_NEGATIVE <==> v >> 15 == 1)
            &&& (s2.regs[RSTAT as int] == RSTAT_CONDITION_POSITIVE <==> (v != 0 && v >> 15 == 0))
        }),
{
    let i = s.mem[s.regs[RPC as int] as int].1;
    lemma_instruction_fields_bounded(i);
    let s2 = step_spec(s)->Some_0;
    let v = s2.regs[dr_of(i) as int];
    assert(v >> 15 <= 1) by (bit_vector);
    assert((v >> 15 == 1) ==> v != 0) by (bit_vector);
    if op_of(i) == OP_ADD {
        assert(s2.regs == add_regs(s.regs, i));
        assert(s2.regs[RSTAT as int] == stat_of_value(v));
    } else if op_of(i) == OP_LOAD {
        assert(s2.regs == load_regs(s.regs, i));
        assert(s2.regs[RSTAT as int] == stat_of_value(v));
    } else if op_of(i) == OP_LOAD_INDIRECT {
        assert(s2.regs[RSTAT as int] == stat_of_value(v));
    } else {
        assert(s2.regs == load_register_regs(s.regs, i));
        assert(s2.regs[RSTAT as int] == stat_of_value(v));
    }
}

/// The machine: register file, segmented memory and the recorded base of the
/// interrupt handler table.
pub struct Machine {
    registers: Vec<u16>,
    memory: Memory,
    interrupt_table_address: Option<u16>,
}

/// A read-only snapshot of the machine, registers and memory words exposed
/// as signed 16-bit values.
#[derive(Debug)]
pub struct Dump {
    /// The ten registers, reinterpreted as two's-complement values.
    pub registers: Vec<i16>,
    /// The memory slots: each segment tag with its word reinterpreted as a
    /// two's-complement value.
    pub memory: Vec<(u8, i16)>,
}

impl View for Machine {
    type V = MachineState;

    closed spec fn view(&self) -> MachineState {
        MachineState {
            regs: self.registers@,
            mem: self.memory.slots@,
            table: self.interrupt_table_address,
        }
    }
}

/// The word `v` reinterpreted as a two's-complement 16-bit value.
pub open spec fn as_signed(v: u16) -> i16 {
    if v < 0x8000 {
        v as i16
    } else {
        (v - 0x10000) as i16
    }
}

/// Executable reinterpretation of a word as a signed 16-bit value.
pub fn to_signed_word(v: u16) -> (r: i16)
    ensures
        r == as_signed(v),
{
    if v < 0x8000 {
        v as i16
    } else {
        let d: u32 = 0x10000 - (v as u32);
        (-(d as i32)) as i16
    }
}

/// The slot sequence that `load` writes: every word of `data` tagged with
/// `segment`.
pub open spec fn tagged_slots(segment: u8, data: Seq<u16>) -> Seq<(u8, u16)> {
    data.map(|i: int, v: u16| (segment, v))
}

impl Machine {
    /// The shape every reachable machine has; all public operations preserve
    /// it.
    pub open spec fn wf(&self) -> bool {
        state_wf(self@)
    }

    /// Write `data` into memory at `addr`, tagging each slot with `segment`.
    /// The write is atomic: on a range fault or a segment conflict nothing
    /// changes. Loading an `INT_HANDLER_TABLE` region records its base
    /// address for interrupt dispatch.
    pub fn load(&mut self, segment: u8, addr: u16, data: &[u16]) -> (r: Result<(), VmError>)
        requires
            old(self).wf(),
        ensures
            final(self).wf(),
            final(self)@.regs == old(self)@.regs,
            match r {
                Ok(()) => {
                    &&& write_ok(old(self)@.mem, addr as int, tagged_slots(segment, data@))
                    &&& final(self)@.mem == write_result(
                        old(self)@.mem,
                        addr as int,
                        tagged_slots(segment, data@),
                    )
                    &&& final(self)@.table == if segment == SEGMENT_INT_HANDLER_TABLE {
                        Some(addr)
                    } else {
                        old(self)@.table
                    }
                },
                Err(e) => {
                    &&& final(self)@ == old(self)@
                    &&& !write_ok(old(self)@.mem, addr as int, tagged_slots(segment, data@))
                    &&& (e == VmError::AddressOutOfRange <==> addr as int + data@.len()
                        > old(self)@.mem.len())
                    &&& (e == VmError::AddressOutOfRange || e == VmError::SegmentViolation)
                },
            },
    {
        let mut tagged: Vec<(u8, u16)> = Vec::new();
        let mut i: usize = 0;
        while i < data.len()
            invariant
                i <= data@.len(),
                tagged@ == tagged_slots(segment, data@.subrange(0, i as int)),
            decreases data@.len() - i,
        {
            tagged.push((segment, data[i]));
            proof {
                assert(tagged@ =~= tagged_slots(segment, data@.subrange(0, (i + 1) as int)));
            }
            i = i + 1;
        }
        proof {
            assert(data@.subrange(0, data@.len() as int) =~= data@);
        }
        match self.memory.write(addr as usize, tagged.as_slice()) {
            Ok(()) => {
                if segment == SEGMENT_INT_HANDLER_TABLE {
                    self.interrupt_table_address = Some(addr);
                }
                Ok(())
            },
            Err(e) => Err(e),
        }
    }

    /// Point the program counter at `addr` and clear the status register to
    /// ZERO, waking a halted or waiting machine.
    pub fn set_pc(&mut self, addr: u16) -> (r: Result<(), VmError>)
        requires
            old(self).wf(),
        ensures
            final(self).wf(),
            r is Ok,
            final(self)@.regs == old(self)@.regs.update(RPC as int, addr).update(
                RSTAT as int,
                RSTAT_CONDITION_ZERO,
            ),
            final(self)@.mem == old(self)@.mem,
            final(self)@.table == old(self)@.table,
    {
        self.registers.set(RPC, addr);
        self.registers.set(RSTAT, RSTAT_CONDITION_ZERO);
        Ok(())
    }

    /// Execute one instruction, or nothing if the machine is suspended, and
    /// report the resulting status register. The machine moves exactly as
    /// [`step_spec`] says; an address fault leaves it unchanged.
    pub fn execute_instruction(&mut self) -> (r: Result<u16, VmError>)
        requires
            old(self).wf(),
        ensures
            final(self).wf(),
            match r {
                Ok(stat) => {
                    &&& step_spec(old(self)@) == Some(final(self)@)
                    &&& stat == final(self)@.regs[RSTAT as int]
                },
                Err(e) => {
                    &&& final(self)@ == old(self)@
                    &&& step_spec(old(self)@) is None
                    &&& e == VmError::AddressOutOfRange
                },
            },
    {
        let stat = self.registers[RSTAT];
        if stat == RSTAT_HALT || stat == RSTAT_WAITING_FOR_INPUT {
            return Ok(stat);
        }
        let pc = self.registers[RPC];
        let fetched = match self.memory.read(pc as usize, 1) {
            Ok(v) => v,
            Err(e) => {
                return Err(e);
            },
        };
        let instr = fetched[0].1;
        proof {
            lemma_instruction_fields_bounded(instr);
            assert(instr == self@.mem[pc as int].1);
        }
        let op = instr >> 12;
        if op == OP_BREAK {
            self.registers.set(RSTAT, RSTAT_HALT);
        } else if op == OP_ADD {
            match self.instr_add(instr) {
                Ok(()) => (),
                Err(e) => {
                    return Err(e);
                },
            }
        } else if op == OP_LOAD {
            match self.instr_load(instr) {
                Ok(()) => (),
                Err(e) => {
                    return Err(e);
                },
            }
        } else if op == OP_LOAD_INDIRECT {
            match self.instr_load_indirect(instr) {
                Ok(()) => (),
                Err(e) => {
                    return Err(e);
                },
            }
        } else if op == OP_LOAD_REGISTER {
            match self.instr_load_register(instr) {
                Ok(()) => (),
                Err(e) => {
                    return Err(e);
                },
            }
        } else if op == OP_JUMP {
            match self.instr_jump(instr) {
                Ok(()) => (),
                Err(e) => {
                    return Err(e);
                },
            }
        } else if op == OP_JUMP_IF_SIGN {
            match self.instr_jump_if_sign(instr) {
                Ok(()) => (),
                Err(e) => {
                    return Err(e);
                },
            }
        } else if op == OP_JUMP_IF_NO_SIGN {
            match self.instr_jump_if_no_sign(instr) {
                Ok(()) => (),
                Err(e) => {
                    return Err(e);
                },
            }
        } else if op == OP_JUMP_IF_ZERO {
            match self.instr_jump_if_zero(instr) {
                Ok(()) => (),
                Err(e) => {
                    return Err(e);
                },
            }
        } else if op == OP_TRAP {
            match self.instr_trap(instr) {
                Ok(()) => (),
                Err(e) => {
                    return Err(e);
                },
            }
        } else {
            let pc2 = self.registers[RPC];
            self.registers.set(RPC, wrapping_add_words(pc2, 1));
        }
        proof {
            assert(step_spec(old(self)@) == Some(self@));
        }
        Ok(self.registers[RSTAT])
    }

    /// A snapshot of the machine with every word shown as a signed value.
    pub fn dump(&self) -> (d: Dump)
        requires
            self.wf(),
        ensures
            d.registers@.len() == REG_COUNT,
            forall|i: int|
                0 <= i < REG_COUNT ==> d.registers@[i] == as_signed(self@.regs[i]),
            d.memory@.len() == MEMORY_SLOT_COUNT,
            forall|i: int|
                0 <= i < MEMORY_SLOT_COUNT ==> d.memory@[i] == ((
                self@.mem[i].0,
                as_signed(self@.mem[i].1),
                )),
    {
        let mut registers: Vec<i16> = Vec::new();
        let mut i: usize = 0;
        while i < REG_COUNT
            invariant
                self.wf(),
                i <= REG_COUNT,
                registers@.len() == i,
                forall|j: int| 0 <= j < i ==> registers@[j] == as_signed(self@.regs[j]),
            decreases REG_COUNT - i,
        {
            registers.push(to_signed_word(self.registers[i]));
            i = i + 1;
        }
        let mut memory: Vec<(u8, i16)> = Vec::new();
        let mut i: usize = 0;
        while i < MEMORY_SLOT_COUNT
            invariant
                self.wf(),
                i <= MEMORY_SLOT_COUNT,
                memory@.len() == i,
                forall|j: int|
                    0 <= j < i ==> memory@[j] == ((self@.mem[j].0, as_signed(self@.mem[j].1))),
            decreases MEMORY_SLOT_COUNT - i,
        {
            let slot = self.memory.slots[i];
            memory.push((slot.0, to_signed_word(slot.1)));
            i = i + 1;
        }
        Dump { registers, memory }
    }

    /// Complete a pending GETC trap: store the byte in R0, advance the PC
    /// past the trap instruction and clear the status register to ZERO.
    /// Fails, changing nothing, unless the machine is waiting for input.
    pub fn supply_input(&mut self, byte: u8) -> (r: Result<(), VmError>)
        requires
            old(self).wf(),
        ensures
            final(self).wf(),
            final(self)@.mem == old(self)@.mem,
            final(self)@.table == old(self)@.table,
            match r {
                Ok(()) => {
                    &&& old(self)@.regs[RSTAT as int] == RSTAT_WAITING_FOR_INPUT
                    &&& final(self)@.regs == old(self)@.regs.update(0, byte as u16).update(
                        RPC as int,
                        wrap_add(old(self)@.regs[RPC as int], 1),
                    ).update(RSTAT as int, RSTAT_CONDITION_ZERO)
                },
                Err(e) => {
                    &&& old(self)@.regs[RSTAT as int] != RSTAT_WAITING_FOR_INPUT
                    &&& e == VmError::NotWaitingForInput
                    &&& final(self)@ == old(self)@
                },
            },
    {
        if self.registers[RSTAT] != RSTAT_WAITING_FOR_INPUT {
            return Err(VmError::NotWaitingForInput);
        }
        self.registers.set(0, byte as u16);
        let pc = self.registers[RPC];
        self.registers.set(RPC, wrapping_add_words(pc, 1));
        self.registers.set(RSTAT, RSTAT_CONDITION_ZERO);
        Ok(())
    }

    /// Scan the handler table at `table_addr` for `interrupt` and report the
    /// handler's start address, or exactly how the scan failed.
    fn lookup_handler(&self, table_addr: u16, interrupt: u16) -> (r: Result<u16, VmError>)
        requires
            self.wf(),
        ensures
            match r {
                Ok(h) => find_handler(self@.mem, table_addr as int, interrupt)
                    == HandlerLookup::Found(h),
                Err(e) => match find_handler(self@.mem, table_addr as int, interrupt) {
                    HandlerLookup::Found(_) => false,
                    HandlerLookup::Missing => e == VmError::UnknownInterrupt,
                    HandlerLookup::Malformed => e == VmError::MalformedInterruptTable,
                    HandlerLookup::OutOfRange => e == VmError::AddressOutOfRange,
                },
            },
    {
        let mut p: usize = table_addr as usize;
        if p >= MEMORY_SLOT_COUNT {
            return Err(VmError::AddressOutOfRange);
        }
        loop
            invariant
                self.wf(),
                p <= MEMORY_SLOT_COUNT + 1,
                find_handler(self@.mem, table_addr as int, interrupt) == find_handler(
                    self@.mem,
                    p as int,
                    interrupt,
                ),
            decreases MEMORY_SLOT_COUNT + 2 - p,
        {
            if p >= MEMORY_SLOT_COUNT {
                return Err(VmError::AddressOutOfRange);
            }
            let slot = self.memory.slots[p];
            if slot.0 != SEGMENT_INT_HANDLER_TABLE {
                return Err(VmError::UnknownInterrupt);
            }
            if slot.1 == interrupt {
                if p + 1 >= MEMORY_SLOT_COUNT {
                    return Err(VmError::AddressOutOfRange);
                }
                let slot2 = self.memory.slots[p + 1];
                if slot2.0 != SEGMENT_INT_HANDLER_TABLE {
                    return Err(VmError::MalformedInterruptTable);
                }
                return Ok(slot2.1);
            }
            p = p + 2;
        }
    }

    /// Dispatch a raised interrupt: look its handler up in the handler
    /// table, run the handler from its start address until it halts, then
    /// resume one instruction past the interrupted PC with STAT cleared to
    /// ZERO. On success the machine is exactly a completed handler run
    /// followed by that resumption; every failure is reported, and a failure
    /// before dispatch leaves the machine unchanged. Handlers are expected
    /// to preserve all registers but R0; the machine does not enforce this.
    #[verifier::loop_isolation(false)]
    #[verifier::rlimit(60)]
    pub fn handle_interrupt(&mut self, _device_id: u8, interrupt: u16) -> (r: Result<
        (),
        VmError,
    >)
        requires
            old(self).wf(),
        ensures
            final(self).wf(),
            final(self)@.mem == old(self)@.mem,
            final(self)@.table == old(self)@.table,
            r is Ok ==> final(self)@.regs[RPC as int] == wrap_add(old(self)@.regs[RPC as int], 1)
                && final(self)@.regs[RSTAT as int] == RSTAT_CONDITION_ZERO,
            match r {
                Ok(()) => {
                    &&& old(self)@.table is Some
                    &&& find_handler(
                        old(self)@.mem,
                        old(self)@.table->Some_0 as int,
                        interrupt,
                    ) matches HandlerLookup::Found(h) && (exists|tr: Seq<MachineState>|
                        {
                            &&& #[trigger] handler_run(tr, handler_entry(old(self)@, h))
                            &&& tr.last().regs[RSTAT as int] == RSTAT_HALT
                            &&& final(self)@ == resume_state(
                                tr.last(),
                                old(self)@.regs[RPC as int],
                            )
                        })
                },
                Err(e) => {
                    if old(self)@.table is None {
                        e == VmError::NoInterruptTable && final(self)@ == old(self)@
                    } else {
                        match find_handler(
                            old(self)@.mem,
                            old(self)@.table->Some_0 as int,
                            interrupt,
                        ) {
                            HandlerLookup::Missing => e == VmError::UnknownInterrupt
                                && final(self)@ == old(self)@,
                            HandlerLookup::Malformed => e == VmError::MalformedInterruptTable
                                && final(self)@ == old(self)@,
                            HandlerLookup::OutOfRange => e == VmError::AddressOutOfRange
                                && final(self)@ == old(self)@,
                            HandlerLookup::Found(h) => exists|tr: Seq<MachineState>|
                                {
                                    &&& #[trigger] handler_run(tr, handler_entry(old(self)@, h))
                                    &&& final(self)@ == tr.last()
                                    &&& tr.last().regs[RSTAT as int] != RSTAT_HALT
                                    &&& ((e == VmError::AddressOutOfRange && step_spec(tr.last())
                                        is None) || (e == VmError::HandlerDidNotHalt && tr.len()
                                        == HANDLER_STEP_BUDGET + 1))
                                },
                        }
                    }
                },
            },
    {
        let table_addr: u16 = match self.interrupt_table_address {
            Some(a) => a,
            None => {
                return Err(VmError::NoInterruptTable);
            },
        };
        let handler: u16 = match self.lookup_handler(table_addr, interrupt) {
            Ok(h) => h,
            Err(e) => {
                return Err(e);
            },
        };
        let saved_pc = self.registers[RPC];
        self.registers.set(RPC, handler);
        self.registers.set(RSTAT, RSTAT_CONDITION_ZERO);
        let ghost entry = self@;
        proof {
            assert(entry =~= handler_entry(old(self)@, handler));
        }
        let ghost mut tr: Seq<MachineState> = seq![self@];
        let mut steps: u32 = 0;
        while self.registers[RSTAT] != RSTAT_HALT
            invariant
                self.wf(),
                handler_run(tr, entry),
                tr.len() == steps + 1,
                tr.last() == self@,
                self@.mem == old(self)@.mem,
                self@.table == old(self)@.table,
                steps <= HANDLER_STEP_BUDGET,
            decreases HANDLER_STEP_BUDGET - steps,
        {
            if steps == HANDLER_STEP_BUDGET {
                return Err(VmError::HandlerDidNotHalt);
            }
            let ghost before = self@;
            match self.execute_instruction() {
                Ok(_) => (),
                Err(e) => {
                    return Err(e);
                },
            }
            proof {
                lemma_step_preserves_memory(before);
                tr = tr.push(self@);
            }
            steps = steps + 1;
        }
        self.registers.set(RPC, wrapping_add_words(saved_pc, 1));
        self.registers.set(RSTAT, RSTAT_CONDITION_ZERO);
        proof {
            assert(self@ =~= resume_state(tr.last(), saved_pc));
        }
        Ok(())
    }

    fn instr_add(&mut self, instr: u16) -> (r: Result<(), VmError>)
        requires
            old(self).wf(),
        ensures
            final(self).wf(),
            r is Ok,
            final(self)@.regs == add_regs(old(self)@.regs, instr),
            final(self)@.mem == old(self)@.mem,
            final(self)@.table == old(self)@.table,
    {
        proof {
            lemma_instruction_fields_bounded(instr);
        }
        let dest_reg = ((instr >> 9) & 7) as usize;
        let source_reg_1 = ((instr >> 6) & 7) as usize;
        let mode = ((instr >> 5) & 1) as usize;
        let b: u16 = if mode == 1 {
            get_sign_extended_value(instr & 0x1f, 5)
        } else {
            let source_reg_2 = (instr & 7) as usize;
            self.registers[source_reg_2]
        };
        let a = self.registers[source_reg_1];
        let v = wrapping_add_words(a, b);
        match self.write_to_register(dest_reg, v) {
            Ok(()) => (),
            Err(e) => {
                return Err(e);
            },
        }
        let pc = self.registers[RPC];
        self.registers.set(RPC, wrapping_add_words(pc, 1));
        Ok(())
    }

    fn instr_load(&mut self, instr: u16) -> (r: Result<(), VmError>)
        requires
            old(self).wf(),
        ensures
            final(self).wf(),
            r is Ok,
            final(self)@.regs == load_regs(old(self)@.regs, instr),
            final(self)@.mem == old(self)@.mem,
            final(self)@.table == old(self)@.table,
    {
        proof {
            lemma_instruction_fields_bounded(instr);
        }
        let reg = ((instr >> 9) & 7) as usize;
        let v = get_sign_extended_value(instr & 0xff, 8);
        match self.write_to_register(reg, v) {
            Ok(()) => (),
            Err(e) => {
                return Err(e);
            },
        }
        let pc = self.registers[RPC];
        self.registers.set(RPC, wrapping_add_words(pc, 1));
        Ok(())
    }

    fn instr_load_indirect(&mut self, instr: u16) -> (r: Result<(), VmError>)
        requires
            old(self).wf(),
        ensures
            final(self).wf(),
            final(self)@.mem == old(self)@.mem,
            final(self)@.table == old(self)@.table,
            ({
                let ea = branch_target(old(self)@.regs, instr);
                match r {
                    Ok(()) => {
                        &&& (ea as int) < (MEMORY_SLOT_COUNT as int)
                        &&& final(self)@.regs == bump_pc(
                            write_gp(old(self)@.regs, dr_of(instr), old(self)@.mem[ea as int].1),
                        )
                    },
                    Err(e) => {
                        &&& ea as int >= MEMORY_SLOT_COUNT as int
                        &&& final(self)@ == old(self)@
                        &&& e == VmError::AddressOutOfRange
                    },
                }
            }),
    {
        proof {
            lemma_instruction_fields_bounded(instr);
        }
        let reg = ((instr >> 9) & 7) as usize;
        let relative = get_sign_extended_value(instr & 0x1ff, 9);
        let pc = self.registers[RPC];
        let ea = wrapping_add_words(pc, relative);
        if ea as usize >= MEMORY_SLOT_COUNT {
            return Err(VmError::AddressOutOfRange);
        }
        let word = self.memory.slots[ea as usize].1;
        match self.write_to_register(reg, word) {
            Ok(()) => (),
            Err(e) => {
                return Err(e);
            },
        }
        let pc2 = self.registers[RPC];
        self.registers.set(RPC, wrapping_add_words(pc2, 1));
        Ok(())
    }

    fn instr_load_register(&mut self, instr: u16) -> (r: Result<(), VmError>)
        requires
            old(self).wf(),
        ensures
            final(self).wf(),
            r is Ok,
            final(self)@.regs == load_register_regs(old(self)@.regs, instr),
            final(self)@.mem == old(self)@.mem,
            final(self)@.table == old(self)@.table,
    {
        proof {
            lemma_instruction_fields_bounded(instr);
        }
        let dest_reg = ((instr >> 9) & 7) as usize;
        let source_reg = ((instr >> 6) & 7) as usize;
        let v = self.registers[source_reg];
        match self.write_to_register(dest_reg, v) {
            Ok(()) => (),
            Err(e) => {
                return Err(e);
            },
        }
        let pc = self.registers[RPC];
        self.registers.set(RPC, wrapping_add_words(pc, 1));
        Ok(())
    }

    fn instr_jump(&mut self, instr: u16) -> (r: Result<(), VmError>)
        requires
            old(self).wf(),
        ensures
            final(self).wf(),
            r is Ok,
            final(self)@.regs == jump_regs(old(self)@.regs, instr),
            final(self)@.mem == old(self)@.mem,
            final(self)@.table == old(self)@.table,
    {
        let relative = get_sign_extended_value(instr & 0x1ff, 9);
        let pc = self.registers[RPC];
        self.registers.set(RPC, wrapping_add_words(pc, relative));
        Ok(())
    }

    fn instr_jump_if_sign(&mut self, instr: u16) -> (r: Result<(), VmError>)
        requires
            old(self).wf(),
        ensures
            final(self).wf(),
            r is Ok,
            final(self)@.regs == cond_jump_regs(
                old(self)@.regs,
                instr,
                old(self)@.regs[RSTAT as int] == RSTAT_CONDITION_NEGATIVE,
            ),
            final(self)@.mem == old(self)@.mem,
            final(self)@.table == old(self)@.table,
    {
        let pc = self.registers[RPC];
        if self.registers[RSTAT] == RSTAT_CONDITION_NEGATIVE {
            let relative = get_sign_extended_value(instr & 0x1ff, 9);
            self.registers.set(RPC, wrapping_add_words(pc, relative));
        } else {
            self.registers.set(RPC, wrapping_add_words(pc, 1));
        }
        Ok(())
    }

    fn instr_jump_if_no_sign(&mut self, instr: u16) -> (r: Result<(), VmError>)
        requires
            old(self).wf(),
        ensures
            final(self).wf(),
            r is Ok,
            final(self)@.regs == cond_jump_regs(
                old(self)@.regs,
                instr,
                old(self)@.regs[RSTAT as int] == RSTAT_CONDITION_POSITIVE,
            ),
            final(self)@.mem == old(self)@.mem,
            final(self)@.table == old(self)@.table,
    {
        let pc = self.registers[RPC];
        if self.registers[RSTAT] == RSTAT_CONDITION_POSITIVE {
            let relative = get_sign_extended_value(instr & 0x1ff, 9);
            self.registers.set(RPC, wrapping_add_words(pc, relative));
        } else {
            self.registers.set(RPC, wrapping_add_words(pc, 1));
        }
        Ok(())
    }

    fn instr_jump_if_zero(&mut self, instr: u16) -> (r: Result<(), VmError>)
        requires
            old(self).wf(),
        ensures
            final(self).wf(),
            r is Ok,
            final(self)@.regs == cond_jump_regs(
                old(self)@.regs,
                instr,
                old(self)@.regs[RSTAT as int] == RSTAT_CONDITION_ZERO,
            ),
            final(self)@.mem == old(self)@.mem,
            final(self)@.table == old(self)@.table,
    {
        let pc = self.registers[RPC];
        if self.registers[RSTAT] == RSTAT_CONDITION_ZERO {
            let relative = get_sign_extended_value(instr & 0x1ff, 9);
            self.registers.set(RPC, wrapping_add_words(pc, relative));
        } else {
            self.registers.set(RPC, wrapping_add_words(pc, 1));
        }
        Ok(())
    }

    fn instr_trap(&mut self, instr: u16) -> (r: Result<(), VmError>)
        requires
            old(self).wf(),
        ensures
            final(self).wf(),
            r is Ok,
            final(self)@.regs == trap_regs(old(self)@.regs, instr),
            final(self)@.mem == old(self)@.mem,
            final(self)@.table == old(self)@.table,
    {
        let trap_code = instr & 0xff;
        if trap_code == TRAP_CODE_HALT {
            match self.trap_halt() {
                Ok(()) => (),
                Err(e) => {
                    return Err(e);
                },
            }
        } else if trap_code == TRAP_CODE_GETC {
            match self.trap_getc() {
                Ok(()) => (),
                Err(e) => {
                    return Err(e);
                },
            }
        } else {
            let pc = self.registers[RPC];
            self.registers.set(RPC, wrapping_add_words(pc, 1));
        }
        Ok(())
    }

    fn trap_halt(&mut self) -> (r: Result<(), VmError>)
        requires
            old(self).wf(),
        ensures
            final(self).wf(),
            r is Ok,
            final(self)@.regs == old(self)@.regs.update(RSTAT as int, RSTAT_HALT),
            final(self)@.mem == old(self)@.mem,
            final(self)@.table == old(self)@.table,
    {
        self.registers.set(RSTAT, RSTAT_HALT);
        Ok(())
    }

    fn trap_getc(&mut self) -> (r: Result<(), VmError>)
        requires
            old(self).wf(),
        ensures
            final(self).wf(),
            r is Ok,
            final(self)@.regs == old(self)@.regs.update(RSTAT as int, RSTAT_WAITING_FOR_INPUT),
            final(self)@.mem == old(self)@.mem,
            final(self)@.table == old(self)@.table,
    {
        self.registers.set(RSTAT, RSTAT_WAITING_FOR_INPUT);
        Ok(())
    }

    fn write_to_register(&mut self, dest_reg: usize, val: u16) -> (r: Result<(), VmError>)
        requires
            old(self).wf(),
            dest_reg < RPC,
        ensures
            final(self).wf(),
            r is Ok,
            final(self)@.regs == write_gp(old(self)@.regs, dest_reg as u16, val),
            final(self)@.mem == old(self)@.mem,
            final(self)@.table == old(self)@.table,
    {
        self.registers.set(dest_reg, val);
        let stat = if val == 0 {
            RSTAT_CONDITION_ZERO
        } else if (val >> 15) == 0 {
            RSTAT_CONDITION_POSITIVE
        } else {
            RSTAT_CONDITION_NEGATIVE
        };
        self.registers.set(RSTAT, stat);
        Ok(())
    }
}

impl Default for Machine {
    /// A fresh machine: all registers zero, every memory slot uninitialised,
    /// no interrupt table recorded.
    fn default() -> (r: Self)
        ensures
            r.wf(),
            r@ == init_state(),
    {
        let mut registers: Vec<u16> = Vec::new();
        let mut i: usize = 0;
        while i < REG_COUNT
            invariant
                i <= REG_COUNT,
                registers@.len() == i,
                forall|j: int| 0 <= j < i ==> registers@[j] == 0u16,
            decreases REG_COUNT - i,
        {
            registers.push(0);
            i = i + 1;
        }
        let mut slots: Vec<(u8, u16)> = Vec::new();
        let mut i: usize = 0;
        while i < MEMORY_SLOT_COUNT
            invariant
                i <= MEMORY_SLOT_COUNT,
                slots@.len() == i,
                forall|j: int| 0 <= j < i ==> slots@[j] == ((0u8, 0u16)),
            decreases MEMORY_SLOT_COUNT - i,
        {
            slots.push((0, 0));
            i = i + 1;
        }
        let r = Machine { registers, memory: Memory { slots }, interrupt_table_address: None };
        proof {
            assert(r@ =~= init_state());
        }
        r
    }
}

} // verus!
