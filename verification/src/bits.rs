//! Word-level helpers: sign extension and the bit fields of an instruction.

use vstd::prelude::*;

verus! {

/// Sign extension: the low `k` bits of `v` are read as a `k`-bit
/// two's-complement number and widened to 16 bits. If bit `k - 1` is set,
/// every bit above it is filled with 1; otherwise `v` is left unchanged.
pub open spec fn sext(v: u16, k: u16) -> u16
    recommends
        1 <= k <= 16,
{
    if (v >> ((k - 1) as u16)) & 1u16 == 1u16 {
        v | !(((1u16 << ((k - 1) as u16)) - 1) as u16)
    } else {
        v
    }
}

/// Executable sign extension; `msb_index` is the width `k` in bits of the
/// value held in `val`.
pub fn get_sign_extended_value(val: u16, msb_index: usize) -> (r: u16)
    requires
        1 <= msb_index <= 16,
    ensures
        r == sext(val, msb_index as u16),
{
    let shift: u16 = (msb_index - 1) as u16;
    if (val >> shift) & 1 == 1 {
        assert((1u16 << shift) >= 1) by (bit_vector)
            requires
                shift <= 15,
        ;
        let low_mask: u16 = (1u16 << shift) - 1;
        val | !low_mask
    } else {
        val
    }
}

/// Sign extension is idempotent: extending an already-extended value changes
/// nothing.
pub proof fn lemma_sext_idempotent(v: u16, k: u16)
    by (bit_vector)
    requires
        1 <= k <= 16,
    ensures
        sext(sext(v, k), k) == sext(v, k),
{
}

/// Addition of two words modulo 2^16, the machine's two's-complement
/// wraparound rule.
pub open spec fn wrap_add(a: u16, b: u16) -> u16 {
    ((a + b) % 0x10000) as u16
}

/// Executable wraparound addition of two words.
pub fn wrapping_add_words(a: u16, b: u16) -> (r: u16)
    ensures
        r == wrap_add(a, b),
{
    (((a as u32) + (b as u32)) % 0x10000) as u16
}

/// The opcode: the top 4 bits of an instruction word.
pub open spec fn op_of(i: u16) -> u16 {
    i >> 12
}

/// The destination register field, bits 11..9.
pub open spec fn dr_of(i: u16) -> u16 {
    (i >> 9) & 7
}

/// The first source register field, bits 8..6.
pub open spec fn sr1_of(i: u16) -> u16 {
    (i >> 6) & 7
}

/// The addressing mode bit of ADD: bit 5, set for immediate mode.
pub open spec fn imm_mode_of(i: u16) -> u16 {
    (i >> 5) & 1
}

/// The 5-bit immediate of ADD, bits 4..0.
pub open spec fn imm5_of(i: u16) -> u16 {
    i & 0x1f
}

/// The second source register field of ADD in register mode, bits 2..0.
pub open spec fn sr2_of(i: u16) -> u16 {
    i & 7
}

/// The 8-bit immediate of LOAD, bits 7..0.
pub open spec fn imm8_of(i: u16) -> u16 {
    i & 0xff
}

/// The 9-bit PC-relative offset of the load-indirect and jump family,
/// bits 8..0.
pub open spec fn off9_of(i: u16) -> u16 {
    i & 0x1ff
}

/// The trap code of TRAP, bits 7..0.
pub open spec fn trap_code_of(i: u16) -> u16 {
    i & 0xff
}

/// Every instruction field fits its width; in particular each 3-bit register
/// field selects one of the eight general-purpose registers.
pub proof fn lemma_instruction_fields_bounded(i: u16)
    by (bit_vector)
    ensures
        op_of(i) <= 15,
        dr_of(i) < 8,
        sr1_of(i) < 8,
        imm_mode_of(i) <= 1,
        imm5_of(i) < 32,
        sr2_of(i) < 8,
        imm8_of(i) < 256,
        off9_of(i) < 512,
        trap_code_of(i) < 256,
{
}

} // verus!
