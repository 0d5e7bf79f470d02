//! The barrel shifter: operand 2 of data-processing instructions and the
//! scaled register offsets of loads and stores, with its carry-out.
use vstd::prelude::*;

verus! {

pub const SHIFT_LSL: u32 = 0;
pub const SHIFT_LSR: u32 = 1;
pub const SHIFT_ASR: u32 = 2;
pub const SHIFT_ROR: u32 = 3;

/// Whether bit `i` of `w` is set.
pub open spec fn bit_set(w: u32, i: u32) -> bool {
    (w >> i) & 1 == 1
}

/// `v` rotated right by `n` places (`n` taken modulo 32).
pub open spec fn ror(v: u32, n: u32) -> u32 {
    let k = n % 32;
    if k == 0 {
        v
    } else {
        (v >> k) | (v << ((32 - k) as u32))
    }
}

/// Arithmetic shift right by `n`, with `0 < n < 32`.
pub open spec fn asr(v: u32, n: u32) -> u32 {
    if bit_set(v, 31) {
        !((!v) >> n)
    } else {
        v >> n
    }
}

/// Every bit set to bit 31 of `v`.
pub open spec fn sign_fill(v: u32) -> u32 {
    if bit_set(v, 31) {
        0xFFFF_FFFF
    } else {
        0
    }
}

/// The shifter's (result, carry-out) for a shift by the immediate `amount`
/// (0..31) of kind `kind`, with carry-in `c`.
pub open spec fn shift_imm_spec(v: u32, kind: u32, amount: u32, c: bool) -> (u32, bool) {
    if kind == SHIFT_LSL {
        if amount == 0 {
            (v, c)
        } else {
            (v << amount, bit_set(v, (32 - amount) as u32))
        }
    } else if kind == SHIFT_LSR {
        if amount == 0 {
            (0, bit_set(v, 31))
        } else {
            (v >> amount, bit_set(v, (amount - 1) as u32))
        }
    } else if kind == SHIFT_ASR {
        if amount == 0 {
            (sign_fill(v), bit_set(v, 31))
        } else {
            (asr(v, amount), bit_set(v, (amount - 1) as u32))
        }
    } else {
        if amount == 0 {
            ((if c { 0x8000_0000u32 } else { 0u32 }) | (v >> 1), bit_set(v, 0))
        } else {
            (ror(v, amount), bit_set(v, (amount - 1) as u32))
        }
    }
}

/// The shifter's (result, carry-out) for a shift by the low byte `amount`
/// (0..255) of a register.
pub open spec fn shift_reg_spec(v: u32, kind: u32, amount: u32, c: bool) -> (u32, bool) {
    if amount == 0 {
        (v, c)
    } else if kind == SHIFT_LSL {
        if amount < 32 {
            (v << amount, bit_set(v, (32 - amount) as u32))
        } else if amount == 32 {
            (0, bit_set(v, 0))
        } else {
            (0, false)
        }
    } else if kind == SHIFT_LSR {
        if amount < 32 {
            (v >> amount, bit_set(v, (amount - 1) as u32))
        } else if amount == 32 {
            (0, bit_set(v, 31))
        } else {
            (0, false)
        }
    } else if kind == SHIFT_ASR {
        if amount < 32 {
            (asr(v, amount), bit_set(v, (amount - 1) as u32))
        } else {
            (sign_fill(v), bit_set(v, 31))
        }
    } else {
        let k = amount % 32;
        if k == 0 {
            (v, bit_set(v, 31))
        } else {
            (ror(v, k), bit_set(v, (k - 1) as u32))
        }
    }
}

/// The (value, carry-out) of an 8-bit immediate rotated right by twice the
/// 4-bit `rotate` field.
pub open spec fn rotated_imm_spec(imm8: u32, rotate: u32, c: bool) -> (u32, bool) {
    let v = ror(imm8, (2 * rotate) as u32);
    if rotate == 0 {
        (v, c)
    } else {
        (v, bit_set(v, 31))
    }
}

fn test_bit(w: u32, i: u32) -> (r: bool)
    requires
        i < 32,
    ensures
        r == bit_set(w, i),
{
    (w >> i) & 1 == 1
}

/// Rotates `v` right by `n` places.
pub fn rotate_right(v: u32, n: u32) -> (r: u32)
    ensures
        r == ror(v, n),
{
    let k = n % 32;
    if k == 0 {
        v
    } else {
        (v >> k) | (v << (32 - k))
    }
}

fn arith_shift_right(v: u32, n: u32) -> (r: u32)
    requires
        0 < n < 32,
    ensures
        r == asr(v, n),
{
    if test_bit(v, 31) {
        !((!v) >> n)
    } else {
        v >> n
    }
}

fn fill_with_sign(v: u32) -> (r: u32)
    ensures
        r == sign_fill(v),
{
    if test_bit(v, 31) {
        0xFFFF_FFFF
    } else {
        0
    }
}

/// Shift by an immediate amount, as encoded in bits 11..5 of an instruction.
pub fn shift_by_imm(v: u32, kind: u32, amount: u32, c: bool) -> (r: (u32, bool))
    requires
        kind < 4,
        amount < 32,
    ensures
        r == shift_imm_spec(v, kind, amount, c),
{
    if kind == SHIFT_LSL {
        if amount == 0 {
            (v, c)
        } else {
            (v << amount, test_bit(v, 32 - amount))
        }
    } else if kind == SHIFT_LSR {
        if amount == 0 {
            (0, test_bit(v, 31))
        } else {
            (v >> amount, test_bit(v, amount - 1))
        }
    } else if kind == SHIFT_ASR {
        if amount == 0 {
            (fill_with_sign(v), test_bit(v, 31))
        } else {
            (arith_shift_right(v, amount), test_bit(v, amount - 1))
        }
    } else {
        if amount == 0 {
            ((if c { 0x8000_0000u32 } else { 0u32 }) | (v >> 1), test_bit(v, 0))
        } else {
            (rotate_right(v, amount), test_bit(v, amount - 1))
        }
    }
}

/// Shift by the low byte of a register.
pub fn shift_by_reg(v: u32, kind: u32, amount: u32, c: bool) -> (r: (u32, bool))
    requires
        kind < 4,
        amount < 256,
    ensures
        r == shift_reg_spec(v, kind, amount, c),
{
    if amount == 0 {
        (v, c)
    } else if kind == SHIFT_LSL {
        if amount < 32 {
            (v << amount, test_bit(v, 32 - amount))
        } else if amount == 32 {
            (0, test_bit(v, 0))
        } else {
            (0, false)
        }
    } else if kind == SHIFT_LSR {
        if amount < 32 {
            (v >> amount, test_bit(v, amount - 1))
        } else if amount == 32 {
            (0, test_bit(v, 31))
        } else {
            (0, false)
        }
    } else if kind == SHIFT_ASR {
        if amount < 32 {
            (arith_shift_right(v, amount), test_bit(v, amount - 1))
        } else {
            (fill_with_sign(v), test_bit(v, 31))
        }
    } else {
        let k = amount % 32;
        if k == 0 {
            (v, test_bit(v, 31))
        } else {
            (rotate_right(v, k), test_bit(v, k - 1))
        }
    }
}

/// An 8-bit immediate rotated right by twice `rotate`, with its carry-out.
pub fn rotated_imm(imm8: u32, rotate: u32, c: bool) -> (r: (u32, bool))
    requires
        rotate < 16,
    ensures
        r == rotated_imm_spec(imm8, rotate, c),
{
    let v = rotate_right(imm8, 2 * rotate);
    if rotate == 0 {
        (v, c)
    } else {
        (v, test_bit(v, 31))
    }
}

} // verus!
