//! Program status registers and condition-code evaluation.
use vstd::prelude::*;

verus! {

pub const MODE_USR: u32 = 0x10;
pub const MODE_FIQ: u32 = 0x11;
pub const MODE_IRQ: u32 = 0x12;
pub const MODE_SVC: u32 = 0x13;
pub const MODE_ABT: u32 = 0x17;
pub const MODE_UND: u32 = 0x1B;
pub const MODE_SYS: u32 = 0x1F;

/// Bit `i` of `w`, as 0 or 1.
pub open spec fn bit_of(w: u32, i: u32) -> u32 {
    (w >> i) & 1
}

/// A program status register (CPSR or SPSR), as its raw 32-bit word.
#[derive(Clone, Copy, Debug, PartialEq, Eq, Structural)]
pub struct Psr {
    pub raw: u32,
}

pub open spec fn flag_n(p: u32) -> bool {
    bit_of(p, 31) == 1
}

pub open spec fn flag_z(p: u32) -> bool {
    bit_of(p, 30) == 1
}

pub open spec fn flag_c(p: u32) -> bool {
    bit_of(p, 29) == 1
}

pub open spec fn flag_v(p: u32) -> bool {
    bit_of(p, 28) == 1
}

pub open spec fn flag_t(p: u32) -> bool {
    bit_of(p, 5) == 1
}

pub open spec fn mode_of(p: u32) -> u32 {
    p & 0x1F
}

/// `p` with bit `i` replaced by `b`.
pub open spec fn with_bit(p: u32, i: u32, b: bool) -> u32 {
    if b {
        p | (1u32 << i)
    } else {
        p & !(1u32 << i)
    }
}

/// `p` with the four condition flags replaced.
pub open spec fn with_nzcv(p: u32, n: bool, z: bool, c: bool, v: bool) -> u32 {
    with_bit(with_bit(with_bit(with_bit(p, 31, n), 30, z), 29, c), 28, v)
}

/// Whether the 4-bit condition field `cond` passes under the flags of `p`.
pub open spec fn cond_holds(cond: u32, p: u32) -> bool {
    let n = flag_n(p);
    let z = flag_z(p);
    let c = flag_c(p);
    let v = flag_v(p);
    if cond == 0x0 {
        z
    } else if cond == 0x1 {
        !z
    } else if cond == 0x2 {
        c
    } else if cond == 0x3 {
        !c
    } else if cond == 0x4 {
        n
    } else if cond == 0x5 {
        !n
    } else if cond == 0x6 {
        v
    } else if cond == 0x7 {
        !v
    } else if cond == 0x8 {
        c && !z
    } else if cond == 0x9 {
        !c || z
    } else if cond == 0xA {
        n == v
    } else if cond == 0xB {
        n != v
    } else if cond == 0xC {
        !z && n == v
    } else if cond == 0xD {
        z || n != v
    } else {
        true
    }
}

impl Psr {
    pub fn n(&self) -> (r: bool)
        ensures
            r == flag_n(self.raw),
    {
        (self.raw >> 31) & 1 == 1
    }

    pub fn z(&self) -> (r: bool)
        ensures
            r == flag_z(self.raw),
    {
        (self.raw >> 30) & 1 == 1
    }

    pub fn c(&self) -> (r: bool)
        ensures
            r == flag_c(self.raw),
    {
        (self.raw >> 29) & 1 == 1
    }

    pub fn v(&self) -> (r: bool)
        ensures
            r == flag_v(self.raw),
    {
        (self.raw >> 28) & 1 == 1
    }

    pub fn thumb(&self) -> (r: bool)
        ensures
            r == flag_t(self.raw),
    {
        (self.raw >> 5) & 1 == 1
    }

    pub fn mode(&self) -> (r: u32)
        ensures
            r == mode_of(self.raw),
    {
        self.raw & 0x1F
    }
}

/// Sets or clears bit `i` of `p`.
pub fn set_bit(p: u32, i: u32, b: bool) -> (r: u32)
    requires
        i < 32,
    ensures
        r == with_bit(p, i, b),
{
    if b {
        p | (1u32 << i)
    } else {
        p & !(1u32 << i)
    }
}

/// Replaces the four condition flags of `p`.
pub fn set_nzcv(p: u32, n: bool, z: bool, c: bool, v: bool) -> (r: u32)
    ensures
        r == with_nzcv(p, n, z, c, v),
{
    set_bit(set_bit(set_bit(set_bit(p, 31, n), 30, z), 29, c), 28, v)
}

/// Evaluates a 4-bit condition field against the flags of `psr`; `AL` (and
/// the reserved `NV` encoding) always pass.
pub fn cond_passed(cond: u32, psr: &Psr) -> (r: bool)
    ensures
        r == cond_holds(cond, psr.raw),
{
    let n = psr.n();
    let z = psr.z();
    let c = psr.c();
    let v = psr.v();
    match cond {
        0x0 => z,
        0x1 => !z,
        0x2 => c,
        0x3 => !c,
        0x4 => n,
        0x5 => !n,
        0x6 => v,
        0x7 => !v,
        0x8 => c && !z,
        0x9 => !c || z,
        0xA => n == v,
        0xB => n != v,
        0xC => !z && n == v,
        0xD => z || n != v,
        _ => true,
    }
}

/// The reset CPSR value: supervisor mode, ARM state, IRQ and FIQ masked.
pub proof fn lemma_psr_d3()
    ensures
        mode_of(0xD3) == MODE_SVC,
        !flag_t(0xD3),
{
    assert(mode_of(0xD3) == MODE_SVC && !flag_t(0xD3)) by (bit_vector);
}

} // verus!
