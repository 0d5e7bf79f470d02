//! Properties that hold of every instruction of a kind, proved from the
//! handlers' specifications.
use vstd::prelude::*;
use crate::arm::{
    self, access_addr, awc, cond, dp_result, dp_spec, is_arith, ldm_spec, load_into, load_spec,
    ls_offset, lsm_wb, mask_pc, opcode, rd, rn, reg_count, signed, writeback, writes_rd,
};
use crate::cpu::{CpuModel, wadd, wsub};
use crate::mem::MemController;
use crate::psr::{cond_holds, flag_c, flag_n, flag_t, flag_v, flag_z, mode_of, with_bit, with_nzcv};
use crate::shifter::{bit_set, ror};

verus! {

/// The shape of a CPU model that a `Cpu` always has.
pub open spec fn model_wf(m: CpuModel) -> bool {
    &&& m.regs.len() == 16
    &&& m.spsr.len() == 6
    &&& m.bank_sp.len() == 6
    &&& m.bank_lr.len() == 6
    &&& m.usr_hi.len() == 5
    &&& m.fiq_hi.len() == 5
}

proof fn lemma_flag_bits(p: u32, n: bool, z: bool, c: bool, v: bool, b: bool)
    ensures
        flag_n(with_nzcv(p, n, z, c, v)) == n,
        flag_z(with_nzcv(p, n, z, c, v)) == z,
        flag_c(with_nzcv(p, n, z, c, v)) == c,
        flag_v(with_nzcv(p, n, z, c, v)) == v,
        flag_t(with_bit(p, 5, b)) == b,
        mode_of(with_bit(p, 5, b)) == mode_of(p),
{
    assert(flag_n(with_nzcv(p, n, z, c, v)) == n && flag_z(with_nzcv(p, n, z, c, v)) == z && flag_c(
        with_nzcv(p, n, z, c, v),
    ) == c && flag_v(with_nzcv(p, n, z, c, v)) == v) by (bit_vector);
    assert(flag_t(with_bit(p, 5, b)) == b && mode_of(with_bit(p, 5, b)) == mode_of(p)) by (bit_vector);
}

proof fn lemma_pc_of_branch(m: CpuModel, a: u32)
    requires
        model_wf(m),
    ensures
        m.branch(a).pc() == a,
        m.branch(a).cpsr == m.cpsr,
{
}

/// A data-processing write to R15 branches to the result with the low bits
/// that the (possibly restored) state ignores cleared: the new PC is
/// word-aligned in ARM state and halfword-aligned in Thumb state.
pub proof fn lemma_dp_pc_write(m: CpuModel, i: u32)
    requires
        model_wf(m),
        cond_holds(cond(i), m.cpsr),
        writes_rd(opcode(i)),
        rd(i) == 15,
    ensures
        dp_spec(m, i).pc() == mask_pc(dp_result(m, i).0, dp_spec(m, i).cpsr),
        flag_t(dp_spec(m, i).cpsr) ==> dp_spec(m, i).pc() % 2 == 0,
        !flag_t(dp_spec(m, i).cpsr) ==> dp_spec(m, i).pc() % 4 == 0,
{
    reveal(dp_spec);
    let res = dp_result(m, i).0;
    arm::lemma_fields(res);
    let m1 = if bit_set(i, 20) { m.with_cpsr(m.cur_spsr()) } else { m };
    lemma_pc_of_branch(m1, mask_pc(res, m1.cpsr));
}

/// BX and BLX (register) take the Thumb state from bit 0 of the target and
/// clear that bit from the PC.
pub proof fn lemma_bx_interworking(m: CpuModel, i: u32, link: bool)
    requires
        model_wf(m),
        cond_holds(cond(i), m.cpsr),
    ensures
        flag_t(arm::bx_spec(m, i, link).cpsr) == (m.regs[arm::rm(i) as int] & 1 == 1),
        arm::bx_spec(m, i, link).pc() == m.regs[arm::rm(i) as int] & 0xFFFF_FFFE,
        link ==> arm::bx_spec(m, i, link).regs[14] == wsub(m.regs[15], 4),
{
    reveal(arm::bx_spec);
    let addr = m.regs[arm::rm(i) as int];
    arm::lemma_fields(i);
    lemma_flag_bits(m.cpsr, false, false, false, false, addr & 1 == 1);
}

/// A load into R15 takes the Thumb state from bit 0 of the value and clears
/// that bit from the PC.
pub proof fn lemma_load_pc_interworking(m: CpuModel, v: u32)
    requires
        model_wf(m),
    ensures
        flag_t(load_into(m, 15, v).cpsr) == (v & 1 == 1),
        load_into(m, 15, v).pc() == v & 0xFFFF_FFFE,
{
    lemma_flag_bits(m.cpsr, false, false, false, false, v & 1 == 1);
}

/// With the S bit set and Rd not R15, N and Z follow the 32-bit result, and
/// for the arithmetic opcodes C and V are the adder's carry-out and signed
/// overflow; the logical opcodes keep V.
pub proof fn lemma_dp_flags(m: CpuModel, i: u32)
    requires
        model_wf(m),
        cond_holds(cond(i), m.cpsr),
        bit_set(i, 20),
        !(writes_rd(opcode(i)) && rd(i) == 15),
    ensures
        flag_n(dp_spec(m, i).cpsr) == bit_set(dp_result(m, i).0, 31),
        flag_z(dp_spec(m, i).cpsr) == (dp_result(m, i).0 == 0),
        flag_c(dp_spec(m, i).cpsr) == dp_result(m, i).1,
        flag_v(dp_spec(m, i).cpsr) == dp_result(m, i).2,
        !is_arith(opcode(i)) ==> flag_v(dp_spec(m, i).cpsr) == flag_v(m.cpsr),
        is_arith(opcode(i)) ==> exists|x: u32, y: u32, cin: bool| dp_result(m, i) == #[trigger] awc(x, y, cin),
{
    reveal(dp_spec);
    let (res, c, v) = dp_result(m, i);
    let m1 = if writes_rd(opcode(i)) { m.set_reg(rd(i) as int, res) } else { m };
    lemma_flag_bits(m1.cpsr, bit_set(res, 31), res == 0, c, v, false);
}

/// The adder as ADD and CMN use it: C is the unsigned carry out of bit 31,
/// V the signed overflow, the result the sum modulo 2^32.
pub proof fn lemma_add_flags(a: u32, b: u32)
    ensures
        awc(a, b, false).0 == wadd(a, b),
        awc(a, b, false).1 == (a + b > u32::MAX),
        awc(a, b, false).2 == (signed(a) + signed(b) < -0x8000_0000 || signed(a) + signed(b) > 0x7FFF_FFFF),
{
}

/// The adder as SUB and CMP use it (`a + !b + 1`): C is NOT borrow, that is
/// `a >= b`, V the signed overflow of `a - b`, the result the difference
/// modulo 2^32.
pub proof fn lemma_sub_flags(a: u32, b: u32)
    ensures
        awc(a, !b, true).0 == wsub(a, b),
        awc(a, !b, true).1 == (a >= b),
        awc(a, !b, true).2 == (signed(a) - signed(b) < -0x8000_0000 || signed(a) - signed(b) > 0x7FFF_FFFF),
{
    assert(!b == 0xFFFF_FFFF - b) by (bit_vector);
}

/// A word load gives the word at the address rounded down to a multiple of
/// 4, rotated right by 8 times the address modulo 4.
pub proof fn lemma_word_load_rotates(m: CpuModel, mem: MemController, i: u32)
    requires
        model_wf(m),
        cond_holds(cond(i), m.cpsr),
        rd(i) != 15,
    ensures
        ({
            let a = access_addr(m, i, ls_offset(m, i));
            load_spec(m, mem, i, ls_offset(m, i), false).regs[rd(i) as int] == ror(
                mem.load32(a - a % 4),
                (8 * (a % 4)) as u32,
            )
        }),
{
    reveal(load_spec);
    let a = access_addr(m, i, ls_offset(m, i));
    arm::lemma_fields(i);
    assert(a & 0xFFFF_FFFC == a - a % 4 && a & 3 == a % 4) by (bit_vector);
}

/// After an LDM with writeback whose base is not in the list, the base
/// register (of the mode the instruction ran in) holds Rn plus or minus
/// four bytes per listed register.
pub proof fn lemma_ldm_writeback(m: CpuModel, mem: MemController, i: u32)
    requires
        model_wf(m),
        cond_holds(cond(i), m.cpsr),
        bit_set(i, 21),
        rn(i) != 15,
        !bit_set(i & 0xFFFF, rn(i)),
    ensures
        ldm_spec(m, mem, i).reg_in_mode(mode_of(m.cpsr), rn(i) as int) == lsm_wb(m, i),
        lsm_wb(m, i) == if bit_set(i, 23) {
            wadd(m.regs[rn(i) as int], (4 * reg_count(i)) as u32)
        } else {
            wsub(m.regs[rn(i) as int], (4 * reg_count(i)) as u32)
        },
{
    reveal(ldm_spec);
    arm::lemma_fields(i);
    let list = i & 0xFFFF;
    let n = rn(i) as int;
    let mode = mode_of(m.cpsr);
    let m1 = m.set_reg(n, lsm_wb(m, i));
    assert(m1.reg_in_mode(mode, n) == lsm_wb(m, i));
    let user = bit_set(i, 22) && !bit_set(list, 15);
    let m2 = if user { arm::user_view(m1) } else { m1 };
    if user {
        crate::cpu::lemma_mode_switch_keeps_banks(m1, arm::user_cpsr(m1.cpsr), mode, n);
    }
    let m3 = CpuModel {
        regs: Seq::new(
            16,
            |r: int|
                if r < 15 && bit_set(list, r as u32) {
                    mem.load32(arm::slot_addr(m, i, r) as int)
                } else {
                    m2.regs[r]
                },
        ),
        ..m2
    };
    assert(m3.reg_in_mode(mode, n) == m2.reg_in_mode(mode, n));
    let m4 = if user { m3.with_cpsr(m.cpsr) } else { m3 };
    if user {
        crate::cpu::lemma_mode_switch_keeps_banks(m3, m.cpsr, mode, n);
    }
    if bit_set(list, 15) {
        let v = mem.load32(arm::slot_addr(m, i, 15) as int);
        if bit_set(i, 22) {
            crate::cpu::lemma_mode_switch_keeps_banks(m4, m4.cur_spsr(), mode, n);
        } else {
            lemma_flag_bits(m4.cpsr, false, false, false, false, v & 1 == 1);
        }
    }
}

} // verus!
