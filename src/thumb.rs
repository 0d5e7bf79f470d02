//! Thumb-state load/store handlers. Several of them build the equivalent
//! ARM opcode and hand it to the ARM handler; each is proved to do what the
//! Thumb form means.
use vstd::prelude::*;
use crate::arm::{
    self, bx_spec, cond, dp_spec, dp_branches, mul_spec, ldm_spec, load_spec, load_word,
    ls_offset, lsm_wb, rn, rd, stm_stores, stores_rel, store_addr, store_bytes, writeback,
};
use crate::cpu::{Cpu, CpuModel, InstrStatus, same_extras, same_machine, wadd, wsub};
use crate::mem::{MemController, le_bytes16};
use crate::psr::{Psr, cond_holds, cond_passed, with_bit, set_bit};
use crate::rsa::le_bytes;
use crate::shifter::bit_set;

verus! {

/// Bounds of the Thumb opcode fields.
pub proof fn lemma_thumb_fields(i: u32)
    by (bit_vector)
    ensures
        i & 7 < 8,
        (i >> 3) & 7 < 8,
        (i >> 6) & 0x1F < 32,
        (i >> 8) & 7 < 8,
        i & 0xFF < 256,
        (i >> 8) & 1 < 2,
{
}

/// The ARM opcode `LDR/STR Rd, [SP, #imm8 * 4]` (`load` selects LDR).
pub open spec fn sp_rel_opcode(d: u32, imm8: u32, load: bool) -> u32 {
    0xE58D_0000u32 | (if load { 0x0010_0000u32 } else { 0u32 }) | (d << 12u32) | (imm8 << 2u32)
}

/// The ARM opcode `LDRB Rd, [Rn, #imm5]`.
pub open spec fn ldrb_imm_opcode(n: u32, d: u32, imm5: u32) -> u32 {
    0xE5D0_0000u32 | (n << 16u32) | (d << 12u32) | imm5
}

/// The ARM opcode `LDMIA SP!, {list}` (with PC when `r` is 1).
pub open spec fn pop_opcode(r: u32, list: u32) -> u32 {
    0xE8BD_0000u32 | (r << 15u32) | list
}

/// The ARM opcode `STMDB SP!, {list}` (with LR when `r` is 1).
pub open spec fn push_opcode(r: u32, list: u32) -> u32 {
    0xE92D_0000u32 | (r << 14u32) | list
}

proof fn lemma_sp_rel_fields(d: u32, imm8: u32, load: bool)
    requires
        d < 8,
        imm8 < 256,
    ensures
        cond(sp_rel_opcode(d, imm8, load)) == 0xE,
        rn(sp_rel_opcode(d, imm8, load)) == 13,
        rd(sp_rel_opcode(d, imm8, load)) == d,
        !bit_set(sp_rel_opcode(d, imm8, load), 25),
        bit_set(sp_rel_opcode(d, imm8, load), 24),
        bit_set(sp_rel_opcode(d, imm8, load), 23),
        !bit_set(sp_rel_opcode(d, imm8, load), 22),
        !bit_set(sp_rel_opcode(d, imm8, load), 21),
        sp_rel_opcode(d, imm8, load) & 0xFFF == (imm8 * 4) as u32,
{
    let l = load;
    assert(cond(sp_rel_opcode(d, imm8, l)) == 0xE && rn(sp_rel_opcode(d, imm8, l)) == 13 && rd(
        sp_rel_opcode(d, imm8, l),
    ) == d && !bit_set(sp_rel_opcode(d, imm8, l), 25) && bit_set(sp_rel_opcode(d, imm8, l), 24)
        && bit_set(sp_rel_opcode(d, imm8, l), 23) && !bit_set(sp_rel_opcode(d, imm8, l), 22)
        && !bit_set(sp_rel_opcode(d, imm8, l), 21) && sp_rel_opcode(d, imm8, l) & 0xFFF == (imm8 * 4) as u32)
        by (bit_vector)
        requires
            d < 8,
            imm8 < 256,
    ;
}

proof fn lemma_ldrb_imm_fields(n: u32, d: u32, imm5: u32)
    requires
        n < 8,
        d < 8,
        imm5 < 32,
    ensures
        cond(ldrb_imm_opcode(n, d, imm5)) == 0xE,
        rn(ldrb_imm_opcode(n, d, imm5)) == n,
        rd(ldrb_imm_opcode(n, d, imm5)) == d,
        !bit_set(ldrb_imm_opcode(n, d, imm5), 25),
        bit_set(ldrb_imm_opcode(n, d, imm5), 24),
        bit_set(ldrb_imm_opcode(n, d, imm5), 23),
        !bit_set(ldrb_imm_opcode(n, d, imm5), 21),
        ldrb_imm_opcode(n, d, imm5) & 0xFFF == imm5,
{
    assert(cond(ldrb_imm_opcode(n, d, imm5)) == 0xE && rn(ldrb_imm_opcode(n, d, imm5)) == n && rd(
        ldrb_imm_opcode(n, d, imm5),
    ) == d && !bit_set(ldrb_imm_opcode(n, d, imm5), 25) && bit_set(ldrb_imm_opcode(n, d, imm5), 24)
        && bit_set(ldrb_imm_opcode(n, d, imm5), 23) && !bit_set(ldrb_imm_opcode(n, d, imm5), 21)
        && ldrb_imm_opcode(n, d, imm5) & 0xFFF == imm5) by (bit_vector)
        requires
            n < 8,
            d < 8,
            imm5 < 32,
    ;
}

/// The Thumb `LDR Rd, [SP, #imm8 * 4]`.
pub open spec fn ldr_sp_spec(m: CpuModel, mem: MemController, d: u32, imm8: u32) -> CpuModel {
    m.set_reg(d as int, load_word(mem, wadd(m.regs[13], (imm8 * 4) as u32)))
}

/// The Thumb `LDRB Rd, [Rn, #imm5]`.
pub open spec fn ldrb_imm_spec(m: CpuModel, mem: MemController, n: u32, d: u32, imm5: u32) -> CpuModel {
    m.set_reg(d as int, mem.byte_at(wadd(m.regs[n as int], imm5) as int) as u32)
}

/// The SP-relative load and store forms mean what the ARM handler does on
/// the opcode that the trampoline builds.
pub proof fn lemma_sp_rel_trampoline(m: CpuModel, mem: MemController, d: u32, imm8: u32)
    requires
        d < 8,
        imm8 < 256,
        m.regs.len() == 16,
    ensures
        load_spec(m, mem, sp_rel_opcode(d, imm8, true), ls_offset(m, sp_rel_opcode(d, imm8, true)), false)
            == ldr_sp_spec(m, mem, d, imm8),
        writeback(m, sp_rel_opcode(d, imm8, false), ls_offset(m, sp_rel_opcode(d, imm8, false))) == m,
        store_addr(m, sp_rel_opcode(d, imm8, false), ls_offset(m, sp_rel_opcode(d, imm8, false)), false)
            == wadd(m.regs[13], (imm8 * 4) as u32) & 0xFFFF_FFFC,
        store_bytes(m, sp_rel_opcode(d, imm8, false), false) == le_bytes(m.regs[d as int]),
{
    reveal(load_spec);
    lemma_sp_rel_fields(d, imm8, true);
    lemma_sp_rel_fields(d, imm8, false);
}

/// The byte load form means what the ARM handler does on its opcode.
pub proof fn lemma_ldrb_trampoline(m: CpuModel, mem: MemController, n: u32, d: u32, imm5: u32)
    requires
        n < 8,
        d < 8,
        imm5 < 32,
        m.regs.len() == 16,
    ensures
        load_spec(m, mem, ldrb_imm_opcode(n, d, imm5), ls_offset(m, ldrb_imm_opcode(n, d, imm5)), true)
            == ldrb_imm_spec(m, mem, n, d, imm5),
{
    reveal(load_spec);
    lemma_ldrb_imm_fields(n, d, imm5);
}

/// LDR (1): `LDR Rd, [Rn, #imm5 * 4]`.
pub fn ldr_1(cpu: &mut Cpu, instr: u16) -> (r: InstrStatus)
    requires
        old(cpu).memory.wf(),
    ensures
        final(cpu)@ == old(cpu)@.set_reg(
            (instr as u32 & 7) as int,
            load_word(
                old(cpu).memory,
                wadd(old(cpu)@.regs[((instr as u32 >> 3) & 7) as int], (((instr as u32 >> 6) & 0x1F) * 4) as u32),
            ),
        ),
        same_machine(old(cpu), final(cpu)),
        r == InstrStatus::InBlock,
{
    let i = instr as u32;
    proof {
        lemma_thumb_fields(i);
    }
    let addr = cpu.regs[((i >> 3) & 7) as usize].wrapping_add(((i >> 6) & 0x1F) * 4);
    let v = arm::read_word_rotated(&cpu.memory, addr);
    cpu.regs[(i & 7) as usize] = v;
    InstrStatus::InBlock
}

/// LDR (3): `LDR Rd, [PC, #imm8 * 4]`, from the word-aligned PC.
pub fn ldr_3(cpu: &mut Cpu, instr: u16) -> (r: InstrStatus)
    requires
        old(cpu).memory.wf(),
    ensures
        final(cpu)@ == old(cpu)@.set_reg(
            ((instr as u32 >> 8) & 7) as int,
            load_word(
                old(cpu).memory,
                wadd(old(cpu)@.regs[15] & 0xFFFF_FFFC, ((instr as u32 & 0xFF) * 4) as u32),
            ),
        ),
        same_machine(old(cpu), final(cpu)),
        r == InstrStatus::InBlock,
{
    let i = instr as u32;
    proof {
        lemma_thumb_fields(i);
    }
    let addr = (cpu.regs[15] & 0xFFFF_FFFC).wrapping_add((i & 0xFF) * 4);
    let v = arm::read_word_rotated(&cpu.memory, addr);
    cpu.regs[((i >> 8) & 7) as usize] = v;
    InstrStatus::InBlock
}

/// LDR (4): `LDR Rd, [SP, #imm8 * 4]`, through the ARM handler.
pub fn ldr_4(cpu: &mut Cpu, instr: u16) -> (r: InstrStatus)
    requires
        old(cpu).memory.wf(),
    ensures
        final(cpu)@ == ldr_sp_spec(old(cpu)@, old(cpu).memory, (instr as u32 >> 8) & 7, instr as u32 & 0xFF),
        same_machine(old(cpu), final(cpu)),
        r == InstrStatus::InBlock,
{
    let i = instr as u32;
    proof {
        lemma_thumb_fields(i);
        lemma_sp_rel_trampoline(cpu@, cpu.memory, (i >> 8) & 7, i & 0xFF);
        lemma_sp_rel_fields((i >> 8) & 7, i & 0xFF, true);
    }
    let arminst: u32 = 0xE58D_0000u32 | 0x0010_0000u32 | (((i >> 8) & 7) << 12u32) | ((i & 0xFF) << 2u32);
    assert(arminst == sp_rel_opcode((i >> 8) & 7, i & 0xFF, true));
    arm::ldr(cpu, arminst)
}

/// STR (3): `STR Rd, [SP, #imm8 * 4]`, through the ARM handler.
pub fn str_3(cpu: &mut Cpu, instr: u16) -> (r: InstrStatus)
    requires
        old(cpu).memory.wf(),
    ensures
        final(cpu).memory.wf(),
        final(cpu)@ == old(cpu)@,
        same_extras(old(cpu), final(cpu)),
        old(cpu).memory.store_rel(
            final(cpu).memory,
            (wadd(old(cpu)@.regs[13], ((instr as u32 & 0xFF) * 4) as u32) & 0xFFFF_FFFC) as int,
            le_bytes(old(cpu)@.regs[((instr as u32 >> 8) & 7) as int]),
        ),
        r == InstrStatus::InBlock,
{
    let i = instr as u32;
    proof {
        lemma_thumb_fields(i);
        lemma_sp_rel_trampoline(cpu@, cpu.memory, (i >> 8) & 7, i & 0xFF);
        lemma_sp_rel_fields((i >> 8) & 7, i & 0xFF, false);
    }
    let arminst: u32 = 0xE58D_0000u32 | 0u32 | (((i >> 8) & 7) << 12u32) | ((i & 0xFF) << 2u32);
    assert(arminst == sp_rel_opcode((i >> 8) & 7, i & 0xFF, false));
    arm::str(cpu, arminst)
}

/// LDRB (1): `LDRB Rd, [Rn, #imm5]`, through the ARM handler.
pub fn ldrb_1(cpu: &mut Cpu, instr: u16) -> (r: InstrStatus)
    requires
        old(cpu).memory.wf(),
    ensures
        final(cpu)@ == ldrb_imm_spec(
            old(cpu)@,
            old(cpu).memory,
            (instr as u32 >> 3) & 7,
            instr as u32 & 7,
            (instr as u32 >> 6) & 0x1F,
        ),
        same_machine(old(cpu), final(cpu)),
        r == InstrStatus::InBlock,
{
    let i = instr as u32;
    proof {
        lemma_thumb_fields(i);
        lemma_ldrb_trampoline(cpu@, cpu.memory, (i >> 3) & 7, i & 7, (i >> 6) & 0x1F);
        lemma_ldrb_imm_fields((i >> 3) & 7, i & 7, (i >> 6) & 0x1F);
    }
    let arminst: u32 = 0xE5D0_0000u32 | (((i >> 3) & 7) << 16u32) | ((i & 7) << 12u32) | ((i >> 6) & 0x1F);
    arm::ldrb(cpu, arminst)
}

/// LDRH (1): `LDRH Rd, [Rn, #imm5 * 2]`.
pub fn ldrh_1(cpu: &mut Cpu, instr: u16) -> (r: InstrStatus)
    requires
        old(cpu).memory.wf(),
    ensures
        final(cpu)@ == old(cpu)@.set_reg(
            (instr as u32 & 7) as int,
            old(cpu).memory.load16(
                (wadd(old(cpu)@.regs[((instr as u32 >> 3) & 7) as int], (((instr as u32 >> 6) & 0x1F) * 2) as u32)
                    & 0xFFFF_FFFE) as int,
            ) as u32,
        ),
        same_machine(old(cpu), final(cpu)),
        r == InstrStatus::InBlock,
{
    let i = instr as u32;
    proof {
        lemma_thumb_fields(i);
    }
    let addr = cpu.regs[((i >> 3) & 7) as usize].wrapping_add(((i >> 6) & 0x1F) * 2);
    proof {
        arm::lemma_fields(addr);
    }
    let v = cpu.memory.read16(addr & 0xFFFF_FFFE) as u32;
    cpu.regs[(i & 7) as usize] = v;
    InstrStatus::InBlock
}

/// STR (1): `STR Rd, [Rn, #imm5 * 4]`.
pub fn str_1(cpu: &mut Cpu, instr: u16) -> (r: InstrStatus)
    requires
        old(cpu).memory.wf(),
    ensures
        final(cpu).memory.wf(),
        final(cpu)@ == old(cpu)@,
        same_extras(old(cpu), final(cpu)),
        old(cpu).memory.store_rel(
            final(cpu).memory,
            (wadd(old(cpu)@.regs[((instr as u32 >> 3) & 7) as int], (((instr as u32 >> 6) & 0x1F) * 4) as u32)
                & 0xFFFF_FFFC) as int,
            le_bytes(old(cpu)@.regs[(instr as u32 & 7) as int]),
        ),
        r == InstrStatus::InBlock,
{
    let i = instr as u32;
    proof {
        lemma_thumb_fields(i);
    }
    let addr = cpu.regs[((i >> 3) & 7) as usize].wrapping_add(((i >> 6) & 0x1F) * 4);
    proof {
        arm::lemma_fields(addr);
    }
    let v = cpu.regs[(i & 7) as usize];
    cpu.memory.write32(addr & 0xFFFF_FFFC, v);
    InstrStatus::InBlock
}

/// STRH (1): `STRH Rd, [Rn, #imm5 * 2]`.
pub fn strh_1(cpu: &mut Cpu, instr: u16) -> (r: InstrStatus)
    requires
        old(cpu).memory.wf(),
    ensures
        final(cpu).memory.wf(),
        final(cpu)@ == old(cpu)@,
        same_extras(old(cpu), final(cpu)),
        old(cpu).memory.store_rel(
            final(cpu).memory,
            (wadd(old(cpu)@.regs[((instr as u32 >> 3) & 7) as int], (((instr as u32 >> 6) & 0x1F) * 2) as u32)
                & 0xFFFF_FFFE) as int,
            le_bytes16(old(cpu)@.regs[(instr as u32 & 7) as int] as u16),
        ),
        r == InstrStatus::InBlock,
{
    let i = instr as u32;
    proof {
        lemma_thumb_fields(i);
    }
    let addr = cpu.regs[((i >> 3) & 7) as usize].wrapping_add(((i >> 6) & 0x1F) * 2);
    proof {
        arm::lemma_fields(addr);
    }
    let v = cpu.regs[(i & 7) as usize];
    cpu.memory.write16(addr & 0xFFFF_FFFE, v as u16);
    InstrStatus::InBlock
}

/// POP: `LDMIA SP!, {list}` (and PC when bit 8 is set), through the ARM
/// handler.
pub fn pop(cpu: &mut Cpu, instr: u16) -> (r: InstrStatus)
    requires
        old(cpu).memory.wf(),
    ensures
        final(cpu)@ == ldm_spec(old(cpu)@, old(cpu).memory, pop_opcode((instr as u32 >> 8) & 1, instr as u32 & 0xFF)),
        same_machine(old(cpu), final(cpu)),
        r == if (instr as u32 >> 8) & 1 == 1 { InstrStatus::Branched } else { InstrStatus::InBlock },
{
    let i = instr as u32;
    proof {
        lemma_thumb_fields(i);
    }
    let arminst: u32 = 0xE8BD_0000u32 | (((i >> 8) & 1) << 15u32) | (i & 0xFF);
    let r1 = (i >> 8) & 1;
    let l1 = i & 0xFF;
    assert(cond(arminst) == 0xE && (bit_set(arminst & 0xFFFF, 15) == (r1 == 1))) by (bit_vector)
        requires
            arminst == 0xE8BD_0000u32 | (r1 << 15u32) | l1,
            r1 < 2,
            l1 < 256,
    ;
    arm::ldm(cpu, arminst)
}

/// PUSH: `STMDB SP!, {list}` (and LR when bit 8 is set), through the ARM
/// handler.
pub fn push(cpu: &mut Cpu, instr: u16) -> (r: InstrStatus)
    requires
        old(cpu).memory.wf(),
    ensures
        final(cpu).memory.wf(),
        same_extras(old(cpu), final(cpu)),
        r == InstrStatus::InBlock,
        ({
            let s = push_opcode((instr as u32 >> 8) & 1, instr as u32 & 0xFF);
            &&& final(cpu)@ == old(cpu)@.set_reg(13, lsm_wb(old(cpu)@, s))
            &&& stores_rel(old(cpu).memory, final(cpu).memory, stm_stores(old(cpu)@, s, 16))
        }),
{
    let i = instr as u32;
    proof {
        lemma_thumb_fields(i);
    }
    let arminst: u32 = 0xE92D_0000u32 | (((i >> 8) & 1) << 14u32) | (i & 0xFF);
    let ghost s = push_opcode((i >> 8) & 1, i & 0xFF);
    assert(arminst == s);
    let r1 = (i >> 8) & 1;
    let l1 = i & 0xFF;
    assert(cond(s) == 0xE && bit_set(s, 21) && rn(s) == 13) by (bit_vector)
        requires
            s == 0xE92D_0000u32 | (r1 << 14u32) | l1,
            r1 < 2,
            l1 < 256,
    ;
    arm::stm(cpu, arminst)
}

// ---------------------------------------------------------------------------
// Arithmetic, logical and move forms, as the ARM data-processing opcode that
// does the same

/// The ARM opcode that a Thumb shift-by-immediate, add/subtract,
/// immediate, register-ALU or high-register opcode `i` stands for.
pub open spec fn thumb_alu_opcode(i: u32) -> u32 {
    let rd = i & 7;
    let rs = (i >> 3) & 7;
    if i >> 13 == 0 && (i >> 11) & 3 != 3 {
        // LSL/LSR/ASR Rd, Rm, #imm5
        0xE1B0_0000u32 | (rd << 12u32) | (((i >> 6) & 0x1F) << 7u32) | (((i >> 11) & 3) << 5u32) | rs
    } else if i >> 11 == 3 {
        // ADD/SUB Rd, Rn, Rm or #imm3
        let base: u32 = if (i >> 9) & 1 == 1 { 0xE050_0000u32 } else { 0xE090_0000u32 };
        let imm: u32 = if (i >> 10) & 1 == 1 { 0x0200_0000u32 } else { 0u32 };
        base | imm | (rs << 16u32) | (rd << 12u32) | ((i >> 6) & 7)
    } else if i >> 13 == 1 {
        // MOV/CMP/ADD/SUB Rd, #imm8
        let r = (i >> 8) & 7;
        let op = (i >> 11) & 3;
        let imm8 = i & 0xFF;
        if op == 0 {
            0xE3B0_0000u32 | (r << 12u32) | imm8
        } else if op == 1 {
            0xE350_0000u32 | (r << 16u32) | imm8
        } else if op == 2 {
            0xE290_0000u32 | (r << 16u32) | (r << 12u32) | imm8
        } else {
            0xE250_0000u32 | (r << 16u32) | (r << 12u32) | imm8
        }
    } else if i >> 10 == 0x10 {
        // register ALU operations
        let op = (i >> 6) & 0xF;
        if op == 0x2 || op == 0x3 || op == 0x4 || op == 0x7 {
            // LSL/LSR/ASR/ROR Rd, Rs: MOVS Rd, Rd, <shift> Rs
            let kind: u32 = if op == 0x2 { 0 } else if op == 0x3 { 1 } else if op == 0x4 { 2 } else { 3 };
            0xE1B0_0010u32 | (rd << 12u32) | (rs << 8u32) | (kind << 5u32) | rd
        } else if op == 0x9 {
            // NEG Rd, Rs: RSBS Rd, Rs, #0
            0xE270_0000u32 | (rs << 16u32) | (rd << 12u32)
        } else if op == 0xD {
            // MUL Rd, Rs: MULS Rd, Rs, Rd
            0xE010_0090u32 | (rd << 16u32) | (rd << 8u32) | rs
        } else if op == 0xF {
            // MVN Rd, Rs
            0xE1F0_0000u32 | (rd << 12u32) | rs
        } else {
            let arm_op: u32 = if op == 0x0 {
                0
            } else if op == 0x1 {
                1
            } else if op == 0x5 {
                5
            } else if op == 0x6 {
                6
            } else if op == 0x8 {
                8
            } else if op == 0xA {
                10
            } else if op == 0xB {
                11
            } else if op == 0xC {
                12
            } else {
                14
            };
            let d: u32 = if op == 0x8 || op == 0xA || op == 0xB { 0 } else { rd << 12u32 };
            0xE010_0000u32 | (arm_op << 21u32) | (rd << 16u32) | d | rs
        }
    } else {
        // high-register ADD/CMP/MOV
        let hd = (i & 7) | (((i >> 7) & 1) << 3u32);
        let hm = (i >> 3) & 0xF;
        let op = (i >> 8) & 3;
        if op == 0 {
            0xE080_0000u32 | (hd << 16u32) | (hd << 12u32) | hm
        } else if op == 1 {
            0xE150_0000u32 | (hd << 16u32) | hm
        } else {
            0xE1A0_0000u32 | (hd << 12u32) | hm
        }
    }
}

fn alu_opcode(i: u32) -> (r: u32)
    ensures
        r == thumb_alu_opcode(i),
{
    let rd = i & 7;
    let rs = (i >> 3) & 7;
    if i >> 13 == 0 && (i >> 11) & 3 != 3 {
        0xE1B0_0000u32 | (rd << 12u32) | (((i >> 6) & 0x1F) << 7u32) | (((i >> 11) & 3) << 5u32) | rs
    } else if i >> 11 == 3 {
        let base: u32 = if (i >> 9) & 1 == 1 { 0xE050_0000u32 } else { 0xE090_0000u32 };
        let imm: u32 = if (i >> 10) & 1 == 1 { 0x0200_0000u32 } else { 0u32 };
        base | imm | (rs << 16u32) | (rd << 12u32) | ((i >> 6) & 7)
    } else if i >> 13 == 1 {
        let r = (i >> 8) & 7;
        let op = (i >> 11) & 3;
        let imm8 = i & 0xFF;
        if op == 0 {
            0xE3B0_0000u32 | (r << 12u32) | imm8
        } else if op == 1 {
            0xE350_0000u32 | (r << 16u32) | imm8
        } else if op == 2 {
            0xE290_0000u32 | (r << 16u32) | (r << 12u32) | imm8
        } else {
            0xE250_0000u32 | (r << 16u32) | (r << 12u32) | imm8
        }
    } else if i >> 10 == 0x10 {
        let op = (i >> 6) & 0xF;
        if op == 0x2 || op == 0x3 || op == 0x4 || op == 0x7 {
            let kind: u32 = if op == 0x2 { 0 } else if op == 0x3 { 1 } else if op == 0x4 { 2 } else { 3 };
            0xE1B0_0010u32 | (rd << 12u32) | (rs << 8u32) | (kind << 5u32) | rd
        } else if op == 0x9 {
            0xE270_0000u32 | (rs << 16u32) | (rd << 12u32)
        } else if op == 0xD {
            0xE010_0090u32 | (rd << 16u32) | (rd << 8u32) | rs
        } else if op == 0xF {
            0xE1F0_0000u32 | (rd << 12u32) | rs
        } else {
            let arm_op: u32 = if op == 0x0 {
                0
            } else if op == 0x1 {
                1
            } else if op == 0x5 {
                5
            } else if op == 0x6 {
                6
            } else if op == 0x8 {
                8
            } else if op == 0xA {
                10
            } else if op == 0xB {
                11
            } else if op == 0xC {
                12
            } else {
                14
            };
            let d: u32 = if op == 0x8 || op == 0xA || op == 0xB { 0 } else { rd << 12u32 };
            0xE010_0000u32 | (arm_op << 21u32) | (rd << 16u32) | d | rs
        }
    } else {
        let hd = (i & 7) | (((i >> 7) & 1) << 3u32);
        let hm = (i >> 3) & 0xF;
        let op = (i >> 8) & 3;
        if op == 0 {
            0xE080_0000u32 | (hd << 16u32) | (hd << 12u32) | hm
        } else if op == 1 {
            0xE150_0000u32 | (hd << 16u32) | hm
        } else {
            0xE1A0_0000u32 | (hd << 12u32) | hm
        }
    }
}

/// Whether the Thumb opcode is the register-ALU MUL.
pub open spec fn is_thumb_mul(i: u32) -> bool {
    i >> 10 == 0x10 && (i >> 6) & 0xF == 0xD
}

/// Thumb shifts, add/subtract, immediate and register ALU operations and
/// high-register ADD/CMP/MOV: the ARM handler runs on the equivalent ARM
/// opcode, which sets the flags as the Thumb form does.
pub fn alu(cpu: &mut Cpu, instr: u16) -> (r: InstrStatus)
    ensures
        final(cpu)@ == if is_thumb_mul(instr as u32) {
            mul_spec(old(cpu)@, thumb_alu_opcode(instr as u32))
        } else {
            dp_spec(old(cpu)@, thumb_alu_opcode(instr as u32))
        },
        same_machine(old(cpu), final(cpu)),
        r == if !is_thumb_mul(instr as u32) && dp_branches(old(cpu)@, thumb_alu_opcode(instr as u32)) {
            InstrStatus::Branched
        } else {
            InstrStatus::InBlock
        },
{
    let i = instr as u32;
    let op = alu_opcode(i);
    if i >> 10 == 0x10 && (i >> 6) & 0xF == 0xD {
        arm::mul(cpu, op)
    } else {
        arm::data_processing(cpu, op)
    }
}

/// BX Rm (Thumb): the ARM BX on the full 4-bit register number.
pub fn bx(cpu: &mut Cpu, instr: u16) -> (r: InstrStatus)
    ensures
        final(cpu)@ == bx_spec(old(cpu)@, 0xE12F_FF10u32 | ((instr as u32 >> 3) & 0xF), false),
        same_machine(old(cpu), final(cpu)),
        r == InstrStatus::Branched,
{
    let i = instr as u32;
    let op = 0xE12F_FF10u32 | ((i >> 3) & 0xF);
    assert(cond(op) == 0xE) by (bit_vector)
        requires
            op == 0xE12F_FF10u32 | ((i >> 3) & 0xF),
    ;
    arm::bx(cpu, op)
}

// ---------------------------------------------------------------------------
// Branches

/// The conditional branch offset: an 8-bit field sign-extended, times 2.
pub open spec fn bcond_offset(i: u32) -> u32 {
    let imm = i & 0xFF;
    if (imm >> 7) & 1 == 1 {
        (imm | 0xFFFF_FF00) << 1u32
    } else {
        imm << 1u32
    }
}

/// The unconditional branch offset: an 11-bit field sign-extended, times 2.
pub open spec fn b_offset(i: u32) -> u32 {
    let imm = i & 0x7FF;
    if (imm >> 10) & 1 == 1 {
        (imm | 0xFFFF_F800) << 1u32
    } else {
        imm << 1u32
    }
}

/// The high part of a BL/BLX pair: the 11-bit field sign-extended, times
/// 4096.
pub open spec fn bl_high_offset(i: u32) -> u32 {
    let imm = i & 0x7FF;
    if (imm >> 10) & 1 == 1 {
        (imm | 0xFFFF_F800) << 12u32
    } else {
        imm << 12u32
    }
}

/// B<cond>: taken when the condition in bits 11..8 holds.
pub open spec fn bcond_spec(m: CpuModel, i: u32) -> CpuModel {
    if !cond_holds((i >> 8) & 0xF, m.cpsr) {
        m
    } else {
        m.branch(wadd(m.regs[15], bcond_offset(i)))
    }
}

/// The effect of a Thumb branch form: B<cond>, B, and the two halves of the
/// BL/BLX pair (the first stages the high part of the target in LR, the
/// second branches, leaving the return address with bit 0 set in LR; the
/// BLX half goes to ARM state at a word-aligned target).
pub open spec fn thumb_branch_spec(m: CpuModel, i: u32) -> CpuModel {
    let top = i >> 11;
    if top == 0x1A || top == 0x1B {
        bcond_spec(m, i)
    } else if top == 0x1C {
        m.branch(wadd(m.regs[15], b_offset(i)))
    } else if top == 0x1E {
        m.set_reg(14, wadd(m.regs[15], bl_high_offset(i)))
    } else {
        let target = wadd(m.regs[14], (i & 0x7FF) << 1u32);
        let m1 = m.set_reg(14, wsub(m.regs[15], 2) | 1);
        if top == 0x1F {
            m1.branch(target)
        } else {
            let m2 = CpuModel { cpsr: with_bit(m1.cpsr, 5, false), ..m1 };
            m2.branch(target & 0xFFFF_FFFC)
        }
    }
}

fn offset_bcond(i: u32) -> (r: u32)
    ensures
        r == bcond_offset(i),
{
    let imm = i & 0xFF;
    if (imm >> 7) & 1 == 1 {
        (imm | 0xFFFF_FF00) << 1u32
    } else {
        imm << 1u32
    }
}

fn offset_b(i: u32) -> (r: u32)
    ensures
        r == b_offset(i),
{
    let imm = i & 0x7FF;
    if (imm >> 10) & 1 == 1 {
        (imm | 0xFFFF_F800) << 1u32
    } else {
        imm << 1u32
    }
}

fn offset_bl_high(i: u32) -> (r: u32)
    ensures
        r == bl_high_offset(i),
{
    let imm = i & 0x7FF;
    if (imm >> 10) & 1 == 1 {
        (imm | 0xFFFF_F800) << 12u32
    } else {
        imm << 12u32
    }
}

/// B<cond>, B, and the BL/BLX halves (`instr >> 11` is 0x1A..0x1F but not
/// an SWI or undefined B<cond> encoding).
pub fn branch(cpu: &mut Cpu, instr: u16) -> (r: InstrStatus)
    requires
        (instr as u32 >> 11) >= 0x1A,
    ensures
        final(cpu)@ == thumb_branch_spec(old(cpu)@, instr as u32),
        same_machine(old(cpu), final(cpu)),
        r == if (instr as u32 >> 11) == 0x1E || ((instr as u32 >> 11) <= 0x1B && !cond_holds(
            (instr as u32 >> 8) & 0xF,
            old(cpu)@.cpsr,
        )) {
            InstrStatus::InBlock
        } else {
            InstrStatus::Branched
        },
{
    let i = instr as u32;
    let top = i >> 11;
    let pc = cpu.regs[15];
    if top == 0x1A || top == 0x1B {
        if !cond_passed((i >> 8) & 0xF, &cpu.cpsr) {
            return InstrStatus::InBlock;
        }
        cpu.branch(pc.wrapping_add(offset_bcond(i)));
        InstrStatus::Branched
    } else if top == 0x1C {
        cpu.branch(pc.wrapping_add(offset_b(i)));
        InstrStatus::Branched
    } else if top == 0x1E {
        cpu.regs[14] = pc.wrapping_add(offset_bl_high(i));
        InstrStatus::InBlock
    } else {
        let target = cpu.regs[14].wrapping_add((i & 0x7FF) << 1u32);
        cpu.regs[14] = pc.wrapping_sub(2) | 1;
        if top == 0x1F {
            cpu.branch(target);
        } else {
            let raw = set_bit(cpu.cpsr.raw, 5, false);
            cpu.cpsr = Psr { raw };
            cpu.branch(target & 0xFFFF_FFFC);
        }
        InstrStatus::Branched
    }
}

// ---------------------------------------------------------------------------
// Forms handed to the ARM dispatcher whole

/// The ARM opcode for the Thumb byte store with immediate offset,
/// register-offset loads and stores, SP adjustment and LDMIA/STMIA.
pub open spec fn thumb_arm_opcode(i: u32) -> u32 {
    let lo = i & 7;
    let mid = (i >> 3) & 7;
    let hi = (i >> 6) & 7;
    if i >> 11 == 0x0E {
        // STRB Rd, [Rn, #imm5]
        0xE5C0_0000u32 | (mid << 16u32) | (lo << 12u32) | ((i >> 6) & 0x1F)
    } else if i >> 12 == 5 {
        if (i >> 9) & 1 == 0 {
            // LDR/STR{B} Rd, [Rb, Ro]
            0xE780_0000u32 | (((i >> 11) & 1) << 20u32) | (((i >> 10) & 1) << 22u32) | (mid << 16u32) | (lo
                << 12u32) | hi
        } else {
            // STRH/LDRH/LDRSB/LDRSH Rd, [Rb, Ro]
            let sh = (i >> 10) & 3;
            let base: u32 = if sh == 0 {
                0xE180_00B0u32
            } else if sh == 1 {
                0xE190_00D0u32
            } else if sh == 2 {
                0xE190_00B0u32
            } else {
                0xE190_00F0u32
            };
            base | (mid << 16u32) | (lo << 12u32) | hi
        }
    } else if i >> 8 == 0xB0 {
        // ADD/SUB SP, SP, #imm7 * 4
        if (i >> 7) & 1 == 1 {
            0xE24D_DF00u32 | (i & 0x7F)
        } else {
            0xE28D_DF00u32 | (i & 0x7F)
        }
    } else {
        // LDMIA/STMIA Rb!, {list}
        0xE8A0_0000u32 | (((i >> 11) & 1) << 20u32) | (((i >> 8) & 7) << 16u32) | (i & 0xFF)
    }
}

/// The ARM opcode that a Thumb form handed to the ARM dispatcher stands for.
pub fn arm_opcode_for(i: u32) -> (r: u32)
    ensures
        r == thumb_arm_opcode(i),
{
    let lo = i & 7;
    let mid = (i >> 3) & 7;
    let hi = (i >> 6) & 7;
    if i >> 11 == 0x0E {
        0xE5C0_0000u32 | (mid << 16u32) | (lo << 12u32) | ((i >> 6) & 0x1F)
    } else if i >> 12 == 5 {
        if (i >> 9) & 1 == 0 {
            0xE780_0000u32 | (((i >> 11) & 1) << 20u32) | (((i >> 10) & 1) << 22u32) | (mid << 16u32) | (lo
                << 12u32) | hi
        } else {
            let sh = (i >> 10) & 3;
            let base: u32 = if sh == 0 {
                0xE180_00B0u32
            } else if sh == 1 {
                0xE190_00D0u32
            } else if sh == 2 {
                0xE190_00B0u32
            } else {
                0xE190_00F0u32
            };
            base | (mid << 16u32) | (lo << 12u32) | hi
        }
    } else if i >> 8 == 0xB0 {
        if (i >> 7) & 1 == 1 {
            0xE24D_DF00u32 | (i & 0x7F)
        } else {
            0xE28D_DF00u32 | (i & 0x7F)
        }
    } else {
        0xE8A0_0000u32 | (((i >> 11) & 1) << 20u32) | (((i >> 8) & 7) << 16u32) | (i & 0xFF)
    }
}

/// ADD Rd, PC/SP, #imm8 * 4 (the PC rounded down to a word).
pub open spec fn add_sp_pc_spec(m: CpuModel, i: u32) -> CpuModel {
    let base = if (i >> 11) & 1 == 1 { m.regs[13] } else { m.regs[15] & 0xFFFF_FFFC };
    m.set_reg(((i >> 8) & 7) as int, wadd(base, ((i & 0xFF) * 4) as u32))
}

pub fn add_sp_pc(cpu: &mut Cpu, instr: u16) -> (r: InstrStatus)
    ensures
        final(cpu)@ == add_sp_pc_spec(old(cpu)@, instr as u32),
        same_machine(old(cpu), final(cpu)),
        r == InstrStatus::InBlock,
{
    let i = instr as u32;
    proof {
        lemma_thumb_fields(i);
    }
    let base = if (i >> 11) & 1 == 1 {
        cpu.regs[13]
    } else {
        cpu.regs[15] & 0xFFFF_FFFC
    };
    cpu.regs[((i >> 8) & 7) as usize] = base.wrapping_add((i & 0xFF) * 4);
    InstrStatus::InBlock
}

} // verus!
