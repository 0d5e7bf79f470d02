//! ARM-state instruction handlers. Each takes the raw 32-bit opcode; its
//! fields are read with the accessors below.
use vstd::prelude::*;
use crate::cpu::{Cpu, CpuModel, InstrStatus, same_extras, same_machine, wadd, wsub};
use crate::mem::MemController;
use crate::psr::{
    Psr, cond_passed, cond_holds, flag_c, flag_t, flag_v, mode_of, with_bit, with_nzcv, set_bit, set_nzcv,
    MODE_USR,
};
use crate::rsa::le_bytes;
use crate::shifter::{
    bit_set, ror, rotated_imm_spec, shift_imm_spec, shift_reg_spec, rotate_right, rotated_imm,
    shift_by_imm, shift_by_reg,
};

verus! {

pub open spec fn cond(i: u32) -> u32 {
    i >> 28
}

pub open spec fn rn(i: u32) -> u32 {
    (i >> 16) & 0xF
}

pub open spec fn rd(i: u32) -> u32 {
    (i >> 12) & 0xF
}

pub open spec fn rs(i: u32) -> u32 {
    (i >> 8) & 0xF
}

pub open spec fn rm(i: u32) -> u32 {
    i & 0xF
}

pub open spec fn opcode(i: u32) -> u32 {
    (i >> 21) & 0xF
}

/// Bounds of the opcode fields.
pub proof fn lemma_fields(i: u32)
    by (bit_vector)
    ensures
        i >> 28 < 16,
        (i >> 16) & 0xF < 16,
        (i >> 12) & 0xF < 16,
        (i >> 8) & 0xF < 16,
        i & 0xF < 16,
        (i >> 21) & 0xF < 16,
        (i >> 7) & 0x1F < 32,
        (i >> 5) & 3 < 4,
        i & 0xFF < 256,
        i & 3 < 4,
        i & 1 < 2,
        (i & 0xFFFF_FFFC) % 4 == 0,
        (i & 0xFFFF_FFFE) % 2 == 0,
{
}

/// The 32-bit value `v` with the pipeline bits that a branch in the state
/// of `cpsr` ignores cleared.
pub open spec fn mask_pc(v: u32, cpsr: u32) -> u32 {
    if flag_t(cpsr) {
        v & 0xFFFF_FFFE
    } else {
        v & 0xFFFF_FFFC
    }
}

// ---------------------------------------------------------------------------
// Data processing

/// Operand 2 and the shifter's carry-out.
pub open spec fn operand2_spec(m: CpuModel, i: u32) -> (u32, bool) {
    let c = flag_c(m.cpsr);
    if bit_set(i, 25) {
        rotated_imm_spec(i & 0xFF, (i >> 8) & 0xF, c)
    } else if !bit_set(i, 4) {
        shift_imm_spec(m.regs[rm(i) as int], (i >> 5) & 3, (i >> 7) & 0x1F, c)
    } else {
        shift_reg_spec(m.regs[rm(i) as int], (i >> 5) & 3, m.regs[rs(i) as int] & 0xFF, c)
    }
}

/// `v` read as a two's-complement number.
pub open spec fn signed(v: u32) -> int {
    if v > 0x7FFF_FFFF {
        v - 0x1_0000_0000
    } else {
        v as int
    }
}

/// The adder: `x + y + cin` with its unsigned carry-out and signed overflow.
pub open spec fn awc(x: u32, y: u32, cin: bool) -> (u32, bool, bool) {
    let ci: int = if cin { 1 } else { 0 };
    let sum = x + y + ci;
    let ssum = signed(x) + signed(y) + ci;
    (
        if sum > u32::MAX { (sum - 0x1_0000_0000) as u32 } else { sum as u32 },
        sum > u32::MAX,
        ssum < -0x8000_0000 || ssum > 0x7FFF_FFFF,
    )
}

/// Whether data-processing opcode `op` is arithmetic (its C and V come
/// from the adder) rather than logical.
pub open spec fn is_arith(op: u32) -> bool {
    2 <= op <= 7 || op == 10 || op == 11
}

/// Whether opcode `op` writes Rd (all but TST, TEQ, CMP, CMN).
pub open spec fn writes_rd(op: u32) -> bool {
    op < 8 || op >= 12
}

/// The result, C and V of data-processing opcode `op` on `a` and `b`.
pub open spec fn alu_spec(op: u32, a: u32, b: u32, c: bool, shc: bool, v: bool) -> (u32, bool, bool) {
    if op == 0 || op == 8 {
        (a & b, shc, v)
    } else if op == 1 || op == 9 {
        (a ^ b, shc, v)
    } else if op == 2 || op == 10 {
        awc(a, !b, true)
    } else if op == 3 {
        awc(b, !a, true)
    } else if op == 4 || op == 11 {
        awc(a, b, false)
    } else if op == 5 {
        awc(a, b, c)
    } else if op == 6 {
        awc(a, !b, c)
    } else if op == 7 {
        awc(b, !a, c)
    } else if op == 12 {
        (a | b, shc, v)
    } else if op == 13 {
        (b, shc, v)
    } else if op == 14 {
        (a & !b, shc, v)
    } else {
        (!b, shc, v)
    }
}

/// The (result, C, V) that a data-processing instruction computes.
pub open spec fn dp_result(m: CpuModel, i: u32) -> (u32, bool, bool) {
    let (b, shc) = operand2_spec(m, i);
    alu_spec(opcode(i), m.regs[rn(i) as int], b, flag_c(m.cpsr), shc, flag_v(m.cpsr))
}

/// The state after a data-processing instruction.
#[verifier::opaque]
pub open spec fn dp_spec(m: CpuModel, i: u32) -> CpuModel {
    if !cond_holds(cond(i), m.cpsr) {
        m
    } else {
        let (res, c, v) = dp_result(m, i);
        let s = bit_set(i, 20);
        if writes_rd(opcode(i)) && rd(i) == 15 {
            let m1 = if s { m.with_cpsr(m.cur_spsr()) } else { m };
            m1.branch(mask_pc(res, m1.cpsr))
        } else {
            let m1 = if writes_rd(opcode(i)) { m.set_reg(rd(i) as int, res) } else { m };
            if s {
                CpuModel { cpsr: with_nzcv(m1.cpsr, bit_set(res, 31), res == 0, c, v), ..m1 }
            } else {
                m1
            }
        }
    }
}

/// Whether a data-processing instruction branches.
pub open spec fn dp_branches(m: CpuModel, i: u32) -> bool {
    cond_holds(cond(i), m.cpsr) && writes_rd(opcode(i)) && rd(i) == 15
}

fn to_signed(v: u32) -> (r: i64)
    ensures
        r == signed(v),
{
    if v > 0x7FFF_FFFF {
        v as i64 - 0x1_0000_0000
    } else {
        v as i64
    }
}

/// The adder with carry-in, carry-out and overflow.
pub fn add_with_carry(x: u32, y: u32, cin: bool) -> (r: (u32, bool, bool))
    ensures
        r == awc(x, y, cin),
{
    let ci: u64 = if cin { 1 } else { 0 };
    let sum: u64 = x as u64 + y as u64 + ci;
    let ssum: i64 = to_signed(x) + to_signed(y) + ci as i64;
    let res: u32 = if sum > 0xFFFF_FFFF {
        (sum - 0x1_0000_0000) as u32
    } else {
        sum as u32
    };
    (res, sum > 0xFFFF_FFFF, ssum < -0x8000_0000 || ssum > 0x7FFF_FFFF)
}

fn alu(op: u32, a: u32, b: u32, c: bool, shc: bool, v: bool) -> (r: (u32, bool, bool))
    ensures
        r == alu_spec(op, a, b, c, shc, v),
{
    if op == 0 || op == 8 {
        (a & b, shc, v)
    } else if op == 1 || op == 9 {
        (a ^ b, shc, v)
    } else if op == 2 || op == 10 {
        add_with_carry(a, !b, true)
    } else if op == 3 {
        add_with_carry(b, !a, true)
    } else if op == 4 || op == 11 {
        add_with_carry(a, b, false)
    } else if op == 5 {
        add_with_carry(a, b, c)
    } else if op == 6 {
        add_with_carry(a, !b, c)
    } else if op == 7 {
        add_with_carry(b, !a, c)
    } else if op == 12 {
        (a | b, shc, v)
    } else if op == 13 {
        (b, shc, v)
    } else if op == 14 {
        (a & !b, shc, v)
    } else {
        (!b, shc, v)
    }
}

fn operand2(cpu: &Cpu, i: u32) -> (r: (u32, bool))
    ensures
        r == operand2_spec(cpu@, i),
{
    proof {
        lemma_fields(i);
        lemma_fields(cpu.regs[((i >> 8) & 0xF) as int]);
    }
    let c = cpu.cpsr.c();
    if (i >> 25) & 1 == 1 {
        rotated_imm(i & 0xFF, (i >> 8) & 0xF, c)
    } else if (i >> 4) & 1 != 1 {
        shift_by_imm(cpu.regs[(i & 0xF) as usize], (i >> 5) & 3, (i >> 7) & 0x1F, c)
    } else {
        let amount = cpu.regs[((i >> 8) & 0xF) as usize] & 0xFF;
        shift_by_reg(cpu.regs[(i & 0xF) as usize], (i >> 5) & 3, amount, c)
    }
}

fn pc_mask(v: u32, thumb: bool) -> (r: u32)
    ensures
        r == (if thumb { v & 0xFFFF_FFFE } else { v & 0xFFFF_FFFC }),
{
    if thumb {
        v & 0xFFFF_FFFE
    } else {
        v & 0xFFFF_FFFC
    }
}

/// AND, EOR, SUB, RSB, ADD, ADC, SBC, RSC, TST, TEQ, CMP, CMN, ORR, MOV,
/// BIC and MVN.
pub fn data_processing(cpu: &mut Cpu, i: u32) -> (r: InstrStatus)
    ensures
        final(cpu)@ == dp_spec(old(cpu)@, i),
        same_machine(old(cpu), final(cpu)),
        r == (if dp_branches(old(cpu)@, i) { InstrStatus::Branched } else { InstrStatus::InBlock }),
{
    reveal(dp_spec);
    proof {
        lemma_fields(i);
    }
    if !cond_passed(i >> 28, &cpu.cpsr) {
        return InstrStatus::InBlock;
    }
    let (b, shc) = operand2(cpu, i);
    let a = cpu.regs[((i >> 16) & 0xF) as usize];
    let op = (i >> 21) & 0xF;
    let (res, c, v) = alu(op, a, b, cpu.cpsr.c(), shc, cpu.cpsr.v());
    let writes = op < 8 || op >= 12;
    let s = (i >> 20) & 1 == 1;
    let d = ((i >> 12) & 0xF) as usize;
    if writes && d == 15 {
        if s {
            let saved = cpu.get_spsr();
            cpu.set_cpsr(saved);
        }
        let t = cpu.cpsr.thumb();
        cpu.branch(pc_mask(res, t));
        return InstrStatus::Branched;
    }
    if writes {
        cpu.regs[d] = res;
    }
    if s {
        let raw = set_nzcv(cpu.cpsr.raw, (res >> 31) & 1 == 1, res == 0, c, v);
        cpu.cpsr = Psr { raw };
    }
    InstrStatus::InBlock
}

// ---------------------------------------------------------------------------
// Branches

/// The byte offset of a B/BL: the 24-bit field sign-extended and shifted
/// left by 2, as a 32-bit two's-complement value.
pub open spec fn branch_offset(i: u32) -> u32 {
    let imm = i & 0x00FF_FFFF;
    if bit_set(imm, 23) {
        (imm | 0xFF00_0000) << 2u32
    } else {
        imm << 2u32
    }
}

/// B and BL.
#[verifier::opaque]
pub open spec fn bbl_spec(m: CpuModel, i: u32) -> CpuModel {
    if !cond_holds(cond(i), m.cpsr) {
        m
    } else {
        let m1 = if bit_set(i, 24) { m.set_reg(14, wsub(m.regs[15], 4)) } else { m };
        m1.branch(wadd(m.regs[15], branch_offset(i)))
    }
}

/// BX and BLX (register): bit 0 of the target selects the Thumb state.
#[verifier::opaque]
pub open spec fn bx_spec(m: CpuModel, i: u32, link: bool) -> CpuModel {
    if !cond_holds(cond(i), m.cpsr) {
        m
    } else {
        let addr = m.regs[rm(i) as int];
        let m1 = if link { m.set_reg(14, wsub(m.regs[15], 4)) } else { m };
        let m2 = CpuModel { cpsr: with_bit(m1.cpsr, 5, addr & 1 == 1), ..m1 };
        m2.branch(addr & 0xFFFF_FFFE)
    }
}

/// BLX (immediate): always taken, always to Thumb state.
#[verifier::opaque]
pub open spec fn mod_blx_spec(m: CpuModel, i: u32) -> CpuModel {
    let h = (i >> 24) & 1;
    let m1 = m.set_reg(14, wsub(m.regs[15], 4));
    let m2 = CpuModel { cpsr: with_bit(m1.cpsr, 5, true), ..m1 };
    m2.branch(wadd(wadd(m.regs[15], branch_offset(i)), h << 1u32))
}

fn offset_of_branch(i: u32) -> (r: u32)
    ensures
        r == branch_offset(i),
{
    let imm = i & 0x00FF_FFFF;
    if (imm >> 23) & 1 == 1 {
        (imm | 0xFF00_0000) << 2u32
    } else {
        imm << 2u32
    }
}

pub fn bbl(cpu: &mut Cpu, i: u32) -> (r: InstrStatus)
    ensures
        final(cpu)@ == bbl_spec(old(cpu)@, i),
        same_machine(old(cpu), final(cpu)),
        r == (if cond_holds(cond(i), old(cpu)@.cpsr) { InstrStatus::Branched } else { InstrStatus::InBlock }),
{
    reveal(bbl_spec);
    if !cond_passed(i >> 28, &cpu.cpsr) {
        return InstrStatus::InBlock;
    }
    let pc = cpu.regs[15];
    if (i >> 24) & 1 == 1 {
        cpu.regs[14] = pc.wrapping_sub(4);
    }
    cpu.branch(pc.wrapping_add(offset_of_branch(i)));
    InstrStatus::Branched
}

fn instr_branch_exchange(cpu: &mut Cpu, i: u32, link: bool) -> (r: InstrStatus)
    ensures
        final(cpu)@ == bx_spec(old(cpu)@, i, link),
        same_machine(old(cpu), final(cpu)),
        r == (if cond_holds(cond(i), old(cpu)@.cpsr) { InstrStatus::Branched } else { InstrStatus::InBlock }),
{
    reveal(bx_spec);
    proof {
        lemma_fields(i);
    }
    if !cond_passed(i >> 28, &cpu.cpsr) {
        return InstrStatus::InBlock;
    }
    let addr = cpu.regs[(i & 0xF) as usize];
    if link {
        cpu.regs[14] = cpu.regs[15].wrapping_sub(4);
    }
    let raw = set_bit(cpu.cpsr.raw, 5, addr & 1 == 1);
    cpu.cpsr = Psr { raw };
    cpu.branch(addr & 0xFFFF_FFFE);
    InstrStatus::Branched
}

pub fn blx(cpu: &mut Cpu, i: u32) -> (r: InstrStatus)
    ensures
        final(cpu)@ == bx_spec(old(cpu)@, i, true),
        same_machine(old(cpu), final(cpu)),
        r == (if cond_holds(cond(i), old(cpu)@.cpsr) { InstrStatus::Branched } else { InstrStatus::InBlock }),
{
    instr_branch_exchange(cpu, i, true)
}

pub fn bx(cpu: &mut Cpu, i: u32) -> (r: InstrStatus)
    ensures
        final(cpu)@ == bx_spec(old(cpu)@, i, false),
        same_machine(old(cpu), final(cpu)),
        r == (if cond_holds(cond(i), old(cpu)@.cpsr) { InstrStatus::Branched } else { InstrStatus::InBlock }),
{
    instr_branch_exchange(cpu, i, false)
}

pub fn mod_blx(cpu: &mut Cpu, i: u32) -> (r: InstrStatus)
    ensures
        final(cpu)@ == mod_blx_spec(old(cpu)@, i),
        same_machine(old(cpu), final(cpu)),
        r == InstrStatus::Branched,
{
    reveal(mod_blx_spec);
    let h = (i >> 24) & 1;
    let pc = cpu.regs[15];
    cpu.regs[14] = pc.wrapping_sub(4);
    let raw = set_bit(cpu.cpsr.raw, 5, true);
    cpu.cpsr = Psr { raw };
    cpu.branch(pc.wrapping_add(offset_of_branch(i)).wrapping_add(h << 1u32));
    InstrStatus::Branched
}

// ---------------------------------------------------------------------------
// Single loads and stores

/// The offset of a load/store: a 12-bit immediate, or Rm shifted by an
/// immediate.
pub open spec fn ls_offset(m: CpuModel, i: u32) -> u32 {
    if !bit_set(i, 25) {
        i & 0xFFF
    } else {
        shift_imm_spec(m.regs[rm(i) as int], (i >> 5) & 3, (i >> 7) & 0x1F, flag_c(m.cpsr)).0
    }
}

/// Rn plus or minus the offset, as the U bit selects.
pub open spec fn offset_addr(m: CpuModel, i: u32, off: u32) -> u32 {
    let base = m.regs[rn(i) as int];
    if bit_set(i, 23) {
        wadd(base, off)
    } else {
        wsub(base, off)
    }
}

/// The address accessed: the offset address when pre-indexed (P set),
/// Rn itself when post-indexed.
pub open spec fn access_addr(m: CpuModel, i: u32, off: u32) -> u32 {
    if bit_set(i, 24) {
        offset_addr(m, i, off)
    } else {
        m.regs[rn(i) as int]
    }
}

/// The base register updated to the offset address, where post-indexing or
/// the W bit asks for it.
pub open spec fn writeback(m: CpuModel, i: u32, off: u32) -> CpuModel {
    if !bit_set(i, 24) || bit_set(i, 21) {
        m.set_reg(rn(i) as int, offset_addr(m, i, off))
    } else {
        m
    }
}

/// A word load: the aligned word rotated right by 8 times the low two
/// address bits.
pub open spec fn load_word(mem: MemController, a: u32) -> u32 {
    ror(mem.load32((a & 0xFFFF_FFFC) as int), (8 * (a & 3)) as u32)
}

/// A loaded value written to Rd; into R15 it branches, bit 0 selecting the
/// Thumb state.
pub open spec fn load_into(m: CpuModel, d: int, v: u32) -> CpuModel {
    if d == 15 {
        let m1 = CpuModel { cpsr: with_bit(m.cpsr, 5, v & 1 == 1), ..m };
        m1.branch(v & 0xFFFF_FFFE)
    } else {
        m.set_reg(d, v)
    }
}

/// The state after LDR / LDRB (`byte`) with offset `off`.
#[verifier::opaque]
pub open spec fn load_spec(m: CpuModel, mem: MemController, i: u32, off: u32, byte: bool) -> CpuModel {
    if !cond_holds(cond(i), m.cpsr) {
        m
    } else {
        let a = access_addr(m, i, off);
        let v = if byte { mem.byte_at(a as int) as u32 } else { load_word(mem, a) };
        load_into(writeback(m, i, off), rd(i) as int, v)
    }
}

/// The bytes that STR / STRB store, and where.
pub open spec fn store_addr(m: CpuModel, i: u32, off: u32, byte: bool) -> u32 {
    let a = access_addr(m, i, off);
    if byte {
        a
    } else {
        a & 0xFFFF_FFFC
    }
}

pub open spec fn store_bytes(m: CpuModel, i: u32, byte: bool) -> Seq<u8> {
    let v = m.regs[rd(i) as int];
    if byte {
        seq![v as u8]
    } else {
        le_bytes(v)
    }
}

/// The address of a load or store, and the offset address; the base
/// register's value comes from the CPU and the offset from the opcode.
pub fn decode_addressing_mode(i: u32, cpu: &Cpu) -> (r: (u32, u32))
    ensures
        r.0 == ls_offset(cpu@, i),
        r.1 == offset_addr(cpu@, i, r.0),
{
    proof {
        lemma_fields(i);
    }
    let offset = if (i >> 25) & 1 != 1 {
        i & 0xFFF
    } else {
        shift_by_imm(cpu.regs[(i & 0xF) as usize], (i >> 5) & 3, (i >> 7) & 0x1F, cpu.cpsr.c()).0
    };
    let base = cpu.regs[((i >> 16) & 0xF) as usize];
    if (i >> 23) & 1 == 1 {
        (offset, base.wrapping_add(offset))
    } else {
        (offset, base.wrapping_sub(offset))
    }
}

fn do_writeback(cpu: &mut Cpu, i: u32, oa: u32)
    ensures
        final(cpu)@ == (if !bit_set(i, 24) || bit_set(i, 21) {
            old(cpu)@.set_reg(rn(i) as int, oa)
        } else {
            old(cpu)@
        }),
        same_machine(old(cpu), final(cpu)),
{
    proof {
        lemma_fields(i);
    }
    if (i >> 24) & 1 != 1 || (i >> 21) & 1 == 1 {
        cpu.regs[((i >> 16) & 0xF) as usize] = oa;
    }
}

fn write_loaded(cpu: &mut Cpu, d: usize, v: u32) -> (r: InstrStatus)
    requires
        d < 16,
    ensures
        final(cpu)@ == load_into(old(cpu)@, d as int, v),
        same_machine(old(cpu), final(cpu)),
        r == (if d == 15 { InstrStatus::Branched } else { InstrStatus::InBlock }),
{
    if d == 15 {
        let raw = set_bit(cpu.cpsr.raw, 5, v & 1 == 1);
        cpu.cpsr = Psr { raw };
        cpu.branch(v & 0xFFFF_FFFE);
        InstrStatus::Branched
    } else {
        cpu.regs[d] = v;
        InstrStatus::InBlock
    }
}

/// The word load with its rotation.
pub fn read_word_rotated(mem: &MemController, a: u32) -> (r: u32)
    requires
        mem.wf(),
    ensures
        r == load_word(*mem, a),
{
    proof {
        lemma_fields(a);
    }
    let w = mem.read32(a & 0xFFFF_FFFC);
    rotate_right(w, 8 * (a & 3))
}

fn instr_load(cpu: &mut Cpu, i: u32, byte: bool) -> (r: InstrStatus)
    requires
        old(cpu).memory.wf(),
    ensures
        final(cpu)@ == load_spec(old(cpu)@, old(cpu).memory, i, ls_offset(old(cpu)@, i), byte),
        same_machine(old(cpu), final(cpu)),
        r == (if cond_holds(cond(i), old(cpu)@.cpsr) && rd(i) == 15 {
            InstrStatus::Branched
        } else {
            InstrStatus::InBlock
        }),
{
    reveal(load_spec);
    proof {
        lemma_fields(i);
    }
    if !cond_passed(i >> 28, &cpu.cpsr) {
        return InstrStatus::InBlock;
    }
    let (_off, oa) = decode_addressing_mode(i, cpu);
    let a = if (i >> 24) & 1 == 1 {
        oa
    } else {
        cpu.regs[((i >> 16) & 0xF) as usize]
    };
    let v = if byte {
        cpu.memory.read8(a) as u32
    } else {
        read_word_rotated(&cpu.memory, a)
    };
    do_writeback(cpu, i, oa);
    write_loaded(cpu, ((i >> 12) & 0xF) as usize, v)
}

fn instr_store(cpu: &mut Cpu, i: u32, byte: bool) -> (r: InstrStatus)
    requires
        old(cpu).memory.wf(),
    ensures
        final(cpu).memory.wf(),
        same_extras(old(cpu), final(cpu)),
        r == InstrStatus::InBlock,
        if cond_holds(cond(i), old(cpu)@.cpsr) {
            &&& final(cpu)@ == writeback(old(cpu)@, i, ls_offset(old(cpu)@, i))
            &&& old(cpu).memory.store_rel(
                final(cpu).memory,
                store_addr(old(cpu)@, i, ls_offset(old(cpu)@, i), byte) as int,
                store_bytes(old(cpu)@, i, byte),
            )
        } else {
            &&& final(cpu)@ == old(cpu)@
            &&& final(cpu).memory == old(cpu).memory
        },
{
    proof {
        lemma_fields(i);
    }
    if !cond_passed(i >> 28, &cpu.cpsr) {
        return InstrStatus::InBlock;
    }
    let (_off, oa) = decode_addressing_mode(i, cpu);
    let a = if (i >> 24) & 1 == 1 {
        oa
    } else {
        cpu.regs[((i >> 16) & 0xF) as usize]
    };
    let v = cpu.regs[((i >> 12) & 0xF) as usize];
    proof {
        lemma_fields(a);
    }
    if byte {
        cpu.memory.write8(a, v as u8);
    } else {
        cpu.memory.write32(a & 0xFFFF_FFFC, v);
    }
    do_writeback(cpu, i, oa);
    InstrStatus::InBlock
}

/// LDR: a word load, rotated by the low address bits.
pub fn ldr(cpu: &mut Cpu, i: u32) -> (r: InstrStatus)
    requires
        old(cpu).memory.wf(),
    ensures
        final(cpu)@ == load_spec(old(cpu)@, old(cpu).memory, i, ls_offset(old(cpu)@, i), false),
        same_machine(old(cpu), final(cpu)),
        r == (if cond_holds(cond(i), old(cpu)@.cpsr) && rd(i) == 15 {
            InstrStatus::Branched
        } else {
            InstrStatus::InBlock
        }),
{
    instr_load(cpu, i, false)
}

/// LDRB: a zero-extended byte load.
pub fn ldrb(cpu: &mut Cpu, i: u32) -> (r: InstrStatus)
    requires
        old(cpu).memory.wf(),
    ensures
        final(cpu)@ == load_spec(old(cpu)@, old(cpu).memory, i, ls_offset(old(cpu)@, i), true),
        same_machine(old(cpu), final(cpu)),
        r == (if cond_holds(cond(i), old(cpu)@.cpsr) && rd(i) == 15 {
            InstrStatus::Branched
        } else {
            InstrStatus::InBlock
        }),
{
    instr_load(cpu, i, true)
}

/// STR: a word store at the word-aligned address.
pub fn str(cpu: &mut Cpu, i: u32) -> (r: InstrStatus)
    requires
        old(cpu).memory.wf(),
    ensures
        final(cpu).memory.wf(),
        same_extras(old(cpu), final(cpu)),
        r == InstrStatus::InBlock,
        if cond_holds(cond(i), old(cpu)@.cpsr) {
            &&& final(cpu)@ == writeback(old(cpu)@, i, ls_offset(old(cpu)@, i))
            &&& old(cpu).memory.store_rel(
                final(cpu).memory,
                store_addr(old(cpu)@, i, ls_offset(old(cpu)@, i), false) as int,
                store_bytes(old(cpu)@, i, false),
            )
        } else {
            &&& final(cpu)@ == old(cpu)@
            &&& final(cpu).memory == old(cpu).memory
        },
{
    instr_store(cpu, i, false)
}

/// STRB: the low byte of Rd.
pub fn strb(cpu: &mut Cpu, i: u32) -> (r: InstrStatus)
    requires
        old(cpu).memory.wf(),
    ensures
        final(cpu).memory.wf(),
        same_extras(old(cpu), final(cpu)),
        r == InstrStatus::InBlock,
        if cond_holds(cond(i), old(cpu)@.cpsr) {
            &&& final(cpu)@ == writeback(old(cpu)@, i, ls_offset(old(cpu)@, i))
            &&& old(cpu).memory.store_rel(
                final(cpu).memory,
                store_addr(old(cpu)@, i, ls_offset(old(cpu)@, i), true) as int,
                store_bytes(old(cpu)@, i, true),
            )
        } else {
            &&& final(cpu)@ == old(cpu)@
            &&& final(cpu).memory == old(cpu).memory
        },
{
    instr_store(cpu, i, true)
}

// ---------------------------------------------------------------------------
// Load and store multiple

/// How many registers of `list` lie below register `r`.
pub open spec fn rank(list: u32, r: int) -> int
    decreases r,
{
    if r <= 0 {
        0
    } else {
        rank(list, r - 1) + if bit_set(list, (r - 1) as u32) { 1int } else { 0int }
    }
}

/// The number of registers that an LDM/STM transfers.
pub open spec fn reg_count(i: u32) -> int {
    rank(i & 0xFFFF, 16)
}

/// The base register after writeback: Rn plus or minus four bytes per
/// register, as the U bit selects.
pub open spec fn lsm_wb(m: CpuModel, i: u32) -> u32 {
    let base = m.regs[rn(i) as int];
    let n4 = (4 * reg_count(i)) as u32;
    if bit_set(i, 23) {
        wadd(base, n4)
    } else {
        wsub(base, n4)
    }
}

/// The lowest address transferred, in the four addressing modes (IA, IB,
/// DA, DB), word-aligned.
pub open spec fn lsm_first(m: CpuModel, i: u32) -> u32 {
    let base = m.regs[rn(i) as int];
    let n4 = (4 * reg_count(i)) as u32;
    let start = if bit_set(i, 23) {
        if bit_set(i, 24) {
            wadd(base, 4)
        } else {
            base
        }
    } else {
        if bit_set(i, 24) {
            wsub(base, n4)
        } else {
            wadd(wsub(base, n4), 4)
        }
    };
    start & 0xFFFF_FFFC
}

/// Where register `r` of the list is transferred: registers go in
/// ascending order to ascending addresses.
pub open spec fn slot_addr(m: CpuModel, i: u32, r: int) -> u32 {
    wadd(lsm_first(m, i), (4 * rank(i & 0xFFFF, r)) as u32)
}

/// The CPSR value with the mode field set to user mode.
pub open spec fn user_cpsr(p: u32) -> u32 {
    (p & 0xFFFF_FFE0) | 0x10
}

/// The register file as user mode sees it.
pub open spec fn user_view(m: CpuModel) -> CpuModel {
    m.with_cpsr(user_cpsr(m.cpsr))
}

/// The state after an LDM.
#[verifier::opaque]
pub open spec fn ldm_spec(m: CpuModel, mem: MemController, i: u32) -> CpuModel {
    if !cond_holds(cond(i), m.cpsr) {
        m
    } else {
        let list = i & 0xFFFF;
        let m1 = if bit_set(i, 21) { m.set_reg(rn(i) as int, lsm_wb(m, i)) } else { m };
        let user = bit_set(i, 22) && !bit_set(list, 15);
        let m2 = if user { user_view(m1) } else { m1 };
        let m3 = CpuModel {
            regs: Seq::new(
                16,
                |r: int|
                    if r < 15 && bit_set(list, r as u32) {
                        mem.load32(slot_addr(m, i, r) as int)
                    } else {
                        m2.regs[r]
                    },
            ),
            ..m2
        };
        let m4 = if user { m3.with_cpsr(m.cpsr) } else { m3 };
        if bit_set(list, 15) {
            let v = mem.load32(slot_addr(m, i, 15) as int);
            if bit_set(i, 22) {
                let m5 = m4.with_cpsr(m4.cur_spsr());
                m5.branch(mask_pc(v, m5.cpsr))
            } else {
                load_into(m4, 15, v)
            }
        } else {
            m4
        }
    }
}

/// The value that an STM stores for register `r`: with writeback, a base
/// register that is not the lowest of the list stores the updated base.
pub open spec fn stm_value(m: CpuModel, i: u32, r: int) -> u32 {
    let src = if bit_set(i, 22) { user_view(m) } else { m };
    if bit_set(i, 21) && r == rn(i) && rank(i & 0xFFFF, r) != 0 {
        lsm_wb(m, i)
    } else {
        src.regs[r]
    }
}

/// The (address, value) stores of an STM for the registers below `r`, in
/// order.
pub open spec fn stm_stores(m: CpuModel, i: u32, r: int) -> Seq<(u32, u32)>
    decreases r,
{
    if r <= 0 {
        Seq::empty()
    } else if bit_set(i & 0xFFFF, (r - 1) as u32) {
        stm_stores(m, i, r - 1).push((slot_addr(m, i, r - 1), stm_value(m, i, r - 1)))
    } else {
        stm_stores(m, i, r - 1)
    }
}

/// Whether `ms` are the memories before, between and after the word
/// stores `st`, each store leaving what it may.
pub open spec fn chain_ok(ms: Seq<MemController>, st: Seq<(u32, u32)>) -> bool {
    &&& ms.len() == st.len() + 1
    &&& forall|k: int|
        0 <= k < st.len() ==> #[trigger] ms[k].store_rel(ms[k + 1], st[k].0 as int, le_bytes(st[k].1))
}

/// What a sequence of word stores may leave behind, one after the other.
pub open spec fn stores_rel(m0: MemController, m1: MemController, st: Seq<(u32, u32)>) -> bool {
    exists|ms: Seq<MemController>| #[trigger] chain_ok(ms, st) && ms[0] == m0 && ms.last() == m1
}

proof fn lemma_user_mode(p: u32)
    by (bit_vector)
    ensures
        user_cpsr(p) & 0x1F == 0x10,
{
}

fn count_regs(list: u32) -> (n: u32)
    ensures
        n == rank(list, 16),
        n <= 16,
{
    let mut n: u32 = 0;
    let mut r: u32 = 0;
    while r < 16
        invariant
            r <= 16,
            n == rank(list, r as int),
            n <= r,
        decreases 16 - r,
    {
        if (list >> r) & 1 == 1 {
            n = n + 1;
        }
        r = r + 1;
    }
    n
}

/// Base register after writeback, and the lowest address transferred.
fn lsm_addresses(cpu: &Cpu, i: u32) -> (r: (u32, u32))
    ensures
        r.0 == lsm_wb(cpu@, i),
        r.1 == lsm_first(cpu@, i),
        r.1 % 4 == 0,
{
    proof {
        lemma_fields(i);
    }
    let n4 = 4 * count_regs(i & 0xFFFF);
    let base = cpu.regs[((i >> 16) & 0xF) as usize];
    let wb = if (i >> 23) & 1 == 1 {
        base.wrapping_add(n4)
    } else {
        base.wrapping_sub(n4)
    };
    let start = if (i >> 23) & 1 == 1 {
        if (i >> 24) & 1 == 1 {
            base.wrapping_add(4)
        } else {
            base
        }
    } else {
        if (i >> 24) & 1 == 1 {
            base.wrapping_sub(n4)
        } else {
            base.wrapping_sub(n4).wrapping_add(4)
        }
    };
    proof {
        lemma_fields(start);
    }
    (wb, start & 0xFFFF_FFFC)
}

/// Register `r` as user mode sees it.
fn user_reg(cpu: &Cpu, r: usize) -> (v: u32)
    requires
        r < 16,
    ensures
        v == user_view(cpu@).regs[r as int],
{
    proof {
        lemma_user_mode(cpu.cpsr.raw);
    }
    let b = crate::cpu::bank_of(cpu.cpsr.mode());
    if 8 <= r && r < 13 {
        if b == 1 {
            cpu.usr_hi[r - 8]
        } else {
            cpu.regs[r]
        }
    } else if r == 13 {
        if b == 0 {
            cpu.regs[13]
        } else {
            cpu.bank_sp[0]
        }
    } else if r == 14 {
        if b == 0 {
            cpu.regs[14]
        } else {
            cpu.bank_lr[0]
        }
    } else {
        cpu.regs[r]
    }
}

/// LDM: loads the listed registers from consecutive words.
pub fn ldm(cpu: &mut Cpu, i: u32) -> (r: InstrStatus)
    requires
        old(cpu).memory.wf(),
    ensures
        final(cpu)@ == ldm_spec(old(cpu)@, old(cpu).memory, i),
        same_machine(old(cpu), final(cpu)),
        r == (if cond_holds(cond(i), old(cpu)@.cpsr) && bit_set(i & 0xFFFF, 15) {
            InstrStatus::Branched
        } else {
            InstrStatus::InBlock
        }),
{
    reveal(ldm_spec);
    proof {
        lemma_fields(i);
    }
    if !cond_passed(i >> 28, &cpu.cpsr) {
        return InstrStatus::InBlock;
    }
    let ghost m = cpu@;
    let list = i & 0xFFFF;
    let (wb, first) = lsm_addresses(cpu, i);
    let mut vals: [u32; 16] = [0u32; 16];
    let mut k: u32 = 0;
    let mut r: u32 = 0;
    while r < 16
        invariant
            cpu@ == m,
            cpu.memory.wf(),
            first == lsm_first(m, i),
            first % 4 == 0,
            list == i & 0xFFFF,
            r <= 16,
            k == rank(list, r as int),
            k <= r,
            forall|j: int|
                0 <= j < r && bit_set(list, j as u32) ==> #[trigger] vals@[j] == cpu.memory.load32(
                    slot_addr(m, i, j) as int,
                ),
        decreases 16 - r,
    {
        if (list >> r) & 1 == 1 {
            let a = first.wrapping_add(4 * k);
            vals[r as usize] = cpu.memory.read32(a);
            k = k + 1;
        }
        r = r + 1;
    }
    let ghost mem = cpu.memory;
    assert(mem == old(cpu).memory);
    if (i >> 21) & 1 == 1 {
        cpu.regs[((i >> 16) & 0xF) as usize] = wb;
    }
    let ghost m1 = cpu@;
    let user = (i >> 22) & 1 == 1 && (list >> 15) & 1 != 1;
    let orig = cpu.cpsr.raw;
    if user {
        cpu.set_cpsr((orig & 0xFFFF_FFE0) | 0x10);
    }
    let ghost m2 = cpu@;
    let mut r: usize = 0;
    while r < 15
        invariant
            cpu@.cpsr == m2.cpsr,
            cpu@.spsr == m2.spsr,
            cpu@.bank_sp == m2.bank_sp,
            cpu@.bank_lr == m2.bank_lr,
            cpu@.usr_hi == m2.usr_hi,
            cpu@.fiq_hi == m2.fiq_hi,
            same_machine(old(cpu), cpu),
            r <= 15,
            forall|j: int|
                0 <= j < 16 ==> #[trigger] cpu@.regs[j] == if j < r && bit_set(list, j as u32) {
                    vals@[j]
                } else {
                    m2.regs[j]
                },
        decreases 15 - r,
    {
        let ru = r as u32;
        let ghost before = cpu@.regs;
        if (list >> ru) & 1 == 1 {
            cpu.regs[r] = vals[r];
            assert(cpu@.regs == before.update(r as int, vals@[r as int]));
        }
        assert forall|j: int| 0 <= j < 16 implies #[trigger] cpu@.regs[j] == if j < r + 1 && bit_set(
            list,
            j as u32,
        ) {
            vals@[j]
        } else {
            m2.regs[j]
        } by {
            if j != r {
                assert(cpu@.regs[j] == before[j]);
            }
        }
        r = r + 1;
    }
    let ghost m3 = CpuModel {
        regs: Seq::new(
            16,
            |j: int|
                if j < 15 && bit_set(list, j as u32) {
                    mem.load32(slot_addr(m, i, j) as int)
                } else {
                    m2.regs[j]
                },
        ),
        ..m2
    };
    assert(cpu@.regs =~= m3.regs);
    assert(cpu@ == m3);
    if user {
        cpu.set_cpsr(orig);
    }
    if (list >> 15) & 1 == 1 {
        let v = vals[15];
        if (i >> 22) & 1 == 1 {
            let saved = cpu.get_spsr();
            cpu.set_cpsr(saved);
            let t = cpu.cpsr.thumb();
            cpu.branch(pc_mask(v, t));
            return InstrStatus::Branched;
        }
        return write_loaded(cpu, 15, v);
    }
    InstrStatus::InBlock
}

/// STM: stores the listed registers to consecutive words.
pub fn stm(cpu: &mut Cpu, i: u32) -> (r: InstrStatus)
    requires
        old(cpu).memory.wf(),
    ensures
        final(cpu).memory.wf(),
        same_extras(old(cpu), final(cpu)),
        r == InstrStatus::InBlock,
        if cond_holds(cond(i), old(cpu)@.cpsr) {
            &&& final(cpu)@ == if bit_set(i, 21) {
                old(cpu)@.set_reg(rn(i) as int, lsm_wb(old(cpu)@, i))
            } else {
                old(cpu)@
            }
            &&& stores_rel(old(cpu).memory, final(cpu).memory, stm_stores(old(cpu)@, i, 16))
        } else {
            &&& final(cpu)@ == old(cpu)@
            &&& final(cpu).memory == old(cpu).memory
        },
{
    proof {
        lemma_fields(i);
    }
    if !cond_passed(i >> 28, &cpu.cpsr) {
        return InstrStatus::InBlock;
    }
    let ghost m = cpu@;
    let list = i & 0xFFFF;
    let n = ((i >> 16) & 0xF) as usize;
    let (wb, first) = lsm_addresses(cpu, i);
    let user = (i >> 22) & 1 == 1;
    let wback = (i >> 21) & 1 == 1;
    let ghost mut ms: Seq<MemController> = seq![cpu.memory];
    let mut k: u32 = 0;
    let mut r: u32 = 0;
    while r < 16
        invariant
            cpu@ == m,
            cpu.memory.wf(),
            same_extras(old(cpu), cpu),
            first == lsm_first(m, i),
            wb == lsm_wb(m, i),
            first % 4 == 0,
            list == i & 0xFFFF,
            n == rn(i),
            user == bit_set(i, 22),
            wback == bit_set(i, 21),
            r <= 16,
            k == rank(list, r as int),
            k <= r,
            chain_ok(ms, stm_stores(m, i, r as int)),
            ms[0] == old(cpu).memory,
            ms.last() == cpu.memory,
        decreases 16 - r,
    {
        if (list >> r) & 1 == 1 {
            let a = first.wrapping_add(4 * k);
            let v = if wback && r as usize == n && k != 0 {
                wb
            } else if user {
                user_reg(cpu, r as usize)
            } else {
                cpu.regs[r as usize]
            };
            cpu.memory.write32(a, v);
            proof {
                let st = stm_stores(m, i, r + 1);
                assert(st == stm_stores(m, i, r as int).push((a, v)));
                assert(st.drop_last() =~= stm_stores(m, i, r as int));
                assert(st.last() == (a, v));
                let ms2 = ms.push(cpu.memory);
                assert forall|j: int| 0 <= j < st.len() implies #[trigger] ms2[j].store_rel(
                    ms2[j + 1],
                    st[j].0 as int,
                    le_bytes(st[j].1),
                ) by {
                    if j < st.len() - 1 {
                        assert(st[j] == stm_stores(m, i, r as int)[j]);
                        assert(ms2[j] == ms[j] && ms2[j + 1] == ms[j + 1]);
                    }
                }
                ms = ms2;
            }
            k = k + 1;
        } else {
            assert(stm_stores(m, i, r + 1) == stm_stores(m, i, r as int));
        }
        r = r + 1;
    }
    if wback {
        cpu.regs[n] = wb;
    }
    assert(chain_ok(ms, stm_stores(m, i, 16)));
    InstrStatus::InBlock
}

// ---------------------------------------------------------------------------
// Multiply

/// Wrapping 32-bit multiplication.
pub open spec fn wmul(a: u32, b: u32) -> u32 {
    ((a as nat * b as nat) % 0x1_0000_0000) as u32
}

/// Wrapping 64-bit addition.
pub open spec fn wadd64(a: u64, b: u64) -> u64 {
    if a + b > u64::MAX {
        (a + b - 0x1_0000_0000_0000_0000) as u64
    } else {
        (a + b) as u64
    }
}

/// MUL / MLA: Rm * Rs (+ Rn), modulo 2^32, into the register in bits 19..16.
pub open spec fn mul_result(m: CpuModel, i: u32) -> u32 {
    let p = wmul(m.regs[rm(i) as int], m.regs[rs(i) as int]);
    if bit_set(i, 21) {
        wadd(p, m.regs[rd(i) as int])
    } else {
        p
    }
}

/// N and Z from a result; C and V kept.
pub open spec fn with_nz(cpsr: u32, n: bool, z: bool) -> u32 {
    with_nzcv(cpsr, n, z, flag_c(cpsr), flag_v(cpsr))
}

#[verifier::opaque]
pub open spec fn mul_spec(m: CpuModel, i: u32) -> CpuModel {
    if !cond_holds(cond(i), m.cpsr) {
        m
    } else {
        let r = mul_result(m, i);
        let m1 = m.set_reg(rn(i) as int, r);
        if bit_set(i, 20) {
            CpuModel { cpsr: with_nz(m1.cpsr, bit_set(r, 31), r == 0), ..m1 }
        } else {
            m1
        }
    }
}

/// UMULL / SMULL / UMLAL / SMLAL: the 64-bit product (signed when bit 22 is
/// set), plus RdHi:RdLo when accumulating, modulo 2^64.
pub open spec fn long_result(m: CpuModel, i: u32) -> u64 {
    let a = m.regs[rm(i) as int];
    let b = m.regs[rs(i) as int];
    let p: u64 = if bit_set(i, 22) {
        ((a as i32) as i64 * (b as i32) as i64) as u64
    } else {
        (a as u64 * b as u64) as u64
    };
    let acc: u64 = ((m.regs[rn(i) as int] as u64) << 32u64) | (m.regs[rd(i) as int] as u64);
    if bit_set(i, 21) {
        wadd64(p, acc)
    } else {
        p
    }
}

#[verifier::opaque]
pub open spec fn mul_long_spec(m: CpuModel, i: u32) -> CpuModel {
    if !cond_holds(cond(i), m.cpsr) {
        m
    } else {
        let r = long_result(m, i);
        let m1 = m.set_reg(rd(i) as int, r as u32).set_reg(rn(i) as int, (r >> 32u64) as u32);
        if bit_set(i, 20) {
            CpuModel { cpsr: with_nz(m1.cpsr, (r >> 63u64) & 1 == 1, r == 0), ..m1 }
        } else {
            m1
        }
    }
}

/// MUL and MLA.
pub fn mul(cpu: &mut Cpu, i: u32) -> (r: InstrStatus)
    ensures
        final(cpu)@ == mul_spec(old(cpu)@, i),
        same_machine(old(cpu), final(cpu)),
        r == InstrStatus::InBlock,
{
    reveal(mul_spec);
    proof {
        lemma_fields(i);
    }
    if !cond_passed(i >> 28, &cpu.cpsr) {
        return InstrStatus::InBlock;
    }
    let p = cpu.regs[(i & 0xF) as usize].wrapping_mul(cpu.regs[((i >> 8) & 0xF) as usize]);
    let res = if (i >> 21) & 1 == 1 {
        p.wrapping_add(cpu.regs[((i >> 12) & 0xF) as usize])
    } else {
        p
    };
    cpu.regs[((i >> 16) & 0xF) as usize] = res;
    if (i >> 20) & 1 == 1 {
        let c = cpu.cpsr.c();
        let v = cpu.cpsr.v();
        let raw = set_nzcv(cpu.cpsr.raw, (res >> 31) & 1 == 1, res == 0, c, v);
        cpu.cpsr = Psr { raw };
    }
    InstrStatus::InBlock
}

/// UMULL, UMLAL, SMULL and SMLAL.
pub fn mul_long(cpu: &mut Cpu, i: u32) -> (r: InstrStatus)
    ensures
        final(cpu)@ == mul_long_spec(old(cpu)@, i),
        same_machine(old(cpu), final(cpu)),
        r == InstrStatus::InBlock,
{
    reveal(mul_long_spec);
    proof {
        lemma_fields(i);
    }
    if !cond_passed(i >> 28, &cpu.cpsr) {
        return InstrStatus::InBlock;
    }
    let a = cpu.regs[(i & 0xF) as usize];
    let b = cpu.regs[((i >> 8) & 0xF) as usize];
    let p: u64 = if (i >> 22) & 1 == 1 {
        let x = (a as i32) as i64;
        let y = (b as i32) as i64;
        assert(-0x8000_0000 <= x <= 0x7FFF_FFFF && -0x8000_0000 <= y <= 0x7FFF_FFFF);
        assert(-0x4000_0000_0000_0000 <= x * y <= 0x4000_0000_0000_0000) by (nonlinear_arith)
            requires
                -0x8000_0000 <= x <= 0x7FFF_FFFF,
                -0x8000_0000 <= y <= 0x7FFF_FFFF,
        ;
        (x * y) as u64
    } else {
        let x = a as u64;
        let y = b as u64;
        assert(x * y <= 0xFFFF_FFFE_0000_0001) by (nonlinear_arith)
            requires
                x <= 0xFFFF_FFFF,
                y <= 0xFFFF_FFFF,
        ;
        x * y
    };
    let hi_reg = ((i >> 16) & 0xF) as usize;
    let lo_reg = ((i >> 12) & 0xF) as usize;
    let acc: u64 = ((cpu.regs[hi_reg] as u64) << 32u64) | (cpu.regs[lo_reg] as u64);
    let res = if (i >> 21) & 1 == 1 {
        p.wrapping_add(acc)
    } else {
        p
    };
    cpu.regs[lo_reg] = res as u32;
    cpu.regs[hi_reg] = (res >> 32u64) as u32;
    if (i >> 20) & 1 == 1 {
        let c = cpu.cpsr.c();
        let v = cpu.cpsr.v();
        let raw = set_nzcv(cpu.cpsr.raw, (res >> 63u64) & 1 == 1, res == 0, c, v);
        cpu.cpsr = Psr { raw };
    }
    InstrStatus::InBlock
}

// ---------------------------------------------------------------------------
// Status register transfer

/// MRS: CPSR, or the current mode's SPSR when bit 22 is set, into Rd.
#[verifier::opaque]
pub open spec fn mrs_spec(m: CpuModel, i: u32) -> CpuModel {
    if !cond_holds(cond(i), m.cpsr) {
        m
    } else {
        m.set_reg(rd(i) as int, if bit_set(i, 22) { m.cur_spsr() } else { m.cpsr })
    }
}

/// The bytes of a PSR that an MSR writes, from its 4-bit field mask.
pub open spec fn field_mask(i: u32) -> u32 {
    (if bit_set(i, 16) { 0xFFu32 } else { 0u32 }) | (if bit_set(i, 17) { 0xFF00u32 } else { 0u32 }) | (
    if bit_set(i, 18) { 0xFF_0000u32 } else { 0u32 }) | (if bit_set(i, 19) { 0xFF00_0000u32 } else { 0u32 })
}

pub open spec fn msr_operand(m: CpuModel, i: u32) -> u32 {
    if bit_set(i, 25) {
        ror(i & 0xFF, (2 * ((i >> 8) & 0xF)) as u32)
    } else {
        m.regs[rm(i) as int]
    }
}

/// MSR: the selected bytes of CPSR (only the flag byte in user mode; a
/// change of mode exchanges the banked registers) or of the current mode's
/// SPSR (ignored in modes that have none).
#[verifier::opaque]
pub open spec fn msr_spec(m: CpuModel, i: u32) -> CpuModel {
    if !cond_holds(cond(i), m.cpsr) {
        m
    } else {
        let v = msr_operand(m, i);
        let mask = field_mask(i);
        if bit_set(i, 22) {
            let b = crate::cpu::bank_index(mode_of(m.cpsr));
            if b == 0 {
                m
            } else {
                CpuModel { spsr: m.spsr.update(b, (m.spsr[b] & !mask) | (v & mask)), ..m }
            }
        } else {
            let mask2 = if mode_of(m.cpsr) == MODE_USR { mask & 0xFF00_0000 } else { mask };
            m.with_cpsr((m.cpsr & !mask2) | (v & mask2))
        }
    }
}

pub fn mrs(cpu: &mut Cpu, i: u32) -> (r: InstrStatus)
    ensures
        final(cpu)@ == mrs_spec(old(cpu)@, i),
        same_machine(old(cpu), final(cpu)),
        r == InstrStatus::InBlock,
{
    reveal(mrs_spec);
    proof {
        lemma_fields(i);
    }
    if !cond_passed(i >> 28, &cpu.cpsr) {
        return InstrStatus::InBlock;
    }
    let v = if (i >> 22) & 1 == 1 {
        cpu.get_spsr()
    } else {
        cpu.cpsr.raw
    };
    cpu.regs[((i >> 12) & 0xF) as usize] = v;
    InstrStatus::InBlock
}

pub fn msr(cpu: &mut Cpu, i: u32) -> (r: InstrStatus)
    ensures
        final(cpu)@ == msr_spec(old(cpu)@, i),
        same_machine(old(cpu), final(cpu)),
        r == InstrStatus::InBlock,
{
    reveal(msr_spec);
    proof {
        lemma_fields(i);
    }
    if !cond_passed(i >> 28, &cpu.cpsr) {
        return InstrStatus::InBlock;
    }
    let v = if (i >> 25) & 1 == 1 {
        rotate_right(i & 0xFF, 2 * ((i >> 8) & 0xF))
    } else {
        cpu.regs[(i & 0xF) as usize]
    };
    let mask = (if (i >> 16) & 1 == 1 { 0xFFu32 } else { 0u32 }) | (if (i >> 17) & 1 == 1 {
        0xFF00u32
    } else {
        0u32
    }) | (if (i >> 18) & 1 == 1 { 0xFF_0000u32 } else { 0u32 }) | (if (i >> 19) & 1 == 1 {
        0xFF00_0000u32
    } else {
        0u32
    });
    if (i >> 22) & 1 == 1 {
        let b = crate::cpu::bank_of(cpu.cpsr.mode());
        if b != 0 {
            cpu.spsr[b] = (cpu.spsr[b] & !mask) | (v & mask);
        }
    } else {
        let mask2 = if cpu.cpsr.mode() == MODE_USR {
            mask & 0xFF00_0000
        } else {
            mask
        };
        let nv = (cpu.cpsr.raw & !mask2) | (v & mask2);
        cpu.set_cpsr(nv);
    }
    InstrStatus::InBlock
}

// ---------------------------------------------------------------------------
// Halfword and signed loads and stores

/// The offset of a halfword transfer: an 8-bit immediate split over bits
/// 11..8 and 3..0, or Rm.
pub open spec fn half_offset(m: CpuModel, i: u32) -> u32 {
    if bit_set(i, 22) {
        ((i >> 4) & 0xF0) | (i & 0xF)
    } else {
        m.regs[rm(i) as int]
    }
}

/// The value that LDRH (`sh` = 1), LDRSB (2) or LDRSH (3) loads.
pub open spec fn half_value(mem: MemController, a: u32, sh: u32) -> u32 {
    if sh == 2 {
        let b = mem.byte_at(a as int) as u32;
        if b >= 0x80 {
            b | 0xFFFF_FF00
        } else {
            b
        }
    } else {
        let h = mem.load16((a & 0xFFFF_FFFE) as int) as u32;
        if sh == 3 && h >= 0x8000 {
            h | 0xFFFF_0000
        } else {
            h
        }
    }
}

#[verifier::opaque]
pub open spec fn load_half_spec(m: CpuModel, mem: MemController, i: u32) -> CpuModel {
    if !cond_holds(cond(i), m.cpsr) {
        m
    } else {
        let off = half_offset(m, i);
        let v = half_value(mem, access_addr(m, i, off), (i >> 5) & 3);
        load_into(writeback(m, i, off), rd(i) as int, v)
    }
}

/// LDRH, LDRSB and LDRSH (bit 20 set, bits 6..5 nonzero).
pub fn load_half(cpu: &mut Cpu, i: u32) -> (r: InstrStatus)
    requires
        old(cpu).memory.wf(),
    ensures
        final(cpu)@ == load_half_spec(old(cpu)@, old(cpu).memory, i),
        same_machine(old(cpu), final(cpu)),
        r == (if cond_holds(cond(i), old(cpu)@.cpsr) && rd(i) == 15 {
            InstrStatus::Branched
        } else {
            InstrStatus::InBlock
        }),
{
    reveal(load_half_spec);
    proof {
        lemma_fields(i);
    }
    if !cond_passed(i >> 28, &cpu.cpsr) {
        return InstrStatus::InBlock;
    }
    let off = if (i >> 22) & 1 == 1 {
        ((i >> 4) & 0xF0) | (i & 0xF)
    } else {
        cpu.regs[(i & 0xF) as usize]
    };
    let base = cpu.regs[((i >> 16) & 0xF) as usize];
    let oa = if (i >> 23) & 1 == 1 {
        base.wrapping_add(off)
    } else {
        base.wrapping_sub(off)
    };
    let a = if (i >> 24) & 1 == 1 {
        oa
    } else {
        base
    };
    proof {
        lemma_fields(a);
    }
    let sh = (i >> 5) & 3;
    let v = if sh == 2 {
        let b = cpu.memory.read8(a) as u32;
        if b >= 0x80 {
            b | 0xFFFF_FF00
        } else {
            b
        }
    } else {
        let h = cpu.memory.read16(a & 0xFFFF_FFFE) as u32;
        if sh == 3 && h >= 0x8000 {
            h | 0xFFFF_0000
        } else {
            h
        }
    };
    do_writeback(cpu, i, oa);
    write_loaded(cpu, ((i >> 12) & 0xF) as usize, v)
}

/// STRH: the low halfword of Rd at the halfword-aligned address.
pub fn strh(cpu: &mut Cpu, i: u32) -> (r: InstrStatus)
    requires
        old(cpu).memory.wf(),
    ensures
        final(cpu).memory.wf(),
        same_extras(old(cpu), final(cpu)),
        r == InstrStatus::InBlock,
        if cond_holds(cond(i), old(cpu)@.cpsr) {
            let off = half_offset(old(cpu)@, i);
            &&& final(cpu)@ == writeback(old(cpu)@, i, off)
            &&& old(cpu).memory.store_rel(
                final(cpu).memory,
                (access_addr(old(cpu)@, i, off) & 0xFFFF_FFFE) as int,
                crate::mem::le_bytes16(old(cpu)@.regs[rd(i) as int] as u16),
            )
        } else {
            &&& final(cpu)@ == old(cpu)@
            &&& final(cpu).memory == old(cpu).memory
        },
{
    proof {
        lemma_fields(i);
    }
    if !cond_passed(i >> 28, &cpu.cpsr) {
        return InstrStatus::InBlock;
    }
    let off = if (i >> 22) & 1 == 1 {
        ((i >> 4) & 0xF0) | (i & 0xF)
    } else {
        cpu.regs[(i & 0xF) as usize]
    };
    let base = cpu.regs[((i >> 16) & 0xF) as usize];
    let oa = if (i >> 23) & 1 == 1 {
        base.wrapping_add(off)
    } else {
        base.wrapping_sub(off)
    };
    let a = if (i >> 24) & 1 == 1 {
        oa
    } else {
        base
    };
    proof {
        lemma_fields(a);
    }
    let v = cpu.regs[((i >> 12) & 0xF) as usize];
    cpu.memory.write16(a & 0xFFFF_FFFE, v as u16);
    do_writeback(cpu, i, oa);
    InstrStatus::InBlock
}

} // verus!
