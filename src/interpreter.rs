//! Decoding and the run loop: opcode to handler, one step, a batch of
//! steps with breakpoints and interrupt entry.
use vstd::prelude::*;
use crate::arm::{
    self, access_addr, load_word, bbl_spec, bx_spec, cond, dp_spec, half_offset, ldm_spec,
    load_half_spec, load_spec, ls_offset, lsm_wb, mod_blx_spec, mrs_spec, msr_spec,
    mul_long_spec, mul_spec, rd, rn, stm_stores, store_addr, store_bytes, stores_rel, writeback,
};
use crate::cpu::{Cpu, CpuModel, InstrStatus, same_extras, same_machine, wadd, wsub};
use crate::mem::{MemController, le_bytes16};
use crate::psr::{cond_holds, flag_t, MODE_ABT, MODE_FIQ, MODE_IRQ, MODE_SVC, MODE_UND};
use crate::shifter::bit_set;
use crate::thumb;

verus! {

/// The handler that an ARM opcode dispatches to.
#[derive(Clone, Copy, Debug, PartialEq, Eq, Structural)]
pub enum ArmOp {
    DataProcessing,
    Multiply,
    MultiplyLong,
    Mrs,
    Msr,
    Bx,
    BlxReg,
    LoadHalf,
    Strh,
    Ldr,
    Ldrb,
    Str,
    Strb,
    Ldm,
    Stm,
    Bbl,
    ModBlx,
    Swi,
    Undefined,
}

/// The ARM decode table: the first pattern that matches wins.
pub open spec fn decode_arm_spec(i: u32) -> ArmOp {
    if i >> 28 == 0xF {
        if (i >> 25) & 7 == 5 {
            ArmOp::ModBlx
        } else {
            ArmOp::Undefined
        }
    } else if i & 0x0FFF_FFF0 == 0x012F_FF10 {
        ArmOp::Bx
    } else if i & 0x0FFF_FFF0 == 0x012F_FF30 {
        ArmOp::BlxReg
    } else if i & 0x0FC0_00F0 == 0x0000_0090 {
        ArmOp::Multiply
    } else if i & 0x0F80_00F0 == 0x0080_0090 {
        ArmOp::MultiplyLong
    } else if i & 0x0FBF_0FFF == 0x010F_0000 {
        ArmOp::Mrs
    } else if i & 0x0FB0_FFF0 == 0x0120_F000 || i & 0x0FB0_F000 == 0x0320_F000 {
        ArmOp::Msr
    } else if i & 0x0E00_0090 == 0x0000_0090 && (i >> 5) & 3 != 0 {
        if bit_set(i, 20) {
            ArmOp::LoadHalf
        } else if (i >> 5) & 3 == 1 {
            ArmOp::Strh
        } else {
            ArmOp::Undefined
        }
    } else if i & 0x0C00_0000 == 0 {
        if 8 <= (i >> 21) & 0xF <= 11 && !bit_set(i, 20) {
            ArmOp::Undefined
        } else if !bit_set(i, 25) && bit_set(i, 4) && bit_set(i, 7) {
            ArmOp::Undefined
        } else {
            ArmOp::DataProcessing
        }
    } else if i & 0x0C00_0000 == 0x0400_0000 {
        if bit_set(i, 25) && bit_set(i, 4) {
            ArmOp::Undefined
        } else if bit_set(i, 20) {
            if bit_set(i, 22) {
                ArmOp::Ldrb
            } else {
                ArmOp::Ldr
            }
        } else {
            if bit_set(i, 22) {
                ArmOp::Strb
            } else {
                ArmOp::Str
            }
        }
    } else if i & 0x0E00_0000 == 0x0800_0000 {
        if bit_set(i, 20) {
            ArmOp::Ldm
        } else {
            ArmOp::Stm
        }
    } else if i & 0x0E00_0000 == 0x0A00_0000 {
        ArmOp::Bbl
    } else if i & 0x0F00_0000 == 0x0F00_0000 {
        ArmOp::Swi
    } else {
        ArmOp::Undefined
    }
}

/// Decodes an ARM opcode; the result depends on the opcode alone.
pub fn decode_arm(i: u32) -> (r: ArmOp)
    ensures
        r == decode_arm_spec(i),
{
    if i >> 28 == 0xF {
        if (i >> 25) & 7 == 5 {
            ArmOp::ModBlx
        } else {
            ArmOp::Undefined
        }
    } else if i & 0x0FFF_FFF0 == 0x012F_FF10 {
        ArmOp::Bx
    } else if i & 0x0FFF_FFF0 == 0x012F_FF30 {
        ArmOp::BlxReg
    } else if i & 0x0FC0_00F0 == 0x0000_0090 {
        ArmOp::Multiply
    } else if i & 0x0F80_00F0 == 0x0080_0090 {
        ArmOp::MultiplyLong
    } else if i & 0x0FBF_0FFF == 0x010F_0000 {
        ArmOp::Mrs
    } else if i & 0x0FB0_FFF0 == 0x0120_F000 || i & 0x0FB0_F000 == 0x0320_F000 {
        ArmOp::Msr
    } else if i & 0x0E00_0090 == 0x0000_0090 && (i >> 5) & 3 != 0 {
        if (i >> 20) & 1 == 1 {
            ArmOp::LoadHalf
        } else if (i >> 5) & 3 == 1 {
            ArmOp::Strh
        } else {
            ArmOp::Undefined
        }
    } else if i & 0x0C00_0000 == 0 {
        if 8 <= (i >> 21) & 0xF && (i >> 21) & 0xF <= 11 && (i >> 20) & 1 != 1 {
            ArmOp::Undefined
        } else if (i >> 25) & 1 != 1 && (i >> 4) & 1 == 1 && (i >> 7) & 1 == 1 {
            ArmOp::Undefined
        } else {
            ArmOp::DataProcessing
        }
    } else if i & 0x0C00_0000 == 0x0400_0000 {
        if (i >> 25) & 1 == 1 && (i >> 4) & 1 == 1 {
            ArmOp::Undefined
        } else if (i >> 20) & 1 == 1 {
            if (i >> 22) & 1 == 1 {
                ArmOp::Ldrb
            } else {
                ArmOp::Ldr
            }
        } else {
            if (i >> 22) & 1 == 1 {
                ArmOp::Strb
            } else {
                ArmOp::Str
            }
        }
    } else if i & 0x0E00_0000 == 0x0800_0000 {
        if (i >> 20) & 1 == 1 {
            ArmOp::Ldm
        } else {
            ArmOp::Stm
        }
    } else if i & 0x0E00_0000 == 0x0A00_0000 {
        ArmOp::Bbl
    } else if i & 0x0F00_0000 == 0x0F00_0000 {
        ArmOp::Swi
    } else {
        ArmOp::Undefined
    }
}

/// What executing ARM opcode `i` does to (state, memory), handler by
/// handler; stores relate the memories as the memory controller allows.
#[verifier::opaque]
pub open spec fn arm_exec_ok(
    c0: CpuModel,
    mem0: MemController,
    c1: CpuModel,
    mem1: MemController,
    i: u32,
) -> bool {
    let same_mem = mem1 == mem0;
    match decode_arm_spec(i) {
        ArmOp::DataProcessing => c1 == dp_spec(c0, i) && same_mem,
        ArmOp::Multiply => c1 == mul_spec(c0, i) && same_mem,
        ArmOp::MultiplyLong => c1 == mul_long_spec(c0, i) && same_mem,
        ArmOp::Mrs => c1 == mrs_spec(c0, i) && same_mem,
        ArmOp::Msr => c1 == msr_spec(c0, i) && same_mem,
        ArmOp::Bx => c1 == bx_spec(c0, i, false) && same_mem,
        ArmOp::BlxReg => c1 == bx_spec(c0, i, true) && same_mem,
        ArmOp::Bbl => c1 == bbl_spec(c0, i) && same_mem,
        ArmOp::ModBlx => c1 == mod_blx_spec(c0, i) && same_mem,
        ArmOp::Swi => same_mem && c1 == if cond_holds(cond(i), c0.cpsr) {
            enter_exception_spec(c0, Exception::SoftwareInterrupt, wsub(c0.regs[15], 4))
        } else {
            c0
        },
        ArmOp::Ldr => c1 == load_spec(c0, mem0, i, ls_offset(c0, i), false) && same_mem,
        ArmOp::Ldrb => c1 == load_spec(c0, mem0, i, ls_offset(c0, i), true) && same_mem,
        ArmOp::LoadHalf => c1 == load_half_spec(c0, mem0, i) && same_mem,
        ArmOp::Ldm => c1 == ldm_spec(c0, mem0, i) && same_mem,
        ArmOp::Str | ArmOp::Strb => if cond_holds(cond(i), c0.cpsr) {
            let b = decode_arm_spec(i) == ArmOp::Strb;
            &&& c1 == writeback(c0, i, ls_offset(c0, i))
            &&& mem0.store_rel(mem1, store_addr(c0, i, ls_offset(c0, i), b) as int, store_bytes(c0, i, b))
        } else {
            c1 == c0 && same_mem
        },
        ArmOp::Strh => if cond_holds(cond(i), c0.cpsr) {
            let off = half_offset(c0, i);
            &&& c1 == writeback(c0, i, off)
            &&& mem0.store_rel(
                mem1,
                (access_addr(c0, i, off) & 0xFFFF_FFFE) as int,
                le_bytes16(c0.regs[rd(i) as int] as u16),
            )
        } else {
            c1 == c0 && same_mem
        },
        ArmOp::Stm => if cond_holds(cond(i), c0.cpsr) {
            &&& c1 == if bit_set(i, 21) { c0.set_reg(rn(i) as int, lsm_wb(c0, i)) } else { c0 }
            &&& stores_rel(mem0, mem1, stm_stores(c0, i, 16))
        } else {
            c1 == c0 && same_mem
        },
        ArmOp::Undefined => c1 == c0 && same_mem,
    }
}

/// Whether a handler that ran on `c0` set the PC itself.
pub open spec fn arm_branched(c0: CpuModel, i: u32) -> bool {
    match decode_arm_spec(i) {
        ArmOp::DataProcessing => arm::dp_branches(c0, i),
        ArmOp::Bx | ArmOp::BlxReg | ArmOp::Bbl | ArmOp::Swi => cond_holds(cond(i), c0.cpsr),
        ArmOp::ModBlx => true,
        ArmOp::Ldr | ArmOp::Ldrb | ArmOp::LoadHalf => cond_holds(cond(i), c0.cpsr) && rd(i) == 15,
        ArmOp::Ldm => cond_holds(cond(i), c0.cpsr) && bit_set(i & 0xFFFF, 15),
        _ => false,
    }
}

fn is_store(op: ArmOp) -> (r: bool)
    ensures
        r == (op == ArmOp::Str || op == ArmOp::Strb || op == ArmOp::Strh || op == ArmOp::Stm),
{
    match op {
        ArmOp::Str | ArmOp::Strb | ArmOp::Strh | ArmOp::Stm => true,
        _ => false,
    }
}

#[verifier::rlimit(100)]
fn execute_arm_store(cpu: &mut Cpu, i: u32, op: ArmOp) -> (r: InstrStatus)
    requires
        old(cpu).memory.wf(),
        op == decode_arm_spec(i),
        op == ArmOp::Str || op == ArmOp::Strb || op == ArmOp::Strh || op == ArmOp::Stm,
    ensures
        final(cpu).memory.wf(),
        same_extras(old(cpu), final(cpu)),
        arm_exec_ok(old(cpu)@, old(cpu).memory, final(cpu)@, final(cpu).memory, i),
        r == InstrStatus::InBlock,
{
    reveal(arm_exec_ok);
    match op {
        ArmOp::Str => arm::str(cpu, i),
        ArmOp::Strb => arm::strb(cpu, i),
        ArmOp::Strh => arm::strh(cpu, i),
        _ => arm::stm(cpu, i),
    }
}

#[verifier::rlimit(100)]
fn execute_arm_other(cpu: &mut Cpu, i: u32, op: ArmOp) -> (r: InstrStatus)
    requires
        old(cpu).memory.wf(),
        op == decode_arm_spec(i),
        !(op == ArmOp::Str || op == ArmOp::Strb || op == ArmOp::Strh || op == ArmOp::Stm),
        op != ArmOp::Undefined,
    ensures
        same_machine(old(cpu), final(cpu)),
        arm_exec_ok(old(cpu)@, old(cpu).memory, final(cpu)@, final(cpu).memory, i),
        r == if arm_branched(old(cpu)@, i) { InstrStatus::Branched } else { InstrStatus::InBlock },
{
    reveal(arm_exec_ok);
    match op {
        ArmOp::DataProcessing => arm::data_processing(cpu, i),
        ArmOp::Multiply => arm::mul(cpu, i),
        ArmOp::MultiplyLong => arm::mul_long(cpu, i),
        ArmOp::Mrs => arm::mrs(cpu, i),
        ArmOp::Msr => arm::msr(cpu, i),
        ArmOp::Bx => arm::bx(cpu, i),
        ArmOp::BlxReg => arm::blx(cpu, i),
        ArmOp::Bbl => arm::bbl(cpu, i),
        ArmOp::ModBlx => arm::mod_blx(cpu, i),
        ArmOp::Ldr => arm::ldr(cpu, i),
        ArmOp::Ldrb => arm::ldrb(cpu, i),
        ArmOp::LoadHalf => arm::load_half(cpu, i),
        ArmOp::Swi => swi(cpu, i),
        _ => arm::ldm(cpu, i),
    }
}

/// SWI: enters supervisor mode at the SWI vector, LR holding the address of
/// the next instruction.
pub fn swi(cpu: &mut Cpu, i: u32) -> (r: InstrStatus)
    ensures
        final(cpu)@ == if cond_holds(cond(i), old(cpu)@.cpsr) {
            enter_exception_spec(old(cpu)@, Exception::SoftwareInterrupt, wsub(old(cpu)@.regs[15], 4))
        } else {
            old(cpu)@
        },
        same_machine(old(cpu), final(cpu)),
        r == if cond_holds(cond(i), old(cpu)@.cpsr) { InstrStatus::Branched } else { InstrStatus::InBlock },
{
    if !crate::psr::cond_passed(i >> 28, &cpu.cpsr) {
        return InstrStatus::InBlock;
    }
    let lr = cpu.regs[15].wrapping_sub(4);
    enter_exception(cpu, Exception::SoftwareInterrupt, lr);
    InstrStatus::Branched
}

/// Executes one ARM opcode. `None` means no handler exists for it.
pub fn execute_arm(cpu: &mut Cpu, i: u32) -> (r: Option<InstrStatus>)
    requires
        old(cpu).memory.wf(),
    ensures
        final(cpu).memory.wf(),
        same_extras(old(cpu), final(cpu)),
        arm_exec_ok(old(cpu)@, old(cpu).memory, final(cpu)@, final(cpu).memory, i),
        r == if decode_arm_spec(i) == ArmOp::Undefined {
            None
        } else if arm_branched(old(cpu)@, i) {
            Some(InstrStatus::Branched)
        } else {
            Some(InstrStatus::InBlock)
        },
{
    let op = decode_arm(i);
    execute_decoded_arm(cpu, i, op)
}

/// Executes ARM opcode `i`, already decoded to `op`.
pub fn execute_decoded_arm(cpu: &mut Cpu, i: u32, op: ArmOp) -> (r: Option<InstrStatus>)
    requires
        old(cpu).memory.wf(),
        op == decode_arm_spec(i),
    ensures
        final(cpu).memory.wf(),
        same_extras(old(cpu), final(cpu)),
        arm_exec_ok(old(cpu)@, old(cpu).memory, final(cpu)@, final(cpu).memory, i),
        r == if decode_arm_spec(i) == ArmOp::Undefined {
            None
        } else if arm_branched(old(cpu)@, i) {
            Some(InstrStatus::Branched)
        } else {
            Some(InstrStatus::InBlock)
        },
{
    if op == ArmOp::Undefined {
        assert(arm_exec_ok(cpu@, cpu.memory, cpu@, cpu.memory, i)) by {
            reveal(arm_exec_ok);
        }
        return None;
    }
    if is_store(op) {
        assert(!arm_branched(cpu@, i));
        Some(execute_arm_store(cpu, i, op))
    } else {
        Some(execute_arm_other(cpu, i, op))
    }
}

/// The handler that a Thumb opcode dispatches to.
#[derive(Clone, Copy, Debug, PartialEq, Eq, Structural)]
pub enum ThumbOp {
    Ldr1,
    Ldr3,
    Ldr4,
    Ldrb1,
    Ldrh1,
    Str1,
    Str3,
    Strh1,
    Pop,
    Push,
    Alu,
    Bx,
    Branch,
    AddSpPc,
    ViaArm,
    Swi,
    Undefined,
}

pub open spec fn decode_thumb_spec(i: u16) -> ThumbOp {
    let top5 = i & 0xF800;
    let w = i as u32;
    if top5 == 0x6800 {
        ThumbOp::Ldr1
    } else if top5 == 0x4800 {
        ThumbOp::Ldr3
    } else if top5 == 0x9800 {
        ThumbOp::Ldr4
    } else if top5 == 0x7800 {
        ThumbOp::Ldrb1
    } else if top5 == 0x8800 {
        ThumbOp::Ldrh1
    } else if top5 == 0x6000 {
        ThumbOp::Str1
    } else if top5 == 0x9000 {
        ThumbOp::Str3
    } else if top5 == 0x8000 {
        ThumbOp::Strh1
    } else if i & 0xFE00 == 0xBC00 {
        ThumbOp::Pop
    } else if i & 0xFE00 == 0xB400 {
        ThumbOp::Push
    } else if top5 == 0x7000 || w >> 12 == 5 || w >> 8 == 0xB0 || w >> 12 == 0xC {
        ThumbOp::ViaArm
    } else if w >> 12 == 0xA {
        ThumbOp::AddSpPc
    } else if w >> 8 == 0xDF {
        ThumbOp::Swi
    } else if w >> 13 <= 1 || w >> 10 == 0x10 {
        ThumbOp::Alu
    } else if w >> 10 == 0x11 {
        if (w >> 8) & 3 != 3 {
            ThumbOp::Alu
        } else if (w >> 7) & 1 == 0 {
            ThumbOp::Bx
        } else {
            ThumbOp::Undefined
        }
    } else if w >> 12 == 0xD {
        if (w >> 8) & 0xF < 0xE {
            ThumbOp::Branch
        } else {
            ThumbOp::Undefined
        }
    } else if w >> 11 >= 0x1C {
        ThumbOp::Branch
    } else {
        ThumbOp::Undefined
    }
}

/// Decodes a Thumb opcode; the result depends on the opcode alone.
pub fn decode_thumb(i: u16) -> (r: ThumbOp)
    ensures
        r == decode_thumb_spec(i),
{
    let top5 = i & 0xF800;
    let w = i as u32;
    if top5 == 0x6800 {
        ThumbOp::Ldr1
    } else if top5 == 0x4800 {
        ThumbOp::Ldr3
    } else if top5 == 0x9800 {
        ThumbOp::Ldr4
    } else if top5 == 0x7800 {
        ThumbOp::Ldrb1
    } else if top5 == 0x8800 {
        ThumbOp::Ldrh1
    } else if top5 == 0x6000 {
        ThumbOp::Str1
    } else if top5 == 0x9000 {
        ThumbOp::Str3
    } else if top5 == 0x8000 {
        ThumbOp::Strh1
    } else if i & 0xFE00 == 0xBC00 {
        ThumbOp::Pop
    } else if i & 0xFE00 == 0xB400 {
        ThumbOp::Push
    } else if top5 == 0x7000 || w >> 12 == 5 || w >> 8 == 0xB0 || w >> 12 == 0xC {
        ThumbOp::ViaArm
    } else if w >> 12 == 0xA {
        ThumbOp::AddSpPc
    } else if w >> 8 == 0xDF {
        ThumbOp::Swi
    } else if w >> 13 <= 1 || w >> 10 == 0x10 {
        ThumbOp::Alu
    } else if w >> 10 == 0x11 {
        if (w >> 8) & 3 != 3 {
            ThumbOp::Alu
        } else if (w >> 7) & 1 == 0 {
            ThumbOp::Bx
        } else {
            ThumbOp::Undefined
        }
    } else if w >> 12 == 0xD {
        if (w >> 8) & 0xF < 0xE {
            ThumbOp::Branch
        } else {
            ThumbOp::Undefined
        }
    } else if w >> 11 >= 0x1C {
        ThumbOp::Branch
    } else {
        ThumbOp::Undefined
    }
}

/// What executing Thumb opcode `instr` does to (state, memory), handler
/// by handler.
#[verifier::opaque]
pub open spec fn thumb_exec_ok(
    c0: CpuModel,
    mem0: MemController,
    c1: CpuModel,
    mem1: MemController,
    instr: u16,
) -> bool {
    let i = instr as u32;
    let same_mem = mem1 == mem0;
    let lo = (i & 7) as int;
    let rn_lo = ((i >> 3) & 7) as int;
    let imm5 = (i >> 6) & 0x1F;
    match decode_thumb_spec(instr) {
        ThumbOp::Ldr1 => same_mem && c1 == c0.set_reg(
            lo,
            load_word(mem0, wadd(c0.regs[rn_lo], (imm5 * 4) as u32)),
        ),
        ThumbOp::Ldr3 => same_mem && c1 == c0.set_reg(
            ((i >> 8) & 7) as int,
            load_word(mem0, wadd(c0.regs[15] & 0xFFFF_FFFC, ((i & 0xFF) * 4) as u32)),
        ),
        ThumbOp::Ldr4 => same_mem && c1 == thumb::ldr_sp_spec(c0, mem0, (i >> 8) & 7, i & 0xFF),
        ThumbOp::Ldrb1 => same_mem && c1 == thumb::ldrb_imm_spec(c0, mem0, (i >> 3) & 7, i & 7, imm5),
        ThumbOp::Ldrh1 => same_mem && c1 == c0.set_reg(
            lo,
            mem0.load16((wadd(c0.regs[rn_lo], (imm5 * 2) as u32) & 0xFFFF_FFFE) as int) as u32,
        ),
        ThumbOp::Str1 => c1 == c0 && mem0.store_rel(
            mem1,
            (wadd(c0.regs[rn_lo], (imm5 * 4) as u32) & 0xFFFF_FFFC) as int,
            crate::rsa::le_bytes(c0.regs[lo]),
        ),
        ThumbOp::Str3 => c1 == c0 && mem0.store_rel(
            mem1,
            (wadd(c0.regs[13], ((i & 0xFF) * 4) as u32) & 0xFFFF_FFFC) as int,
            crate::rsa::le_bytes(c0.regs[((i >> 8) & 7) as int]),
        ),
        ThumbOp::Strh1 => c1 == c0 && mem0.store_rel(
            mem1,
            (wadd(c0.regs[rn_lo], (imm5 * 2) as u32) & 0xFFFF_FFFE) as int,
            le_bytes16(c0.regs[lo] as u16),
        ),
        ThumbOp::Pop => same_mem && c1 == ldm_spec(c0, mem0, thumb::pop_opcode((i >> 8) & 1, i & 0xFF)),
        ThumbOp::Push => {
            let s = thumb::push_opcode((i >> 8) & 1, i & 0xFF);
            &&& c1 == c0.set_reg(13, lsm_wb(c0, s))
            &&& stores_rel(mem0, mem1, stm_stores(c0, s, 16))
        },
        ThumbOp::Alu => same_mem && c1 == if thumb::is_thumb_mul(i) {
            mul_spec(c0, thumb::thumb_alu_opcode(i))
        } else {
            dp_spec(c0, thumb::thumb_alu_opcode(i))
        },
        ThumbOp::Bx => same_mem && c1 == bx_spec(c0, 0xE12F_FF10u32 | ((i >> 3) & 0xF), false),
        ThumbOp::Branch => same_mem && c1 == thumb::thumb_branch_spec(c0, i),
        ThumbOp::AddSpPc => same_mem && c1 == thumb::add_sp_pc_spec(c0, i),
        ThumbOp::ViaArm => arm_exec_ok(c0, mem0, c1, mem1, thumb::thumb_arm_opcode(i)),
        ThumbOp::Swi => same_mem && c1 == enter_exception_spec(
            c0,
            Exception::SoftwareInterrupt,
            wsub(c0.regs[15], 2),
        ),
        ThumbOp::Undefined => same_mem && c1 == c0,
    }
}

/// Whether a Thumb handler that ran on `c0` set the PC itself.
pub open spec fn thumb_branched(c0: CpuModel, instr: u16) -> bool {
    let i = instr as u32;
    match decode_thumb_spec(instr) {
        ThumbOp::Pop => (i >> 8) & 1 == 1,
        ThumbOp::Alu => !thumb::is_thumb_mul(i) && arm::dp_branches(c0, thumb::thumb_alu_opcode(i)),
        ThumbOp::Bx | ThumbOp::Swi => true,
        ThumbOp::ViaArm => arm_branched(c0, thumb::thumb_arm_opcode(i)),
        ThumbOp::Branch => !(i >> 11 == 0x1E || (i >> 11 <= 0x1B && !cond_holds((i >> 8) & 0xF, c0.cpsr))),
        _ => false,
    }
}

/// What one step in Thumb state did: the opcode at the PC ran, and the PC
/// moved on by 2 unless the handler branched.
pub open spec fn thumb_step_ok(c0: CpuModel, mem0: MemController, c1: CpuModel, mem1: MemController, i: u16) -> bool {
    exists|mid: CpuModel|
        #[trigger] thumb_exec_ok(c0, mem0, mid, mem1, i) && c1 == if thumb_branched(c0, i) {
            mid
        } else {
            mid.set_reg(15, wadd(mid.regs[15], 2))
        }
}

/// Executes one Thumb opcode. `None` means no handler exists for it.
pub fn execute_thumb(cpu: &mut Cpu, instr: u16) -> (r: Option<InstrStatus>)
    requires
        old(cpu).memory.wf(),
    ensures
        final(cpu).memory.wf(),
        same_extras(old(cpu), final(cpu)),
        thumb_exec_ok(old(cpu)@, old(cpu).memory, final(cpu)@, final(cpu).memory, instr),
        r == if decode_thumb_spec(instr) == ThumbOp::Undefined {
            None
        } else if thumb_branched(old(cpu)@, instr) {
            Some(InstrStatus::Branched)
        } else {
            Some(InstrStatus::InBlock)
        },
{
    let op = decode_thumb(instr);
    execute_decoded_thumb(cpu, instr, op)
}

/// Executes Thumb opcode `instr`, already decoded to `op`.
#[verifier::rlimit(100)]
pub fn execute_decoded_thumb(cpu: &mut Cpu, instr: u16, op: ThumbOp) -> (r: Option<InstrStatus>)
    requires
        old(cpu).memory.wf(),
        op == decode_thumb_spec(instr),
    ensures
        final(cpu).memory.wf(),
        same_extras(old(cpu), final(cpu)),
        thumb_exec_ok(old(cpu)@, old(cpu).memory, final(cpu)@, final(cpu).memory, instr),
        r == if decode_thumb_spec(instr) == ThumbOp::Undefined {
            None
        } else if thumb_branched(old(cpu)@, instr) {
            Some(InstrStatus::Branched)
        } else {
            Some(InstrStatus::InBlock)
        },
{
    reveal(thumb_exec_ok);
    match op {
        ThumbOp::Ldr1 => Some(thumb::ldr_1(cpu, instr)),
        ThumbOp::Ldr3 => Some(thumb::ldr_3(cpu, instr)),
        ThumbOp::Ldr4 => Some(thumb::ldr_4(cpu, instr)),
        ThumbOp::Ldrb1 => Some(thumb::ldrb_1(cpu, instr)),
        ThumbOp::Ldrh1 => Some(thumb::ldrh_1(cpu, instr)),
        ThumbOp::Str1 => Some(thumb::str_1(cpu, instr)),
        ThumbOp::Str3 => Some(thumb::str_3(cpu, instr)),
        ThumbOp::Strh1 => Some(thumb::strh_1(cpu, instr)),
        ThumbOp::Pop => Some(thumb::pop(cpu, instr)),
        ThumbOp::Push => Some(thumb::push(cpu, instr)),
        ThumbOp::Alu => Some(thumb::alu(cpu, instr)),
        ThumbOp::Bx => Some(thumb::bx(cpu, instr)),
        ThumbOp::Branch => {
            proof {
                let w = instr as u32;
                assert(w >> 12 == 0xD ==> w >> 11 >= 0x1A) by (bit_vector);
            }
            Some(thumb::branch(cpu, instr))
        },
        ThumbOp::AddSpPc => Some(thumb::add_sp_pc(cpu, instr)),
        ThumbOp::ViaArm => {
            let op = thumb::arm_opcode_for(instr as u32);
            proof {
                lemma_via_arm_defined(instr as u32);
            }
            execute_arm(cpu, op)
        },
        ThumbOp::Swi => {
            let lr = cpu.regs[15].wrapping_sub(2);
            enter_exception(cpu, Exception::SoftwareInterrupt, lr);
            Some(InstrStatus::Branched)
        },
        ThumbOp::Undefined => None,
    }
}

/// The ARM opcodes that Thumb forms are handed over as all have handlers.
proof fn lemma_via_arm_defined(i: u32)
    requires
        i < 0x1_0000,
        (i & 0xF800) == 0x7000 || i >> 12 == 5 || i >> 8 == 0xB0 || i >> 12 == 0xC,
    ensures
        decode_arm_spec(thumb::thumb_arm_opcode(i)) != ArmOp::Undefined,
{
    let op = thumb::thumb_arm_opcode(i);
    let h = op & 0x0E00_0090 == 0x0000_0090 && (op >> 5) & 3 != 0;
    assert(op >> 28 == 0xE && op & 0x0FFF_FFF0 != 0x012F_FF10 && op & 0x0FFF_FFF0 != 0x012F_FF30 && op
        & 0x0FC0_00F0 != 0x0000_0090 && op & 0x0F80_00F0 != 0x0080_0090 && op & 0x0FBF_0FFF != 0x010F_0000
        && op & 0x0FB0_FFF0 != 0x0120_F000 && op & 0x0FB0_F000 != 0x0320_F000 && (h ==> ((op >> 20) & 1
        == 1 || (op >> 5) & 3 == 1)) && (!h && op & 0x0C00_0000 == 0 ==> ((op >> 25) & 1 == 1 && !(8 <= (op
        >> 21) & 0xF && (op >> 21) & 0xF <= 11 && (op >> 20) & 1 != 1))) && (!h && op & 0x0C00_0000
        == 0x0400_0000 ==> !((op >> 25) & 1 == 1 && (op >> 4) & 1 == 1)) && (!h && op & 0x0C00_0000 != 0
        && op & 0x0C00_0000 != 0x0400_0000 ==> op & 0x0E00_0000 == 0x0800_0000)) by (bit_vector)
        requires
            i < 0x1_0000,
            (i & 0xF800) == 0x7000 || i >> 12 == 5 || i >> 8 == 0xB0 || i >> 12 == 0xC,
            op == thumb::thumb_arm_opcode(i),
            h == (op & 0x0E00_0090 == 0x0000_0090 && (op >> 5) & 3 != 0),
    ;
}

/// Fetches the Thumb opcode at `addr`, looks its handler up in the CPU's
/// decode cache (decoding and installing it on first sight), and runs it.
pub fn interpret_next(cpu: &mut Cpu, addr: u32) -> (r: Option<InstrStatus>)
    requires
        old(cpu).memory.wf(),
        old(cpu).decode_cache.wf(),
        addr % 2 == 0,
    ensures
        final(cpu).memory.wf(),
        final(cpu).decode_cache.wf(),
        final(cpu).irq_pending == old(cpu).irq_pending,
        final(cpu).breakpoints@ == old(cpu).breakpoints@,
        ({
            let op = old(cpu).memory.load16(addr as int);
            &&& thumb_exec_ok(old(cpu)@, old(cpu).memory, final(cpu)@, final(cpu).memory, op)
            &&& r == if decode_thumb_spec(op) == ThumbOp::Undefined {
                None
            } else if thumb_branched(old(cpu)@, op) {
                Some(InstrStatus::Branched)
            } else {
                Some(InstrStatus::InBlock)
            }
        }),
{
    let instr = cpu.memory.read16(addr);
    let op = cpu.decode_cache.get_thumb(instr);
    execute_decoded_thumb(cpu, instr, op)
}

/// The exceptions that the core can enter.
#[derive(Clone, Copy, Debug, PartialEq, Eq, Structural)]
pub enum Exception {
    Reset,
    Undefined,
    SoftwareInterrupt,
    PrefetchAbort,
    DataAbort,
    Irq,
    Fiq,
}

/// The exception vectors sit at the top of the address space.
pub const VECTOR_BASE: u32 = 0xFFFF_0000;

pub open spec fn exception_mode(e: Exception) -> u32 {
    match e {
        Exception::Reset | Exception::SoftwareInterrupt => MODE_SVC,
        Exception::Undefined => MODE_UND,
        Exception::PrefetchAbort | Exception::DataAbort => MODE_ABT,
        Exception::Irq => MODE_IRQ,
        Exception::Fiq => MODE_FIQ,
    }
}

pub open spec fn exception_vector(e: Exception) -> u32 {
    match e {
        Exception::Reset => 0x00,
        Exception::Undefined => 0x04,
        Exception::SoftwareInterrupt => 0x08,
        Exception::PrefetchAbort => 0x0C,
        Exception::DataAbort => 0x10,
        Exception::Irq => 0x18,
        Exception::Fiq => 0x1C,
    }
}

/// The CPSR on entry: the target mode, ARM state, IRQs masked (and FIQs on
/// reset and FIQ entry).
pub open spec fn exception_cpsr(cpsr: u32, e: Exception) -> u32 {
    let f: u32 = if e == Exception::Reset || e == Exception::Fiq { 0x40 } else { 0 };
    (cpsr & 0xFFFF_FFC0) | exception_mode(e) | 0x80 | f
}

/// Exception entry: the mode switches, the old CPSR goes to the new mode's
/// SPSR, LR receives `lr`, and execution continues at the vector.
pub open spec fn enter_exception_spec(m: CpuModel, e: Exception, lr: u32) -> CpuModel {
    let m1 = m.with_cpsr(exception_cpsr(m.cpsr, e));
    let b = crate::cpu::bank_index(exception_mode(e));
    let m2 = CpuModel { spsr: m1.spsr.update(b, m.cpsr), ..m1 }.set_reg(14, lr);
    m2.branch((VECTOR_BASE + exception_vector(e)) as u32)
}

fn mode_for(e: Exception) -> (r: u32)
    ensures
        r == exception_mode(e),
{
    match e {
        Exception::Reset | Exception::SoftwareInterrupt => MODE_SVC,
        Exception::Undefined => MODE_UND,
        Exception::PrefetchAbort | Exception::DataAbort => MODE_ABT,
        Exception::Irq => MODE_IRQ,
        Exception::Fiq => MODE_FIQ,
    }
}

fn vector_for(e: Exception) -> (r: u32)
    ensures
        r == exception_vector(e),
{
    match e {
        Exception::Reset => 0x00,
        Exception::Undefined => 0x04,
        Exception::SoftwareInterrupt => 0x08,
        Exception::PrefetchAbort => 0x0C,
        Exception::DataAbort => 0x10,
        Exception::Irq => 0x18,
        Exception::Fiq => 0x1C,
    }
}

/// Enters exception `e` with `lr` as the return link.
pub fn enter_exception(cpu: &mut Cpu, e: Exception, lr: u32)
    ensures
        final(cpu)@ == enter_exception_spec(old(cpu)@, e, lr),
        same_machine(old(cpu), final(cpu)),
{
    let old_cpsr = cpu.cpsr.raw;
    let f: u32 = if e == Exception::Reset || e == Exception::Fiq {
        0x40
    } else {
        0
    };
    let mode = mode_for(e);
    cpu.set_cpsr((old_cpsr & 0xFFFF_FFC0) | mode | 0x80 | f);
    let b = crate::cpu::bank_of(mode);
    cpu.spsr[b] = old_cpsr;
    cpu.regs[14] = lr;
    cpu.branch(VECTOR_BASE + vector_for(e));
}

/// Puts the core in supervisor mode, ARM state, interrupts masked, about
/// to execute `entry`.
pub fn reset(cpu: &mut Cpu, entry: u32)
    ensures
        final(cpu)@ == old(cpu)@.with_cpsr(0xD3).branch(entry),
        same_machine(old(cpu), final(cpu)),
{
    cpu.set_cpsr(0xD3);
    cpu.branch(entry);
}

/// A condition that fails leaves the state and memory as they were, and the
/// handler reports no branch: the run loop then only advances the PC.
pub proof fn lemma_cond_false_no_effect(c0: CpuModel, mem0: MemController, c1: CpuModel, mem1: MemController, i: u32)
    requires
        arm_exec_ok(c0, mem0, c1, mem1, i),
        !cond_holds(cond(i), c0.cpsr),
    ensures
        c1 == c0,
        mem1 == mem0,
        !arm_branched(c0, i),
{
    reveal(arm_exec_ok);
    reveal(arm::dp_spec);
    reveal(arm::bbl_spec);
    reveal(arm::bx_spec);
    reveal(arm::load_spec);
    reveal(arm::ldm_spec);
    reveal(arm::mul_spec);
    reveal(arm::mul_long_spec);
    reveal(arm::mrs_spec);
    reveal(arm::msr_spec);
    reveal(arm::load_half_spec);
    if decode_arm_spec(i) == ArmOp::ModBlx {
        assert(cond_holds(cond(i), c0.cpsr));
    }
    if decode_arm_spec(i) == ArmOp::Stm {
        assert(mem1.ram@ == mem0.ram@);
    }
}

/// What one step in ARM state did: the opcode at the PC ran, and the PC
/// moved on by 4 unless the handler branched.
pub open spec fn arm_step_ok(c0: CpuModel, mem0: MemController, c1: CpuModel, mem1: MemController, i: u32) -> bool {
    exists|mid: CpuModel|
        #[trigger] arm_exec_ok(c0, mem0, mid, mem1, i) && c1 == if arm_branched(c0, i) {
            mid
        } else {
            mid.set_reg(15, wadd(mid.regs[15], 4))
        }
}

/// The opcode that the core fetches next.
pub open spec fn next_arm_opcode(cpu: &Cpu) -> u32 {
    cpu.memory.load32((cpu@.pc() & 0xFFFF_FFFC) as int)
}

/// Why an instruction could not run: nothing is mapped at the PC, or its
/// opcode has no handler.
#[derive(Clone, Copy, Debug, PartialEq, Eq, Structural)]
pub enum StepError {
    Unmapped,
    Unimplemented,
}

/// Whether (state, memory) went from `c0, mem0` to `c1, mem1` by one
/// instruction at the PC.
pub open spec fn step_ok(c0: CpuModel, mem0: MemController, c1: CpuModel, mem1: MemController) -> bool {
    if flag_t(c0.cpsr) {
        thumb_step_ok(c0, mem0, c1, mem1, mem0.load16((c0.pc() & 0xFFFF_FFFE) as int))
    } else {
        arm_step_ok(c0, mem0, c1, mem1, mem0.load32((c0.pc() & 0xFFFF_FFFC) as int))
    }
}

/// Executes the instruction at the PC (ARM or Thumb as the T bit says).
/// An error leaves everything as it was: fetching from an address that no
/// region maps is fatal, as is an opcode without a handler.
pub fn step(cpu: &mut Cpu) -> (r: Result<(), StepError>)
    requires
        old(cpu).memory.wf(),
        old(cpu).decode_cache.wf(),
    ensures
        final(cpu).decode_cache.wf(),
        final(cpu).memory.wf(),
        final(cpu).irq_pending == old(cpu).irq_pending,
        final(cpu).breakpoints@ == old(cpu).breakpoints@,
        r is Err ==> final(cpu)@ == old(cpu)@ && final(cpu).memory == old(cpu).memory,
        (r == Err::<(), StepError>(StepError::Unmapped)) == (old(cpu).memory.region_of(old(cpu)@.pc() as int) is None),
        r is Ok ==> step_ok(old(cpu)@, old(cpu).memory, final(cpu)@, final(cpu).memory),
        old(cpu).memory.region_of(old(cpu)@.pc() as int) is Some ==> {
            &&& flag_t(old(cpu)@.cpsr) ==> (r is Ok) == (decode_thumb_spec(
                old(cpu).memory.load16((old(cpu)@.pc() & 0xFFFF_FFFE) as int),
            ) != ThumbOp::Undefined)
            &&& !flag_t(old(cpu)@.cpsr) ==> (r is Ok) == (decode_arm_spec(next_arm_opcode(old(cpu)))
                != ArmOp::Undefined)
        },
{
    let pc = cpu.pc();
    proof {
        arm::lemma_fields(pc);
    }
    if cpu.memory.find(pc).is_none() {
        return Err(StepError::Unmapped);
    }
    let ok = step_mapped(cpu);
    if ok {
        Ok(())
    } else {
        Err(StepError::Unimplemented)
    }
}

fn step_mapped(cpu: &mut Cpu) -> (ok: bool)
    requires
        old(cpu).memory.wf(),
        old(cpu).decode_cache.wf(),
    ensures
        final(cpu).decode_cache.wf(),
        final(cpu).memory.wf(),
        final(cpu).irq_pending == old(cpu).irq_pending,
        final(cpu).breakpoints@ == old(cpu).breakpoints@,
        !ok ==> final(cpu)@ == old(cpu)@ && final(cpu).memory == old(cpu).memory,
        ok ==> step_ok(old(cpu)@, old(cpu).memory, final(cpu)@, final(cpu).memory),
        flag_t(old(cpu)@.cpsr) ==> ok == (decode_thumb_spec(
            old(cpu).memory.load16((old(cpu)@.pc() & 0xFFFF_FFFE) as int),
        ) != ThumbOp::Undefined),
        !flag_t(old(cpu)@.cpsr) ==> ok == (decode_arm_spec(next_arm_opcode(old(cpu))) != ArmOp::Undefined),
{
    let pc = cpu.pc();
    proof {
        arm::lemma_fields(pc);
    }
    if cpu.cpsr.thumb() {
        let instr = cpu.memory.read16(pc & 0xFFFF_FFFE);
        let ghost c0 = cpu@;
        let op = cpu.decode_cache.get_thumb(instr);
        match execute_decoded_thumb(cpu, instr, op) {
            None => {
                proof {
                    reveal(thumb_exec_ok);
                }
                false
            },
            Some(InstrStatus::Branched) => {
                assert(thumb_exec_ok(c0, old(cpu).memory, cpu@, cpu.memory, instr));
                true
            },
            Some(InstrStatus::InBlock) => {
                let ghost mid = cpu@;
                cpu.regs[15] = cpu.regs[15].wrapping_add(2);
                assert(cpu@ == mid.set_reg(15, wadd(mid.regs[15], 2)));
                assert(thumb_exec_ok(c0, old(cpu).memory, mid, cpu.memory, instr));
                true
            },
        }
    } else {
        let instr = cpu.memory.read32(pc & 0xFFFF_FFFC);
        let ghost c0 = cpu@;
        let op = cpu.decode_cache.get_arm(instr);
        match execute_decoded_arm(cpu, instr, op) {
            None => {
                proof {
                    reveal(arm_exec_ok);
                }
                false
            },
            Some(InstrStatus::Branched) => {
                assert(arm_exec_ok(c0, old(cpu).memory, cpu@, cpu.memory, instr));
                true
            },
            Some(InstrStatus::InBlock) => {
                let ghost mid = cpu@;
                cpu.regs[15] = cpu.regs[15].wrapping_add(4);
                assert(cpu@ == mid.set_reg(15, wadd(mid.regs[15], 4)));
                assert(arm_exec_ok(c0, old(cpu).memory, mid, cpu.memory, instr));
                true
            },
        }
    }
}

/// Why a batch of steps ended.
#[derive(Clone, Copy, Debug, PartialEq, Eq, Structural)]
pub enum BreakReason {
    LimitReached,
    Breakpoint,
    Unimplemented(u32),
    FetchFault(u32),
}

impl Cpu {
    /// Whether a breakpoint is set at `addr`.
    pub fn has_breakpoint(&self, addr: u32) -> (r: bool)
        ensures
            r == self.breakpoints@.contains(addr),
    {
        let mut k: usize = 0;
        while k < self.breakpoints.len()
            invariant
                k <= self.breakpoints@.len(),
                forall|j: int| 0 <= j < k ==> self.breakpoints@[j] != addr,
            decreases self.breakpoints@.len() - k,
        {
            if self.breakpoints[k] == addr {
                return true;
            }
            k = k + 1;
        }
        false
    }

    /// Sets a breakpoint at `addr` (once).
    pub fn set_breakpoint(&mut self, addr: u32)
        ensures
            final(self).breakpoints@ == if old(self).breakpoints@.contains(addr) {
                old(self).breakpoints@
            } else {
                old(self).breakpoints@.push(addr)
            },
            final(self)@ == old(self)@,
            final(self).memory == old(self).memory,
            final(self).irq_pending == old(self).irq_pending,
            final(self).decode_cache == old(self).decode_cache,
    {
        if !self.has_breakpoint(addr) {
            self.breakpoints.push(addr);
        }
    }

    /// Removes the breakpoints at `addr`.
    pub fn clear_breakpoint(&mut self, addr: u32)
        ensures
            final(self).breakpoints@ == old(self).breakpoints@.filter(|b: u32| b != addr),
            final(self)@ == old(self)@,
            final(self).memory == old(self).memory,
            final(self).irq_pending == old(self).irq_pending,
            final(self).decode_cache == old(self).decode_cache,
    {
        let mut kept: Vec<u32> = Vec::new();
        let mut k: usize = 0;
        while k < self.breakpoints.len()
            invariant
                k <= self.breakpoints@.len(),
                kept@ == self.breakpoints@.take(k as int).filter(|b: u32| b != addr),
            decreases self.breakpoints@.len() - k,
        {
            let b = self.breakpoints[k];
            if b != addr {
                kept.push(b);
            }
            proof {
                reveal(Seq::filter);
                let t = self.breakpoints@.take(k + 1);
                assert(t.drop_last() =~= self.breakpoints@.take(k as int));
                assert(t.last() == b);
            }
            k = k + 1;
        }
        assert(self.breakpoints@.take(self.breakpoints@.len() as int) =~= self.breakpoints@);
        self.breakpoints = kept;
    }
}

/// A machine state as the run loop sees it: registers, memory, and
/// whether an IRQ is pending.
pub type Snapshot = (CpuModel, MemController, bool);

/// The state once a pending IRQ has been taken, if CPSR.I allows it.
pub open spec fn irq_taken(s: Snapshot) -> CpuModel {
    if s.2 && !bit_set(s.0.cpsr, 7) {
        enter_exception_spec(s.0, Exception::Irq, wadd(s.0.pc(), 4))
    } else {
        s.0
    }
}

/// Whether an IRQ is still pending after the check: only a masked one stays.
pub open spec fn irq_left(s: Snapshot) -> bool {
    s.2 && bit_set(s.0.cpsr, 7)
}

/// One iteration of the run loop that went on: IRQ check, no breakpoint at
/// the PC, one instruction executed.
pub open spec fn tick_ok(s0: Snapshot, s1: Snapshot, bps: Seq<u32>) -> bool {
    let c = irq_taken(s0);
    &&& !bps.contains(c.pc())
    &&& s0.1.region_of(c.pc() as int) is Some
    &&& s1.2 == irq_left(s0)
    &&& step_ok(c, s0.1, s1.0, s1.1)
}

/// Whether `tr` is a sequence of run-loop iterations that went on.
pub open spec fn trace_ok(tr: Seq<Snapshot>, bps: Seq<u32>) -> bool {
    forall|j: int| 0 <= j < tr.len() - 1 ==> #[trigger] tick_ok(tr[j], tr[j + 1], bps)
}

/// How a batch ended, given the states it went through (`tr`, which ends
/// where the last completed iteration left off) and where it stopped.
pub open spec fn run_end_ok(tr: Seq<Snapshot>, n: u32, r: BreakReason, fin: Snapshot, bps: Seq<u32>) -> bool {
    let last = tr.last();
    let c = irq_taken(last);
    match r {
        BreakReason::LimitReached => tr.len() == n + 1 && fin == last,
        _ => {
            &&& tr.len() <= n
            &&& fin == (c, last.1, irq_left(last))
            &&& match r {
                BreakReason::Breakpoint => bps.contains(c.pc()),
                BreakReason::FetchFault(pc) => !bps.contains(c.pc()) && pc == c.pc() && last.1.region_of(
                    pc as int,
                ) is None,
                BreakReason::Unimplemented(pc) => {
                    &&& !bps.contains(c.pc())
                    &&& pc == c.pc()
                    &&& last.1.region_of(pc as int) is Some
                    &&& if flag_t(c.cpsr) {
                        decode_thumb_spec(last.1.load16((pc & 0xFFFF_FFFE) as int)) == ThumbOp::Undefined
                    } else {
                        decode_arm_spec(last.1.load32((pc & 0xFFFF_FFFC) as int)) == ArmOp::Undefined
                    }
                },
                _ => true,
            }
        },
    }
}

/// Runs up to `n` instructions. Before each, a pending IRQ is taken when
/// CPSR.I allows it, and a breakpoint at the PC ends the batch before the
/// instruction runs; so do an unmapped PC and an opcode without a handler.
pub fn run(cpu: &mut Cpu, n: u32) -> (r: BreakReason)
    requires
        old(cpu).memory.wf(),
        old(cpu).decode_cache.wf(),
    ensures
        final(cpu).decode_cache.wf(),
        final(cpu).memory.wf(),
        final(cpu).breakpoints@ == old(cpu).breakpoints@,
        exists|tr: Seq<Snapshot>|
            #[trigger] trace_ok(tr, old(cpu).breakpoints@) && tr.len() >= 1 && tr[0] == (
                old(cpu)@,
                old(cpu).memory,
                old(cpu).irq_pending,
            ) && run_end_ok(
                tr,
                n,
                r,
                (final(cpu)@, final(cpu).memory, final(cpu).irq_pending),
                old(cpu).breakpoints@,
            ),
{
    let ghost bps = cpu.breakpoints@;
    let ghost mut tr: Seq<Snapshot> = seq![(cpu@, cpu.memory, cpu.irq_pending)];
    let mut k: u32 = 0;
    while k < n
        invariant
            cpu.memory.wf(),
            cpu.decode_cache.wf(),
            cpu.breakpoints@ == bps,
            bps == old(cpu).breakpoints@,
            k <= n,
            tr.len() == k + 1,
            tr[0] == (old(cpu)@, old(cpu).memory, old(cpu).irq_pending),
            trace_ok(tr, bps),
            tr.last() == (cpu@, cpu.memory, cpu.irq_pending),
        decreases n - k,
    {
        let ghost s0: Snapshot = (cpu@, cpu.memory, cpu.irq_pending);
        if cpu.irq_pending && (cpu.cpsr.raw >> 7) & 1 != 1 {
            let next = cpu.pc();
            cpu.irq_pending = false;
            enter_exception(cpu, Exception::Irq, next.wrapping_add(4));
        }
        assert(cpu@ == irq_taken(s0) && cpu.irq_pending == irq_left(s0) && cpu.memory == s0.1);
        let pc = cpu.pc();
        if cpu.has_breakpoint(pc) {
            assert(run_end_ok(tr, n, BreakReason::Breakpoint, (cpu@, cpu.memory, cpu.irq_pending), bps));
            return BreakReason::Breakpoint;
        }
        match step(cpu) {
            Ok(()) => {
                proof {
                    let s1: Snapshot = (cpu@, cpu.memory, cpu.irq_pending);
                    let tr2 = tr.push(s1);
                    assert(tick_ok(s0, s1, bps));
                    assert forall|j: int| 0 <= j < tr2.len() - 1 implies #[trigger] tick_ok(
                        tr2[j],
                        tr2[j + 1],
                        bps,
                    ) by {
                        if j < tr.len() - 1 {
                            assert(tr2[j] == tr[j] && tr2[j + 1] == tr[j + 1]);
                        }
                    }
                    tr = tr2;
                }
            },
            Err(StepError::Unmapped) => {
                assert(run_end_ok(tr, n, BreakReason::FetchFault(pc), (cpu@, cpu.memory, cpu.irq_pending), bps));
                return BreakReason::FetchFault(pc);
            },
            Err(StepError::Unimplemented) => {
                assert(run_end_ok(
                    tr,
                    n,
                    BreakReason::Unimplemented(pc),
                    (cpu@, cpu.memory, cpu.irq_pending),
                    bps,
                ));
                return BreakReason::Unimplemented(pc);
            },
        }
        k = k + 1;
    }
    BreakReason::LimitReached
}

} // verus!
