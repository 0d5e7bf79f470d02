use libllama::arm;
use libllama::cpu::{Cpu, InstrStatus};
use libllama::interpreter;
use libllama::mem::{Backing, MemController};
use libllama::psr::Psr;

fn cpu_with_ram(size: usize) -> Cpu {
    let mut mem = MemController::new();
    let start = mem.make_ram(size);
    assert!(mem.map_region(0, size as u32, Backing::Ram(start)));
    Cpu::new(mem)
}

const FLAG_N: u32 = 1 << 31;
const FLAG_Z: u32 = 1 << 30;
const FLAG_C: u32 = 1 << 29;
const FLAG_V: u32 = 1 << 28;
const FLAG_T: u32 = 1 << 5;

#[test]
fn add_with_shifter_carry() {
    let mut cpu = cpu_with_ram(0x100);
    cpu.cpsr = Psr { raw: 0x13 };
    cpu.regs[1] = 0x0000_0001;
    // ADDS R0, R1, R1, LSL #31
    let r = arm::data_processing(&mut cpu, 0xE091_0F81);
    assert_eq!(r, InstrStatus::InBlock);
    assert_eq!(cpu.regs[0], 0x8000_0001);
    assert!(cpu.cpsr.n());
    assert!(!cpu.cpsr.z());
    assert!(!cpu.cpsr.c());
    assert!(!cpu.cpsr.v());
}

#[test]
fn unaligned_word_load() {
    let mut cpu = cpu_with_ram(0x2000);
    assert!(cpu.memory.write_buf(0x1000, &[0x11, 0x22, 0x33, 0x44]));
    cpu.regs[1] = 0x1002;
    // LDR R0, [R1]
    let r = arm::ldr(&mut cpu, 0xE591_0000);
    assert_eq!(r, InstrStatus::InBlock);
    assert_eq!(cpu.regs[0], 0x2211_4433);
}

#[test]
fn ldm_with_writeback() {
    let mut cpu = cpu_with_ram(0x200);
    cpu.memory.write32(0x100, 0xA);
    cpu.memory.write32(0x104, 0xB);
    cpu.memory.write32(0x108, 0xC);
    cpu.regs[13] = 0x100;
    // LDMIA R13!, {R0, R1, R2}
    let r = arm::ldm(&mut cpu, 0xE8BD_0007);
    assert_eq!(r, InstrStatus::InBlock);
    assert_eq!(cpu.regs[0], 0xA);
    assert_eq!(cpu.regs[1], 0xB);
    assert_eq!(cpu.regs[2], 0xC);
    assert_eq!(cpu.regs[13], 0x10C);
}

#[test]
fn branch_with_link_thumb_target() {
    let mut cpu = cpu_with_ram(0x100);
    cpu.cpsr = Psr { raw: 0x13 };
    cpu.branch(0x8000);
    // BLX #+8: the immediate field 2 with H clear lands on 0x8010.
    let r = arm::mod_blx(&mut cpu, 0xFA00_0002);
    assert_eq!(r, InstrStatus::Branched);
    assert_eq!(cpu.regs[14], 0x8004);
    assert_eq!(cpu.pc(), 0x8010);
    assert!(cpu.cpsr.thumb());
}

#[test]
fn branch_with_link_h_bit_adds_halfword() {
    let mut cpu = cpu_with_ram(0x100);
    cpu.cpsr = Psr { raw: 0x13 };
    cpu.branch(0x8000);
    let r = arm::mod_blx(&mut cpu, 0xFB00_0002);
    assert_eq!(r, InstrStatus::Branched);
    assert_eq!(cpu.regs[14], 0x8004);
    assert_eq!(cpu.pc(), 0x8012);
    assert!(cpu.cpsr.thumb());
}

#[test]
fn exception_return_via_data_processing() {
    let mut cpu = cpu_with_ram(0x100);
    cpu.cpsr = Psr { raw: 0x13 };
    let spsr = FLAG_C | 0x10;
    cpu.spsr[3] = spsr;
    cpu.bank_sp[0] = 0x1111;
    cpu.bank_lr[0] = 0x2222;
    cpu.regs[13] = 0x3333;
    cpu.regs[14] = 0x200;
    // MOVS PC, LR
    let r = arm::data_processing(&mut cpu, 0xE1B0_F00E);
    assert_eq!(r, InstrStatus::Branched);
    assert_eq!(cpu.pc(), 0x200);
    assert_eq!(cpu.cpsr.raw, spsr);
    assert_eq!(cpu.cpsr.mode(), 0x10);
    assert_eq!(cpu.regs[13], 0x1111);
    assert_eq!(cpu.regs[14], 0x2222);
    assert_eq!(cpu.bank_sp[3], 0x3333);
    assert_eq!(cpu.bank_lr[3], 0x200);
}

#[test]
fn rrx_carry_round_trip() {
    let mut cpu = cpu_with_ram(0x100);
    cpu.cpsr = Psr { raw: 0x13 | FLAG_C };
    cpu.regs[1] = 0x0000_0001;
    // MOVS R0, R1, RRX
    let r = arm::data_processing(&mut cpu, 0xE1B0_0061);
    assert_eq!(r, InstrStatus::InBlock);
    assert_eq!(cpu.regs[0], 0x8000_0000);
    assert!(cpu.cpsr.c());
    assert!(cpu.cpsr.n());
    assert!(!cpu.cpsr.z());
}

#[test]
fn condition_false_only_advances_pc() {
    let mut cpu = cpu_with_ram(0x100);
    cpu.cpsr = Psr { raw: 0x13 };
    // ADDEQ R0, R1, #1 with Z clear
    cpu.memory.write32(0x10, 0x0281_0001);
    cpu.branch(0x10);
    cpu.regs[1] = 5;
    let before = cpu.regs;
    assert!(interpreter::step(&mut cpu).is_ok());
    assert_eq!(cpu.pc(), 0x14);
    for r in 0..15 {
        assert_eq!(cpu.regs[r], before[r]);
    }
    assert_eq!(cpu.cpsr.raw, 0x13);
}

#[test]
fn condition_true_executes_through_step() {
    let mut cpu = cpu_with_ram(0x100);
    cpu.cpsr = Psr { raw: 0x13 | FLAG_Z };
    cpu.memory.write32(0x10, 0x0281_0001);
    cpu.branch(0x10);
    cpu.regs[1] = 5;
    assert!(interpreter::step(&mut cpu).is_ok());
    assert_eq!(cpu.regs[0], 6);
    assert_eq!(cpu.pc(), 0x14);
}

#[test]
fn subtract_flags_are_not_borrow() {
    let mut cpu = cpu_with_ram(0x100);
    cpu.cpsr = Psr { raw: 0x13 };
    cpu.regs[1] = 3;
    cpu.regs[2] = 5;
    // SUBS R0, R1, R2
    arm::data_processing(&mut cpu, 0xE051_0002);
    assert_eq!(cpu.regs[0], 0xFFFF_FFFE);
    assert!(cpu.cpsr.n());
    assert!(!cpu.cpsr.c());
    assert!(!cpu.cpsr.v());
    // CMP R2, R1: 5 - 3, no borrow
    arm::data_processing(&mut cpu, 0xE152_0001);
    assert!(cpu.cpsr.c());
    assert!(!cpu.cpsr.z());
    assert_eq!(cpu.regs[0], 0xFFFF_FFFE);
}

#[test]
fn signed_overflow_sets_v() {
    let mut cpu = cpu_with_ram(0x100);
    cpu.cpsr = Psr { raw: 0x13 };
    cpu.regs[1] = 0x7FFF_FFFF;
    // ADDS R0, R1, #1
    arm::data_processing(&mut cpu, 0xE291_0001);
    assert_eq!(cpu.regs[0], 0x8000_0000);
    assert!(cpu.cpsr.v());
    assert!(cpu.cpsr.n());
    assert!(!cpu.cpsr.c());
    assert_eq!(cpu.cpsr.raw & (FLAG_Z | FLAG_N | FLAG_V), FLAG_N | FLAG_V);
}
