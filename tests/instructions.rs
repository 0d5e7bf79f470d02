use libllama::arm;
use libllama::cpu::{Cpu, InstrStatus};
use libllama::hwcore::{load_game, map_memory_regions, Framebuffers, HwCore, Loader, Segment};
use libllama::decode_cache::DecodeCache;
use libllama::interpreter::{self, StepError, decode_arm, decode_thumb, ArmOp, BreakReason, Exception, ThumbOp};
use libllama::io::{IoRegsArm9, IoRegsShared};
use libllama::mem::{Backing, MemController};
use libllama::psr::{cond_passed, Psr};
use libllama::shifter::{rotate_right, shift_by_imm, shift_by_reg};
use libllama::thumb;

fn cpu_with_ram(size: usize) -> Cpu {
    let mut mem = MemController::new();
    let start = mem.make_ram(size);
    assert!(mem.map_region(0, size as u32, Backing::Ram(start)));
    Cpu::new(mem)
}

#[test]
fn shifter_edge_cases() {
    assert_eq!(shift_by_imm(0x8000_0001, 0, 0, true), (0x8000_0001, true));
    assert_eq!(shift_by_imm(0x8000_0001, 0, 1, false), (0x2, true));
    assert_eq!(shift_by_imm(0x8000_0001, 1, 0, false), (0, true));
    assert_eq!(shift_by_imm(0x8000_0000, 2, 0, false), (0xFFFF_FFFF, true));
    assert_eq!(shift_by_imm(0x8000_0010, 2, 4, false), (0xF800_0001, false));
    assert_eq!(shift_by_imm(0x0000_0003, 3, 0, true), (0x8000_0001, true));
    assert_eq!(shift_by_imm(0x0000_0003, 3, 1, false), (0x8000_0001, true));
    assert_eq!(shift_by_reg(0x1, 0, 32, false), (0, true));
    assert_eq!(shift_by_reg(0x1, 0, 33, true), (0, false));
    assert_eq!(shift_by_reg(0x8000_0000, 1, 32, false), (0, true));
    assert_eq!(shift_by_reg(0x8000_0000, 2, 40, false), (0xFFFF_FFFF, true));
    assert_eq!(shift_by_reg(0x8000_0001, 3, 32, false), (0x8000_0001, true));
    assert_eq!(shift_by_reg(0x1234, 3, 0, true), (0x1234, true));
    assert_eq!(rotate_right(0x4433_2211, 16), 0x2211_4433);
}

#[test]
fn conditions() {
    let z = Psr { raw: 1 << 30 };
    assert!(cond_passed(0x0, &z));
    assert!(!cond_passed(0x1, &z));
    assert!(cond_passed(0xE, &z));
    let nv = Psr { raw: (1 << 31) | (1 << 28) };
    assert!(cond_passed(0xA, &nv));
    assert!(!cond_passed(0xB, &nv));
    assert!(cond_passed(0xC, &nv));
}

#[test]
fn decoder_patterns() {
    assert_eq!(decode_arm(0xE091_0F81), ArmOp::DataProcessing);
    assert_eq!(decode_arm(0xE591_0000), ArmOp::Ldr);
    assert_eq!(decode_arm(0xE5D1_0000), ArmOp::Ldrb);
    assert_eq!(decode_arm(0xE581_0000), ArmOp::Str);
    assert_eq!(decode_arm(0xE8BD_0007), ArmOp::Ldm);
    assert_eq!(decode_arm(0xE92D_4000), ArmOp::Stm);
    assert_eq!(decode_arm(0xEB00_0000), ArmOp::Bbl);
    assert_eq!(decode_arm(0xE12F_FF11), ArmOp::Bx);
    assert_eq!(decode_arm(0xE12F_FF31), ArmOp::BlxReg);
    assert_eq!(decode_arm(0xFA00_0002), ArmOp::ModBlx);
    assert_eq!(decode_arm(0xE000_0291), ArmOp::Multiply);
    assert_eq!(decode_arm(0xE081_0392), ArmOp::MultiplyLong);
    assert_eq!(decode_arm(0xE10F_0000), ArmOp::Mrs);
    assert_eq!(decode_arm(0xE129_F000), ArmOp::Msr);
    assert_eq!(decode_arm(0xE1D1_00B2), ArmOp::LoadHalf);
    assert_eq!(decode_arm(0xE1C1_00B2), ArmOp::Strh);
    assert_eq!(decode_arm(0xEE00_0000), ArmOp::Undefined);
    assert_eq!(decode_arm(0xE091_0F81), decode_arm(0xE091_0F81));
    assert_eq!(decode_thumb(0x6848), ThumbOp::Ldr1);
    assert_eq!(decode_thumb(0xBC03), ThumbOp::Pop);
    assert_eq!(decode_thumb(0xB503), ThumbOp::Push);
    assert_eq!(decode_thumb(0x0000), ThumbOp::Alu);
    assert_eq!(decode_thumb(0xDE00), ThumbOp::Undefined);
    assert_eq!(decode_thumb(0x4708), ThumbOp::Bx);
    assert_eq!(decode_thumb(0xF000), ThumbOp::Branch);
}

#[test]
fn store_and_post_indexed_writeback() {
    let mut cpu = cpu_with_ram(0x200);
    cpu.regs[1] = 0x100;
    cpu.regs[2] = 0xAABB_CCDD;
    // STR R2, [R1], #8
    assert_eq!(arm::str(&mut cpu, 0xE481_2008), InstrStatus::InBlock);
    assert_eq!(cpu.memory.read32(0x100), 0xAABB_CCDD);
    assert_eq!(cpu.regs[1], 0x108);
    // STRB R2, [R1, #-1]!
    arm::strb(&mut cpu, 0xE561_2001);
    assert_eq!(cpu.memory.read8(0x107), 0xDD);
    assert_eq!(cpu.regs[1], 0x107);
    // LDRB R3, [R1]
    arm::ldrb(&mut cpu, 0xE5D1_3000);
    assert_eq!(cpu.regs[3], 0xDD);
}

#[test]
fn load_into_pc_interworks() {
    let mut cpu = cpu_with_ram(0x200);
    cpu.memory.write32(0x40, 0x0000_1235);
    cpu.regs[1] = 0x40;
    // LDR PC, [R1]
    assert_eq!(arm::ldr(&mut cpu, 0xE591_F000), InstrStatus::Branched);
    assert!(cpu.cpsr.thumb());
    assert_eq!(cpu.pc(), 0x1234);
}

#[test]
fn halfword_and_signed_loads() {
    let mut cpu = cpu_with_ram(0x200);
    cpu.memory.write32(0x20, 0x80F0_7FFF);
    cpu.regs[1] = 0x20;
    // LDRH R0, [R1, #2]
    arm::load_half(&mut cpu, 0xE1D1_00B2);
    assert_eq!(cpu.regs[0], 0x80F0);
    // LDRSH R0, [R1, #2]
    arm::load_half(&mut cpu, 0xE1D1_00F2);
    assert_eq!(cpu.regs[0], 0xFFFF_80F0);
    // LDRSB R0, [R1, #2]
    arm::load_half(&mut cpu, 0xE1D1_00D2);
    assert_eq!(cpu.regs[0], 0xFFFF_FFF0);
    cpu.regs[2] = 0x1234_5678;
    // STRH R2, [R1, #4]
    arm::strh(&mut cpu, 0xE1C1_20B4);
    assert_eq!(cpu.memory.read32(0x24), 0x0000_5678);
}

#[test]
fn stm_decrement_before_and_base_rule() {
    let mut cpu = cpu_with_ram(0x200);
    cpu.regs[0] = 1;
    cpu.regs[1] = 2;
    cpu.regs[13] = 0x100;
    cpu.regs[14] = 0xEE;
    // STMDB R13!, {R0, R1, R14}
    arm::stm(&mut cpu, 0xE92D_4003);
    assert_eq!(cpu.regs[13], 0xF4);
    assert_eq!(cpu.memory.read32(0xF4), 1);
    assert_eq!(cpu.memory.read32(0xF8), 2);
    assert_eq!(cpu.memory.read32(0xFC), 0xEE);
    // STMIA R1!, {R0, R1}: R1 is not the lowest, so the updated base is stored
    cpu.regs[1] = 0x80;
    arm::stm(&mut cpu, 0xE8A1_0003);
    assert_eq!(cpu.memory.read32(0x80), 1);
    assert_eq!(cpu.memory.read32(0x84), 0x88);
    assert_eq!(cpu.regs[1], 0x88);
    // STMIA R0!, {R0, R1}: R0 is the lowest, so the unmodified base is stored
    cpu.regs[0] = 0x40;
    arm::stm(&mut cpu, 0xE8A0_0003);
    assert_eq!(cpu.memory.read32(0x40), 0x40);
    assert_eq!(cpu.regs[0], 0x48);
}

#[test]
fn ldm_decrement_after() {
    let mut cpu = cpu_with_ram(0x200);
    cpu.memory.write32(0x38, 7);
    cpu.memory.write32(0x3C, 8);
    cpu.regs[4] = 0x3C;
    // LDMDA R4!, {R2, R3}
    arm::ldm(&mut cpu, 0xE834_000C);
    assert_eq!(cpu.regs[2], 7);
    assert_eq!(cpu.regs[3], 8);
    assert_eq!(cpu.regs[4], 0x34);
}

#[test]
fn branches() {
    let mut cpu = cpu_with_ram(0x100);
    cpu.cpsr = Psr { raw: 0x13 };
    cpu.branch(0x1000);
    // BL -8 (to 0x1000 itself)
    assert_eq!(arm::bbl(&mut cpu, 0xEBFF_FFFE), InstrStatus::Branched);
    assert_eq!(cpu.pc(), 0x1000);
    assert_eq!(cpu.regs[14], 0x1004);
    // BNE not taken with Z set
    cpu.cpsr = Psr { raw: 0x13 | (1 << 30) };
    assert_eq!(arm::bbl(&mut cpu, 0x1A00_0010), InstrStatus::InBlock);
    assert_eq!(cpu.pc(), 0x1000);
    cpu.regs[3] = 0x2001;
    // BX R3
    assert_eq!(arm::bx(&mut cpu, 0xE12F_FF13), InstrStatus::Branched);
    assert!(cpu.cpsr.thumb());
    assert_eq!(cpu.pc(), 0x2000);
    assert_eq!(cpu.regs[15], 0x2004);
    cpu.cpsr = Psr { raw: 0x13 };
    cpu.branch(0x3000);
    cpu.regs[2] = 0x4000;
    // BLX R2
    arm::blx(&mut cpu, 0xE12F_FF32);
    assert_eq!(cpu.regs[14], 0x3004);
    assert!(!cpu.cpsr.thumb());
    assert_eq!(cpu.pc(), 0x4000);
}

#[test]
fn multiplies() {
    let mut cpu = cpu_with_ram(0x100);
    cpu.regs[1] = 0xFFFF_FFFF;
    cpu.regs[2] = 2;
    cpu.regs[3] = 10;
    // MLA R0, R1, R2, R3
    arm::mul(&mut cpu, 0xE020_3291);
    assert_eq!(cpu.regs[0], 8);
    // UMULL R4, R5, R1, R2
    arm::mul_long(&mut cpu, 0xE085_4291);
    assert_eq!((cpu.regs[4], cpu.regs[5]), (0xFFFF_FFFE, 1));
    // SMULLS R4, R5, R1, R2
    arm::mul_long(&mut cpu, 0xE0D5_4291);
    assert_eq!((cpu.regs[4], cpu.regs[5]), (0xFFFF_FFFE, 0xFFFF_FFFF));
    assert!(cpu.cpsr.n());
    // UMLAL R4, R5, R2, R2: adds 4 to RdHi:RdLo
    arm::mul_long(&mut cpu, 0xE0A5_4292);
    assert_eq!((cpu.regs[4], cpu.regs[5]), (2, 0));
}

#[test]
fn status_register_transfer() {
    let mut cpu = cpu_with_ram(0x100);
    cpu.cpsr = Psr { raw: 0x13 };
    cpu.spsr[3] = 0x1234_0010;
    // MRS R0, SPSR
    arm::mrs(&mut cpu, 0xE14F_0000);
    assert_eq!(cpu.regs[0], 0x1234_0010);
    // MRS R1, CPSR
    arm::mrs(&mut cpu, 0xE10F_1000);
    assert_eq!(cpu.regs[1], 0x13);
    cpu.regs[13] = 0x5555;
    cpu.regs[2] = 0xF000_0012;
    // MSR CPSR_fc, R2: to IRQ mode with all flags set
    arm::msr(&mut cpu, 0xE129_F002);
    assert_eq!(cpu.cpsr.raw, 0xF000_0012);
    assert_eq!(cpu.bank_sp[3], 0x5555);
    // back to user mode, then only the flag byte can change
    cpu.regs[2] = 0x0000_0010;
    arm::msr(&mut cpu, 0xE129_F002);
    assert_eq!(cpu.cpsr.mode(), 0x10);
    cpu.regs[2] = 0x0000_0013;
    arm::msr(&mut cpu, 0xE129_F002);
    assert_eq!(cpu.cpsr.raw, 0x0000_0010);
}

#[test]
fn thumb_loads_and_stores() {
    let mut cpu = cpu_with_ram(0x400);
    cpu.cpsr = Psr { raw: 0x13 | (1 << 5) };
    cpu.regs[13] = 0x200;
    cpu.regs[1] = 0x100;
    cpu.regs[2] = 0x1122_3344;
    // STR R2, [SP, #8]
    thumb::str_3(&mut cpu, 0x9202);
    assert_eq!(cpu.memory.read32(0x208), 0x1122_3344);
    // LDR R3, [SP, #8]
    thumb::ldr_4(&mut cpu, 0x9B02);
    assert_eq!(cpu.regs[3], 0x1122_3344);
    // STR R2, [R1, #4]
    thumb::str_1(&mut cpu, 0x604A);
    assert_eq!(cpu.memory.read32(0x104), 0x1122_3344);
    // LDR R0, [R1, #4]
    thumb::ldr_1(&mut cpu, 0x6848);
    assert_eq!(cpu.regs[0], 0x1122_3344);
    // LDRB R4, [R1, #5]
    thumb::ldrb_1(&mut cpu, 0x794C);
    assert_eq!(cpu.regs[4], 0x33);
    // STRH R2, [R1, #2]
    thumb::strh_1(&mut cpu, 0x804A);
    // LDRH R5, [R1, #2]
    thumb::ldrh_1(&mut cpu, 0x884D);
    assert_eq!(cpu.regs[5], 0x3344);
    cpu.memory.write32(0x48, 0xABCD);
    cpu.branch(0x40);
    // LDR R6, [PC, #4]: (0x44 & !3) + 4
    thumb::ldr_3(&mut cpu, 0x4E01);
    assert_eq!(cpu.regs[6], 0xABCD);
}

#[test]
fn thumb_push_pop() {
    let mut cpu = cpu_with_ram(0x400);
    cpu.cpsr = Psr { raw: 0x13 | (1 << 5) };
    cpu.regs[13] = 0x300;
    cpu.regs[0] = 10;
    cpu.regs[1] = 11;
    cpu.regs[14] = 0x81;
    // PUSH {R0, R1, LR}
    thumb::push(&mut cpu, 0xB503);
    assert_eq!(cpu.regs[13], 0x2F4);
    assert_eq!(cpu.memory.read32(0x2FC), 0x81);
    cpu.regs[0] = 0;
    cpu.regs[1] = 0;
    // POP {R0, R1, PC}
    assert_eq!(thumb::pop(&mut cpu, 0xBD03), InstrStatus::Branched);
    assert_eq!((cpu.regs[0], cpu.regs[1]), (10, 11));
    assert_eq!(cpu.regs[13], 0x300);
    assert_eq!(cpu.pc(), 0x80);
    assert!(cpu.cpsr.thumb());
}

#[test]
fn thumb_step_advances_by_two() {
    let mut cpu = cpu_with_ram(0x400);
    cpu.cpsr = Psr { raw: 0x13 | (1 << 5) };
    cpu.memory.write16(0x20, 0x6848);
    cpu.branch(0x20);
    cpu.regs[1] = 0x100;
    cpu.memory.write32(0x104, 77);
    assert!(interpreter::step(&mut cpu).is_ok());
    assert_eq!(cpu.regs[0], 77);
    assert_eq!(cpu.pc(), 0x22);
}

#[test]
fn exceptions_and_run_loop() {
    let mut cpu = cpu_with_ram(0x400);
    interpreter::reset(&mut cpu, 0x100);
    assert_eq!(cpu.pc(), 0x100);
    assert_eq!(cpu.cpsr.raw, 0xD3);
    // MOV R0, #1; MOV R1, #2; undefined
    cpu.memory.write32(0x100, 0xE3A0_0001);
    cpu.memory.write32(0x104, 0xE3A0_1002);
    cpu.memory.write32(0x108, 0xEE00_0000);
    cpu.set_breakpoint(0x104);
    assert_eq!(interpreter::run(&mut cpu, 10), BreakReason::Breakpoint);
    assert_eq!(cpu.regs[0], 1);
    assert_eq!(cpu.pc(), 0x104);
    cpu.clear_breakpoint(0x104);
    assert!(!cpu.has_breakpoint(0x104));
    assert_eq!(interpreter::run(&mut cpu, 10), BreakReason::Unimplemented(0x108));
    assert_eq!(cpu.regs[1], 2);
    // an IRQ taken while enabled
    cpu.cpsr = Psr { raw: 0x1F };
    cpu.irq_pending = true;
    assert_eq!(interpreter::run(&mut cpu, 0), BreakReason::LimitReached);
    cpu.set_breakpoint(0xFFFF_0018);
    assert_eq!(interpreter::run(&mut cpu, 1), BreakReason::Breakpoint);
    assert_eq!(cpu.cpsr.mode(), 0x12);
    assert_eq!(cpu.spsr[2], 0x1F);
    assert_eq!(cpu.regs[14], 0x10C);
    assert!(!cpu.irq_pending);
    interpreter::enter_exception(&mut cpu, Exception::Fiq, 0x44);
    assert_eq!(cpu.cpsr.raw & 0xFF, 0xD1);
    assert_eq!(cpu.pc(), 0xFFFF_001C);
}

#[test]
fn arm9_memory_map_and_loading() {
    let mem = map_memory_regions(IoRegsArm9::new(), IoRegsShared::new());
    assert_eq!(mem.regions.len(), 0x1000 + 9);
    let loader = Loader {
        segments: vec![
            Segment { addr: 0xFFFF_0000, bytes: vec![0x01, 0x00, 0xA0, 0xE3] },
            Segment { addr: 0x2000_0000, bytes: vec![9, 8, 7] },
        ],
        entrypoint: 0xFFFF_0000,
    };
    let mut core = load_game(&loader);
    assert_eq!(core.read_reg(15), 0xFFFF_0008);
    assert_eq!(core.read_mem(0x2000_0000, 3), vec![9, 8, 7]);
    // ITCM mirrors share storage
    assert!(core.write_mem(0x10, &[5]));
    assert_eq!(core.read_mem(0x8010, 1), vec![5]);
    assert_eq!(core.step(1), BreakReason::LimitReached);
    assert_eq!(core.read_reg(0), 1);
    let hw = HwCore::new(&loader);
    let mut fbs = Framebuffers {
        top_screen: Vec::new(),
        bot_screen: Vec::new(),
        top_screen_size: (2, 2, 1),
        bot_screen_size: (1, 1, 3),
    };
    hw.copy_framebuffers(&mut fbs);
    assert_eq!(fbs.top_screen, vec![9, 8, 7, 0]);
    assert_eq!(fbs.bot_screen, vec![0, 0, 0]);
}

fn thumb_program(code: &[u16], at: u32) -> Cpu {
    let mut cpu = cpu_with_ram(0x400);
    cpu.cpsr = Psr { raw: 0x13 | (1 << 5) };
    for (k, op) in code.iter().enumerate() {
        cpu.memory.write16(at + 2 * k as u32, *op);
    }
    cpu.branch(at);
    cpu
}

#[test]
fn thumb_arithmetic_sequence() {
    let code = [0x2005, 0x3003, 0x2808, 0x1E41, 0x010A, 0x4253, 0x4343, 0x4680];
    let mut cpu = thumb_program(&code, 0x40);
    assert!(interpreter::step(&mut cpu).is_ok()); // MOV R0, #5
    assert_eq!(cpu.regs[0], 5);
    assert!(interpreter::step(&mut cpu).is_ok()); // ADD R0, #3
    assert_eq!(cpu.regs[0], 8);
    assert!(interpreter::step(&mut cpu).is_ok()); // CMP R0, #8
    assert!(cpu.cpsr.z() && cpu.cpsr.c());
    assert!(interpreter::step(&mut cpu).is_ok()); // SUB R1, R0, #1
    assert_eq!(cpu.regs[1], 7);
    assert!(interpreter::step(&mut cpu).is_ok()); // LSL R2, R1, #4
    assert_eq!(cpu.regs[2], 0x70);
    assert!(interpreter::step(&mut cpu).is_ok()); // NEG R3, R2
    assert_eq!(cpu.regs[3], 0xFFFF_FF90);
    assert!(cpu.cpsr.n());
    assert!(interpreter::step(&mut cpu).is_ok()); // MUL R3, R0
    assert_eq!(cpu.regs[3], 0xFFFF_FC80);
    assert!(interpreter::step(&mut cpu).is_ok()); // MOV R8, R0
    assert_eq!(cpu.regs[8], 8);
    assert_eq!(cpu.pc(), 0x50);
}

#[test]
fn thumb_branches() {
    // BEQ +4 taken (Z set), then BL pair to 0x108
    let mut cpu = thumb_program(&[0xD002], 0x40);
    cpu.cpsr = Psr { raw: cpu.cpsr.raw | (1 << 30) };
    assert!(interpreter::step(&mut cpu).is_ok());
    assert_eq!(cpu.pc(), 0x48);
    let mut cpu = thumb_program(&[0xF000, 0xF802], 0x100);
    assert!(interpreter::step(&mut cpu).is_ok());
    assert_eq!(cpu.regs[14], 0x104);
    assert_eq!(cpu.pc(), 0x102);
    assert!(interpreter::step(&mut cpu).is_ok());
    assert_eq!(cpu.pc(), 0x108);
    assert_eq!(cpu.regs[14], 0x105);
    // B -4 (back to itself)
    let mut cpu = thumb_program(&[0xE7FE], 0x80);
    assert!(interpreter::step(&mut cpu).is_ok());
    assert_eq!(cpu.pc(), 0x80);
    // BX R1 to ARM
    let mut cpu = thumb_program(&[0x4708], 0x80);
    cpu.regs[1] = 0x200;
    assert!(interpreter::step(&mut cpu).is_ok());
    assert!(!cpu.cpsr.thumb());
    assert_eq!(cpu.pc(), 0x200);
    // the B<cond> encoding with condition 0xE has no handler
    let mut cpu = thumb_program(&[0xDE00], 0x80);
    assert_eq!(interpreter::step(&mut cpu), Err(StepError::Unimplemented));
    assert_eq!(cpu.pc(), 0x80);
}

#[test]
fn decode_cache_matches_decoder() {
    let mut cache = DecodeCache::new();
    for op in [0xE091_0F81u32, 0xE591_0000, 0xEE00_0000, 0xE091_0F81, 0xE081_0F81] {
        assert_eq!(cache.get_arm(op), decode_arm(op));
        assert_eq!(cache.get_arm(op), decode_arm(op));
    }
    for op in [0x6848u16, 0xDF00, 0x6848] {
        assert_eq!(cache.get_thumb(op), decode_thumb(op));
    }
}

#[test]
fn data_processing_write_to_pc_masks_low_bits() {
    let mut cpu = cpu_with_ram(0x100);
    cpu.cpsr = Psr { raw: 0x13 };
    cpu.regs[0] = 0x1003;
    // MOV PC, R0
    assert_eq!(arm::data_processing(&mut cpu, 0xE1A0_F000), InstrStatus::Branched);
    assert_eq!(cpu.pc(), 0x1000);
    assert!(!cpu.cpsr.thumb());
}

#[test]
fn thumb_trampoline_matches_arm_handler() {
    let mut a = cpu_with_ram(0x400);
    let mut b = cpu_with_ram(0x400);
    for cpu in [&mut a, &mut b] {
        cpu.cpsr = Psr { raw: 0x13 | (1 << 5) };
        cpu.regs[13] = 0x100;
        cpu.memory.write32(0x108, 0xFEED_BEEF);
    }
    thumb::ldr_4(&mut a, 0x9B02);
    arm::ldr(&mut b, 0xE59D_3008);
    assert_eq!(a.regs, b.regs);
    assert_eq!(a.cpsr, b.cpsr);
    assert_eq!(a.regs[3], 0xFEED_BEEF);
}

#[test]
fn fetch_from_unmapped_address_is_fatal() {
    let mut cpu = cpu_with_ram(0x100);
    cpu.branch(0x4000);
    assert_eq!(interpreter::step(&mut cpu), Err(StepError::Unmapped));
    assert_eq!(cpu.pc(), 0x4000);
    assert_eq!(interpreter::run(&mut cpu, 5), BreakReason::FetchFault(0x4000));
}

#[test]
fn software_interrupts() {
    let mut cpu = cpu_with_ram(0x400);
    cpu.cpsr = Psr { raw: 0x10 };
    cpu.memory.write32(0x40, 0xEF00_0012);
    cpu.branch(0x40);
    assert!(interpreter::step(&mut cpu).is_ok());
    assert_eq!(cpu.cpsr.mode(), 0x13);
    assert_eq!(cpu.regs[14], 0x44);
    assert_eq!(cpu.spsr[3], 0x10);
    assert_eq!(cpu.pc(), 0xFFFF_0008);
    let mut cpu = thumb_program(&[0xDF05], 0x80);
    let old = cpu.cpsr.raw;
    assert!(interpreter::step(&mut cpu).is_ok());
    assert_eq!(cpu.regs[14], 0x82);
    assert_eq!(cpu.spsr[3], old);
    assert!(!cpu.cpsr.thumb());
    assert_eq!(cpu.pc(), 0xFFFF_0008);
}

#[test]
fn thumb_forms_through_arm_handlers() {
    // STRB R2, [R1, #31]; STR R2, [R1, R3]; LDRB R4, [R1, R3]; LDRSB R5, [R1, R3];
    // ADD SP, #8; SUB SP, #4; STMIA R1!, {R2, R4}; LDMIA R1!, {R6}; ADD R7, SP, #4
    let code = [0x77CA, 0x50CA, 0x5CCC, 0x56CD, 0xB002, 0xB081, 0xC114, 0xC940, 0xAF01];
    let mut cpu = thumb_program(&code, 0x40);
    cpu.regs[1] = 0x100;
    cpu.regs[2] = 0x8899_AABB;
    cpu.regs[3] = 0x10;
    cpu.regs[13] = 0x300;
    cpu.memory.write32(0x108, 0x55);
    for _ in 0..code.len() {
        assert!(interpreter::step(&mut cpu).is_ok());
    }
    assert_eq!(cpu.memory.read8(0x11F), 0xBB);
    assert_eq!(cpu.memory.read32(0x110), 0x8899_AABB);
    assert_eq!(cpu.regs[4], 0xBB);
    assert_eq!(cpu.regs[5], 0xFFFF_FFBB);
    assert_eq!(cpu.regs[13], 0x304);
    assert_eq!(cpu.memory.read32(0x100), 0x8899_AABB);
    assert_eq!(cpu.memory.read32(0x104), 0xBB);
    assert_eq!(cpu.regs[6], 0x55);
    assert_eq!(cpu.regs[1], 0x10C);
    assert_eq!(cpu.regs[7], 0x308);
    assert_eq!(cpu.pc(), 0x52);
}

#[test]
fn interpret_next_runs_and_caches() {
    let mut cpu = thumb_program(&[0x2005], 0x40);
    assert_eq!(interpreter::interpret_next(&mut cpu, 0x40), Some(InstrStatus::InBlock));
    assert_eq!(cpu.regs[0], 5);
    assert_eq!(cpu.decode_cache.thumb[0x2005], Some(ThumbOp::Alu));
    cpu.regs[0] = 0;
    assert_eq!(interpreter::interpret_next(&mut cpu, 0x40), Some(InstrStatus::InBlock));
    assert_eq!(cpu.regs[0], 5);
    cpu.memory.write16(0x42, 0xDE00);
    assert_eq!(interpreter::interpret_next(&mut cpu, 0x42), None);
}
