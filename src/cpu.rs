//! CPU state: the active register file, the banked registers of the other
//! modes, the program status registers, and mode switching.
use vstd::prelude::*;
use crate::decode_cache::DecodeCache;
use crate::mem::MemController;
use crate::psr::{Psr, flag_t, mode_of, MODE_FIQ, MODE_IRQ, MODE_SVC, MODE_ABT, MODE_UND};

verus! {

/// What a handler reports: whether execution continues with the next
/// instruction, or the handler already set the PC.
#[derive(Clone, Copy, Debug, PartialEq, Eq, Structural)]
pub enum InstrStatus {
    InBlock,
    Branched,
}

/// Wrapping 32-bit addition.
pub open spec fn wadd(a: u32, b: u32) -> u32 {
    if a + b > u32::MAX {
        (a + b - 0x1_0000_0000) as u32
    } else {
        (a + b) as u32
    }
}

/// Wrapping 32-bit subtraction.
pub open spec fn wsub(a: u32, b: u32) -> u32 {
    if a - b < 0 {
        (a - b + 0x1_0000_0000) as u32
    } else {
        (a - b) as u32
    }
}

/// The bank that holds R13/R14 (and the SPSR) of a mode: user and system
/// share bank 0; anything that is not a valid mode uses it too.
pub open spec fn bank_index(mode: u32) -> int {
    if mode == MODE_FIQ {
        1
    } else if mode == MODE_IRQ {
        2
    } else if mode == MODE_SVC {
        3
    } else if mode == MODE_ABT {
        4
    } else if mode == MODE_UND {
        5
    } else {
        0
    }
}

/// How far ahead of the executing instruction R15 reads: 8 in ARM state,
/// 4 in Thumb state.
pub open spec fn pc_offset(cpsr: u32) -> u32 {
    if flag_t(cpsr) {
        4
    } else {
        8
    }
}

/// The architectural CPU state apart from memory.
pub struct CpuModel {
    pub regs: Seq<u32>,
    pub cpsr: u32,
    pub spsr: Seq<u32>,
    pub bank_sp: Seq<u32>,
    pub bank_lr: Seq<u32>,
    pub usr_hi: Seq<u32>,
    pub fiq_hi: Seq<u32>,
}

impl CpuModel {
    pub open spec fn set_reg(self, r: int, v: u32) -> CpuModel {
        CpuModel { regs: self.regs.update(r, v), ..self }
    }

    /// A branch to `addr`: R15 then reads `addr` plus the pipeline offset.
    pub open spec fn branch(self, addr: u32) -> CpuModel {
        self.set_reg(15, wadd(addr, pc_offset(self.cpsr)))
    }

    /// The address of the executing instruction.
    pub open spec fn pc(self) -> u32 {
        wsub(self.regs[15], pc_offset(self.cpsr))
    }

    /// The SPSR of the current mode.
    pub open spec fn cur_spsr(self) -> u32 {
        self.spsr[bank_index(mode_of(self.cpsr))]
    }

    /// The active R8..R14 stored back into the current mode's bank.
    pub open spec fn saved(self) -> CpuModel {
        let b = bank_index(mode_of(self.cpsr));
        let hi = self.regs.subrange(8, 13);
        CpuModel {
            bank_sp: self.bank_sp.update(b, self.regs[13]),
            bank_lr: self.bank_lr.update(b, self.regs[14]),
            usr_hi: if b == 1 { self.usr_hi } else { hi },
            fiq_hi: if b == 1 { hi } else { self.fiq_hi },
            ..self
        }
    }

    /// R8..R14 of `mode` brought into the active register file.
    pub open spec fn loaded(self, mode: u32) -> CpuModel {
        let b = bank_index(mode);
        let hi = if b == 1 { self.fiq_hi } else { self.usr_hi };
        CpuModel {
            regs: Seq::new(
                16,
                |r: int|
                    if 8 <= r < 13 {
                        hi[r - 8]
                    } else if r == 13 {
                        self.bank_sp[b]
                    } else if r == 14 {
                        self.bank_lr[b]
                    } else {
                        self.regs[r]
                    },
            ),
            ..self
        }
    }

    /// CPSR replaced by `v`, switching the register view to its mode.
    pub open spec fn with_cpsr(self, v: u32) -> CpuModel {
        CpuModel { cpsr: v, ..self.saved().loaded(mode_of(v)) }
    }

    /// Register `r` as mode `mode` sees it, whichever mode is active.
    pub open spec fn reg_in_mode(self, mode: u32, r: int) -> u32 {
        let cur = bank_index(mode_of(self.cpsr));
        let b = bank_index(mode);
        if 8 <= r < 13 && (b == 1) != (cur == 1) {
            if b == 1 {
                self.fiq_hi[r - 8]
            } else {
                self.usr_hi[r - 8]
            }
        } else if (r == 13 || r == 14) && b != cur {
            if r == 13 {
                self.bank_sp[b]
            } else {
                self.bank_lr[b]
            }
        } else {
            self.regs[r]
        }
    }
}

/// A processor core: registers, status registers and its memory controller.
pub struct Cpu {
    pub regs: [u32; 16],
    pub cpsr: Psr,
    pub spsr: [u32; 6],
    pub bank_sp: [u32; 6],
    pub bank_lr: [u32; 6],
    pub usr_hi: [u32; 5],
    pub fiq_hi: [u32; 5],
    pub memory: MemController,
    pub irq_pending: bool,
    pub breakpoints: Vec<u32>,
    pub decode_cache: DecodeCache,
}

impl View for Cpu {
    type V = CpuModel;

    open spec fn view(&self) -> CpuModel {
        CpuModel {
            regs: self.regs@,
            cpsr: self.cpsr.raw,
            spsr: self.spsr@,
            bank_sp: self.bank_sp@,
            bank_lr: self.bank_lr@,
            usr_hi: self.usr_hi@,
            fiq_hi: self.fiq_hi@,
        }
    }
}

pub fn bank_of(mode: u32) -> (b: usize)
    ensures
        b == bank_index(mode),
        b < 6,
{
    if mode == MODE_FIQ {
        1
    } else if mode == MODE_IRQ {
        2
    } else if mode == MODE_SVC {
        3
    } else if mode == MODE_ABT {
        4
    } else if mode == MODE_UND {
        5
    } else {
        0
    }
}

/// Whether the pending IRQ, the breakpoints and the decode cache are the
/// same in the two CPUs.
pub open spec fn same_extras(a: &Cpu, b: &Cpu) -> bool {
    &&& a.irq_pending == b.irq_pending
    &&& a.breakpoints@ == b.breakpoints@
    &&& a.decode_cache == b.decode_cache
}

/// Whether everything but the registers is the same in the two CPUs.
pub open spec fn same_machine(a: &Cpu, b: &Cpu) -> bool {
    &&& a.memory == b.memory
    &&& same_extras(a, b)
}

impl Cpu {
    /// A core in supervisor mode with interrupts masked and every register
    /// zero, over `memory`, with an empty decode cache.
    pub fn new(memory: MemController) -> (r: Cpu)
        ensures
            r@.regs == Seq::new(16, |i: int| 0u32),
            r@.cpsr == 0xD3,
            r.memory == memory,
            !r.irq_pending,
            r.breakpoints@.len() == 0,
            r.decode_cache.wf(),
    {
        let r = Cpu {
            regs: [0u32; 16],
            cpsr: Psr { raw: 0xD3 },
            spsr: [0u32; 6],
            bank_sp: [0u32; 6],
            bank_lr: [0u32; 6],
            usr_hi: [0u32; 5],
            fiq_hi: [0u32; 5],
            memory,
            irq_pending: false,
            breakpoints: Vec::new(),
            decode_cache: DecodeCache::new(),
        };
        assert(r@.regs =~= Seq::new(16, |i: int| 0u32));
        r
    }

    pub fn get_pc_offset(&self) -> (r: u32)
        ensures
            r == pc_offset(self@.cpsr),
    {
        if self.cpsr.thumb() {
            4
        } else {
            8
        }
    }

    /// The address of the executing instruction.
    pub fn pc(&self) -> (r: u32)
        ensures
            r == self@.pc(),
    {
        self.regs[15].wrapping_sub(self.get_pc_offset())
    }

    /// Continues execution at `addr` in the current state.
    pub fn branch(&mut self, addr: u32)
        ensures
            final(self)@ == old(self)@.branch(addr),
            same_machine(old(self), final(self)),
    {
        let off = self.get_pc_offset();
        self.regs[15] = addr.wrapping_add(off);
        assert(self@.regs =~= old(self)@.branch(addr).regs);
    }

    /// The SPSR of the current mode.
    pub fn get_spsr(&self) -> (r: u32)
        ensures
            r == self@.cur_spsr(),
    {
        self.spsr[bank_of(self.cpsr.mode())]
    }

    /// Replaces the SPSR of the current mode.
    pub fn set_spsr(&mut self, v: u32)
        ensures
            final(self)@ == (CpuModel {
                spsr: old(self)@.spsr.update(bank_index(mode_of(old(self)@.cpsr)), v),
                ..old(self)@
            }),
            same_machine(old(self), final(self)),
    {
        let b = bank_of(self.cpsr.mode());
        self.spsr[b] = v;
    }

    /// Replaces the CPSR, exchanging the banked registers when the mode
    /// changes.
    pub fn set_cpsr(&mut self, v: u32)
        ensures
            final(self)@ == old(self)@.with_cpsr(v),
            same_machine(old(self), final(self)),
    {
        let ghost m = old(self)@;
        let b = bank_of(self.cpsr.mode());
        self.bank_sp[b] = self.regs[13];
        self.bank_lr[b] = self.regs[14];
        if b == 1 {
            self.fiq_hi = [self.regs[8], self.regs[9], self.regs[10], self.regs[11], self.regs[12]];
        } else {
            self.usr_hi = [self.regs[8], self.regs[9], self.regs[10], self.regs[11], self.regs[12]];
        }
        let ghost s = m.saved();
        assert(self@.usr_hi =~= s.usr_hi);
        assert(self@.fiq_hi =~= s.fiq_hi);
        assert(self@ == s);
        let nb = bank_of(v & 0x1F);
        let hi: [u32; 5] = if nb == 1 {
            self.fiq_hi
        } else {
            self.usr_hi
        };
        self.regs[8] = hi[0];
        self.regs[9] = hi[1];
        self.regs[10] = hi[2];
        self.regs[11] = hi[3];
        self.regs[12] = hi[4];
        self.regs[13] = self.bank_sp[nb];
        self.regs[14] = self.bank_lr[nb];
        self.cpsr = Psr { raw: v };
        assert(self@.regs =~= s.loaded(mode_of(v)).regs);
    }
}

/// A mode switch keeps every mode's view of every register: only which
/// bank is active changes.
pub proof fn lemma_mode_switch_keeps_banks(m: CpuModel, v: u32, mode: u32, r: int)
    requires
        m.regs.len() == 16,
        m.bank_sp.len() == 6,
        m.bank_lr.len() == 6,
        m.usr_hi.len() == 5,
        m.fiq_hi.len() == 5,
        0 <= r < 16,
    ensures
        m.with_cpsr(v).reg_in_mode(mode, r) == m.reg_in_mode(mode, r),
{
}

} // verus!
