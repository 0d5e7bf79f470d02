//! The ARM9 side of the machine: its memory map, reset from a loaded image,
//! the framebuffer export, and the debugger's view of the core.
use vstd::prelude::*;
use crate::cpu::Cpu;
use crate::interpreter::{self, BreakReason, Snapshot, run_end_ok, trace_ok};
use crate::io::{IoRegion, IoRegsArm9, IoRegsShared};
use crate::mem::{Backing, MemController, Region};
use crate::regpage::splice;

verus! {

pub const ITCM_SIZE: u32 = 0x8000;
pub const ITCM_COPIES: u32 = 0x1000;
pub const TOP_SCREEN_ADDR: u32 = 0x2000_0000;
pub const BOT_SCREEN_ADDR: u32 = 0x2008_CA00;

/// RAM offsets of the blocks, in the order they are allocated.
pub const ARM9_RAM_START: usize = 0x8000;
pub const DTCM_START: usize = 0x10_8000;
pub const BOOTROM_START: usize = 0x10_C000;
pub const VRAM_START: usize = 0x11_C000;
pub const DSP_START: usize = 0x71_C000;
pub const AXI_START: usize = 0x79_C000;
pub const FCRAM_START: usize = 0x81_C000;
pub const RAM_TOTAL: usize = 0x881_C000;

/// The regions after the ITCM mirrors, in mapping order.
pub open spec fn fixed_regions() -> Seq<Region> {
    seq![
        Region { base: 0x0800_0000, size: 0x10_0000, backing: Backing::Ram(ARM9_RAM_START) },
        Region { base: 0x1000_0000, size: 0x10_0000, backing: Backing::Io(0) },
        Region { base: 0x1010_0000, size: 0x10_0000, backing: Backing::Io(1) },
        Region { base: 0x1800_0000, size: 0x60_0000, backing: Backing::Ram(VRAM_START) },
        Region { base: 0x1FF0_0000, size: 0x8_0000, backing: Backing::Ram(DSP_START) },
        Region { base: 0x1FF8_0000, size: 0x8_0000, backing: Backing::Ram(AXI_START) },
        Region { base: 0x2000_0000, size: 0x800_0000, backing: Backing::Ram(FCRAM_START) },
        Region { base: 0xFFF0_0000, size: 0x4000, backing: Backing::Ram(DTCM_START) },
        Region { base: 0xFFFF_0000, size: 0x1_0000, backing: Backing::Ram(BOOTROM_START) },
    ]
}

/// The ITCM mirror number `k`: 32 KiB every 32 KiB from address 0 on.
pub open spec fn itcm_region(k: int) -> Region {
    Region { base: (k * 0x8000) as u32, size: ITCM_SIZE, backing: Backing::Ram(0) }
}

fn map_fixed(mem: &mut MemController, base: u32, size: u32, backing: Backing)
    requires
        old(mem).wf(),
        old(mem).region_ok(Region { base, size, backing }),
    ensures
        final(mem).wf(),
        final(mem).regions@ == old(mem).regions@.push(Region { base, size, backing }),
        final(mem).ram@ == old(mem).ram@,
        final(mem).devices@ == old(mem).devices@,
{
    let ok = mem.map_region(base, size, backing);
    assert(ok);
}

/// The ARM9 memory map: ITCM mirrored over the first 128 MiB, ARM9 RAM,
/// the ARM9 and shared I/O windows, VRAM, DSP RAM, AXI WRAM, FCRAM, DTCM
/// and the boot ROM, all RAM zeroed.
pub fn map_memory_regions(arm9_io: IoRegsArm9, shared_io: IoRegsShared) -> (r: MemController)
    requires
        arm9_io.wf(),
        shared_io.wf(),
    ensures
        r.wf(),
        r.ram@ == Seq::new(RAM_TOTAL as nat, |k: int| 0u8),
        r.devices@ == seq![IoRegion::Arm9(arm9_io), IoRegion::Shared(shared_io)],
        r.regions@ == Seq::new(ITCM_COPIES as nat, |k: int| itcm_region(k)) + fixed_regions(),
{
    let mut mem = MemController::new();
    let itcm = mem.make_ram(0x8000);
    let arm9_ram = mem.make_ram(0x10_0000);
    let dtcm = mem.make_ram(0x4000);
    let bootrom = mem.make_ram(0x1_0000);
    let vram = mem.make_ram(0x60_0000);
    let dsp = mem.make_ram(0x8_0000);
    let axi = mem.make_ram(0x8_0000);
    let fcram = mem.make_ram(0x800_0000);
    let d9 = mem.add_device(IoRegion::Arm9(arm9_io));
    let ds = mem.add_device(IoRegion::Shared(shared_io));
    assert(mem.ram@ =~= Seq::new(RAM_TOTAL as nat, |j: int| 0u8));
    let mut k: u32 = 0;
    while k < ITCM_COPIES
        invariant
            mem.wf(),
            mem.ram@ == Seq::new(RAM_TOTAL as nat, |j: int| 0u8),
            itcm == 0,
            k <= ITCM_COPIES,
            mem.regions@ == Seq::new(k as nat, |j: int| itcm_region(j)),
            mem.devices@ == seq![IoRegion::Arm9(arm9_io), IoRegion::Shared(shared_io)],
        decreases ITCM_COPIES - k,
    {
        map_fixed(&mut mem, k * 0x8000, ITCM_SIZE, Backing::Ram(itcm));
        k = k + 1;
        assert(mem.regions@ =~= Seq::new(k as nat, |j: int| itcm_region(j)));
    }
    map_fixed(&mut mem, 0x0800_0000, 0x10_0000, Backing::Ram(arm9_ram));
    map_fixed(&mut mem, 0x1000_0000, 0x10_0000, Backing::Io(d9));
    map_fixed(&mut mem, 0x1010_0000, 0x10_0000, Backing::Io(ds));
    map_fixed(&mut mem, 0x1800_0000, 0x60_0000, Backing::Ram(vram));
    map_fixed(&mut mem, 0x1FF0_0000, 0x8_0000, Backing::Ram(dsp));
    map_fixed(&mut mem, 0x1FF8_0000, 0x8_0000, Backing::Ram(axi));
    map_fixed(&mut mem, 0x2000_0000, 0x800_0000, Backing::Ram(fcram));
    map_fixed(&mut mem, 0xFFF0_0000, 0x4000, Backing::Ram(dtcm));
    map_fixed(&mut mem, 0xFFFF_0000, 0x1_0000, Backing::Ram(bootrom));
    assert(mem.regions@ =~= Seq::new(ITCM_COPIES as nat, |j: int| itcm_region(j)) + fixed_regions());
    mem
}

/// A block of the initial memory image.
pub struct Segment {
    pub addr: u32,
    pub bytes: Vec<u8>,
}

/// The initial memory image and the address execution starts at.
pub struct Loader {
    pub segments: Vec<Segment>,
    pub entrypoint: u32,
}

/// The ARM9 processor and everything it owns.
pub struct Hardware9 {
    pub arm9: Cpu,
}

/// Two read-only framebuffer copies with their (width, height, bytes per
/// pixel).
pub struct Framebuffers {
    pub top_screen: Vec<u8>,
    pub bot_screen: Vec<u8>,
    pub top_screen_size: (usize, usize, usize),
    pub bot_screen_size: (usize, usize, usize),
}

pub open spec fn fb_len(size: (usize, usize, usize)) -> int {
    size.0 * size.1 * size.2
}

pub struct HwCore {
    pub hardware9: Hardware9,
}

/// Whether one RAM region of `m` holds all of `addr .. addr + len`.
pub open spec fn write_fits(m: MemController, addr: u32, len: nat) -> bool {
    match m.region_of(addr as int) {
        Some(i) => m.regions@[i].backing is Ram && addr + len <= m.regions@[i].base + m.regions@[i].size,
        None => false,
    }
}

/// The RAM contents after a bulk write of `bytes` at `addr` into `ram`,
/// under the region map of `m`: written when one RAM region holds it all.
pub open spec fn ram_after_write(m: MemController, ram: Seq<u8>, addr: u32, bytes: Seq<u8>) -> Seq<u8> {
    if write_fits(m, addr, bytes.len()) {
        let r = m.regions@[m.region_of(addr as int)->0];
        splice(ram, r.backing->Ram_0 + (addr - r.base), bytes)
    } else {
        ram
    }
}

/// The RAM contents after the segments are written one after the other.
pub open spec fn ram_after_loading(m: MemController, ram: Seq<u8>, segs: Seq<Segment>) -> Seq<u8>
    decreases segs.len(),
{
    if segs.len() == 0 {
        ram
    } else {
        ram_after_write(m, ram_after_loading(m, ram, segs.drop_last()), segs.last().addr, segs.last().bytes@)
    }
}

fn fb_bytes(size: (usize, usize, usize)) -> (r: usize)
    requires
        size.0 <= 0x1_0000,
        size.1 <= 0x1_0000,
        fb_len(size) <= 0x800_0000,
    ensures
        r == fb_len(size),
{
    let (w, h, d) = size;
    if w == 0 || h == 0 || d == 0 {
        assert(fb_len(size) == 0) by (nonlinear_arith)
            requires
                w == 0 || h == 0 || d == 0,
                fb_len(size) == w * h * d,
        ;
        return 0;
    }
    assert(w * h <= w * h * d) by (nonlinear_arith)
        requires
            d >= 1,
            w >= 1,
            h >= 1,
    ;
    w * h * d
}

/// Loading depends on the region map alone, not on anything else of the
/// controller.
proof fn lemma_loading_same_map(m1: MemController, m2: MemController, ram: Seq<u8>, segs: Seq<Segment>)
    requires
        m1.regions@ == m2.regions@,
    ensures
        ram_after_loading(m1, ram, segs) == ram_after_loading(m2, ram, segs),
    decreases segs.len(),
{
    if segs.len() > 0 {
        lemma_loading_same_map(m1, m2, ram, segs.drop_last());
    }
}

impl HwCore {
    /// Maps the ARM9 memory, copies the loader's segments into it (those
    /// that one RAM region can hold), and resets the ARM9 to the entry point.
    pub fn new(loader: &Loader) -> (r: HwCore)
        ensures
            r.hardware9.arm9.memory.wf(),
            r.hardware9.arm9.memory.regions@ == Seq::new(ITCM_COPIES as nat, |k: int| itcm_region(k))
                + fixed_regions(),
            r.hardware9.arm9@.regs[15] == crate::cpu::wadd(loader.entrypoint, 8),
            r.hardware9.arm9@.cpsr == 0xD3,
            r.hardware9.arm9.decode_cache.wf(),
            r.hardware9.arm9.memory.ram@ == ram_after_loading(
                r.hardware9.arm9.memory,
                Seq::new(RAM_TOTAL as nat, |k: int| 0u8),
                loader.segments@,
            ),
    {
        let mut mem = map_memory_regions(IoRegsArm9::new(), IoRegsShared::new());
        let ghost zero = Seq::new(RAM_TOTAL as nat, |j: int| 0u8);
        let mut k: usize = 0;
        while k < loader.segments.len()
            invariant
                mem.wf(),
                mem.regions@ == Seq::new(ITCM_COPIES as nat, |j: int| itcm_region(j)) + fixed_regions(),
                k <= loader.segments@.len(),
                mem.ram@ == ram_after_loading(mem, zero, loader.segments@.take(k as int)),
            decreases loader.segments@.len() - k,
        {
            let seg = &loader.segments[k];
            let ghost before = mem;
            let _ = mem.write_buf(seg.addr, seg.bytes.as_slice());
            k = k + 1;
            proof {
                let t = loader.segments@.take(k as int);
                assert(t.drop_last() =~= loader.segments@.take(k - 1));
                assert(t.last() == *seg);
                lemma_loading_same_map(before, mem, zero, t.drop_last());
                lemma_loading_same_map(before, mem, zero, t);
            }
        }
        assert(loader.segments@.take(k as int) =~= loader.segments@);
        let mut cpu = Cpu::new(mem);
        interpreter::reset(&mut cpu, loader.entrypoint);
        proof {
            crate::psr::lemma_psr_d3();
        }
        HwCore { hardware9: Hardware9 { arm9: cpu } }
    }

    pub fn hardware(&self) -> (r: &Hardware9)
        ensures
            r == &self.hardware9,
    {
        &self.hardware9
    }

    pub fn hardware_mut(&mut self) -> (r: &mut Hardware9)
        ensures
            *r == old(self).hardware9,
            final(self).hardware9 == *final(r),
    {
        &mut self.hardware9
    }

    /// Copies both screens out of FCRAM into `fbs`, each buffer sized to
    /// width * height * bytes per pixel.
    pub fn copy_framebuffers(&self, fbs: &mut Framebuffers)
        requires
            self.hardware9.arm9.memory.wf(),
            old(fbs).top_screen_size.0 <= 0x1_0000,
            old(fbs).top_screen_size.1 <= 0x1_0000,
            fb_len(old(fbs).top_screen_size) <= 0x800_0000,
            old(fbs).bot_screen_size.0 <= 0x1_0000,
            old(fbs).bot_screen_size.1 <= 0x1_0000,
            fb_len(old(fbs).bot_screen_size) <= 0x800_0000,
        ensures
            final(fbs).top_screen_size == old(fbs).top_screen_size,
            final(fbs).bot_screen_size == old(fbs).bot_screen_size,
            final(fbs).top_screen@ == self.hardware9.arm9.memory.load(
                TOP_SCREEN_ADDR as int,
                fb_len(old(fbs).top_screen_size) as nat,
            ),
            final(fbs).bot_screen@ == self.hardware9.arm9.memory.load(
                BOT_SCREEN_ADDR as int,
                fb_len(old(fbs).bot_screen_size) as nat,
            ),
    {
        let mem = &self.hardware9.arm9.memory;
        let top = fb_bytes(fbs.top_screen_size);
        let bot = fb_bytes(fbs.bot_screen_size);
        fbs.top_screen = mem.read_buf(TOP_SCREEN_ADDR, top);
        fbs.bot_screen = mem.read_buf(BOT_SCREEN_ADDR, bot);
    }
}

/// The debugger's handle on a halted core: registers, memory and
/// breakpoints, and stepping.
pub struct DbgCore {
    pub hwcore: HwCore,
}

impl DbgCore {
    pub fn bind(hwcore: HwCore) -> (r: DbgCore)
        ensures
            r.hwcore == hwcore,
    {
        DbgCore { hwcore }
    }

    pub fn read_reg(&self, i: usize) -> (r: u32)
        requires
            i < 16,
        ensures
            r == self.hwcore.hardware9.arm9@.regs[i as int],
    {
        self.hwcore.hardware9.arm9.regs[i]
    }

    pub fn write_reg(&mut self, i: usize, v: u32)
        requires
            i < 16,
        ensures
            final(self).hwcore.hardware9.arm9@ == old(self).hwcore.hardware9.arm9@.set_reg(i as int, v),
            final(self).hwcore.hardware9.arm9.memory == old(self).hwcore.hardware9.arm9.memory,
    {
        self.hwcore.hardware9.arm9.regs[i] = v;
    }

    pub fn read_mem(&self, addr: u32, len: usize) -> (r: Vec<u8>)
        requires
            self.hwcore.hardware9.arm9.memory.wf(),
            addr + len <= 0x1_0000_0000,
        ensures
            r@ == self.hwcore.hardware9.arm9.memory.load(addr as int, len as nat),
    {
        self.hwcore.hardware9.arm9.memory.read_buf(addr, len)
    }

    /// Writes `bytes` at `addr` when one RAM region holds them all.
    pub fn write_mem(&mut self, addr: u32, bytes: &[u8]) -> (ok: bool)
        requires
            old(self).hwcore.hardware9.arm9.memory.wf(),
        ensures
            final(self).hwcore.hardware9.arm9.memory.wf(),
            final(self).hwcore.hardware9.arm9@ == old(self).hwcore.hardware9.arm9@,
            final(self).hwcore.hardware9.arm9.memory.regions@ == old(self).hwcore.hardware9.arm9.memory.regions@,
            final(self).hwcore.hardware9.arm9.memory.devices@ == old(self).hwcore.hardware9.arm9.memory.devices@,
            final(self).hwcore.hardware9.arm9.memory.ram@ == ram_after_write(
                old(self).hwcore.hardware9.arm9.memory,
                old(self).hwcore.hardware9.arm9.memory.ram@,
                addr,
                bytes@,
            ),
            ok == write_fits(old(self).hwcore.hardware9.arm9.memory, addr, bytes@.len()),
    {
        self.hwcore.hardware9.arm9.memory.write_buf(addr, bytes)
    }

    /// Sets a breakpoint at `addr` (once); the other breakpoints and the
    /// CPU are kept.
    pub fn set_breakpoint(&mut self, addr: u32)
        ensures
            final(self).hwcore.hardware9.arm9.breakpoints@ == if old(
                self,
            ).hwcore.hardware9.arm9.breakpoints@.contains(addr) {
                old(self).hwcore.hardware9.arm9.breakpoints@
            } else {
                old(self).hwcore.hardware9.arm9.breakpoints@.push(addr)
            },
            final(self).hwcore.hardware9.arm9@ == old(self).hwcore.hardware9.arm9@,
            final(self).hwcore.hardware9.arm9.memory == old(self).hwcore.hardware9.arm9.memory,
            final(self).hwcore.hardware9.arm9.irq_pending == old(self).hwcore.hardware9.arm9.irq_pending,
            final(self).hwcore.hardware9.arm9.decode_cache == old(self).hwcore.hardware9.arm9.decode_cache,
    {
        self.hwcore.hardware9.arm9.set_breakpoint(addr);
    }

    /// Removes the breakpoints at `addr`; the CPU is kept.
    pub fn clear_breakpoint(&mut self, addr: u32)
        ensures
            final(self).hwcore.hardware9.arm9.breakpoints@ == old(
                self,
            ).hwcore.hardware9.arm9.breakpoints@.filter(|b: u32| b != addr),
            final(self).hwcore.hardware9.arm9@ == old(self).hwcore.hardware9.arm9@,
            final(self).hwcore.hardware9.arm9.memory == old(self).hwcore.hardware9.arm9.memory,
            final(self).hwcore.hardware9.arm9.irq_pending == old(self).hwcore.hardware9.arm9.irq_pending,
            final(self).hwcore.hardware9.arm9.decode_cache == old(self).hwcore.hardware9.arm9.decode_cache,
    {
        self.hwcore.hardware9.arm9.clear_breakpoint(addr);
    }

    /// Runs up to `n` instructions on the ARM9.
    pub fn step(&mut self, n: u32) -> (r: BreakReason)
        requires
            old(self).hwcore.hardware9.arm9.memory.wf(),
            old(self).hwcore.hardware9.arm9.decode_cache.wf(),
        ensures
            final(self).hwcore.hardware9.arm9.memory.wf(),
            final(self).hwcore.hardware9.arm9.decode_cache.wf(),
            exists|tr: Seq<Snapshot>|
                #[trigger] trace_ok(tr, old(self).hwcore.hardware9.arm9.breakpoints@) && tr.len() >= 1
                    && tr[0] == ({
                    let c = &old(self).hwcore.hardware9.arm9;
                    (c@, c.memory, c.irq_pending)
                }) && run_end_ok(
                    tr,
                    n,
                    r,
                    ({
                        let c = &final(self).hwcore.hardware9.arm9;
                        (c@, c.memory, c.irq_pending)
                    }),
                    old(self).hwcore.hardware9.arm9.breakpoints@,
                ),
    {
        interpreter::run(&mut self.hwcore.hardware9.arm9, n)
    }
}

/// Builds the machine from `loader` and hands it to the debugger.
pub fn load_game(loader: &Loader) -> (r: DbgCore)
    ensures
        r.hwcore.hardware9.arm9.memory.wf(),
        r.hwcore.hardware9.arm9@.regs[15] == crate::cpu::wadd(loader.entrypoint, 8),
        r.hwcore.hardware9.arm9@.cpsr == 0xD3,
        r.hwcore.hardware9.arm9.decode_cache.wf(),
{
    DbgCore::bind(HwCore::new(loader))
}

} // verus!
