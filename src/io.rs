//! The I/O windows that the memory controller maps: each dispatches an
//! access by bits 12 and up of its offset to the device page there.
//! Offsets that no device claims read as zero and ignore writes.
use vstd::prelude::*;
use crate::regpage::{RegPage, splice, PAGE_SIZE};
use crate::rsa::{RsaDevice, rsa_peek, rsa_write_rel};

verus! {

pub const RSA_PAGE: usize = 0x0B;

/// What a DMA engine may ask of a device it moves bytes for: whether data
/// can be read or written, and a read of device bytes. Devices that feed a
/// DMA engine implement it.
pub trait DmaBus {
    fn read_ready(&self) -> bool;

    fn write_ready(&self) -> bool;

    fn read_addr(&self, addr: u32, buf: &mut Vec<u8>);
}

/// The devices that the DMA engines are given at construction.
pub struct DmaBuses<S: DmaBus> {
    pub sha: S,
}

/// The ARM9-private I/O window.
pub struct IoRegsArm9 {
    pub cfg: RegPage,
    pub irq: RegPage,
    pub ndma: RegPage,
    pub timer: RegPage,
    pub emmc: RegPage,
    pub pxi9: RegPage,
    pub aes: RegPage,
    pub sha: RegPage,
    pub xdma: RegPage,
    pub cfgext: RegPage,
    pub otp: RegPage,
    pub rsa: RsaDevice,
}

impl IoRegsArm9 {
    pub open spec fn window_size() -> int {
        (0x400 * 0x400) as int
    }

    pub open spec fn wf(&self) -> bool {
        self.cfg.wf()
        && self.irq.wf()
        && self.ndma.wf()
        && self.timer.wf()
        && self.emmc.wf()
        && self.pxi9.wf()
        && self.aes.wf()
        && self.sha.wf()
        && self.xdma.wf()
        && self.cfgext.wf()
        && self.otp.wf()
    }

    /// The contents of the plain device pages, in a fixed order.
    pub open spec fn pages(&self) -> Seq<Seq<u8>> {
        seq![self.cfg.bytes@, self.irq.bytes@, self.ndma.bytes@, self.timer.bytes@, self.emmc.bytes@, self.pxi9.bytes@, self.aes.bytes@, self.sha.bytes@, self.xdma.bytes@, self.cfgext.bytes@, self.otp.bytes@]
    }

    /// Whether every plain device page holds zeros.
    pub open spec fn all_zero(&self) -> bool {
        forall|i: int| 0 <= i < self.pages().len() ==> #[trigger] self.pages()[i] == Seq::new(PAGE_SIZE as nat, |k: int| 0u8)
    }

    /// Which of `pages()` sits at page number `p`, if any.
    pub open spec fn slot_of(p: int) -> Option<int> {
        if p == 0x0 {
            Some(0)
        } else if p == 0x1 {
            Some(1)
        } else if p == 0x2 {
            Some(2)
        } else if p == 0x3 {
            Some(3)
        } else if p == 0x6 {
            Some(4)
        } else if p == 0x8 {
            Some(5)
        } else if p == 0x9 {
            Some(6)
        } else if p == 0xa {
            Some(7)
        } else if p == 0xc {
            Some(8)
        } else if p == 0x10 {
            Some(9)
        } else if p == 0x12 {
            Some(10)
        } else {
            None
        }
    }

    /// The byte at `off` of the window.
    pub open spec fn peek(&self, off: int) -> u8 {
        if off / PAGE_SIZE as int == RSA_PAGE as int {
            rsa_peek(self.rsa@, off % PAGE_SIZE as int)
        } else {
            match Self::slot_of(off / PAGE_SIZE as int) {
                Some(i) => if 0 <= off < Self::window_size() { self.pages()[i][off % PAGE_SIZE as int] } else { 0 },
                None => 0,
            }
        }
    }

    /// What a write of `src` at `off` may leave behind.
    pub open spec fn write_rel(&self, new: IoRegsArm9, off: int, src: Seq<u8>) -> bool {
        new.wf() && (
        if 0 <= off < Self::window_size() && off / PAGE_SIZE as int == RSA_PAGE as int {
            new.pages() == self.pages() && rsa_write_rel(self.rsa@, new.rsa@, off % PAGE_SIZE as int, src)
        } else {
            new.rsa@ == self.rsa@ && 
            match Self::slot_of(off / PAGE_SIZE as int) {
                Some(i) => if 0 <= off < Self::window_size() {
                    new.pages() == self.pages().update(i, splice(self.pages()[i], off % PAGE_SIZE as int, src))
                } else {
                    new.pages() == self.pages()
                },
                None => new.pages() == self.pages(),
            }
        })
    }

    /// Every device page zeroed and the RSA engine idle.
    pub fn new() -> (r: IoRegsArm9)
        ensures
            r.wf(),
            r.all_zero(),
            r.rsa@ == crate::rsa::rsa_idle(),
    {
        IoRegsArm9 {
            cfg: RegPage::new(),
            irq: RegPage::new(),
            ndma: RegPage::new(),
            timer: RegPage::new(),
            emmc: RegPage::new(),
            pxi9: RegPage::new(),
            aes: RegPage::new(),
            sha: RegPage::new(),
            xdma: RegPage::new(),
            cfgext: RegPage::new(),
            otp: RegPage::new(),
            rsa: RsaDevice::new(),
        }
    }

    pub fn get_bytes(&self) -> (r: u32)
        ensures
            r == Self::window_size(),
    {
        (0x400 * 0x400) as u32
    }

    /// Reads `buf.len()` bytes of the window from `off` on, from the device
    /// page that `off` falls in.
    pub fn read_reg(&self, off: usize, buf: &mut Vec<u8>)
        requires
            self.wf(),
            (off % PAGE_SIZE) as int + old(buf)@.len() <= PAGE_SIZE,
        ensures
            final(buf)@.len() == old(buf)@.len(),
            forall|k: int| 0 <= k < old(buf)@.len() ==> #[trigger] final(buf)@[k] == self.peek(off + k),
    {
        let p = off / PAGE_SIZE;
        let inner = off % PAGE_SIZE;
        if off >= self.get_bytes() as usize {
            zero_fill(buf);
            return;
        }
        if p == RSA_PAGE {
            self.rsa.read_reg(inner, buf);
            return;
        }
        match p {
            0x0 => self.cfg.read_reg(inner, buf),
            0x1 => self.irq.read_reg(inner, buf),
            0x2 => self.ndma.read_reg(inner, buf),
            0x3 => self.timer.read_reg(inner, buf),
            0x6 => self.emmc.read_reg(inner, buf),
            0x8 => self.pxi9.read_reg(inner, buf),
            0x9 => self.aes.read_reg(inner, buf),
            0xa => self.sha.read_reg(inner, buf),
            0xc => self.xdma.read_reg(inner, buf),
            0x10 => self.cfgext.read_reg(inner, buf),
            0x12 => self.otp.read_reg(inner, buf),
            _ => zero_fill(buf),
        }
    }

    /// Writes `src` at `off` into the device page that `off` falls in.
    pub fn write_reg(&mut self, off: usize, src: &[u8])
        requires
            old(self).wf(),
        ensures
            old(self).write_rel(*final(self), off as int, src@),
    {
        let p = off / PAGE_SIZE;
        let inner = off % PAGE_SIZE;
        let ghost pages0 = self.pages();
        if off >= self.get_bytes() as usize {
            return;
        }
        let v = vstd::slice::slice_to_vec(src);
        if p == RSA_PAGE {
            self.rsa.write_reg(inner, src);
            assert(self.pages() =~= pages0);
            return;
        }
        match p {
            0x0 => {
                self.cfg.write_reg(inner, &v);
                assert(self.pages() =~= pages0.update(0, splice(pages0[0], inner as int, src@)));
            },
            0x1 => {
                self.irq.write_reg(inner, &v);
                assert(self.pages() =~= pages0.update(1, splice(pages0[1], inner as int, src@)));
            },
            0x2 => {
                self.ndma.write_reg(inner, &v);
                assert(self.pages() =~= pages0.update(2, splice(pages0[2], inner as int, src@)));
            },
            0x3 => {
                self.timer.write_reg(inner, &v);
                assert(self.pages() =~= pages0.update(3, splice(pages0[3], inner as int, src@)));
            },
            0x6 => {
                self.emmc.write_reg(inner, &v);
                assert(self.pages() =~= pages0.update(4, splice(pages0[4], inner as int, src@)));
            },
            0x8 => {
                self.pxi9.write_reg(inner, &v);
                assert(self.pages() =~= pages0.update(5, splice(pages0[5], inner as int, src@)));
            },
            0x9 => {
                self.aes.write_reg(inner, &v);
                assert(self.pages() =~= pages0.update(6, splice(pages0[6], inner as int, src@)));
            },
            0xa => {
                self.sha.write_reg(inner, &v);
                assert(self.pages() =~= pages0.update(7, splice(pages0[7], inner as int, src@)));
            },
            0xc => {
                self.xdma.write_reg(inner, &v);
                assert(self.pages() =~= pages0.update(8, splice(pages0[8], inner as int, src@)));
            },
            0x10 => {
                self.cfgext.write_reg(inner, &v);
                assert(self.pages() =~= pages0.update(9, splice(pages0[9], inner as int, src@)));
            },
            0x12 => {
                self.otp.write_reg(inner, &v);
                assert(self.pages() =~= pages0.update(10, splice(pages0[10], inner as int, src@)));
            },
            _ => {
                assert(self.pages() =~= pages0);
            },
        }
    }
}

/// The I/O window that both processors see.
pub struct IoRegsShared {
    pub i2c: RegPage,
    pub hid: RegPage,
    pub pxi11: RegPage,
}

impl IoRegsShared {
    pub open spec fn window_size() -> int {
        (0x400 * 0x400) as int
    }

    pub open spec fn wf(&self) -> bool {
        self.i2c.wf()
        && self.hid.wf()
        && self.pxi11.wf()
    }

    /// The contents of the plain device pages, in a fixed order.
    pub open spec fn pages(&self) -> Seq<Seq<u8>> {
        seq![self.i2c.bytes@, self.hid.bytes@, self.pxi11.bytes@]
    }

    /// Whether every plain device page holds zeros.
    pub open spec fn all_zero(&self) -> bool {
        forall|i: int| 0 <= i < self.pages().len() ==> #[trigger] self.pages()[i] == Seq::new(PAGE_SIZE as nat, |k: int| 0u8)
    }

    /// Which of `pages()` sits at page number `p`, if any.
    pub open spec fn slot_of(p: int) -> Option<int> {
        if p == 0x44 {
            Some(0)
        } else if p == 0x46 {
            Some(1)
        } else if p == 0x63 {
            Some(2)
        } else {
            None
        }
    }

    /// The byte at `off` of the window.
    pub open spec fn peek(&self, off: int) -> u8 {
        match Self::slot_of(off / PAGE_SIZE as int) {
            Some(i) => if 0 <= off < Self::window_size() { self.pages()[i][off % PAGE_SIZE as int] } else { 0 },
            None => 0,
        }
    }

    /// What a write of `src` at `off` may leave behind.
    pub open spec fn write_rel(&self, new: IoRegsShared, off: int, src: Seq<u8>) -> bool {
        new.wf() && (
        {
            match Self::slot_of(off / PAGE_SIZE as int) {
                Some(i) => if 0 <= off < Self::window_size() {
                    new.pages() == self.pages().update(i, splice(self.pages()[i], off % PAGE_SIZE as int, src))
                } else {
                    new.pages() == self.pages()
                },
                None => new.pages() == self.pages(),
            }
        })
    }

    /// Every device page zeroed.
    pub fn new() -> (r: IoRegsShared)
        ensures
            r.wf(),
            r.all_zero(),
    {
        IoRegsShared { i2c: RegPage::new(), hid: RegPage::new(), pxi11: RegPage::new() }
    }

    pub fn get_bytes(&self) -> (r: u32)
        ensures
            r == Self::window_size(),
    {
        (0x400 * 0x400) as u32
    }

    /// Reads `buf.len()` bytes of the window from `off` on, from the device
    /// page that `off` falls in.
    pub fn read_reg(&self, off: usize, buf: &mut Vec<u8>)
        requires
            self.wf(),
            (off % PAGE_SIZE) as int + old(buf)@.len() <= PAGE_SIZE,
        ensures
            final(buf)@.len() == old(buf)@.len(),
            forall|k: int| 0 <= k < old(buf)@.len() ==> #[trigger] final(buf)@[k] == self.peek(off + k),
    {
        let p = off / PAGE_SIZE;
        let inner = off % PAGE_SIZE;
        if off >= self.get_bytes() as usize {
            zero_fill(buf);
            return;
        }
        match p {
            0x44 => self.i2c.read_reg(inner, buf),
            0x46 => self.hid.read_reg(inner, buf),
            0x63 => self.pxi11.read_reg(inner, buf),
            _ => zero_fill(buf),
        }
    }

    /// Writes `src` at `off` into the device page that `off` falls in.
    pub fn write_reg(&mut self, off: usize, src: &[u8])
        requires
            old(self).wf(),
        ensures
            old(self).write_rel(*final(self), off as int, src@),
    {
        let p = off / PAGE_SIZE;
        let inner = off % PAGE_SIZE;
        let ghost pages0 = self.pages();
        if off >= self.get_bytes() as usize {
            return;
        }
        let v = vstd::slice::slice_to_vec(src);
        match p {
            0x44 => {
                self.i2c.write_reg(inner, &v);
                assert(self.pages() =~= pages0.update(0, splice(pages0[0], inner as int, src@)));
            },
            0x46 => {
                self.hid.write_reg(inner, &v);
                assert(self.pages() =~= pages0.update(1, splice(pages0[1], inner as int, src@)));
            },
            0x63 => {
                self.pxi11.write_reg(inner, &v);
                assert(self.pages() =~= pages0.update(2, splice(pages0[2], inner as int, src@)));
            },
            _ => {
                assert(self.pages() =~= pages0);
            },
        }
    }
}

/// The ARM11 I/O window (LCD and GPU).
pub struct IoRegsArm11 {
    pub lcd: RegPage,
    pub gpu: RegPage,
}

impl IoRegsArm11 {
    pub open spec fn window_size() -> int {
        (0xC00 * 0x400) as int
    }

    pub open spec fn wf(&self) -> bool {
        self.lcd.wf()
        && self.gpu.wf()
    }

    /// The contents of the plain device pages, in a fixed order.
    pub open spec fn pages(&self) -> Seq<Seq<u8>> {
        seq![self.lcd.bytes@, self.gpu.bytes@]
    }

    /// Whether every plain device page holds zeros.
    pub open spec fn all_zero(&self) -> bool {
        forall|i: int| 0 <= i < self.pages().len() ==> #[trigger] self.pages()[i] == Seq::new(PAGE_SIZE as nat, |k: int| 0u8)
    }

    /// Which of `pages()` sits at page number `p`, if any.
    pub open spec fn slot_of(p: int) -> Option<int> {
        if p == 0x2 {
            Some(0)
        } else if p == 0x200 {
            Some(1)
        } else {
            None
        }
    }

    /// The byte at `off` of the window.
    pub open spec fn peek(&self, off: int) -> u8 {
        match Self::slot_of(off / PAGE_SIZE as int) {
            Some(i) => if 0 <= off < Self::window_size() { self.pages()[i][off % PAGE_SIZE as int] } else { 0 },
            None => 0,
        }
    }

    /// What a write of `src` at `off` may leave behind.
    pub open spec fn write_rel(&self, new: IoRegsArm11, off: int, src: Seq<u8>) -> bool {
        new.wf() && (
        {
            match Self::slot_of(off / PAGE_SIZE as int) {
                Some(i) => if 0 <= off < Self::window_size() {
                    new.pages() == self.pages().update(i, splice(self.pages()[i], off % PAGE_SIZE as int, src))
                } else {
                    new.pages() == self.pages()
                },
                None => new.pages() == self.pages(),
            }
        })
    }

    /// Every device page zeroed.
    pub fn new() -> (r: IoRegsArm11)
        ensures
            r.wf(),
            r.all_zero(),
    {
        IoRegsArm11 { lcd: RegPage::new(), gpu: RegPage::new() }
    }

    pub fn get_bytes(&self) -> (r: u32)
        ensures
            r == Self::window_size(),
    {
        (0xC00 * 0x400) as u32
    }

    /// Reads `buf.len()` bytes of the window from `off` on, from the device
    /// page that `off` falls in.
    pub fn read_reg(&self, off: usize, buf: &mut Vec<u8>)
        requires
            self.wf(),
            (off % PAGE_SIZE) as int + old(buf)@.len() <= PAGE_SIZE,
        ensures
            final(buf)@.len() == old(buf)@.len(),
            forall|k: int| 0 <= k < old(buf)@.len() ==> #[trigger] final(buf)@[k] == self.peek(off + k),
    {
        let p = off / PAGE_SIZE;
        let inner = off % PAGE_SIZE;
        if off >= self.get_bytes() as usize {
            zero_fill(buf);
            return;
        }
        match p {
            0x2 => self.lcd.read_reg(inner, buf),
            0x200 => self.gpu.read_reg(inner, buf),
            _ => zero_fill(buf),
        }
    }

    /// Writes `src` at `off` into the device page that `off` falls in.
    pub fn write_reg(&mut self, off: usize, src: &[u8])
        requires
            old(self).wf(),
        ensures
            old(self).write_rel(*final(self), off as int, src@),
    {
        let p = off / PAGE_SIZE;
        let inner = off % PAGE_SIZE;
        let ghost pages0 = self.pages();
        if off >= self.get_bytes() as usize {
            return;
        }
        let v = vstd::slice::slice_to_vec(src);
        match p {
            0x2 => {
                self.lcd.write_reg(inner, &v);
                assert(self.pages() =~= pages0.update(0, splice(pages0[0], inner as int, src@)));
            },
            0x200 => {
                self.gpu.write_reg(inner, &v);
                assert(self.pages() =~= pages0.update(1, splice(pages0[1], inner as int, src@)));
            },
            _ => {
                assert(self.pages() =~= pages0);
            },
        }
    }
}

/// The ARM11 private-memory-region window.
pub struct IoRegsArm11Priv {
    pub priv11: RegPage,
    pub gid: RegPage,
}

impl IoRegsArm11Priv {
    pub open spec fn window_size() -> int {
        (8 * 0x400) as int
    }

    pub open spec fn wf(&self) -> bool {
        self.priv11.wf()
        && self.gid.wf()
    }

    /// The contents of the plain device pages, in a fixed order.
    pub open spec fn pages(&self) -> Seq<Seq<u8>> {
        seq![self.priv11.bytes@, self.gid.bytes@]
    }

    /// Whether every plain device page holds zeros.
    pub open spec fn all_zero(&self) -> bool {
        forall|i: int| 0 <= i < self.pages().len() ==> #[trigger] self.pages()[i] == Seq::new(PAGE_SIZE as nat, |k: int| 0u8)
    }

    /// Which of `pages()` sits at page number `p`, if any.
    pub open spec fn slot_of(p: int) -> Option<int> {
        if p == 0x0 {
            Some(0)
        } else if p == 0x1 {
            Some(1)
        } else {
            None
        }
    }

    /// The byte at `off` of the window.
    pub open spec fn peek(&self, off: int) -> u8 {
        match Self::slot_of(off / PAGE_SIZE as int) {
            Some(i) => if 0 <= off < Self::window_size() { self.pages()[i][off % PAGE_SIZE as int] } else { 0 },
            None => 0,
        }
    }

    /// What a write of `src` at `off` may leave behind.
    pub open spec fn write_rel(&self, new: IoRegsArm11Priv, off: int, src: Seq<u8>) -> bool {
        new.wf() && (
        {
            match Self::slot_of(off / PAGE_SIZE as int) {
                Some(i) => if 0 <= off < Self::window_size() {
                    new.pages() == self.pages().update(i, splice(self.pages()[i], off % PAGE_SIZE as int, src))
                } else {
                    new.pages() == self.pages()
                },
                None => new.pages() == self.pages(),
            }
        })
    }

    /// Every device page zeroed.
    pub fn new() -> (r: IoRegsArm11Priv)
        ensures
            r.wf(),
            r.all_zero(),
    {
        IoRegsArm11Priv { priv11: RegPage::new(), gid: RegPage::new() }
    }

    pub fn get_bytes(&self) -> (r: u32)
        ensures
            r == Self::window_size(),
    {
        (8 * 0x400) as u32
    }

    /// Reads `buf.len()` bytes of the window from `off` on, from the device
    /// page that `off` falls in.
    pub fn read_reg(&self, off: usize, buf: &mut Vec<u8>)
        requires
            self.wf(),
            (off % PAGE_SIZE) as int + old(buf)@.len() <= PAGE_SIZE,
        ensures
            final(buf)@.len() == old(buf)@.len(),
            forall|k: int| 0 <= k < old(buf)@.len() ==> #[trigger] final(buf)@[k] == self.peek(off + k),
    {
        let p = off / PAGE_SIZE;
        let inner = off % PAGE_SIZE;
        if off >= self.get_bytes() as usize {
            zero_fill(buf);
            return;
        }
        match p {
            0x0 => self.priv11.read_reg(inner, buf),
            0x1 => self.gid.read_reg(inner, buf),
            _ => zero_fill(buf),
        }
    }

    /// Writes `src` at `off` into the device page that `off` falls in.
    pub fn write_reg(&mut self, off: usize, src: &[u8])
        requires
            old(self).wf(),
        ensures
            old(self).write_rel(*final(self), off as int, src@),
    {
        let p = off / PAGE_SIZE;
        let inner = off % PAGE_SIZE;
        let ghost pages0 = self.pages();
        if off >= self.get_bytes() as usize {
            return;
        }
        let v = vstd::slice::slice_to_vec(src);
        match p {
            0x0 => {
                self.priv11.write_reg(inner, &v);
                assert(self.pages() =~= pages0.update(0, splice(pages0[0], inner as int, src@)));
            },
            0x1 => {
                self.gid.write_reg(inner, &v);
                assert(self.pages() =~= pages0.update(1, splice(pages0[1], inner as int, src@)));
            },
            _ => {
                assert(self.pages() =~= pages0);
            },
        }
    }
}

fn zero_fill(buf: &mut Vec<u8>)
    ensures
        final(buf)@.len() == old(buf)@.len(),
        forall|k: int| 0 <= k < old(buf)@.len() ==> #[trigger] final(buf)@[k] == 0,
{
    let n = buf.len();
    let mut i: usize = 0;
    while i < n
        invariant
            n == buf@.len(),
            n == old(buf)@.len(),
            i <= n,
            forall|k: int| 0 <= k < i ==> #[trigger] buf@[k] == 0,
        decreases n - i,
    {
        buf.set(i, 0);
        i = i + 1;
    }
}

/// A device window that a memory region can be backed by.
pub enum IoRegion {
    Arm9(IoRegsArm9),
    Shared(IoRegsShared),
    Arm11(IoRegsArm11),
    Arm11Priv(IoRegsArm11Priv),
}

impl IoRegion {
    pub open spec fn wf(&self) -> bool {
        match self {
            IoRegion::Arm9(d) => d.wf(),
            IoRegion::Shared(d) => d.wf(),
            IoRegion::Arm11(d) => d.wf(),
            IoRegion::Arm11Priv(d) => d.wf(),
        }
    }

    pub open spec fn size(&self) -> int {
        match self {
            IoRegion::Arm9(d) => IoRegsArm9::window_size(),
            IoRegion::Shared(d) => IoRegsShared::window_size(),
            IoRegion::Arm11(d) => IoRegsArm11::window_size(),
            IoRegion::Arm11Priv(d) => IoRegsArm11Priv::window_size(),
        }
    }

    /// The byte at `off` of the window.
    pub open spec fn peek(&self, off: int) -> u8 {
        match self {
            IoRegion::Arm9(d) => d.peek(off),
            IoRegion::Shared(d) => d.peek(off),
            IoRegion::Arm11(d) => d.peek(off),
            IoRegion::Arm11Priv(d) => d.peek(off),
        }
    }

    /// What a write of `src` at `off` may leave behind.
    pub open spec fn write_rel(&self, new: IoRegion, off: int, src: Seq<u8>) -> bool {
        match (self, new) {
            (IoRegion::Arm9(a), IoRegion::Arm9(b)) => a.write_rel(b, off, src),
            (IoRegion::Shared(a), IoRegion::Shared(b)) => a.write_rel(b, off, src),
            (IoRegion::Arm11(a), IoRegion::Arm11(b)) => a.write_rel(b, off, src),
            (IoRegion::Arm11Priv(a), IoRegion::Arm11Priv(b)) => a.write_rel(b, off, src),
            _ => false,
        }
    }

    pub fn get_bytes(&self) -> (r: u32)
        ensures
            r == self.size(),
    {
        match self {
            IoRegion::Arm9(d) => d.get_bytes(),
            IoRegion::Shared(d) => d.get_bytes(),
            IoRegion::Arm11(d) => d.get_bytes(),
            IoRegion::Arm11Priv(d) => d.get_bytes(),
        }
    }

    /// Reads `buf.len()` bytes of the window from `off` on.
    pub fn read_reg(&self, off: usize, buf: &mut Vec<u8>)
        requires
            self.wf(),
            (off % PAGE_SIZE) as int + old(buf)@.len() <= PAGE_SIZE,
        ensures
            final(buf)@.len() == old(buf)@.len(),
            forall|k: int| 0 <= k < old(buf)@.len() ==> #[trigger] final(buf)@[k] == self.peek(off + k),
    {
        match self {
            IoRegion::Arm9(d) => d.read_reg(off, buf),
            IoRegion::Shared(d) => d.read_reg(off, buf),
            IoRegion::Arm11(d) => d.read_reg(off, buf),
            IoRegion::Arm11Priv(d) => d.read_reg(off, buf),
        }
    }

    /// Writes `src` into the window at `off`.
    pub fn write_reg(&mut self, off: usize, src: &[u8])
        requires
            old(self).wf(),
        ensures
            old(self).write_rel(*final(self), off as int, src@),
    {
        match self {
            IoRegion::Arm9(d) => d.write_reg(off, src),
            IoRegion::Shared(d) => d.write_reg(off, src),
            IoRegion::Arm11(d) => d.write_reg(off, src),
            IoRegion::Arm11Priv(d) => d.write_reg(off, src),
        }
    }
}

/// The four I/O windows, every device page zeroed and the RSA engine idle.
pub fn new_devices() -> (r: (IoRegsArm9, IoRegsShared, IoRegsArm11, IoRegsArm11Priv))
    ensures
        r.0.wf(),
        r.1.wf(),
        r.2.wf(),
        r.3.wf(),
        r.0.all_zero(),
        r.1.all_zero(),
        r.2.all_zero(),
        r.3.all_zero(),
        r.0.rsa@ == crate::rsa::rsa_idle(),
{
    (IoRegsArm9::new(), IoRegsShared::new(), IoRegsArm11::new(), IoRegsArm11Priv::new())
}

} // verus!
