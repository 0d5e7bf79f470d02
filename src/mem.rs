//! The memory controller: maps 32-bit guest addresses to regions backed by
//! RAM or by a device's register window, and dispatches loads and stores.
use vstd::prelude::*;
use crate::io::IoRegion;
use crate::regpage::{splice, PAGE_SIZE};
use crate::rsa::{le_bytes, le_word};

verus! {

/// What a region is backed by: RAM from an offset of the controller's
/// storage on (the same storage may back several regions), or a device
/// window by its index.
#[derive(Clone, Copy, Debug, PartialEq, Eq, Structural)]
pub enum Backing {
    Ram(usize),
    Io(usize),
}

/// A span of the address space bound to one backing.
#[derive(Clone, Copy, Debug, PartialEq, Eq, Structural)]
pub struct Region {
    pub base: u32,
    pub size: u32,
    pub backing: Backing,
}

pub open spec fn contains(r: Region, a: int) -> bool {
    r.base <= a < r.base + r.size
}

/// The first region from index `i` on that holds address `a`.
pub open spec fn find_region(rs: Seq<Region>, a: int, i: int) -> Option<int>
    decreases rs.len() - i,
{
    if i < 0 || i >= rs.len() {
        None
    } else if contains(rs[i], a) {
        Some(i)
    } else {
        find_region(rs, a, i + 1)
    }
}

/// The little-endian bytes of the low half of `v`.
pub open spec fn le_bytes16(v: u16) -> Seq<u8> {
    seq![v as u8, (v >> 8) as u8]
}

pub open spec fn le_half(b: Seq<u8>) -> u16 {
    (b[0] as u16) | ((b[1] as u16) << 8u16)
}

pub struct MemController {
    pub ram: Vec<u8>,
    pub devices: Vec<IoRegion>,
    pub regions: Vec<Region>,
}

impl MemController {
    pub open spec fn region_ok(&self, r: Region) -> bool {
        &&& r.base % 4 == 0
        &&& r.size % 4 == 0
        &&& r.base + r.size <= 0x1_0000_0000
        &&& match r.backing {
            Backing::Ram(s) => s + r.size <= self.ram@.len(),
            Backing::Io(d) => d < self.devices@.len() && r.size <= self.devices@[d as int].size()
                && r.base as int % PAGE_SIZE as int == 0,
        }
    }

    pub open spec fn wf(&self) -> bool {
        &&& forall|i: int| 0 <= i < self.regions@.len() ==> self.region_ok(#[trigger] self.regions@[i])
        &&& forall|d: int| 0 <= d < self.devices@.len() ==> (#[trigger] self.devices@[d]).wf()
    }

    /// The index of the region that serves address `a`: the first mapped
    /// one that holds it.
    pub open spec fn region_of(&self, a: int) -> Option<int> {
        find_region(self.regions@, a, 0)
    }

    /// The byte that a load from `a` sees (zero where nothing is mapped).
    pub open spec fn byte_at(&self, a: int) -> u8 {
        match self.region_of(a) {
            None => 0,
            Some(i) => {
                let r = self.regions@[i];
                match r.backing {
                    Backing::Ram(s) => self.ram@[s + (a - r.base)],
                    Backing::Io(d) => self.devices@[d as int].peek(a - r.base),
                }
            },
        }
    }

    /// The `n` bytes from `a` on.
    pub open spec fn load(&self, a: int, n: nat) -> Seq<u8> {
        Seq::new(n, |k: int| self.byte_at(a + k))
    }

    pub open spec fn load32(&self, a: int) -> u32 {
        le_word(self.load(a, 4))
    }

    pub open spec fn load16(&self, a: int) -> u16 {
        le_half(self.load(a, 2))
    }

    /// What a store of `bytes` at `a` may leave behind: RAM takes the bytes,
    /// a device window runs its write, unmapped addresses change nothing.
    pub open spec fn store_rel(&self, new: MemController, a: int, bytes: Seq<u8>) -> bool {
        &&& new.regions@ == self.regions@
        &&& match self.region_of(a) {
            None => new.ram@ == self.ram@ && new.devices@ == self.devices@,
            Some(i) => {
                let r = self.regions@[i];
                match r.backing {
                    Backing::Ram(s) => new.ram@ == splice(self.ram@, s + (a - r.base), bytes)
                        && new.devices@ == self.devices@,
                    Backing::Io(d) => {
                        &&& new.ram@ == self.ram@
                        &&& new.devices@.len() == self.devices@.len()
                        &&& forall|j: int|
                            0 <= j < self.devices@.len() && j != d ==> #[trigger] new.devices@[j]
                                == self.devices@[j]
                        &&& self.devices@[d as int].write_rel(new.devices@[d as int], a - r.base, bytes)
                    },
                }
            },
        }
    }

    pub fn new() -> (r: MemController)
        ensures
            r.wf(),
            r.ram@.len() == 0,
            r.devices@.len() == 0,
            r.regions@.len() == 0,
    {
        MemController { ram: Vec::new(), devices: Vec::new(), regions: Vec::new() }
    }

    /// Adds `size` zeroed bytes of RAM storage and returns their offset, for
    /// use as `Backing::Ram`.
    pub fn make_ram(&mut self, size: usize) -> (start: usize)
        requires
            old(self).wf(),
            old(self).ram@.len() + size <= usize::MAX,
        ensures
            final(self).wf(),
            start == old(self).ram@.len(),
            final(self).ram@ == old(self).ram@ + Seq::new(size as nat, |k: int| 0u8),
            final(self).devices@ == old(self).devices@,
            final(self).regions@ == old(self).regions@,
    {
        let start = self.ram.len();
        let mut i: usize = 0;
        while i < size
            invariant
                i <= size,
                start == old(self).ram@.len(),
                start + size <= usize::MAX,
                self.ram@ == old(self).ram@ + Seq::new(i as nat, |k: int| 0u8),
                self.devices@ == old(self).devices@,
                self.regions@ == old(self).regions@,
            decreases size - i,
        {
            self.ram.push(0);
            i = i + 1;
            assert(self.ram@ =~= old(self).ram@ + Seq::new(i as nat, |k: int| 0u8));
        }
        proof {
            assert forall|j: int| 0 <= j < self.regions@.len() implies self.region_ok(
                #[trigger] self.regions@[j],
            ) by {
                assert(old(self).region_ok(old(self).regions@[j]));
            }
        }
        start
    }

    /// Adds a device window and returns its index, for use as `Backing::Io`.
    pub fn add_device(&mut self, dev: IoRegion) -> (d: usize)
        requires
            old(self).wf(),
            dev.wf(),
        ensures
            final(self).wf(),
            d == old(self).devices@.len(),
            final(self).devices@ == old(self).devices@.push(dev),
            final(self).ram@ == old(self).ram@,
            final(self).regions@ == old(self).regions@,
    {
        let d = self.devices.len();
        self.devices.push(dev);
        proof {
            assert forall|j: int| 0 <= j < self.regions@.len() implies self.region_ok(
                #[trigger] self.regions@[j],
            ) by {
                assert(old(self).region_ok(old(self).regions@[j]));
            }
            assert forall|j: int| 0 <= j < self.devices@.len() implies (
            #[trigger] self.devices@[j]).wf() by {
                if j < d {
                    assert(self.devices@[j] == old(self).devices@[j]);
                }
            }
        }
        d
    }

    /// Maps a region of `size` bytes at `base`. A region that is not
    /// word-aligned, runs past the end of the address space, or whose
    /// backing cannot hold it, is refused (`false`) and nothing changes.
    /// Regions mapped earlier take precedence where two overlap.
    pub fn map_region(&mut self, base: u32, size: u32, backing: Backing) -> (ok: bool)
        requires
            old(self).wf(),
        ensures
            final(self).wf(),
            ok == old(self).region_ok(Region { base, size, backing }),
            final(self).regions@ == if ok {
                old(self).regions@.push(Region { base, size, backing })
            } else {
                old(self).regions@
            },
            final(self).ram@ == old(self).ram@,
            final(self).devices@ == old(self).devices@,
    {
        let r = Region { base, size, backing };
        if base % 4 != 0 || size % 4 != 0 || base as u64 + size as u64 > 0x1_0000_0000u64 {
            return false;
        }
        let fits = match backing {
            Backing::Ram(s) => s <= self.ram.len() && (size as usize) <= self.ram.len() - s,
            Backing::Io(d) => d < self.devices.len() && size <= self.devices[d].get_bytes()
                && base as usize % PAGE_SIZE == 0,
        };
        if !fits {
            return false;
        }
        self.regions.push(r);
        proof {
            assert forall|j: int| 0 <= j < self.regions@.len() implies self.region_ok(
                #[trigger] self.regions@[j],
            ) by {
                if j < old(self).regions@.len() {
                    assert(self.regions@[j] == old(self).regions@[j]);
                }
            }
        }
        true
    }

    /// The index of the region that serves `addr`.
    pub fn find(&self, addr: u32) -> (r: Option<usize>)
        ensures
            match r {
                Some(i) => i < self.regions@.len() && self.region_of(addr as int) == Some(i as int),
                None => self.region_of(addr as int) is None,
            },
    {
        let n = self.regions.len();
        let mut i: usize = 0;
        while i < n
            invariant
                n == self.regions@.len(),
                i <= n,
                find_region(self.regions@, addr as int, 0) == find_region(
                    self.regions@,
                    addr as int,
                    i as int,
                ),
            decreases n - i,
        {
            let r = self.regions[i];
            if r.base <= addr && (addr - r.base) < r.size {
                return Some(i);
            }
            i = i + 1;
        }
        None
    }
}

/// Within an aligned access, every byte is served by the same region as the
/// first.
proof fn lemma_same_region(rs: Seq<Region>, a: int, k: int, n: int, i: int)
    requires
        n == 1 || n == 2 || n == 4,
        a % n == 0,
        0 <= k < n,
        0 <= i,
        forall|j: int| 0 <= j < rs.len() ==> (#[trigger] rs[j]).base % 4 == 0 && rs[j].size % 4 == 0,
    ensures
        find_region(rs, a + k, i) == find_region(rs, a, i),
    decreases rs.len() - i,
{
    if i < rs.len() {
        let r = rs[i];
        assert(r.base % 4 == 0 && r.size % 4 == 0);
        assert(contains(r, a + k) == contains(r, a));
        lemma_same_region(rs, a, k, n, i + 1);
    }
}

/// An aligned access that starts in a region ends in it.
proof fn lemma_aligned_fits(r: Region, a: int, n: int)
    requires
        n == 1 || n == 2 || n == 4,
        a % n == 0,
        r.base % 4 == 0,
        r.size % 4 == 0,
        contains(r, a),
    ensures
        a + n <= r.base + r.size,
{
    let e = r.base + r.size;
    assert(e % 4 == 0);
    if n == 4 {
        assert(a % 4 == 0);
    } else if n == 2 {
        assert(a % 2 == 0);
        assert(e % 2 == 0);
    }
}

proof fn lemma_find_region_some(rs: Seq<Region>, a: int, i: int)
    requires
        0 <= i,
    ensures
        match find_region(rs, a, i) {
            Some(j) => i <= j < rs.len() && contains(rs[j], a),
            None => true,
        },
    decreases rs.len() - i,
{
    if i < rs.len() && !contains(rs[i], a) {
        lemma_find_region_some(rs, a, i + 1);
    }
}

impl MemController {
    /// The `n` bytes from `addr` on, for an aligned access of 1, 2 or 4
    /// bytes.
    #[verifier::rlimit(50)]
    fn read_bytes(&self, addr: u32, n: usize) -> (r: Vec<u8>)
        requires
            self.wf(),
            n == 1 || n == 2 || n == 4,
            addr % n as u32 == 0,
        ensures
            r@ == self.load(addr as int, n as nat),
    {
        let mut buf: Vec<u8> = vec![0u8; n];
        proof {
            lemma_find_region_some(self.regions@, addr as int, 0);
            assert forall|k: int| 0 <= k < n implies #[trigger] self.region_of(addr + k) == self.region_of(
                addr as int,
            ) by {
                lemma_same_region(self.regions@, addr as int, k, n as int, 0);
            }
        }
        match self.find(addr) {
            None => {
                assert(buf@ =~= self.load(addr as int, n as nat));
                buf
            },
            Some(i) => {
                let r = self.regions[i];
                assert(self.region_ok(r));
                let off = (addr - r.base) as usize;
                proof {
                    lemma_aligned_fits(r, addr as int, n as int);
                }
                match r.backing {
                    Backing::Ram(s) => {
                        let ram_len = self.ram.len();
                        let mut k: usize = 0;
                        while k < n
                            invariant
                                self.wf(),
                                self.region_ok(r),
                                r == self.regions@[i as int],
                                self.region_of(addr as int) == Some(i as int),
                                contains(r, addr as int),
                                r.backing == Backing::Ram(s),
                                n == 1 || n == 2 || n == 4,
                                addr % n as u32 == 0,
                                off == addr - r.base,
                                off + n <= r.size,
                                s + r.size <= self.ram@.len(),
                                ram_len == self.ram@.len(),
                                buf@.len() == n,
                                k <= n,
                                forall|j: int| 0 <= j < n ==> #[trigger] self.region_of(addr + j) == self.region_of(addr as int),
                                forall|j: int| 0 <= j < k ==> #[trigger] buf@[j] == self.byte_at(addr + j),
                            decreases n - k,
                        {
                            assert(self.region_of(addr + k) == Some(i as int));
                            buf.set(k, self.ram[s + off + k]);
                            k = k + 1;
                        }
                        assert(buf@ =~= self.load(addr as int, n as nat));
                        buf
                    },
                    Backing::Io(d) => {
                        assert(self.devices@[d as int].wf());
                        assert((off % PAGE_SIZE) + n <= PAGE_SIZE) by {
                            assert(r.base as int % PAGE_SIZE as int == 0);
                            assert(r.base % 4 == 0);
                            if n == 4 {
                                assert(addr % 4 == 0);
                                assert(off % 4 == 0);
                            } else if n == 2 {
                                assert(addr % 2 == 0);
                                assert(off % 2 == 0);
                            }
                        }
                        self.devices[d].read_reg(off, &mut buf);
                        assert(buf@ =~= self.load(addr as int, n as nat));
                        buf
                    },
                }
            },
        }
    }

    /// Stores `bytes` (1, 2 or 4 of them) at the aligned address `addr`.
    fn write_bytes(&mut self, addr: u32, bytes: &[u8])
        requires
            old(self).wf(),
            bytes@.len() == 1 || bytes@.len() == 2 || bytes@.len() == 4,
            addr % bytes@.len() as u32 == 0,
        ensures
            final(self).wf(),
            old(self).store_rel(*final(self), addr as int, bytes@),
    {
        let n = bytes.len();
        match self.find(addr) {
            None => {},
            Some(i) => {
                let r = self.regions[i];
                assert(self.region_ok(r));
                proof {
                    lemma_find_region_some(self.regions@, addr as int, 0);
                }
                let off = (addr - r.base) as usize;
                proof {
                    lemma_aligned_fits(r, addr as int, n as int);
                }
                match r.backing {
                    Backing::Ram(s) => {
                        let ram_len = self.ram.len();
                        let mut k: usize = 0;
                        while k < n
                            invariant
                                off + n <= r.size,
                                n == bytes@.len(),
                                n == 1 || n == 2 || n == 4,
                                addr % n as u32 == 0,
                                r.base % 4 == 0,
                                r.size % 4 == 0,
                                contains(r, addr as int),
                                s + r.size <= self.ram@.len(),
                                ram_len == self.ram@.len(),
                                off == addr - r.base,
                                k <= n,
                                self.ram@ == splice(old(self).ram@, s + off, bytes@.take(k as int)),
                                self.devices@ == old(self).devices@,
                                self.regions@ == old(self).regions@,
                            decreases n - k,
                        {
                            self.ram.set(s + off + k, bytes[k]);
                            k = k + 1;
                            assert(self.ram@ =~= splice(old(self).ram@, s + off, bytes@.take(k as int)));
                        }
                        assert(bytes@.take(n as int) =~= bytes@);
                    },
                    Backing::Io(d) => {
                        assert(self.devices@[d as int].wf());
                        self.devices[d].write_reg(off, bytes);
                        assert forall|j: int| 0 <= j < self.devices@.len() implies (
                        #[trigger] self.devices@[j]).wf() by {
                            if j != d {
                                assert(self.devices@[j] == old(self).devices@[j]);
                            }
                        }
                    },
                }
                assert forall|j: int| 0 <= j < self.regions@.len() implies self.region_ok(
                    #[trigger] self.regions@[j],
                ) by {
                    assert(old(self).region_ok(old(self).regions@[j]));
                    if let Backing::Io(e) = self.regions@[j].backing {
                        if let Backing::Io(d) = r.backing {
                            if e == d {
                                assert(self.devices@[e as int].size() == old(self).devices@[e as int].size());
                            }
                        }
                    }
                }
            },
        }
    }

    pub fn read8(&self, addr: u32) -> (r: u8)
        requires
            self.wf(),
        ensures
            r == self.byte_at(addr as int),
    {
        let b = self.read_bytes(addr, 1);
        b[0]
    }

    /// Loads the halfword at `addr`, which must be halfword-aligned.
    pub fn read16(&self, addr: u32) -> (r: u16)
        requires
            self.wf(),
            addr % 2 == 0,
        ensures
            r == self.load16(addr as int),
    {
        let b = self.read_bytes(addr, 2);
        (b[0] as u16) | ((b[1] as u16) << 8u16)
    }

    /// Loads the word at `addr`, which must be word-aligned.
    pub fn read32(&self, addr: u32) -> (r: u32)
        requires
            self.wf(),
            addr % 4 == 0,
        ensures
            r == self.load32(addr as int),
    {
        let b = self.read_bytes(addr, 4);
        (b[0] as u32) | ((b[1] as u32) << 8u32) | ((b[2] as u32) << 16u32) | ((b[3] as u32) << 24u32)
    }

    pub fn write8(&mut self, addr: u32, v: u8)
        requires
            old(self).wf(),
        ensures
            final(self).wf(),
            old(self).store_rel(*final(self), addr as int, seq![v]),
    {
        let b = vec![v];
        assert(b@ =~= seq![v]);
        self.write_bytes(addr, b.as_slice());
    }

    /// Stores a halfword at `addr`, which must be halfword-aligned.
    pub fn write16(&mut self, addr: u32, v: u16)
        requires
            old(self).wf(),
            addr % 2 == 0,
        ensures
            final(self).wf(),
            old(self).store_rel(*final(self), addr as int, le_bytes16(v)),
    {
        let b = vec![v as u8, (v >> 8) as u8];
        assert(b@ =~= le_bytes16(v));
        self.write_bytes(addr, b.as_slice());
    }

    /// Stores a word at `addr`, which must be word-aligned.
    pub fn write32(&mut self, addr: u32, v: u32)
        requires
            old(self).wf(),
            addr % 4 == 0,
        ensures
            final(self).wf(),
            old(self).store_rel(*final(self), addr as int, le_bytes(v)),
    {
        let b = vec![v as u8, (v >> 8) as u8, (v >> 16) as u8, (v >> 24) as u8];
        assert(b@ =~= le_bytes(v));
        self.write_bytes(addr, b.as_slice());
    }

    /// Bulk read of `len` bytes from `addr` on, byte by byte.
    pub fn read_buf(&self, addr: u32, len: usize) -> (r: Vec<u8>)
        requires
            self.wf(),
            addr + len <= 0x1_0000_0000,
        ensures
            r@ == self.load(addr as int, len as nat),
    {
        let mut out: Vec<u8> = Vec::new();
        let mut k: usize = 0;
        while k < len
            invariant
                self.wf(),
                addr + len <= 0x1_0000_0000,
                k <= len,
                out@ == self.load(addr as int, k as nat),
            decreases len - k,
        {
            let b = self.read8(addr + k as u32);
            out.push(b);
            k = k + 1;
            assert(out@ =~= self.load(addr as int, k as nat));
        }
        out
    }

    /// Bulk write of `bytes` at `addr`, for RAM: done (`true`) exactly when
    /// one RAM region serves all of `addr .. addr + bytes.len()`; otherwise
    /// nothing changes.
    pub fn write_buf(&mut self, addr: u32, bytes: &[u8]) -> (ok: bool)
        requires
            old(self).wf(),
        ensures
            final(self).wf(),
            final(self).regions@ == old(self).regions@,
            final(self).devices@ == old(self).devices@,
            ok == match old(self).region_of(addr as int) {
                Some(i) => old(self).regions@[i].backing is Ram && addr + bytes@.len()
                    <= old(self).regions@[i].base + old(self).regions@[i].size,
                None => false,
            },
            final(self).ram@ == if ok {
                let r = old(self).regions@[old(self).region_of(addr as int)->0];
                splice(old(self).ram@, r.backing->Ram_0 + (addr - r.base), bytes@)
            } else {
                old(self).ram@
            },
    {
        proof {
            lemma_find_region_some(self.regions@, addr as int, 0);
        }
        let i = match self.find(addr) {
            None => return false,
            Some(i) => i,
        };
        let r = self.regions[i];
        assert(self.region_ok(r));
        let s = match r.backing {
            Backing::Ram(s) => s,
            Backing::Io(_) => return false,
        };
        let off = (addr - r.base) as usize;
        let n = bytes.len();
        let ram_len = self.ram.len();
        if n > (r.size as usize) - off {
            return false;
        }
        let mut k: usize = 0;
        while k < n
            invariant
                n == bytes@.len(),
                off + n <= r.size,
                s + r.size <= self.ram@.len(),
                ram_len == self.ram@.len(),
                k <= n,
                self.ram@ == splice(old(self).ram@, s + off, bytes@.take(k as int)),
                self.devices@ == old(self).devices@,
                self.regions@ == old(self).regions@,
            decreases n - k,
        {
            self.ram.set(s + off + k, bytes[k]);
            k = k + 1;
            assert(self.ram@ =~= splice(old(self).ram@, s + off, bytes@.take(k as int)));
        }
        assert(bytes@.take(n as int) =~= bytes@);
        proof {
            assert forall|j: int| 0 <= j < self.regions@.len() implies self.region_ok(
                #[trigger] self.regions@[j],
            ) by {
                assert(old(self).region_ok(old(self).regions@[j]));
            }
        }
        true
    }
}

} // verus!
