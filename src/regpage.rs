//! A register page: a 4 KiB device register window with plain backing
//! storage and no side effects. Devices whose emulation lives outside this
//! crate are mapped as such pages.
use vstd::prelude::*;

verus! {

pub const PAGE_SIZE: usize = 0x1000;

/// `s` with the bytes of `b` written from `start` on; bytes that would fall
/// past the end of `s` are dropped.
pub open spec fn splice(s: Seq<u8>, start: int, b: Seq<u8>) -> Seq<u8> {
    Seq::new(s.len(), |k: int| if start <= k < start + b.len() { b[k - start] } else { s[k] })
}

pub struct RegPage {
    pub bytes: Vec<u8>,
}

impl RegPage {
    pub open spec fn wf(&self) -> bool {
        self.bytes@.len() == PAGE_SIZE
    }

    /// The byte at `off` of the window.
    pub open spec fn peek(&self, off: int) -> u8 {
        if 0 <= off < PAGE_SIZE {
            self.bytes@[off]
        } else {
            0
        }
    }

    pub fn new() -> (r: RegPage)
        ensures
            r.wf(),
            r.bytes@ == Seq::new(PAGE_SIZE as nat, |k: int| 0u8),
    {
        let r = RegPage { bytes: vec![0u8; PAGE_SIZE] };
        assert(r.bytes@ =~= Seq::new(PAGE_SIZE as nat, |k: int| 0u8));
        r
    }

    /// Reads `buf.len()` bytes of the window from `off` on.
    pub fn read_reg(&self, off: usize, buf: &mut Vec<u8>)
        requires
            self.wf(),
        ensures
            final(buf)@.len() == old(buf)@.len(),
            forall|k: int| 0 <= k < old(buf)@.len() ==> #[trigger] final(buf)@[k] == self.peek(off + k),
    {
        let n = buf.len();
        let mut i: usize = 0;
        while i < n
            invariant
                self.wf(),
                n == buf@.len(),
                n == old(buf)@.len(),
                i <= n,
                forall|k: int| 0 <= k < i ==> #[trigger] buf@[k] == self.peek(off + k),
            decreases n - i,
        {
            let v: u8 = if off < PAGE_SIZE && i < PAGE_SIZE - off {
                self.bytes[off + i]
            } else {
                0
            };
            buf.set(i, v);
            i = i + 1;
        }
    }

    /// Writes `src` into the window from `off` on.
    pub fn write_reg(&mut self, off: usize, src: &Vec<u8>)
        requires
            old(self).wf(),
        ensures
            final(self).wf(),
            final(self).bytes@ == splice(old(self).bytes@, off as int, src@),
    {
        let n = src.len();
        let mut i: usize = 0;
        while i < n
            invariant
                self.wf(),
                n == src@.len(),
                i <= n,
                self.bytes@ == splice(old(self).bytes@, off as int, src@.take(i as int)),
            decreases n - i,
        {
            if off < PAGE_SIZE && i < PAGE_SIZE - off {
                self.bytes.set(off + i, src[i]);
            }
            i = i + 1;
            assert(self.bytes@ =~= splice(old(self).bytes@, off as int, src@.take(i as int)));
        }
        assert(src@.take(n as int) =~= src@);
    }
}

} // verus!
