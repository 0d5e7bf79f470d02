//! Memoized decoding: a direct-mapped table for ARM opcodes, tagged with
//! the full opcode, and a table with a slot per Thumb opcode. Entries are
//! filled on first sight and always hold what decoding gives.
use vstd::prelude::*;
use crate::interpreter::{ArmOp, ThumbOp, decode_arm, decode_arm_spec, decode_thumb, decode_thumb_spec};

verus! {

pub const ARM_SLOTS: usize = 0x1000;
pub const THUMB_SLOTS: usize = 0x1_0000;

pub struct DecodeCache {
    pub arm: Vec<Option<(u32, ArmOp)>>,
    pub thumb: Vec<Option<ThumbOp>>,
}

impl DecodeCache {
    pub open spec fn wf(&self) -> bool {
        &&& self.arm@.len() == ARM_SLOTS
        &&& self.thumb@.len() == THUMB_SLOTS
        &&& forall|s: int|
            0 <= s < ARM_SLOTS && (#[trigger] self.arm@[s]) is Some ==> (self.arm@[s]->0).1 == decode_arm_spec(
                (self.arm@[s]->0).0,
            )
        &&& forall|k: int|
            0 <= k < THUMB_SLOTS && (#[trigger] self.thumb@[k]) is Some ==> self.thumb@[k]->0
                == decode_thumb_spec(k as u16)
    }

    /// An empty cache.
    pub fn new() -> (r: DecodeCache)
        ensures
            r.wf(),
    {
        let mut arm: Vec<Option<(u32, ArmOp)>> = Vec::new();
        let mut k: usize = 0;
        while k < ARM_SLOTS
            invariant
                k <= ARM_SLOTS,
                arm@.len() == k,
                forall|s: int| 0 <= s < k ==> arm@[s] is None,
            decreases ARM_SLOTS - k,
        {
            arm.push(None);
            k = k + 1;
        }
        let mut thumb: Vec<Option<ThumbOp>> = Vec::new();
        let mut k: usize = 0;
        while k < THUMB_SLOTS
            invariant
                k <= THUMB_SLOTS,
                thumb@.len() == k,
                forall|s: int| 0 <= s < k ==> thumb@[s] is None,
            decreases THUMB_SLOTS - k,
        {
            thumb.push(None);
            k = k + 1;
        }
        DecodeCache { arm, thumb }
    }

    /// The handler for ARM opcode `op`, from the table when it is there,
    /// otherwise decoded and installed.
    pub fn get_arm(&mut self, op: u32) -> (r: ArmOp)
        requires
            old(self).wf(),
        ensures
            final(self).wf(),
            r == decode_arm_spec(op),
    {
        let s = (((op >> 16) ^ op) % 0x1000) as usize;
        if let Some((tag, h)) = self.arm[s] {
            if tag == op {
                return h;
            }
        }
        let h = decode_arm(op);
        self.arm.set(s, Some((op, h)));
        proof {
            assert forall|j: int|
                0 <= j < ARM_SLOTS && (#[trigger] self.arm@[j]) is Some implies (self.arm@[j]->0).1
                == decode_arm_spec((self.arm@[j]->0).0) by {
                if j != s {
                    assert(self.arm@[j] == old(self).arm@[j]);
                }
            }
        }
        h
    }

    /// The handler for Thumb opcode `op`, from the table when it is there,
    /// otherwise decoded and installed.
    pub fn get_thumb(&mut self, op: u16) -> (r: ThumbOp)
        requires
            old(self).wf(),
        ensures
            final(self).wf(),
            r == decode_thumb_spec(op),
    {
        let s = op as usize;
        if let Some(h) = self.thumb[s] {
            return h;
        }
        let h = decode_thumb(op);
        self.thumb.set(s, Some(h));
        proof {
            assert forall|j: int|
                0 <= j < THUMB_SLOTS && (#[trigger] self.thumb@[j]) is Some implies self.thumb@[j]->0
                == decode_thumb_spec(j as u16) by {
                if j != s {
                    assert(self.thumb@[j] == old(self).thumb@[j]);
                }
            }
        }
        h
    }
}

/// Decoding is idempotent: whatever a well-formed cache holds for an
/// opcode is what decoding that opcode gives, so looking an opcode up
/// twice, before or after other lookups, yields the same handler.
pub proof fn lemma_cached_decode_is_decode(c: DecodeCache, s: int, t: int)
    requires
        c.wf(),
        0 <= s < ARM_SLOTS,
        c.arm@[s] is Some,
        0 <= t < THUMB_SLOTS,
        c.thumb@[t] is Some,
    ensures
        (c.arm@[s]->0).1 == decode_arm_spec((c.arm@[s]->0).0),
        c.thumb@[t]->0 == decode_thumb_spec(t as u16),
{
}

} // verus!
