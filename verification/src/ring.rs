//! Circular history of quantized samples, one ring per octave.
//!
//! The ring is written by the capture path and read by every bin's
//! `advance`.  Samples are quantized to the fixed 15-bit integer range
//! before they reach the ring, so all correlator arithmetic downstream
//! stays within proven bounds.  Overwrite-on-wrap is deliberate: the
//! ring is sized to exceed the largest supported analysis window.

use vstd::prelude::*;
use crate::util::decr_modulo;
use crate::util::is_pow2;

verus! {

/// Largest ring the engine ever allocates.
pub const MAX_RING: usize = 0x10000;

/// A quantized sample always fits the 15-bit range.
pub open spec fn in_range(s: int) -> bool {
    -32767 <= s <= 32767
}

/// Ring slot holding the sample that lies `d` writes behind `off`.
pub open spec fn back_idx(off: int, d: int, len: int) -> int {
    (off - d) % len
}

/// Distinct small look-back distances land on distinct ring slots.
pub proof fn lemma_back_idx_distinct(off: int, d1: int, d2: int, len: int)
    requires
        len > 0,
        0 <= d1 < len,
        0 <= d2 < len,
        d1 != d2,
    ensures
        back_idx(off, d1, len) != back_idx(off, d2, len),
{
    if back_idx(off, d1, len) == back_idx(off, d2, len) {
        vstd::arithmetic::div_mod::lemma_mod_equivalence(off - d1, off - d2, len);
        vstd::arithmetic::div_mod::lemma_mod_equivalence(off - d2, off - d1, len);
        // a difference strictly between 0 and len cannot have residue 0
        if d1 < d2 {
            vstd::arithmetic::div_mod::lemma_small_mod((d2 - d1) as nat, len as nat);
        } else {
            vstd::arithmetic::div_mod::lemma_small_mod((d1 - d2) as nat, len as nat);
        }
    }
}

/// Closed form of a back index for a cursor and distance both below
/// the ring length.
pub proof fn lemma_back_idx_value(off: int, d: int, len: int)
    requires
        len > 0,
        0 <= off < len,
        0 <= d < len,
    ensures
        back_idx(off, d, len) == if off >= d {
            off - d
        } else {
            off - d + len
        },
{
    if off >= d {
        vstd::arithmetic::div_mod::lemma_small_mod((off - d) as nat, len as nat);
    } else {
        vstd::arithmetic::div_mod::lemma_mod_multiples_vanish(1, off - d, len);
        vstd::arithmetic::div_mod::lemma_small_mod((off - d + len) as nat, len as nat);
    }
}

/// Power-of-two circular buffer of quantized samples; `ring_offset` is
/// the slot of the most recently written sample.
pub struct ChannelRing {
    pub ring_mask: usize,
    pub ring_offset: usize,
    pub ring_samples: Vec<i32>,
    pub ring_length: usize,
}

impl ChannelRing {
    /// Structural invariant: power-of-two capacity, cursor in range,
    /// every stored sample quantized.
    pub open spec fn wf(&self) -> bool {
        &&& self.ring_samples@.len() == self.ring_length
        &&& is_pow2(self.ring_length as int)
        &&& 1 <= self.ring_length <= MAX_RING
        &&& self.ring_mask == self.ring_length - 1
        &&& self.ring_offset < self.ring_length
        &&& forall|i: int|
            0 <= i < self.ring_samples@.len() ==> in_range(#[trigger] self.ring_samples@[i] as int)
    }

    /// The sample written `d` samples before the newest one.
    pub open spec fn sample_back(&self, d: int) -> int {
        self.ring_samples@[back_idx(self.ring_offset as int, d, self.ring_length as int)] as int
    }

    /// A zeroed ring of the given power-of-two capacity.
    pub fn new(ring_length: usize) -> (r: ChannelRing)
        requires
            is_pow2(ring_length as int),
            1 <= ring_length <= MAX_RING,
        ensures
            r.wf(),
            r.ring_length == ring_length,
            r.ring_offset == 0,
            forall|i: int| 0 <= i < ring_length ==> #[trigger] r.ring_samples@[i] == 0,
    {
        let ring_mask = ring_length - 1;
        let mut samples: Vec<i32> = Vec::new();
        let mut i: usize = 0;
        while i < ring_length
            invariant
                i == samples@.len(),
                i <= ring_length,
                forall|j: int| 0 <= j < i ==> #[trigger] samples@[j] == 0,
            decreases ring_length - i,
        {
            samples.push(0);
            i = i + 1;
        }
        ChannelRing { ring_mask, ring_offset: 0, ring_samples: samples, ring_length }
    }

    /// Zeroes the history without moving the cursor.
    pub fn reset(&mut self)
        requires
            old(self).wf(),
        ensures
            final(self).wf(),
            final(self).ring_length == old(self).ring_length,
            final(self).ring_offset == old(self).ring_offset,
            forall|i: int|
                0 <= i < final(self).ring_samples@.len()
                    ==> #[trigger] final(self).ring_samples@[i] == 0,
    {
        let n = self.ring_samples.len();
        let mut i: usize = 0;
        while i < n
            invariant
                n == self.ring_samples@.len(),
                i <= n,
                self.ring_length == old(self).ring_length,
                self.ring_mask == old(self).ring_mask,
                self.ring_offset == old(self).ring_offset,
                forall|j: int| 0 <= j < i ==> #[trigger] self.ring_samples@[j] == 0,
            decreases n - i,
        {
            self.ring_samples.set(i, 0);
            i = i + 1;
        }
    }

    /// Writes a block of quantized samples, oldest first, advancing the
    /// cursor once per sample and overwriting on wrap.
    pub fn push_samples(&mut self, samples: &[i32])
        requires
            old(self).wf(),
            forall|i: int| 0 <= i < samples@.len() ==> in_range(#[trigger] samples@[i] as int),
        ensures
            final(self).wf(),
            final(self).ring_length == old(self).ring_length,
            final(self).ring_offset == (old(self).ring_offset + samples@.len()) % (
            old(self).ring_length as int),
            forall|d: int|
                0 <= d < samples@.len() && d < old(self).ring_length
                    ==> final(self).sample_back(d) == samples@[samples@.len() - 1 - d] as int,
            forall|d: int|
                samples@.len() <= d < old(self).ring_length
                    ==> final(self).sample_back(d) == old(self).sample_back(d - samples@.len()),
    {
        let n = samples.len();
        let len = self.ring_length;
        proof {
            vstd::arithmetic::div_mod::lemma_small_mod(
                old(self).ring_offset as nat,
                len as nat,
            );
        }
        let mut k: usize = 0;
        while k < n
            invariant
                n == samples@.len(),
                k <= n,
                forall|i: int| 0 <= i < samples@.len() ==> in_range(#[trigger] samples@[i] as int),
                self.wf(),
                len == self.ring_length,
                self.ring_length == old(self).ring_length,
                self.ring_offset == (old(self).ring_offset + k) % (len as int),
                forall|d: int|
                    0 <= d < k && d < len ==> self.sample_back(d) == samples@[k - 1 - d] as int,
                forall|d: int| k <= d < len ==> self.sample_back(d) == old(self).sample_back(d - k),
            decreases n - k,
        {
            let ghost prev = *self;
            let mut off = self.ring_offset;
            decr_modulo(&mut off, len);
            self.ring_offset = off;
            self.ring_samples.set(off, samples[k]);
            proof {
                let leni = len as int;
                let off0 = old(self).ring_offset as int;
                // the new cursor continues the running congruence
                crate::util::lemma_mod_shift(off0 + k, 1, leni);
                assert(self.ring_offset == (off0 + k + 1) % leni);
                // the freshly written slot is back distance zero
                vstd::arithmetic::div_mod::lemma_small_mod(
                    self.ring_offset as nat,
                    leni as nat,
                );
                // every older slot moved one step further back
                assert forall|d: int| 1 <= d < leni implies self.sample_back(d)
                    == prev.sample_back(d - 1) by {
                    crate::util::lemma_mod_shift(off0 + k + 1, -d, leni);
                    crate::util::lemma_mod_shift(off0 + k, -(d - 1), leni);
                    assert(back_idx(self.ring_offset as int, d, leni) == back_idx(
                        prev.ring_offset as int,
                        d - 1,
                        leni,
                    ));
                    lemma_back_idx_distinct(self.ring_offset as int, 0, d, leni);
                    vstd::arithmetic::div_mod::lemma_mod_bound(prev.ring_offset - (d - 1), leni);
                }
                assert forall|d: int| 0 <= d < k + 1 && d < leni implies self.sample_back(d)
                    == samples@[k - d] as int by {
                    if d > 0 {
                        assert(prev.sample_back(d - 1) == samples@[k - 1 - (d - 1)] as int);
                    }
                }
                assert forall|d: int| k + 1 <= d < leni implies self.sample_back(d) == old(
                    self,
                ).sample_back(d - (k + 1)) by {
                    assert(prev.sample_back(d - 1) == old(self).sample_back(d - 1 - k));
                }
            }
            k = k + 1;
        }
    }
}

} // verus!
