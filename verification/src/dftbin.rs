//! One incremental single-frequency correlator.
//!
//! `advance` multiplies each incoming quantized sample with the bin's
//! local oscillator and appends the running complex total to a
//! power-of-two ring of cumulative sums, walking backward in time from
//! the newest entry.  Any sub-window correlation is then the difference
//! of two ring entries — the prefix-sum invariant that makes arbitrary
//! window queries O(1).
//!
//! The ghost `hist` field records every term accumulated since the last
//! reset; the structural invariant ties each live ring entry to an
//! exact suffix sum of that history.

use vstd::prelude::*;
use crate::complex::ComplexI64;
use crate::ring::back_idx;
use crate::ring::in_range;
use crate::ring::lemma_back_idx_distinct;
use crate::ring::lemma_back_idx_value;
use crate::terms::Term;
use crate::terms::TERM_BOUND;
use crate::terms::term_ok;
use crate::terms::sum_re;
use crate::terms::sum_im;
use crate::terms::suffix_re;
use crate::terms::suffix_im;
use crate::terms::range_re;
use crate::terms::range_im;
use crate::terms::lemma_sum_push;
use crate::terms::lemma_suffix_zero;
use crate::terms::lemma_suffix_push;
use crate::terms::lemma_range_bound;
use crate::trig::TrigTable;
use crate::trig::sine_at;
use crate::trig::cosine_at;
use crate::trig::FIXED_POINT_FRACTIONAL_DITHER;
use crate::util::is_pow2;
use crate::wrap::wrap64;
use crate::wrap::lemma_wrapping_add64;
use crate::wrap::lemma_wrapping_add_reduced;
use crate::wrap::lemma_wrap64_diff_exact;

verus! {

/// Largest supported analysis window, in samples.
pub const MAX_WINDOW: usize = 0x10000;

/// The oscillator value paired with a dithered phase: the table entry
/// of the phase with its dither bits dropped.
pub open spec fn osc_cos(table: Seq<i16>, phase: int) -> int {
    cosine_at(table, phase / 4096)
}

/// Imaginary oscillator component for a dithered phase.
pub open spec fn osc_sin(table: Seq<i16>, phase: int) -> int {
    sine_at(table, phase / 4096)
}

/// The term one sample contributes at one dithered phase.
pub open spec fn term_of(table: Seq<i16>, phase: int, s: int) -> Term {
    Term { re: s * osc_cos(table, phase), im: s * osc_sin(table, phase) }
}

/// Phase of the oscillator `i` samples after phase `phase0`.
pub open spec fn phase_at(phase0: int, pulsation: int, i: int) -> int {
    (phase0 + i * pulsation) % (FIXED_POINT_FRACTIONAL_DITHER as int)
}

/// Ring slot `i` samples into an advance over a ring block: the sample
/// that was `n - 1 - i` writes behind the ring cursor.
pub open spec fn ring_sample(samples: Seq<i32>, ring_offset: int, n: int, i: int) -> int {
    samples[(ring_offset + 1 + i - n) % (samples.len() as int)] as int
}

/// The term sequence one advance call appends.
pub open spec fn advance_terms(
    table: Seq<i16>,
    samples: Seq<i32>,
    ring_offset: int,
    n: int,
    phase0: int,
    pulsation: int,
) -> Seq<Term> {
    Seq::new(n as nat, |i: int| term_of(
        table,
        phase_at(phase0, pulsation, i),
        ring_sample(samples, ring_offset, n, i),
    ))
}

/// Dither scale for segment boundaries of the kerneled sum.
pub const KERNEL_STEP_DITHER: u64 = 0x10000;

/// Largest accepted taper coefficient magnitude.
pub const KERNEL_COEFF_BOUND: i64 = 0x10000;

/// Dithered step between segment boundaries: the window is cut into
/// `klen` nearly equal parts without accumulating rounding drift.
pub open spec fn kern_step(cl: int, klen: int) -> int {
    ((cl - 1) * (KERNEL_STEP_DITHER as int)) / klen
}

/// Left boundary of segment `i` (and right boundary of segment `i-1`).
pub open spec fn seg_pt(cl: int, klen: int, i: int) -> int {
    (i * kern_step(cl, klen)) / (KERNEL_STEP_DITHER as int)
}

/// Real part of the kerneled sum over the first `j` segments.
pub open spec fn kerneled_re(h: Seq<Term>, cl: int, kernel: Seq<i64>, j: int) -> int
    decreases j,
{
    if j <= 0 {
        0
    } else {
        kerneled_re(h, cl, kernel, j - 1) + kernel[j - 1] * range_re(
            h,
            seg_pt(cl, kernel.len() as int, j - 1),
            seg_pt(cl, kernel.len() as int, j),
        )
    }
}

/// Imaginary part of the kerneled sum over the first `j` segments.
pub open spec fn kerneled_im(h: Seq<Term>, cl: int, kernel: Seq<i64>, j: int) -> int
    decreases j,
{
    if j <= 0 {
        0
    } else {
        kerneled_im(h, cl, kernel, j - 1) + kernel[j - 1] * range_im(
            h,
            seg_pt(cl, kernel.len() as int, j - 1),
            seg_pt(cl, kernel.len() as int, j),
        )
    }
}

/// Segment boundaries step monotonically and never pass the window end.
pub proof fn lemma_seg_bounds(cl: int, klen: int, i: int)
    requires
        1 <= cl,
        1 <= klen,
        0 <= i < klen,
    ensures
        0 <= seg_pt(cl, klen, i) <= seg_pt(cl, klen, i + 1) <= cl - 1,
{
    let dither = KERNEL_STEP_DITHER as int;
    let step = kern_step(cl, klen);
    vstd::arithmetic::div_mod::lemma_div_pos_is_pos((cl - 1) * dither, klen);
    assert((cl - 1) * dither >= 0) by (nonlinear_arith)
        requires cl >= 1, dither > 0,
    ;
    assert(i * step >= 0 && i * step <= (i + 1) * step) by (nonlinear_arith)
        requires step >= 0, i >= 0,
    ;
    vstd::arithmetic::div_mod::lemma_div_pos_is_pos(i * step, dither);
    vstd::arithmetic::div_mod::lemma_div_is_ordered(i * step, (i + 1) * step, dither);
    // (i + 1) * step stays at or below klen * step <= (cl - 1) * dither
    assert((i + 1) * step <= klen * step) by (nonlinear_arith)
        requires step >= 0, i + 1 <= klen,
    ;
    vstd::arithmetic::div_mod::lemma_fundamental_div_mod((cl - 1) * dither, klen);
    vstd::arithmetic::div_mod::lemma_mod_bound((cl - 1) * dither, klen);
    assert(klen * step <= (cl - 1) * dither) by (nonlinear_arith)
        requires
            (cl - 1) * dither == klen * step + ((cl - 1) * dither) % klen,
            ((cl - 1) * dither) % klen >= 0,
    ;
    vstd::arithmetic::div_mod::lemma_div_is_ordered((i + 1) * step, (cl - 1) * dither, dither);
    vstd::arithmetic::div_mod::lemma_div_by_multiple(cl - 1, dither);
}

/// With a rectangular kernel of a single unit coefficient, the
/// kerneled sum degenerates to the plain full-window sum: piecewise
/// tapering with one piece is exact.
pub proof fn lemma_rect_kernel_is_full_window(h: Seq<Term>, cl: int, kernel: Seq<i64>)
    requires
        kernel.len() == 1,
        kernel[0] == 1,
        1 <= cl,
    ensures
        kerneled_re(h, cl, kernel, 1) == range_re(h, 0, cl - 1),
        kerneled_im(h, cl, kernel, 1) == range_im(h, 0, cl - 1),
{
    let dither = KERNEL_STEP_DITHER as int;
    vstd::arithmetic::div_mod::lemma_div_basics((cl - 1) * dither);
    assert(kern_step(cl, 1) == (cl - 1) * dither);
    assert(0 * kern_step(cl, 1) == 0) by (nonlinear_arith);
    vstd::arithmetic::div_mod::lemma_div_basics(dither);
    assert(seg_pt(cl, 1, 0) == 0int / dither);
    vstd::arithmetic::div_mod::lemma_div_of0(dither);
    assert(1 * kern_step(cl, 1) == kern_step(cl, 1)) by (nonlinear_arith);
    vstd::arithmetic::div_mod::lemma_div_by_multiple(cl - 1, dither);
    assert(seg_pt(cl, 1, 1) == cl - 1);
    assert(kerneled_re(h, cl, kernel, 0) == 0);
    assert(kerneled_im(h, cl, kernel, 0) == 0);
    assert(kerneled_re(h, cl, kernel, 1) == kernel[0] * range_re(
        h,
        seg_pt(cl, 1, 0),
        seg_pt(cl, 1, 1),
    ));
    assert(kernel[0] * range_re(h, 0, cl - 1) == range_re(h, 0, cl - 1)) by (nonlinear_arith)
        requires kernel[0] == 1,
    ;
    assert(kernel[0] * range_im(h, 0, cl - 1) == range_im(h, 0, cl - 1)) by (nonlinear_arith)
        requires kernel[0] == 1,
    ;
}

/// A block of silent samples contributes only zero terms, whatever
/// the oscillator does.
pub proof fn lemma_silent_advance_terms(
    table: Seq<i16>,
    samples: Seq<i32>,
    ring_offset: int,
    n: int,
    phase0: int,
    pulsation: int,
)
    requires
        forall|i: int| 0 <= i < samples.len() ==> #[trigger] samples[i] == 0,
        samples.len() >= 1,
    ensures
        forall|k: int|
            0 <= k < n ==> (#[trigger] advance_terms(
                table,
                samples,
                ring_offset,
                n,
                phase0,
                pulsation,
            )[k]).re == 0 && advance_terms(table, samples, ring_offset, n, phase0, pulsation)[
            k].im == 0,
{
    let ts = advance_terms(table, samples, ring_offset, n, phase0, pulsation);
    assert forall|k: int| 0 <= k < n implies (#[trigger] ts[k]).re == 0 && ts[k].im == 0 by {
        vstd::arithmetic::div_mod::lemma_mod_bound(
            ring_offset + 1 + k - n,
            samples.len() as int,
        );
        assert(ring_sample(samples, ring_offset, n, k) == 0);
        assert(0 * osc_cos(table, phase_at(phase0, pulsation, k)) == 0) by (nonlinear_arith);
        assert(0 * osc_sin(table, phase_at(phase0, pulsation, k)) == 0) by (nonlinear_arith);
    }
}

/// One single-frequency correlator with its cumulative partial-sum ring.
pub struct DftBin {
    /// Fixed-point dithered phase increment per sample.
    pub pulsation: u32,
    /// Running dithered phase, always reduced to one turn.
    pub current_phase: u32,
    /// Target window length in samples.
    pub length: usize,
    /// Samples accumulated since the last discontinuous reinit, capped
    /// at `length`.
    pub current_length: usize,
    /// Cumulative real sum of every term in `hist`, wrapped to 64 bits.
    pub state_sum_real: i64,
    /// Cumulative imaginary sum, wrapped to 64 bits.
    pub state_sum_imag: i64,
    /// Ring of historic cumulative sums; capacity is the next power of
    /// two at or above `length`.
    pub partial_sums: Vec<ComplexI64>,
    /// Slot of the most recently written cumulative sum.
    pub partial_sums_pos: usize,
    /// Every term accumulated since the last reset.
    pub hist: Ghost<Seq<Term>>,
}

impl DftBin {
    /// Ring capacity.
    pub open spec fn cap(&self) -> int {
        self.partial_sums@.len() as int
    }

    /// Largest look-back depth whose ring entry is live.
    pub open spec fn valid_back(&self) -> int {
        if self.current_length < self.cap() - 1 {
            self.current_length as int
        } else {
            self.cap() - 1
        }
    }

    /// The ring entry `d` writes behind the cursor.
    pub open spec fn entry_back(&self, d: int) -> ComplexI64 {
        self.partial_sums@[back_idx(self.partial_sums_pos as int, d, self.cap())]
    }

    /// The entry `d` back stores the cumulative sum that excludes the
    /// last `d` terms.
    pub open spec fn entry_ok(&self, d: int) -> bool {
        &&& self.entry_back(d).re == wrap64(sum_re(self.hist@) - suffix_re(self.hist@, d))
        &&& self.entry_back(d).im == wrap64(sum_im(self.hist@) - suffix_im(self.hist@, d))
    }

    /// Structural invariant.
    pub open spec fn wf(&self) -> bool {
        &&& 1 <= self.length <= MAX_WINDOW
        &&& is_pow2(self.cap())
        &&& self.length <= self.cap()
        &&& self.cap() < 2 * self.length
        &&& self.partial_sums_pos < self.cap()
        &&& self.current_length <= self.length
        &&& self.current_length <= self.hist@.len()
        &&& self.current_phase < FIXED_POINT_FRACTIONAL_DITHER
        &&& self.pulsation < FIXED_POINT_FRACTIONAL_DITHER
        &&& forall|k: int| 0 <= k < self.hist@.len() ==> term_ok(#[trigger] self.hist@[k])
        &&& self.state_sum_real == wrap64(sum_re(self.hist@))
        &&& self.state_sum_imag == wrap64(sum_im(self.hist@))
        &&& forall|d: int| 0 <= d <= self.valid_back() ==> self.entry_ok(d)
    }

    /// A fresh, empty, well-formed bin with the smallest ring.
    pub fn new() -> (r: DftBin)
        ensures
            r.wf(),
            r.current_length == 0,
            r.hist@ == Seq::<Term>::empty(),
            r.pulsation == 0,
            r.current_phase == 0,
            r.length == 1,
            r.state_sum_real == 0,
            r.state_sum_imag == 0,
    {
        let mut sums: Vec<ComplexI64> = Vec::new();
        sums.push(ComplexI64 { re: 0, im: 0 });
        let r = DftBin {
            pulsation: 0,
            current_phase: 0,
            length: 1,
            current_length: 0,
            state_sum_real: 0,
            state_sum_imag: 0,
            partial_sums: sums,
            partial_sums_pos: 0,
            hist: Ghost(Seq::empty()),
        };
        proof {
            lemma_suffix_zero(r.hist@);
            crate::wrap::lemma_wrap64_id(0);
            vstd::arithmetic::div_mod::lemma_small_mod(0nat, 1nat);
        }
        r
    }

    /// Correlates the `n_new` newest ring samples with the local
    /// oscillator, appending one cumulative sum per sample to the
    /// partial-sum ring and advancing the phase by `pulsation` each
    /// sample.  The window fill grows by `n_new`, capped at `length`.
    pub fn advance(&mut self, n_new: usize, samples: &[i32], ring_offset: usize, trig: &TrigTable)
        requires
            old(self).wf(),
            trig.wf(),
            is_pow2(samples@.len() as int),
            1 <= samples@.len() <= crate::ring::MAX_RING,
            ring_offset < samples@.len(),
            forall|i: int| 0 <= i < samples@.len() ==> in_range(#[trigger] samples@[i] as int),
            n_new <= 0x1000_0000,
        ensures
            final(self).wf(),
            final(self).hist@ == old(self).hist@ + advance_terms(
                trig@,
                samples@,
                ring_offset as int,
                n_new as int,
                old(self).current_phase as int,
                old(self).pulsation as int,
            ),
            final(self).current_phase == phase_at(
                old(self).current_phase as int,
                old(self).pulsation as int,
                n_new as int,
            ),
            final(self).current_length == if old(self).current_length + n_new
                > old(self).length {
                old(self).length as int
            } else {
                old(self).current_length + n_new
            },
            final(self).length == old(self).length,
            final(self).pulsation == old(self).pulsation,
            final(self).cap() == old(self).cap(),
            final(self).state_sum_real == wrap64(sum_re(final(self).hist@)),
            final(self).state_sum_imag == wrap64(sum_im(final(self).hist@)),
    {
        let ring_len = samples.len();
        let cap_len = self.partial_sums.len();
        let pulsation = self.pulsation;
        proof {
            let q = (n_new as int) / (ring_len as int);
            let m = (n_new as int) % (ring_len as int);
            vstd::arithmetic::div_mod::lemma_fundamental_div_mod(n_new as int, ring_len as int);
            vstd::arithmetic::div_mod::lemma_mod_bound(n_new as int, ring_len as int);
            assert((q + 1) * (ring_len as int) == n_new - m + ring_len) by (nonlinear_arith)
                requires n_new == (ring_len as int) * q + m,
            ;
        }
        // offset that makes the look-back index non-negative before
        // reduction: the smallest multiple of the ring length above
        // `n_new`
        let shift = ((n_new / ring_len) + 1) * ring_len;
        proof {
            vstd::arithmetic::div_mod::lemma_small_mod(
                old(self).current_phase as nat,
                FIXED_POINT_FRACTIONAL_DITHER as nat,
            );
            vstd::arithmetic::div_mod::lemma_small_mod(
                old(self).partial_sums_pos as nat,
                cap_len as nat,
            );
            assert(advance_terms(
                trig@,
                samples@,
                ring_offset as int,
                n_new as int,
                old(self).current_phase as int,
                old(self).pulsation as int,
            ).subrange(0, 0) =~= Seq::<Term>::empty());
            assert(old(self).hist@ + Seq::<Term>::empty() =~= old(self).hist@);
        }
        let ghost t_all = advance_terms(
            trig@,
            samples@,
            ring_offset as int,
            n_new as int,
            old(self).current_phase as int,
            old(self).pulsation as int,
        );
        let ghost cl0 = old(self).current_length as int;
        let ghost pos0 = old(self).partial_sums_pos as int;
        let ghost phase0 = old(self).current_phase as int;
        let mut i: usize = 0;
        while i < n_new
            invariant
                trig.wf(),
                is_pow2(samples@.len() as int),
                1 <= samples@.len() <= crate::ring::MAX_RING,
                ring_len == samples@.len(),
                ring_offset < ring_len,
                forall|j: int| 0 <= j < samples@.len() ==> in_range(#[trigger] samples@[j] as int),
                n_new <= 0x1000_0000,
                shift == ((n_new as int) / (ring_len as int) + 1) * ring_len,
                n_new < shift <= n_new + ring_len,
                i <= n_new,
                t_all == advance_terms(
                    trig@,
                    samples@,
                    ring_offset as int,
                    n_new as int,
                    phase0,
                    pulsation as int,
                ),
                t_all.len() == n_new,
                cl0 == old(self).current_length as int,
                pos0 == old(self).partial_sums_pos as int,
                phase0 == old(self).current_phase as int,
                pulsation == self.pulsation,
                self.length == old(self).length,
                self.current_length == old(self).current_length,
                cap_len == self.cap(),
                self.cap() == old(self).cap(),
                1 <= self.length <= MAX_WINDOW,
                is_pow2(self.cap()),
                self.length <= self.cap(),
                self.cap() < 2 * self.length,
                self.current_length <= self.length,
                self.pulsation < FIXED_POINT_FRACTIONAL_DITHER,
                self.hist@ == old(self).hist@ + t_all.subrange(0, i as int),
                self.hist@.len() == old(self).hist@.len() + i,
                old(self).current_length <= old(self).hist@.len(),
                forall|k: int| 0 <= k < self.hist@.len() ==> term_ok(#[trigger] self.hist@[k]),
                self.current_phase == phase_at(phase0, pulsation as int, i as int),
                self.current_phase < FIXED_POINT_FRACTIONAL_DITHER,
                self.partial_sums_pos == (pos0 + i) % self.cap(),
                self.partial_sums_pos < self.cap(),
                self.state_sum_real == wrap64(sum_re(self.hist@)),
                self.state_sum_imag == wrap64(sum_im(self.hist@)),
                forall|d: int|
                    0 <= d <= cl0 + i && d <= self.cap() - 1 ==> self.entry_ok(d),
            decreases n_new - i,
        {
            let ghost prev = *self;
            let idx = (ring_offset + 1 + i + shift - n_new) % ring_len;
            let s1 = samples[idx];
            let undithered = crate::trig::fp_undither(self.current_phase);
            let s2real = trig.cos_fp(undithered);
            let s2imag = trig.sin_fp(undithered);
            proof {
                // the executable index equals the modelled ring slot
                vstd::arithmetic::div_mod::lemma_mod_multiples_vanish(
                    (n_new as int) / (ring_len as int) + 1,
                    ring_offset + 1 + i - n_new,
                    ring_len as int,
                );
            }
            let ghost t = t_all[i as int];
            proof {
                assert(t == term_of(
                    trig@,
                    phase_at(phase0, pulsation as int, i as int),
                    ring_sample(samples@, ring_offset as int, n_new as int, i as int),
                ));
                assert(s1 as int == ring_sample(
                    samples@,
                    ring_offset as int,
                    n_new as int,
                    i as int,
                ));
                assert(s2real as int == osc_cos(trig@, self.current_phase as int));
                assert(s2imag as int == osc_sin(trig@, self.current_phase as int));
                assert(-0x4000_0000 <= s1 as int * s2real as int <= 0x4000_0000
                    && -0x4000_0000 <= s1 as int * s2imag as int <= 0x4000_0000)
                    by (nonlinear_arith)
                    requires
                        -32767 <= s1 as int <= 32767,
                        -32768 <= s2real as int <= 32767,
                        -32768 <= s2imag as int <= 32767,
                ;
            }
            let partial_real = s1 * (s2real as i32);
            let partial_imag = s1 * (s2imag as i32);
            proof {
                lemma_wrapping_add_reduced(sum_re(self.hist@), partial_real as i64);
                lemma_wrapping_add_reduced(sum_im(self.hist@), partial_imag as i64);
                lemma_sum_push(self.hist@, t);
            }
            self.state_sum_real = self.state_sum_real.wrapping_add(partial_real as i64);
            self.state_sum_imag = self.state_sum_imag.wrapping_add(partial_imag as i64);
            crate::util::decr_modulo(&mut self.partial_sums_pos, cap_len);
            self.partial_sums.set(
                self.partial_sums_pos,
                ComplexI64 { re: self.state_sum_real, im: self.state_sum_imag },
            );
            self.hist = Ghost(self.hist@.push(t));
            let next_phase = (self.current_phase + pulsation)
                % (FIXED_POINT_FRACTIONAL_DITHER as u32);
            self.current_phase = next_phase;
            proof {
                let capi = cap_len as int;
                // the history prefix extends by exactly this term
                assert(t_all.subrange(0, i + 1) =~= t_all.subrange(0, i as int).push(t));
                assert(self.hist@ =~= old(self).hist@ + t_all.subrange(0, i + 1));
                // phase continues the arithmetic progression
                crate::util::lemma_mod_shift(phase0 + i * pulsation, pulsation as int, (
                FIXED_POINT_FRACTIONAL_DITHER as int));
                assert((i + 1) * pulsation == i * pulsation + pulsation) by (nonlinear_arith);
                vstd::arithmetic::div_mod::lemma_mod_bound(
                    phase0 + (i + 1) * pulsation,
                    FIXED_POINT_FRACTIONAL_DITHER as int,
                );
                // the cursor continues its congruence
                crate::util::lemma_mod_shift(pos0 + i, 1, capi);
                assert(self.partial_sums_pos == (pos0 + i + 1) % capi);
                // the freshly written slot is the new cumulative sum
                vstd::arithmetic::div_mod::lemma_small_mod(
                    self.partial_sums_pos as nat,
                    capi as nat,
                );
                lemma_suffix_zero(self.hist@);
                assert(self.entry_ok(0));
                // older slots: one step further back, contents untouched
                assert forall|d: int| 1 <= d <= cl0 + i + 1 && d <= capi - 1 implies
                    self.entry_ok(d) by {
                    crate::util::lemma_mod_shift(pos0 + i + 1, -d, capi);
                    crate::util::lemma_mod_shift(pos0 + i, -(d - 1), capi);
                    assert(back_idx(self.partial_sums_pos as int, d, capi) == back_idx(
                        prev.partial_sums_pos as int,
                        d - 1,
                        capi,
                    ));
                    lemma_back_idx_distinct(self.partial_sums_pos as int, 0, d, capi);
                    vstd::arithmetic::div_mod::lemma_mod_bound(
                        prev.partial_sums_pos - (d - 1),
                        capi,
                    );
                    assert(prev.entry_ok(d - 1));
                    lemma_suffix_push(prev.hist@, t, d - 1);
                }
            }
            i = i + 1;
        }
        let ghost at_exit = *self;
        let total = self.current_length + n_new;
        self.current_length = if total > self.length {
            self.length
        } else {
            total
        };
        proof {
            assert(t_all.subrange(0, n_new as int) =~= t_all);
            // the fill count is the only field that changed after the loop
            assert forall|d: int| 0 <= d <= self.valid_back() implies self.entry_ok(d) by {
                assert(at_exit.entry_ok(d));
            }
        }
    }

    /// Correlation sum over the samples that are between `from` and
    /// `to` samples old: the difference of two ring entries taken
    /// `from` and `to` slots behind the cursor.  This is the O(1)
    /// sub-window query the cumulative ring exists for.
    pub fn sum_ranged_from_to(&self, from: usize, to: usize) -> (r: ComplexI64)
        requires
            self.wf(),
            from <= to <= self.valid_back(),
        ensures
            r.re == range_re(self.hist@, from as int, to as int),
            r.im == range_im(self.hist@, from as int, to as int),
            r.abs_le((to - from) * (TERM_BOUND as int)),
    {
        let pos = self.partial_sums_pos;
        let cap_len = self.partial_sums.len();
        let ai = if pos >= from {
            pos - from
        } else {
            pos + cap_len - from
        };
        let bi = if pos >= to {
            pos - to
        } else {
            pos + cap_len - to
        };
        proof {
            lemma_back_idx_value(pos as int, from as int, cap_len as int);
            lemma_back_idx_value(pos as int, to as int, cap_len as int);
            assert(self.entry_ok(from as int));
            assert(self.entry_ok(to as int));
            let h = self.hist@;
            lemma_range_bound(h, from as int, to as int);
            assert((to - from) * (TERM_BOUND as int) <= 0x10000 * (TERM_BOUND as int))
                by (nonlinear_arith)
                requires 0 <= to - from <= 0x10000,
            ;
            let big_a = sum_re(h) - suffix_re(h, from as int);
            let big_b = sum_re(h) - suffix_re(h, to as int);
            lemma_wrap64_diff_exact(big_a, big_b);
            let big_c = sum_im(h) - suffix_im(h, from as int);
            let big_d = sum_im(h) - suffix_im(h, to as int);
            lemma_wrap64_diff_exact(big_c, big_d);
        }
        let a = self.partial_sums[ai];
        let b = self.partial_sums[bi];
        ComplexI64 { re: a.re.wrapping_sub(b.re), im: a.im.wrapping_sub(b.im) }
    }

    /// The full current window: every sample accumulated so far.
    pub fn sum_ranged_all(&self) -> (r: ComplexI64)
        requires
            self.wf(),
            self.current_length >= 1,
        ensures
            r.re == range_re(self.hist@, 0, self.current_length - 1),
            r.im == range_im(self.hist@, 0, self.current_length - 1),
            r.abs_le((self.current_length - 1) * (TERM_BOUND as int)),
    {
        let window_max_index = self.current_length - 1;
        self.sum_ranged_from_to(0, window_max_index)
    }

    /// Approximates a tapered windowed correlation in O(|kernel|):
    /// cuts the window into `|kernel|` nearly equal sub-ranges with a
    /// dithered integer step, takes each sub-range's raw sum from the
    /// cumulative ring, and weights it by the matching taper
    /// coefficient.  A piecewise-constant window shape, deliberately
    /// traded against cost independent of window length.
    pub fn sum_complex_kerneled(&self, kernel: &[i64]) -> (r: ComplexI64)
        requires
            self.wf(),
            self.current_length >= 1,
            1 <= kernel@.len() <= 0x10000,
            forall|i: int|
                0 <= i < kernel@.len() ==> -KERNEL_COEFF_BOUND
                    <= #[trigger] kernel@[i] <= KERNEL_COEFF_BOUND,
        ensures
            r.re == kerneled_re(
                self.hist@,
                self.current_length as int,
                kernel@,
                kernel@.len() as int,
            ),
            r.im == kerneled_im(
                self.hist@,
                self.current_length as int,
                kernel@,
                kernel@.len() as int,
            ),
            r.abs_le(0x4000_0000_0000_0000),
            r.abs_le((self.current_length - 1) * ((TERM_BOUND as int) * (
            KERNEL_COEFF_BOUND as int))),
    {
        let ghost h = self.hist@;
        let ghost cli = self.current_length as int;
        let ghost klen = kernel@.len() as int;
        let ghost tbk: int = (TERM_BOUND as int) * (KERNEL_COEFF_BOUND as int);
        let kernel_len = kernel.len();
        let window_max_index = self.current_length - 1;
        let step: u64 = ((window_max_index as u64) * KERNEL_STEP_DITHER) / (kernel_len as u64);
        let mut sum = ComplexI64 { re: 0, im: 0 };
        let mut from: usize = 0;
        let mut i: usize = 0;
        proof {
            assert(0 * kern_step(cli, klen) == 0) by (nonlinear_arith);
            vstd::arithmetic::div_mod::lemma_div_of0(KERNEL_STEP_DITHER as int);
            assert(seg_pt(cli, klen, 0) == 0);
            assert(0 * tbk == 0) by (nonlinear_arith);
        }
        while i < kernel_len
            invariant
                self.wf(),
                h == self.hist@,
                cli == self.current_length as int,
                1 <= cli <= 0x10000,
                klen == kernel@.len() as int,
                kernel_len == kernel@.len(),
                1 <= kernel_len <= 0x10000,
                forall|j: int|
                    0 <= j < kernel@.len() ==> -KERNEL_COEFF_BOUND
                        <= #[trigger] kernel@[j] <= KERNEL_COEFF_BOUND,
                tbk == (TERM_BOUND as int) * (KERNEL_COEFF_BOUND as int),
                step == kern_step(cli, klen),
                i <= kernel_len,
                from == seg_pt(cli, klen, i as int),
                from <= cli - 1,
                from <= self.valid_back(),
                sum.re == kerneled_re(h, cli, kernel@, i as int),
                sum.im == kerneled_im(h, cli, kernel@, i as int),
                -((from as int) * tbk) <= sum.re <= (from as int) * tbk,
                -((from as int) * tbk) <= sum.im <= (from as int) * tbk,
            decreases kernel_len - i,
        {
            proof {
                lemma_seg_bounds(cli, klen, i as int);
            }
            let next64 = ((i as u64) + 1) * step;
            let next = (next64 / KERNEL_STEP_DITHER) as usize;
            let range = self.sum_ranged_from_to(from, next);
            let factor = kernel[i];
            proof {
                let fi = from as int;
                let ni = next as int;
                let seg = ni - fi;
                let tb = TERM_BOUND as int;
                let kb = KERNEL_COEFF_BOUND as int;
                assert(ni == seg_pt(cli, klen, i as int + 1));
                assert(tbk == tb * kb && tbk == 0x4000_0000_0000);
                assert(-((seg * tbk)) <= factor * range.re <= seg * tbk && -((seg * tbk))
                    <= factor * range.im <= seg * tbk) by (nonlinear_arith)
                    requires
                        -((seg * tb)) <= range.re <= seg * tb,
                        -((seg * tb)) <= range.im <= seg * tb,
                        -kb <= factor <= kb,
                        0 <= seg,
                        0 < tb,
                        0 < kb,
                        tbk == tb * kb,
                ;
                assert(-((ni * tbk)) <= sum.re + factor * range.re <= ni * tbk && -((ni * tbk))
                    <= sum.im + factor * range.im <= ni * tbk) by (nonlinear_arith)
                    requires
                        -((fi * tbk)) <= sum.re <= fi * tbk,
                        -((fi * tbk)) <= sum.im <= fi * tbk,
                        -((seg * tbk)) <= factor * range.re <= seg * tbk,
                        -((seg * tbk)) <= factor * range.im <= seg * tbk,
                        ni == fi + seg,
                ;
                assert(ni * tbk <= 0x4000_0000_0000_0000) by (nonlinear_arith)
                    requires 0 <= ni <= 0x10000, tbk == 0x4000_0000_0000,
                ;
                assert(kerneled_re(h, cli, kernel@, i as int + 1) == kerneled_re(
                    h,
                    cli,
                    kernel@,
                    i as int,
                ) + kernel@[i as int] * range_re(
                    h,
                    seg_pt(cli, klen, i as int),
                    seg_pt(cli, klen, i as int + 1),
                ));
                assert(kerneled_im(h, cli, kernel@, i as int + 1) == kerneled_im(
                    h,
                    cli,
                    kernel@,
                    i as int,
                ) + kernel@[i as int] * range_im(
                    h,
                    seg_pt(cli, klen, i as int),
                    seg_pt(cli, klen, i as int + 1),
                ));
            }
            sum = ComplexI64 {
                re: sum.re + factor * range.re,
                im: sum.im + factor * range.im,
            };
            from = next;
            i = i + 1;
        }
        proof {
            assert((from as int) * tbk <= 0x4000_0000_0000_0000) by (nonlinear_arith)
                requires 0 <= from as int <= 0x10000, tbk == 0x4000_0000_0000,
            ;
            assert((from as int) * tbk <= (cli - 1) * tbk) by (nonlinear_arith)
                requires 0 <= from as int <= cli - 1, tbk >= 0,
            ;
        }
        sum
    }

    /// The window-length formula: more cycles for lower frequencies,
    /// shelf-limited near DC, clamped to the supported maximum.
    /// Frequencies are in milli-hertz.
    pub open spec fn window_size_spec(
        resolution: int,
        sample_rate: int,
        freq_mhz: int,
        low_f_shelf_mhz: int,
    ) -> int {
        let w = 20 + 4 * resolution + (resolution * sample_rate * 1000) / (low_f_shelf_mhz
            + freq_mhz);
        if w > MAX_WINDOW as int {
            MAX_WINDOW as int
        } else {
            w
        }
    }

    /// Window length for a bin: `20 + 4*resolution` plus
    /// `resolution*sample_rate/(shelf+freq)` in whole samples.
    pub fn window_size(
        resolution: u32,
        sample_rate: u32,
        freq_mhz: u64,
        low_f_shelf_mhz: u64,
    ) -> (w: usize)
        requires
            1 <= resolution <= 1024,
            1 <= sample_rate <= 1_000_000,
            low_f_shelf_mhz + freq_mhz >= 1,
            freq_mhz <= 0x10_0000_0000,
            low_f_shelf_mhz <= 0x10_0000_0000,
        ensures
            w == Self::window_size_spec(
                resolution as int,
                sample_rate as int,
                freq_mhz as int,
                low_f_shelf_mhz as int,
            ),
            1 <= w <= MAX_WINDOW,
    {
        let h: u64 = 20 + 4 * (resolution as u64);
        proof {
            assert((resolution as int) * (sample_rate as int) <= 1024 * 1_000_000)
                by (nonlinear_arith)
                requires 1 <= resolution as int <= 1024, 1 <= sample_rate as int <= 1_000_000,
            ;
        }
        let num: u64 = (resolution as u64) * (sample_rate as u64) * 1000;
        let denom: u64 = low_f_shelf_mhz + freq_mhz;
        let w: u64 = h + num / denom;
        proof {
            vstd::arithmetic::div_mod::lemma_div_pos_is_pos(num as int, denom as int);
            vstd::arithmetic::div_mod::lemma_div_is_ordered_by_denominator(
                num as int,
                1,
                denom as int,
            );
        }
        if w > MAX_WINDOW as u64 {
            MAX_WINDOW
        } else {
            w as usize
        }
    }

    /// Prefix-sum difference invariant: for any two look-back depths,
    /// the wrapping difference of the two ring entries taken that far
    /// apart re-sums exactly the history terms between those depths —
    /// each term being one raw quantized sample multiplied by the
    /// bin's local oscillator (see `advance`, whose contract fixes
    /// every history term to that product).
    pub proof fn lemma_prefix_sum_difference(&self, d1: int, d2: int)
        requires
            self.wf(),
            0 <= d1 <= d2 <= self.valid_back(),
        ensures
            vstd::wrapping::i64_specs::wrapping_sub(
                self.entry_back(d1).re,
                self.entry_back(d2).re,
            ) == sum_re(self.hist@.subrange(self.hist@.len() - d2, self.hist@.len() - d1)),
            vstd::wrapping::i64_specs::wrapping_sub(
                self.entry_back(d1).im,
                self.entry_back(d2).im,
            ) == sum_im(self.hist@.subrange(self.hist@.len() - d2, self.hist@.len() - d1)),
    {
        let h = self.hist@;
        assert(self.entry_ok(d1));
        assert(self.entry_ok(d2));
        crate::terms::lemma_range_bound(h, d1, d2);
        assert((d2 - d1) * (TERM_BOUND as int) <= 0x10000 * (TERM_BOUND as int))
            by (nonlinear_arith)
            requires 0 <= d2 - d1 <= 0x10000,
        ;
        lemma_wrap64_diff_exact(
            sum_re(h) - suffix_re(h, d1),
            sum_re(h) - suffix_re(h, d2),
        );
        lemma_wrap64_diff_exact(
            sum_im(h) - suffix_im(h, d1),
            sum_im(h) - suffix_im(h, d2),
        );
        crate::terms::lemma_range_is_resummation(h, d1, d2);
    }

    /// True when a new target length lands in the same power-of-two
    /// capacity class as the current ring, so no reallocation is needed.
    pub open spec fn same_capacity_class(&self, new_length: int) -> bool {
        new_length <= self.cap() < 2 * new_length
    }

    /// Reads the ring entry `d` slots behind the cursor.
    fn ring_entry(&self, d: usize) -> (r: ComplexI64)
        requires
            self.partial_sums_pos < self.partial_sums@.len(),
            d < self.partial_sums@.len(),
            self.partial_sums@.len() <= 0x20000,
        ensures
            r == self.entry_back(d as int),
    {
        let pos = self.partial_sums_pos;
        let cap_len = self.partial_sums.len();
        let idx = if pos >= d {
            pos - d
        } else {
            pos + cap_len - d
        };
        proof {
            lemma_back_idx_value(pos as int, d as int, cap_len as int);
        }
        self.partial_sums[idx]
    }

    /// Retargets the bin to a new pulsation and window length.
    ///
    /// If the required ring capacity class is unchanged the running
    /// sums, the ring and the history all survive untouched (the
    /// "smooth" path used constantly during live zoom).  Otherwise a
    /// ring of the new capacity is allocated; unless `empty` is set,
    /// the overlapping tail of historical cumulative sums is carried
    /// over so live analysis continues without a hard discontinuity,
    /// and only with `empty` does the bin forget its history.
    pub fn reinit_exact(&mut self, pulsation: u32, new_length: usize, empty: bool)
        requires
            old(self).wf(),
            1 <= new_length <= MAX_WINDOW,
            pulsation < FIXED_POINT_FRACTIONAL_DITHER,
        ensures
            final(self).wf(),
            final(self).length == new_length,
            final(self).pulsation == pulsation,
            final(self).current_phase == old(self).current_phase,
            // the smooth path never touches the accumulated state
            old(self).same_capacity_class(new_length as int) ==> {
                &&& final(self).hist@ == old(self).hist@
                &&& final(self).state_sum_real == old(self).state_sum_real
                &&& final(self).state_sum_imag == old(self).state_sum_imag
                &&& final(self).partial_sums@ == old(self).partial_sums@
                &&& final(self).partial_sums_pos == old(self).partial_sums_pos
                &&& final(self).current_length == if old(self).current_length
                    <= new_length {
                    old(self).current_length as int
                } else {
                    new_length as int
                }
            },
            // a reallocating, non-empty reinit still keeps sums and history
            !old(self).same_capacity_class(new_length as int) && !empty ==> {
                &&& final(self).hist@ == old(self).hist@
                &&& final(self).state_sum_real == old(self).state_sum_real
                &&& final(self).state_sum_imag == old(self).state_sum_imag
                &&& final(self).current_length == vstd::math::min(
                    old(self).current_length as int,
                    vstd::math::min(new_length - 1, old(self).cap() - 1),
                )
            },
            // an empty reallocating reinit is a full reset
            !old(self).same_capacity_class(new_length as int) && empty ==> {
                &&& final(self).hist@ == Seq::<Term>::empty()
                &&& final(self).current_length == 0
                &&& final(self).state_sum_real == 0
                &&& final(self).state_sum_imag == 0
            },
    {
        let new_capacity = crate::util::round_next_power_of_2(new_length as u32) as usize;
        proof {
            // two power-of-two capacity classes around the same length
            // coincide
            if old(self).same_capacity_class(new_length as int) {
                crate::util::lemma_pow2_le(new_capacity as int, old(self).cap());
                crate::util::lemma_pow2_le(old(self).cap(), new_capacity as int);
            }
        }
        if new_capacity == self.partial_sums.len() {
            // same capacity class: zero-allocation path
            if self.current_length > new_length {
                self.current_length = new_length;
            }
            self.length = new_length;
            self.pulsation = pulsation;
            proof {
                assert forall|d: int| 0 <= d <= self.valid_back() implies self.entry_ok(d) by {
                    assert(old(self).entry_ok(d));
                }
            }
        } else if !empty {
            // carry the overlapping tail of cumulative sums over into
            // the freshly sized ring
            let cap_len = self.partial_sums.len();
            let old_valid = if self.current_length < cap_len - 1 {
                self.current_length
            } else {
                cap_len - 1
            };
            let m = if new_length <= old_valid + 1 {
                new_length
            } else {
                old_valid + 1
            };
            let mut vec: Vec<ComplexI64> = Vec::new();
            let mut j: usize = 0;
            while j < m
                invariant
                    old(self) == self,
                    self.wf(),
                    1 <= m <= self.cap(),
                    m - 1 <= self.valid_back(),
                    j <= m,
                    vec@.len() == j,
                    forall|jj: int|
                        0 <= jj < j ==> #[trigger] vec@[jj] == self.entry_back(m - 1 - jj),
                decreases m - j,
            {
                let e = self.ring_entry(m - 1 - j);
                vec.push(e);
                j = j + 1;
            }
            while vec.len() < new_capacity
                invariant
                    old(self) == self,
                    m <= vec@.len() <= new_capacity,
                    forall|jj: int|
                        0 <= jj < m ==> #[trigger] vec@[jj] == self.entry_back(m - 1 - jj),
                decreases new_capacity - vec@.len(),
            {
                vec.push(ComplexI64 { re: 0, im: 0 });
            }
            self.partial_sums = vec;
            self.partial_sums_pos = m - 1;
            let cl_min = if self.current_length <= m - 1 {
                self.current_length
            } else {
                m - 1
            };
            self.current_length = cl_min;
            self.length = new_length;
            self.pulsation = pulsation;
            proof {
                assert forall|d: int| 0 <= d <= self.valid_back() implies self.entry_ok(d) by {
                    vstd::arithmetic::div_mod::lemma_small_mod(
                        (m - 1 - d) as nat,
                        new_capacity as nat,
                    );
                    assert(self.entry_back(d) == self.partial_sums@[m - 1 - d]);
                    assert(old(self).entry_ok(d));
                }
            }
        } else {
            // discontinuous restart: fresh zeroed ring, no history
            let mut vec: Vec<ComplexI64> = Vec::new();
            while vec.len() < new_capacity
                invariant
                    vec@.len() <= new_capacity,
                    forall|jj: int|
                        0 <= jj < vec@.len() ==> #[trigger] vec@[jj] == (ComplexI64 {
                            re: 0,
                            im: 0,
                        }),
                decreases new_capacity - vec@.len(),
            {
                vec.push(ComplexI64 { re: 0, im: 0 });
            }
            self.partial_sums = vec;
            self.partial_sums_pos = 0;
            self.state_sum_real = 0;
            self.state_sum_imag = 0;
            self.current_length = 0;
            self.hist = Ghost(Seq::empty());
            self.length = new_length;
            self.pulsation = pulsation;
            proof {
                lemma_suffix_zero(self.hist@);
                crate::wrap::lemma_wrap64_id(0);
                vstd::arithmetic::div_mod::lemma_small_mod(0nat, new_capacity as nat);
            }
        }
    }

    /// Forgets all accumulated history: zeroes the running sums, drops
    /// the ghost history, and realigns the cursor below `length`.
    pub fn reset(&mut self)
        requires
            old(self).wf(),
        ensures
            final(self).wf(),
            final(self).hist@ == Seq::<Term>::empty(),
            final(self).current_length == 0,
            final(self).state_sum_real == 0,
            final(self).state_sum_imag == 0,
            final(self).length == old(self).length,
            final(self).pulsation == old(self).pulsation,
            final(self).current_phase == old(self).current_phase,
            final(self).cap() == old(self).cap(),
    {
        self.state_sum_real = 0;
        self.state_sum_imag = 0;
        self.current_length = 0;
        self.partial_sums_pos = self.partial_sums_pos % self.length;
        // the cursor slot itself must read as the empty cumulative sum
        self.partial_sums.set(self.partial_sums_pos, ComplexI64 { re: 0, im: 0 });
        self.hist = Ghost(Seq::empty());
        proof {
            lemma_suffix_zero(self.hist@);
            crate::wrap::lemma_wrap64_id(0);
            vstd::arithmetic::div_mod::lemma_mod_bound(
                old(self).partial_sums_pos as int,
                old(self).length as int,
            );
            vstd::arithmetic::div_mod::lemma_small_mod(
                self.partial_sums_pos as nat,
                self.cap() as nat,
            );
        }
    }
}

} // verus!
