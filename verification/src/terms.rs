//! Ghost-level model of a correlator's history.
//!
//! A bin's life since its last reset is a sequence of complex terms,
//! each the product of one quantized sample with the bin's local
//! oscillator at the phase it had for that sample.  The executable code
//! stores only cumulative sums of these terms; the model keeps the
//! whole sequence, so contracts can say exactly which terms a stored
//! sum covers.

use vstd::prelude::*;

verus! {

/// Magnitude bound of one term: a quantized sample (at most 32767)
/// times a table value (at most 32768).
pub const TERM_BOUND: i64 = 0x4000_0000;

/// One correlator term.
pub ghost struct Term {
    pub re: int,
    pub im: int,
}

/// Both parts of a term lie within the product bound.
pub open spec fn term_ok(t: Term) -> bool {
    &&& -(TERM_BOUND as int) <= t.re <= TERM_BOUND as int
    &&& -(TERM_BOUND as int) <= t.im <= TERM_BOUND as int
}

/// Real part of the sum of a term sequence.
pub open spec fn sum_re(h: Seq<Term>) -> int
    decreases h.len(),
{
    if h.len() == 0 {
        0
    } else {
        sum_re(h.drop_last()) + h.last().re
    }
}

/// Imaginary part of the sum of a term sequence.
pub open spec fn sum_im(h: Seq<Term>) -> int
    decreases h.len(),
{
    if h.len() == 0 {
        0
    } else {
        sum_im(h.drop_last()) + h.last().im
    }
}

/// Sum of the last `d` terms, real part.
pub open spec fn suffix_re(h: Seq<Term>, d: int) -> int
    recommends
        0 <= d <= h.len(),
{
    sum_re(h.subrange(h.len() - d, h.len() as int))
}

/// Sum of the last `d` terms, imaginary part.
pub open spec fn suffix_im(h: Seq<Term>, d: int) -> int
    recommends
        0 <= d <= h.len(),
{
    sum_im(h.subrange(h.len() - d, h.len() as int))
}

/// Correlation sum over the terms that are between `from` and `to`
/// terms old, real part.
pub open spec fn range_re(h: Seq<Term>, from: int, to: int) -> int {
    suffix_re(h, to) - suffix_re(h, from)
}

/// Correlation sum over the terms that are between `from` and `to`
/// terms old, imaginary part.
pub open spec fn range_im(h: Seq<Term>, from: int, to: int) -> int {
    suffix_im(h, to) - suffix_im(h, from)
}

pub proof fn lemma_sum_push(h: Seq<Term>, t: Term)
    ensures
        sum_re(h.push(t)) == sum_re(h) + t.re,
        sum_im(h.push(t)) == sum_im(h) + t.im,
{
    assert(h.push(t).drop_last() =~= h);
}

pub proof fn lemma_sum_concat(a: Seq<Term>, b: Seq<Term>)
    ensures
        sum_re(a + b) == sum_re(a) + sum_re(b),
        sum_im(a + b) == sum_im(a) + sum_im(b),
    decreases b.len(),
{
    if b.len() == 0 {
        assert(a + b =~= a);
    } else {
        lemma_sum_concat(a, b.drop_last());
        assert((a + b).drop_last() =~= a + b.drop_last());
        assert((a + b).last() == b.last());
    }
}

pub proof fn lemma_suffix_zero(h: Seq<Term>)
    ensures
        suffix_re(h, 0) == 0,
        suffix_im(h, 0) == 0,
{
    assert(h.subrange(h.len() as int, h.len() as int) =~= Seq::<Term>::empty());
}

/// Appending one term extends every suffix sum by that term.
pub proof fn lemma_suffix_push(h: Seq<Term>, t: Term, d: int)
    requires
        0 <= d <= h.len(),
    ensures
        suffix_re(h.push(t), d + 1) == suffix_re(h, d) + t.re,
        suffix_im(h.push(t), d + 1) == suffix_im(h, d) + t.im,
{
    let g = h.push(t);
    assert(g.subrange(g.len() - (d + 1), g.len() as int) =~= h.subrange(
        h.len() - d,
        h.len() as int,
    ).push(t));
    lemma_sum_push(h.subrange(h.len() - d, h.len() as int), t);
}

/// A sum of bounded terms is bounded by the count times the bound.
pub proof fn lemma_sum_bound(h: Seq<Term>)
    requires
        forall|i: int| 0 <= i < h.len() ==> term_ok(#[trigger] h[i]),
    ensures
        -(h.len() as int) * (TERM_BOUND as int) <= sum_re(h) <= (h.len() as int) * (
        TERM_BOUND as int),
        -(h.len() as int) * (TERM_BOUND as int) <= sum_im(h) <= (h.len() as int) * (
        TERM_BOUND as int),
    decreases h.len(),
{
    if h.len() > 0 {
        lemma_sum_bound(h.drop_last());
        assert((h.len() - 1) * (TERM_BOUND as int) + TERM_BOUND as int == (h.len() as int) * (
        TERM_BOUND as int)) by (nonlinear_arith);
    }
}

/// A range sum is the plain sum of the corresponding slice of history:
/// the difference of two suffix sums re-sums the terms between the two
/// look-back depths.
pub proof fn lemma_range_is_resummation(h: Seq<Term>, from: int, to: int)
    requires
        0 <= from <= to <= h.len(),
    ensures
        range_re(h, from, to) == sum_re(h.subrange(h.len() - to, h.len() - from)),
        range_im(h, from, to) == sum_im(h.subrange(h.len() - to, h.len() - from)),
{
    let mid = h.subrange(h.len() - to, h.len() - from);
    let tail = h.subrange(h.len() - from, h.len() as int);
    assert(h.subrange(h.len() - to, h.len() as int) =~= mid + tail);
    lemma_sum_concat(mid, tail);
}

/// Bound on a range sum over bounded terms.
pub proof fn lemma_range_bound(h: Seq<Term>, from: int, to: int)
    requires
        0 <= from <= to <= h.len(),
        forall|i: int| 0 <= i < h.len() ==> term_ok(#[trigger] h[i]),
    ensures
        -(to - from) * (TERM_BOUND as int) <= range_re(h, from, to) <= (to - from) * (
        TERM_BOUND as int),
        -(to - from) * (TERM_BOUND as int) <= range_im(h, from, to) <= (to - from) * (
        TERM_BOUND as int),
{
    lemma_range_is_resummation(h, from, to);
    let mid = h.subrange(h.len() - to, h.len() - from);
    assert(forall|i: int| 0 <= i < mid.len() ==> term_ok(#[trigger] mid[i]));
    lemma_sum_bound(mid);
}

/// The sum of an all-zero term sequence is zero.
pub proof fn lemma_zero_sum(h: Seq<Term>)
    requires
        forall|i: int| 0 <= i < h.len() ==> (#[trigger] h[i]).re == 0 && h[i].im == 0,
    ensures
        sum_re(h) == 0,
        sum_im(h) == 0,
    decreases h.len(),
{
    if h.len() > 0 {
        lemma_zero_sum(h.drop_last());
    }
}

} // verus!
