//! Two's-complement wrapping model for the 64-bit accumulators.
//!
//! A bin's cumulative sums run forever, so the stored values are the
//! mathematical sums reduced modulo 2^64.  Differences of two stored
//! sums are still exact whenever the true difference fits in `i64`,
//! which the window bounds guarantee; these lemmas carry that argument.

use vstd::prelude::*;

verus! {

/// Mathematical integer reduced into the `i64` range modulo 2^64.
pub open spec fn wrap64(x: int) -> i64 {
    vstd::wrapping::i64_specs::signed_crop(x)
}

/// Reduction is the identity on values already in range.
pub proof fn lemma_wrap64_id(x: int)
    requires
        i64::MIN <= x <= i64::MAX,
    ensures
        wrap64(x) == x,
{
    let r: int = 0x1_0000_0000_0000_0000;
    if x >= 0 {
        vstd::arithmetic::div_mod::lemma_small_mod(x as nat, r as nat);
    } else {
        vstd::arithmetic::div_mod::lemma_mod_multiples_vanish(1, x, r);
        vstd::arithmetic::div_mod::lemma_small_mod((x + r) as nat, r as nat);
    }
}

/// Reduction only looks at the residue modulo 2^64.
pub proof fn lemma_wrap64_congruent(x: int, y: int)
    requires
        x % 0x1_0000_0000_0000_0000 == y % 0x1_0000_0000_0000_0000,
    ensures
        wrap64(x) == wrap64(y),
{
}

/// The reduced value keeps the residue of its source.
pub proof fn lemma_wrap64_mod(x: int)
    ensures
        (wrap64(x) as int) % 0x1_0000_0000_0000_0000 == x % 0x1_0000_0000_0000_0000,
{
    let r: int = 0x1_0000_0000_0000_0000;
    vstd::arithmetic::div_mod::lemma_mod_bound(x, r);
    vstd::arithmetic::div_mod::lemma_mod_twice(x, r);
    if x % r > i64::MAX {
        vstd::arithmetic::div_mod::lemma_mod_multiples_vanish(1, x % r - r, r);
        vstd::arithmetic::div_mod::lemma_mod_twice(x, r);
        assert((x % r - r + r) == x % r);
    }
}

/// Hardware wrapping addition computes the reduced mathematical sum.
pub proof fn lemma_wrapping_add64(a: i64, b: i64)
    ensures
        vstd::wrapping::i64_specs::wrapping_add(a, b) == wrap64(a as int + b as int),
{
    let r: int = 0x1_0000_0000_0000_0000;
    let x: int = a as int + b as int;
    if x > i64::MAX {
        vstd::arithmetic::div_mod::lemma_small_mod(x as nat, r as nat);
    } else if x < i64::MIN {
        vstd::arithmetic::div_mod::lemma_mod_multiples_vanish(1, x, r);
        vstd::arithmetic::div_mod::lemma_small_mod((x + r) as nat, r as nat);
    } else {
        lemma_wrap64_id(x);
    }
}

/// Hardware wrapping subtraction computes the reduced difference.
pub proof fn lemma_wrapping_sub64(a: i64, b: i64)
    ensures
        vstd::wrapping::i64_specs::wrapping_sub(a, b) == wrap64(a as int - b as int),
{
    let r: int = 0x1_0000_0000_0000_0000;
    let x: int = a as int - b as int;
    if x > i64::MAX {
        vstd::arithmetic::div_mod::lemma_small_mod(x as nat, r as nat);
    } else if x < i64::MIN {
        vstd::arithmetic::div_mod::lemma_mod_multiples_vanish(1, x, r);
        vstd::arithmetic::div_mod::lemma_small_mod((x + r) as nat, r as nat);
    } else {
        lemma_wrap64_id(x);
    }
}

/// Adding onto a reduced sum gives the reduction of the extended sum.
pub proof fn lemma_wrapping_add_reduced(s: int, b: i64)
    ensures
        vstd::wrapping::i64_specs::wrapping_add(wrap64(s), b) == wrap64(s + b),
{
    let r: int = 0x1_0000_0000_0000_0000;
    lemma_wrapping_add64(wrap64(s), b);
    lemma_wrap64_mod(s);
    vstd::arithmetic::div_mod::lemma_add_mod_noop(wrap64(s) as int, b as int, r);
    vstd::arithmetic::div_mod::lemma_add_mod_noop(s, b as int, r);
    lemma_wrap64_congruent(wrap64(s) as int + b as int, s + b as int);
}

/// Subtracting two reduced sums recovers the exact difference of the
/// underlying mathematical sums, provided that difference fits.
pub proof fn lemma_wrap64_diff_exact(big_a: int, big_b: int)
    requires
        i64::MIN <= big_a - big_b <= i64::MAX,
    ensures
        vstd::wrapping::i64_specs::wrapping_sub(wrap64(big_a), wrap64(big_b)) == big_a - big_b,
{
    let r: int = 0x1_0000_0000_0000_0000;
    let a = wrap64(big_a);
    let b = wrap64(big_b);
    lemma_wrapping_sub64(a, b);
    lemma_wrap64_mod(big_a);
    lemma_wrap64_mod(big_b);
    vstd::arithmetic::div_mod::lemma_sub_mod_noop(a as int, b as int, r);
    vstd::arithmetic::div_mod::lemma_sub_mod_noop(big_a, big_b, r);
    lemma_wrap64_congruent(a as int - b as int, big_a - big_b);
    lemma_wrap64_id(big_a - big_b);
}

} // verus!
