//! Small index helpers shared by the ring buffers.

use vstd::prelude::*;

verus! {

/// Remainder of `a` modulo `b`, shifted into `[0, b)`.
pub fn positive_mod(a: i32, b: i32) -> (r: usize)
    requires
        b > 0,
    ensures
        r == (a as int) % (b as int),
{
    let shifted: i64 = a as i64 + b as i64 * 0x1_0000_0000;
    let x: i64 = shifted % (b as i64);
    proof {
        vstd::arithmetic::div_mod::lemma_mod_multiples_vanish(
            0x1_0000_0000,
            a as int,
            b as int,
        );
        vstd::arithmetic::div_mod::lemma_mod_division_less_than_divisor(a as int, b as int);
    }
    x as usize
}

/// Steps a ring-buffer cursor forward by one slot, wrapping at `len`.
///
/// The cursor walks the cumulative-sum ring, so advancing the write
/// position is how the newest entry replaces the oldest one.
pub fn decr_modulo(pos: &mut usize, len: usize)
    requires
        len >= 1,
        *old(pos) < len,
    ensures
        *final(pos) == (*old(pos) + 1) % (len as int),
        *final(pos) < len,
{
    if *pos == len - 1 {
        proof {
            vstd::arithmetic::div_mod::lemma_mod_self_0(len as int);
        }
        *pos = 0;
    } else {
        proof {
            vstd::arithmetic::div_mod::lemma_small_mod((*pos + 1) as nat, len as nat);
        }
        *pos = *pos + 1;
    }
}

/// True when `v` is a power of two.
pub open spec fn is_pow2(v: int) -> bool
    decreases v,
{
    if v <= 0 {
        false
    } else if v == 1 {
        true
    } else {
        v % 2 == 0 && is_pow2(v / 2)
    }
}

/// Reducing the left summand modulo `m` does not change a sum's residue.
pub proof fn lemma_mod_shift(a: int, b: int, m: int)
    requires
        m > 0,
    ensures
        ((a % m) + b) % m == (a + b) % m,
{
    vstd::arithmetic::div_mod::lemma_fundamental_div_mod(a, m);
    vstd::arithmetic::div_mod::lemma_mod_multiples_vanish(-(a / m), a + b, m);
    assert(m * (-(a / m)) + (a + b) == (a % m) + b) by (nonlinear_arith)
        requires a % m == a - m * (a / m),
    ;
}

/// A power of two below twice another power of two cannot exceed it.
pub proof fn lemma_pow2_le(a: int, b: int)
    requires
        is_pow2(a),
        is_pow2(b),
        a < 2 * b,
    ensures
        a <= b,
    decreases a,
{
    if a > 1 {
        if b == 1 {
            // a < 2 contradicts a > 1
        } else {
            lemma_pow2_le(a / 2, b / 2);
        }
    }
}

/// Smallest power of two that is at least `v`.
pub fn round_next_power_of_2(v: u32) -> (r: u32)
    requires
        1 <= v <= 0x8000_0000,
    ensures
        is_pow2(r as int),
        r >= v,
        v > r / 2,
{
    let mut r: u32 = 1;
    while r < v
        invariant
            1 <= v <= 0x8000_0000,
            1 <= r,
            is_pow2(r as int),
            v > r / 2,
            r <= 0x8000_0000,
        decreases 0x8000_0000 - r,
    {
        proof {
            assert(is_pow2(0x4000_0000)) by {
                reveal_with_fuel(is_pow2, 32);
            }
            lemma_pow2_le(r as int, 0x4000_0000);
        }
        r = r * 2;
    }
    r
}

/// The integer square root: the unique `r` with `r² <= x < (r+1)²`.
pub open spec fn sqrt_floor(x: int) -> int {
    choose|r: int| 0 <= r && #[trigger] (r * r) <= x && x < (r + 1) * (r + 1)
}

/// Any two values satisfying the square-root property coincide.
pub proof fn lemma_sqrt_floor_unique(x: int, a: int, b: int)
    requires
        0 <= a,
        a * a <= x,
        x < (a + 1) * (a + 1),
        0 <= b,
        b * b <= x,
        x < (b + 1) * (b + 1),
    ensures
        a == b,
{
    if a < b {
        assert((a + 1) * (a + 1) <= b * b) by (nonlinear_arith)
            requires 0 <= a, a + 1 <= b,
        ;
    }
    if b < a {
        assert((b + 1) * (b + 1) <= a * a) by (nonlinear_arith)
            requires 0 <= b, b + 1 <= a,
        ;
    }
}

/// A witness for the square-root property pins down `sqrt_floor`.
pub proof fn lemma_sqrt_floor_of(x: int, r: int)
    requires
        0 <= r,
        r * r <= x,
        x < (r + 1) * (r + 1),
    ensures
        sqrt_floor(x) == r,
{
    assert(exists|q: int| 0 <= q && #[trigger] (q * q) <= x && x < (q + 1) * (q + 1)) by {
        assert(0 <= r && r * r <= x && x < (r + 1) * (r + 1));
    }
    let w = sqrt_floor(x);
    lemma_sqrt_floor_unique(x, r, w);
}

/// Binary-search integer square root.
pub fn isqrt_u64(x: u64) -> (r: u64)
    ensures
        r * r <= x,
        x < (r + 1) * (r + 1),
        r == sqrt_floor(x as int),
{
    let mut lo: u64 = 0;
    let mut hi: u64 = 0x1_0000_0000;
    proof {
        assert((0x1_0000_0000int) * 0x1_0000_0000 > x) by (nonlinear_arith)
            requires x <= 0xFFFF_FFFF_FFFF_FFFF,
        ;
    }
    while lo + 1 < hi
        invariant
            lo < hi <= 0x1_0000_0000,
            lo * lo <= x,
            x < hi * hi,
        decreases hi - lo,
    {
        let mid = lo + (hi - lo) / 2;
        proof {
            assert(mid * mid < 0x1_0000_0000_0000_0000) by (nonlinear_arith)
                requires 0 <= mid < 0x1_0000_0000,
            ;
        }
        if mid * mid <= x {
            lo = mid;
        } else {
            hi = mid;
        }
    }
    proof {
        assert((lo + 1) * (lo + 1) == hi * hi) by (nonlinear_arith)
            requires lo + 1 == hi,
        ;
        let w = sqrt_floor(x as int);
        assert(0 <= lo as int && lo as int * lo as int <= x as int && x < (lo as int + 1) * (
        lo as int + 1));
        assert(0 <= w && w * w <= x && x < (w + 1) * (w + 1)) by {
            assert(exists|r: int|
                0 <= r && #[trigger] (r * r) <= x && x < (r + 1) * (r + 1)) by {
                assert(0 <= lo as int && lo as int * lo as int <= x as int && x < (lo as int + 1)
                    * (lo as int + 1));
            }
        }
        lemma_sqrt_floor_unique(x as int, lo as int, w);
    }
    lo
}

} // verus!
