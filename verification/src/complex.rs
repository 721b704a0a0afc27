//! Integer complex values used by the correlators.
//!
//! The correlator accumulates products of quantized samples and
//! fixed-point oscillator values, so everything here stays in `i64`
//! with explicit bounds instead of floating point.

use vstd::prelude::*;
use crate::trig::TrigTable;
use crate::trig::QUANTIZER_LEVELS;
use crate::trig::cosine_at;
use crate::trig::sine_at;

verus! {

/// Truncating division (rounds toward zero), for a positive divisor.
pub open spec fn tdiv(a: int, b: int) -> int {
    if a >= 0 {
        a / b
    } else {
        -((-a) / b)
    }
}

/// A complex value with 32-bit parts.
#[derive(Default, Clone)]
pub struct ComplexI32 {
    pub re: i32,
    pub im: i32,
}

/// A complex value with 64-bit parts; the accumulator element of every
/// partial-sum ring.
#[derive(PartialEq, Eq, Structural, Default, Clone, Copy, Debug)]
pub struct ComplexI64 {
    pub re: i64,
    pub im: i64,
}

impl ComplexI64 {
    /// Both parts bounded by `b` in magnitude.
    pub open spec fn abs_le(&self, b: int) -> bool {
        -b <= self.re <= b && -b <= self.im <= b
    }

    /// Squared Euclidean magnitude.
    pub fn magnitude_squared(&self) -> (r: i64)
        requires
            self.abs_le(0x7FFF_FFFF),
        ensures
            r == self.re * self.re + self.im * self.im,
            0 <= r,
    {
        proof {
            let re = self.re as int;
            let im = self.im as int;
            assert(re * re + im * im < 0x8000_0000_0000_0000) by (nonlinear_arith)
                requires
                    -0x7FFF_FFFF <= re <= 0x7FFF_FFFF && -0x7FFF_FFFF <= im <= 0x7FFF_FFFF,
            ;
            assert(re * re >= 0 && im * im >= 0) by (nonlinear_arith);
        }
        self.re * self.re + self.im * self.im
    }

    /// Component-wise sum.
    pub fn add(&self, other: &ComplexI64) -> (r: ComplexI64)
        requires
            self.re + other.re <= i64::MAX,
            self.re + other.re >= i64::MIN,
            self.im + other.im <= i64::MAX,
            self.im + other.im >= i64::MIN,
        ensures
            r.re == self.re + other.re,
            r.im == self.im + other.im,
    {
        ComplexI64 { re: self.re + other.re, im: self.im + other.im }
    }

    /// Rotates by a fixed-point angle using the sine table, then scales
    /// back down by one quantization range.
    pub fn rotate(&self, angle: u32, trig: &TrigTable) -> (r: ComplexI64)
        requires
            trig.wf(),
            self.abs_le(0x4000_0000_0000),
        ensures
            ({
                let c = cosine_at(trig@, angle as int);
                let s = sine_at(trig@, angle as int);
                r.re == tdiv(self.re * c - self.im * s, QUANTIZER_LEVELS + 1)
                    && r.im == tdiv(self.re * s + self.im * c, QUANTIZER_LEVELS + 1)
            }),
            r.abs_le(0x8000_0000_0000),
    {
        let re = self.re;
        let im = self.im;

        let c = trig.cos_fp(angle) as i64;
        let s = trig.sin_fp(angle) as i64;

        proof {
            let b: int = 0x4000_0000_0000;
            let q: int = 0x8000;
            assert(forall|x: int, y: int|
                -b <= x <= b && -q <= y <= q ==> -b * q <= #[trigger] (x * y) <= b * q)
                by (nonlinear_arith);
            lemma_tdiv_bound(re * c - im * s, q, 2 * b * q);
            lemma_tdiv_bound(re * s + im * c, q, 2 * b * q);
            vstd::arithmetic::div_mod::lemma_div_by_multiple(2 * b, q);
        }
        ComplexI64 {
            re: (re * c - im * s) / (QUANTIZER_LEVELS + 1),
            im: (re * s + im * c) / (QUANTIZER_LEVELS + 1),
        }
    }
}

/// Truncating division divides the magnitude bound of the dividend.
pub proof fn lemma_tdiv_bound(a: int, b: int, m: int)
    requires
        b > 0,
        0 <= m,
        -m <= a <= m,
    ensures
        -(m / b) <= tdiv(a, b) <= m / b,
{
    if a >= 0 {
        vstd::arithmetic::div_mod::lemma_div_is_ordered(a, m, b);
        vstd::arithmetic::div_mod::lemma_div_pos_is_pos(a, b);
        vstd::arithmetic::div_mod::lemma_div_pos_is_pos(m, b);
    } else {
        vstd::arithmetic::div_mod::lemma_div_is_ordered(-a, m, b);
        vstd::arithmetic::div_mod::lemma_div_pos_is_pos(-a, b);
        vstd::arithmetic::div_mod::lemma_div_pos_is_pos(m, b);
    }
}

} // verus!
