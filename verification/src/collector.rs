//! Window kernels: normalized tapering coefficients for the kerneled
//! (piecewise-constant) windowed convolution.
//!
//! Coefficients are fixed-point integers in units of `KERNEL_ONE`.
//! The rectangular and Blackman–Nuttall shapes are generated here from
//! the shared sine table; the exponential and log-normal shapes need a
//! transcendental evaluation that has no integer form, so their
//! coefficient vectors are supplied by the embedding program and only
//! validated and normalized here.

use vstd::prelude::*;
use crate::trig::TrigTable;
use crate::trig::cosine_at;
use crate::dftbin::KERNEL_COEFF_BOUND;

verus! {

/// Fixed-point unit of a taper coefficient.
pub const KERNEL_ONE: i64 = 0xFFF0;

/// The four supported window shapes.
#[derive(Clone, Copy, PartialEq, Eq, Structural, Debug)]
pub enum WindowType {
    Rect,
    BlackmanNutall,
    ExpBlackman,
    LogNormal,
}

impl WindowType {
    /// Stable small integer for each shape, for cycling through them.
    pub fn to_index(self) -> (r: u8)
        ensures
            r < 4,
            self == WindowType::Rect <==> r == 0,
            self == WindowType::BlackmanNutall <==> r == 1,
            self == WindowType::ExpBlackman <==> r == 2,
            self == WindowType::LogNormal <==> r == 3,
    {
        match self {
            WindowType::Rect => 0,
            WindowType::BlackmanNutall => 1,
            WindowType::ExpBlackman => 2,
            WindowType::LogNormal => 3,
        }
    }

    /// Inverse of `to_index`; anything out of range is refused.
    pub fn try_from_index(v: u8) -> (r: Option<WindowType>)
        ensures
            r is Some <==> v < 4,
            v < 4 ==> r->Some_0.to_index_spec() == v,
    {
        match v {
            0 => Some(WindowType::Rect),
            1 => Some(WindowType::BlackmanNutall),
            2 => Some(WindowType::ExpBlackman),
            3 => Some(WindowType::LogNormal),
            _ => None,
        }
    }

    /// Spec twin of `to_index`.
    pub open spec fn to_index_spec(self) -> u8 {
        match self {
            WindowType::Rect => 0,
            WindowType::BlackmanNutall => 1,
            WindowType::ExpBlackman => 2,
            WindowType::LogNormal => 3,
        }
    }
}

/// Blackman–Nuttall coefficient at tap `nn` of `n`, evaluated on the
/// integer sine table and clamped into the accepted coefficient range.
/// The four cosine harmonics are sampled at `x = (nn + 0.5) / n` turns;
/// divisions round toward zero like the machine arithmetic.
pub open spec fn bn_coeff(table: Seq<i16>, nn: int, n: int) -> int {
    let c1 = cosine_at(table, ((2 * nn + 1) * 16384) / n);
    let c2 = cosine_at(table, ((2 * nn + 1) * 32768) / n);
    let c3 = cosine_at(table, ((2 * nn + 1) * 49152) / n);
    let raw = crate::complex::tdiv(
        3635819 * (KERNEL_ONE as int) - crate::complex::tdiv(
            4891775 * (KERNEL_ONE as int) * c1,
            32767,
        ) + crate::complex::tdiv(1365995 * (KERNEL_ONE as int) * c2, 32767)
            - crate::complex::tdiv(106411 * (KERNEL_ONE as int) * c3, 32767),
        10000000,
    );
    if raw > KERNEL_ONE as int {
        KERNEL_ONE as int
    } else if raw < -(KERNEL_ONE as int) {
        -(KERNEL_ONE as int)
    } else {
        raw
    }
}

/// The generated taper and its normalization term.
pub struct Collector {
    /// The shape the kernel was built from.
    pub windowtype: WindowType,
    /// Fixed-point taper coefficients, one per window subdivision.
    pub kernel: Vec<i64>,
    /// Mean coefficient in `KERNEL_ONE` units: the normalization the
    /// magnitude of a collected bin is divided by, so a taller or
    /// longer kernel does not change the displayed scale.
    pub kernel_sum: i64,
}

impl Collector {
    /// A usable kernel: non-empty, bounded coefficients, positive mean.
    pub open spec fn wf(&self) -> bool {
        &&& 1 <= self.kernel@.len() <= 0x10000
        &&& forall|i: int|
            0 <= i < self.kernel@.len() ==> -KERNEL_COEFF_BOUND
                <= #[trigger] self.kernel@[i] <= KERNEL_COEFF_BOUND
        &&& 1 <= self.kernel_sum <= KERNEL_COEFF_BOUND
    }

    /// Wraps an externally generated coefficient vector (the
    /// exponential and log-normal shapes).  It succeeds exactly when
    /// the vector is non-empty and not oversized, every coefficient is
    /// within the accepted range, and the integer mean is at least one
    /// fixed-point unit to normalize by.
    pub fn from_coefficients(windowtype: WindowType, kernel: Vec<i64>) -> (r: Option<Collector>)
        ensures
            r is Some ==> r->Some_0.wf() && r->Some_0.kernel@ == kernel@
                && r->Some_0.windowtype == windowtype && r->Some_0.kernel_sum
                == crate::complex::tdiv(coeff_sum(kernel@), kernel@.len() as int),
            r is Some <==> {
                &&& 1 <= kernel@.len() <= 0x10000
                &&& forall|i: int|
                    0 <= i < kernel@.len() ==> -KERNEL_COEFF_BOUND <= #[trigger] kernel@[i]
                        <= KERNEL_COEFF_BOUND
                &&& crate::complex::tdiv(coeff_sum(kernel@), kernel@.len() as int) >= 1
            },
    {
        let n = kernel.len();
        if n < 1 || n > 0x10000 {
            return None;
        }
        let mut total: i64 = 0;
        let mut i: usize = 0;
        while i < n
            invariant
                n == kernel@.len(),
                1 <= n <= 0x10000,
                i <= n,
                forall|j: int|
                    0 <= j < i ==> -KERNEL_COEFF_BOUND <= #[trigger] kernel@[j]
                        <= KERNEL_COEFF_BOUND,
                -(i as int) * (KERNEL_COEFF_BOUND as int) <= total <= (i as int) * (
                KERNEL_COEFF_BOUND as int),
                total == coeff_sum(kernel@.subrange(0, i as int)),
            decreases n - i,
        {
            let k = kernel[i];
            if k < -KERNEL_COEFF_BOUND || k > KERNEL_COEFF_BOUND {
                return None;
            }
            proof {
                assert((i as int + 1) * (KERNEL_COEFF_BOUND as int) == (i as int) * (
                KERNEL_COEFF_BOUND as int) + KERNEL_COEFF_BOUND) by (nonlinear_arith);
                assert((i as int + 1) * (KERNEL_COEFF_BOUND as int) <= 0x10001 * (
                KERNEL_COEFF_BOUND as int)) by (nonlinear_arith)
                    requires i as int + 1 <= 0x10001,
                ;
            }
            proof {
                assert(kernel@.subrange(0, i + 1).drop_last() =~= kernel@.subrange(
                    0,
                    i as int,
                ));
            }
            total = total + k;
            i = i + 1;
        }
        proof {
            assert(kernel@.subrange(0, n as int) =~= kernel@);
        }
        let kernel_sum = total / (n as i64);
        if kernel_sum < 1 {
            return None;
        }
        proof {
            let nk = n as int;
            let kb = KERNEL_COEFF_BOUND as int;
            if total >= 0 {
                vstd::arithmetic::div_mod::lemma_div_is_ordered(total as int, nk * kb, nk);
                assert(nk * kb == kb * nk) by (nonlinear_arith);
                vstd::arithmetic::div_mod::lemma_div_by_multiple(kb, nk);
            } else {
                vstd::arithmetic::div_mod::lemma_div_pos_is_pos(-(total as int), nk);
            }
        }
        Some(Collector { windowtype, kernel, kernel_sum })
    }
}

/// Sum of a coefficient vector.
pub open spec fn coeff_sum(s: Seq<i64>) -> int
    decreases s.len(),
{
    if s.len() == 0 {
        0
    } else {
        coeff_sum(s.drop_last()) + s.last()
    }
}

/// The fixed rectangular coefficient, `0.99` in fixed point.
pub const RECT_COEFF: i64 = 64864;

/// Builds the taper for the two shapes that have an integer form.
/// `n` is the subdivision count; the rectangular shape always has one
/// flat tap.  The normalization term is the mean coefficient, raised
/// to one fixed-point unit if the taper sums below it.
pub fn init_collector(n: usize, windowtype: WindowType, trig: &TrigTable) -> (r: Collector)
    requires
        trig.wf(),
        1 <= n <= 1024,
        windowtype == WindowType::Rect || windowtype == WindowType::BlackmanNutall,
    ensures
        r.wf(),
        r.windowtype == windowtype,
        windowtype == WindowType::Rect ==> r.kernel@.len() == 1 && r.kernel@[0] == RECT_COEFF,
        windowtype == WindowType::BlackmanNutall ==> r.kernel@.len() == n && forall|j: int|
            0 <= j < n ==> #[trigger] r.kernel@[j] == bn_coeff(trig@, j, n as int),
        r.kernel_sum == ({
            let mean = crate::complex::tdiv(coeff_sum(r.kernel@), r.kernel@.len() as int);
            if mean < 1 {
                1int
            } else {
                mean
            }
        }),
{
    let kernel: Vec<i64> = match windowtype {
        WindowType::Rect => {
            let mut v: Vec<i64> = Vec::new();
            v.push(RECT_COEFF);
            v
        },
        _ => {
            let mut v: Vec<i64> = Vec::new();
            let mut nn: usize = 0;
            while nn < n
                invariant
                    trig.wf(),
                    1 <= n <= 1024,
                    nn <= n,
                    v@.len() == nn,
                    forall|j: int| 0 <= j < nn ==> #[trigger] v@[j] == bn_coeff(trig@, j, n as int),
                decreases n - nn,
            {
                let phase1: u32 = (((2 * (nn as u64) + 1) * 16384) / (n as u64)) as u32;
                let phase2: u32 = (((2 * (nn as u64) + 1) * 32768) / (n as u64)) as u32;
                let phase3: u32 = (((2 * (nn as u64) + 1) * 49152) / (n as u64)) as u32;
                let c1 = trig.cos_fp(phase1) as i64;
                let c2 = trig.cos_fp(phase2) as i64;
                let c3 = trig.cos_fp(phase3) as i64;
                let t1 = (4891775 * KERNEL_ONE * c1) / 32767;
                let t2 = (1365995 * KERNEL_ONE * c2) / 32767;
                let t3 = (106411 * KERNEL_ONE * c3) / 32767;
                proof {
                    crate::complex::lemma_tdiv_bound(
                        4891775 * (KERNEL_ONE as int) * c1,
                        32767,
                        4891775 * (KERNEL_ONE as int) * 32768,
                    );
                    crate::complex::lemma_tdiv_bound(
                        1365995 * (KERNEL_ONE as int) * c2,
                        32767,
                        1365995 * (KERNEL_ONE as int) * 32768,
                    );
                    crate::complex::lemma_tdiv_bound(
                        106411 * (KERNEL_ONE as int) * c3,
                        32767,
                        106411 * (KERNEL_ONE as int) * 32768,
                    );
                }
                let raw = (3635819 * KERNEL_ONE - t1 + t2 - t3) / 10000000;
                let k = if raw > KERNEL_ONE {
                    KERNEL_ONE
                } else if raw < -KERNEL_ONE {
                    -KERNEL_ONE
                } else {
                    raw
                };
                v.push(k);
                nn = nn + 1;
            }
            v
        },
    };
    let n_k = kernel.len();
    let mut total: i64 = 0;
    let mut i: usize = 0;
    while i < n_k
        invariant
            n_k == kernel@.len(),
            1 <= n_k <= 0x10000,
            i <= n_k,
            forall|j: int|
                0 <= j < kernel@.len() ==> -KERNEL_COEFF_BOUND <= #[trigger] kernel@[j]
                    <= KERNEL_COEFF_BOUND,
            total == coeff_sum(kernel@.subrange(0, i as int)),
            -(i as int) * (KERNEL_COEFF_BOUND as int) <= total <= (i as int) * (
            KERNEL_COEFF_BOUND as int),
        decreases n_k - i,
    {
        proof {
            assert(kernel@.subrange(0, i + 1).drop_last() =~= kernel@.subrange(0, i as int));
            assert((i as int + 1) * (KERNEL_COEFF_BOUND as int) == (i as int) * (
            KERNEL_COEFF_BOUND as int) + KERNEL_COEFF_BOUND) by (nonlinear_arith);
            assert((i as int + 1) * (KERNEL_COEFF_BOUND as int) <= 0x10001 * (
            KERNEL_COEFF_BOUND as int)) by (nonlinear_arith)
                requires i as int + 1 <= 0x10001,
            ;
        }
        total = total + kernel[i];
        i = i + 1;
    }
    proof {
        assert(kernel@.subrange(0, n_k as int) =~= kernel@);
    }
    let mean = total / (n_k as i64);
    proof {
        let nk = n_k as int;
        let kb = KERNEL_COEFF_BOUND as int;
        if total >= 0 {
            vstd::arithmetic::div_mod::lemma_div_is_ordered(total as int, nk * kb, nk);
            assert(nk * kb == kb * nk) by (nonlinear_arith);
            vstd::arithmetic::div_mod::lemma_div_by_multiple(kb, nk);
            vstd::arithmetic::div_mod::lemma_div_pos_is_pos(total as int, nk);
        } else {
            vstd::arithmetic::div_mod::lemma_div_pos_is_pos(-(total as int), nk);
        }
    }
    let kernel_sum = if mean < 1 {
        1
    } else {
        mean
    };
    Collector { windowtype, kernel, kernel_sum }
}

} // verus!
