//! Small numeric utilities: clamping, Schlick's reflectance approximation,
//! and degree-to-radian conversion.

use vstd::prelude::*;
use crate::fx::{ONE, mag, fmul, fdiv, fx_mul, fx_div, lemma_fmul_bound};
use crate::vec::lemma_prod_lt;

verus! {

/// The circle constant at fixed-point scale, rounded down.
pub const PI_FX: i128 = 13493037704;

/// Spec-level clamp: `value` forced into `[min, max]`.
pub open spec fn clamp_s(value: int, min: int, max: int) -> int {
    if value < min {
        min
    } else if value > max {
        max
    } else {
        value
    }
}

/// `value` clamped into `[min, max]`.
pub fn clamp(value: i128, min: i128, max: i128) -> (r: i128)
    ensures
        r as int == clamp_s(value as int, min as int, max as int),
{
    if value < min {
        min
    } else if value > max {
        max
    } else {
        value
    }
}

/// The fifth power of a fixed-point scalar, rounded as its product chain rounds.
pub open spec fn pow5f(t: int) -> int {
    fmul(fmul(fmul(t, t), fmul(t, t)), t)
}

/// Spec-level Schlick reflectance.
pub open spec fn reflectance_s(cosine: int, ref_idx: int) -> int {
    let r0 = fdiv(ONE - ref_idx, ONE + ref_idx);
    let r0sq = fmul(r0, r0);
    r0sq + fmul(ONE - r0sq, pow5f(ONE - cosine))
}

/// Schlick's approximation for reflectance at a dielectric boundary.
pub fn reflectance(cosine: i128, ref_idx: i128) -> (r: i128)
    requires
        0 < ref_idx <= 0x10000000000,
        mag(cosine as int) <= 0x400000000,
    ensures
        r as int == reflectance_s(cosine as int, ref_idx as int),
{
    let r0: i128 = fx_div(ONE - ref_idx, ONE + ref_idx);
    proof {
        crate::fx::lemma_fdiv_bound(
            (ONE - ref_idx) as int,
            (ONE + ref_idx) as int,
            0x20000000000,
            ONE as int,
        );
        lemma_prod_lt(mag(r0 as int), mag(r0 as int), 0x20000000000, 0x20000000000);
        lemma_fmul_bound(r0 as int, r0 as int, 0x20000000000, 0x20000000000);
    }
    let r0sq: i128 = fx_mul(r0, r0);
    let t: i128 = ONE - cosine;
    proof {
        lemma_prod_lt(mag(t as int), mag(t as int), 0x800000000, 0x800000000);
        lemma_fmul_bound(t as int, t as int, 0x800000000, 0x800000000);
    }
    let t2: i128 = fx_mul(t, t);
    proof {
        lemma_prod_lt(mag(t2 as int), mag(t2 as int), 0x4000000000, 0x4000000000);
        lemma_fmul_bound(t2 as int, t2 as int, 0x4000000000, 0x4000000000);
    }
    let t4: i128 = fx_mul(t2, t2);
    proof {
        lemma_prod_lt(mag(t4 as int), mag(t as int), 0x100000000000, 0x800000000);
        lemma_fmul_bound(t4 as int, t as int, 0x100000000000, 0x800000000);
    }
    let t5: i128 = fx_mul(t4, t);
    proof {
        lemma_prod_lt(mag((ONE - r0sq) as int), mag(t5 as int), 0x8000000000000, 0x800000000000);
        lemma_fmul_bound((ONE - r0sq) as int, t5 as int, 0x8000000000000, 0x800000000000);
    }
    r0sq + fx_mul(ONE - r0sq, t5)
}

/// Spec-level sine: a four-term alternating series, rounded as its
/// fixed-point product chain rounds.
pub open spec fn sin_s(x: int) -> int {
    let x2 = fmul(x, x);
    let x3 = fmul(x2, x);
    let x5 = fmul(x3, x2);
    let x7 = fmul(x5, x2);
    x - fdiv(x3, 6 * (ONE as int)) + fdiv(x5, 120 * (ONE as int)) - fdiv(x7, 5040 * (ONE as int))
}

/// Spec-level cosine: a four-term alternating series.
pub open spec fn cos_s(x: int) -> int {
    let x2 = fmul(x, x);
    let x4 = fmul(x2, x2);
    let x6 = fmul(x4, x2);
    (ONE as int) - fdiv(x2, 2 * (ONE as int)) + fdiv(x4, 24 * (ONE as int)) - fdiv(
        x6,
        720 * (ONE as int),
    )
}

/// Spec-level tangent: the sine-cosine quotient, with the cosine floored
/// at one representation unit so the quotient is always defined.
pub open spec fn tan_s(x: int) -> int {
    let c = cos_s(x);
    let cg = if c < 1 {
        1
    } else {
        c
    };
    fdiv(sin_s(x), cg)
}

/// Tangent by series, for angles up to about 1.5 radians.
pub fn fx_tan(x: i128) -> (r: i128)
    requires
        0 <= x <= 0x180000000,
    ensures
        r as int == tan_s(x as int),
{
    proof {
        lemma_prod_lt(mag(x as int), mag(x as int), 0x180000000, 0x180000000);
        lemma_fmul_bound(x as int, x as int, 0x180000000, 0x180000000);
    }
    let x2: i128 = fx_mul(x, x);
    proof {
        lemma_prod_lt(mag(x2 as int), mag(x as int), 0x240000000, 0x180000000);
        lemma_fmul_bound(x2 as int, x as int, 0x240000000, 0x180000000);
    }
    let x3: i128 = fx_mul(x2, x);
    proof {
        lemma_prod_lt(mag(x3 as int), mag(x2 as int), 0x360000000, 0x240000000);
        lemma_fmul_bound(x3 as int, x2 as int, 0x360000000, 0x240000000);
    }
    let x5: i128 = fx_mul(x3, x2);
    proof {
        lemma_prod_lt(mag(x5 as int), mag(x2 as int), 0x800000000, 0x240000000);
        lemma_fmul_bound(x5 as int, x2 as int, 0x800000000, 0x240000000);
        lemma_prod_lt(mag(x2 as int), mag(x2 as int), 0x240000000, 0x240000000);
        lemma_fmul_bound(x2 as int, x2 as int, 0x240000000, 0x240000000);
    }
    let x7: i128 = fx_mul(x5, x2);
    let x4: i128 = fx_mul(x2, x2);
    proof {
        lemma_prod_lt(mag(x4 as int), mag(x2 as int), 0x520000000, 0x240000000);
        lemma_fmul_bound(x4 as int, x2 as int, 0x520000000, 0x240000000);
    }
    let x6: i128 = fx_mul(x4, x2);
    let sin: i128 = x - div_term(x3, 6 * ONE) + div_term(x5, 120 * ONE) - div_term(x7, 5040 * ONE);
    let cos: i128 = ONE - div_term(x2, 2 * ONE) + div_term(x4, 24 * ONE) - div_term(x6, 720 * ONE);
    let cg: i128 = if cos < 1 {
        1
    } else {
        cos
    };
    fx_div(sin, cg)
}

/// One series term: a bounded numerator divided by a positive constant at
/// least one unit of scale.
fn div_term(num: i128, denom: i128) -> (r: i128)
    requires
        ONE as int <= denom <= 0x2000000000000,
        mag(num as int) <= 0x10000000000,
    ensures
        r as int == fdiv(num as int, denom as int),
        mag(r as int) <= 0x10000000000,
{
    proof {
        crate::fx::lemma_fdiv_bound(num as int, denom as int, 0x10000000000, ONE as int);
    }
    fx_div(num, denom)
}

/// Degrees converted to radians at fixed-point scale.
pub fn degrees_to_radians(degrees: i128) -> (r: i128)
    requires
        mag(degrees as int) <= 0x20000000000,
    ensures
        r as int == fdiv(fmul(degrees as int, PI_FX as int), 180 * (ONE as int)),
{
    proof {
        lemma_prod_lt(mag(degrees as int), mag(PI_FX as int), 0x20000000000, 0x400000000);
        lemma_fmul_bound(degrees as int, PI_FX as int, 0x20000000000, 0x400000000);
    }
    let scaled: i128 = fx_mul(degrees, PI_FX);
    fx_div(scaled, 180 * ONE)
}

} // verus!
