//! Fixed-point scalars: an `i128` carrying 32 fractional bits.
//!
//! Multiplication and division truncate toward zero, as the corresponding
//! machine operations on signed integers do; the spec functions here give
//! those rounded results an exact integer definition that every contract in
//! the crate is stated over.

use vstd::prelude::*;

verus! {

/// The unit of the representation: the real number 1 is stored as `ONE`.
pub const ONE: i128 = 4294967296;

/// Magnitude of an integer.
pub open spec fn mag(a: int) -> int {
    if a >= 0 {
        a
    } else {
        -a
    }
}

/// Quotient of `n` by `d`, truncated toward zero (the rounding of machine
/// signed division), defined for any signs of `n` and `d`.
pub open spec fn tq(n: int, d: int) -> int
    recommends
        d != 0,
{
    let q = mag(n) / mag(d);
    if (n < 0) != (d < 0) {
        -q
    } else {
        q
    }
}

/// Fixed-point product: the scaled, truncated value of `a * b`.
pub open spec fn fmul(a: int, b: int) -> int {
    tq(a * b, ONE as int)
}

/// Fixed-point quotient: the scaled, truncated value of `a / b`.
pub open spec fn fdiv(a: int, b: int) -> int
    recommends
        b != 0,
{
    tq(a * ONE, b)
}

/// Integer square root, rounded down.
pub open spec fn isqrt(x: int) -> int
    decreases x,
{
    if x < 1 {
        0
    } else {
        let r = 2 * isqrt(x / 4);
        if (r + 1) * (r + 1) <= x {
            r + 1
        } else {
            r
        }
    }
}

/// Fixed-point square root: `isqrt` of the argument brought up to the
/// square of the scale, so the result is again a scaled value.
pub open spec fn fsqrt(a: int) -> int {
    isqrt(a * ONE)
}

/// The integer square root is the unique `r >= 0` with `r * r <= x < (r + 1) * (r + 1)`.
pub proof fn lemma_isqrt(x: int)
    requires
        x >= 0,
    ensures
        isqrt(x) >= 0,
        isqrt(x) * isqrt(x) <= x,
        x < (isqrt(x) + 1) * (isqrt(x) + 1),
    decreases x,
{
    if x < 1 {
    } else {
        let h = x / 4;
        vstd::arithmetic::div_mod::lemma_div_pos_is_pos(x, 4);
        vstd::arithmetic::div_mod::lemma_div_is_strictly_smaller(x, 4);
        lemma_isqrt(h);
        let r0 = isqrt(h);
        let r = 2 * r0;
        vstd::arithmetic::div_mod::lemma_fundamental_div_mod(x, 4);
        assert(4 * h <= x && x <= 4 * h + 3);
        assert(r * r <= 4 * h) by (nonlinear_arith)
            requires
                r == 2 * r0 && r0 * r0 <= h,
        ;
        assert(x < (r + 2) * (r + 2)) by (nonlinear_arith)
            requires
                r == 2 * r0 && h < (r0 + 1) * (r0 + 1) && x <= 4 * h + 3,
        ;
        if (r + 1) * (r + 1) <= x {
            assert(isqrt(x) == r + 1);
        } else {
            assert(isqrt(x) == r);
        }
    }
}

/// Any `r >= 0` with `r * r <= x < (r + 1) * (r + 1)` equals `isqrt(x)`.
pub proof fn lemma_isqrt_unique(x: int, r: int)
    requires
        x >= 0,
        r >= 0,
        r * r <= x,
        x < (r + 1) * (r + 1),
    ensures
        r == isqrt(x),
{
    lemma_isqrt(x);
    let s = isqrt(x);
    assert(r == s) by (nonlinear_arith)
        requires
            r >= 0 && s >= 0 && r * r <= x && x < (r + 1) * (r + 1) && s * s <= x && x < (s + 1)
                * (s + 1),
    ;
}

/// Magnitudes multiply: `mag(a * b) == mag(a) * mag(b)`.
pub proof fn lemma_mag_mul(a: int, b: int)
    ensures
        mag(a * b) == mag(a) * mag(b),
{
    assert(mag(a * b) == mag(a) * mag(b)) by (nonlinear_arith);
}

/// A truncated quotient is no larger in magnitude than its dividend,
/// and shrinks with the divisor.
pub proof fn lemma_tq_bound(n: int, d: int, bn: int)
    requires
        d != 0,
        mag(n) <= bn,
    ensures
        mag(tq(n, d)) <= bn / mag(d),
        mag(tq(n, d)) <= bn,
{
    let q = mag(n) / mag(d);
    vstd::arithmetic::div_mod::lemma_div_pos_is_pos(mag(n), mag(d));
    vstd::arithmetic::div_mod::lemma_div_is_ordered(mag(n), bn, mag(d));
    vstd::arithmetic::div_mod::lemma_div_nonincreasing(mag(n), mag(d));
    vstd::arithmetic::div_mod::lemma_div_nonincreasing(bn, mag(d));
}

/// Bound on a fixed-point product from bounds on its factors.
pub proof fn lemma_fmul_bound(a: int, b: int, ba: int, bb: int)
    requires
        mag(a) <= ba,
        mag(b) <= bb,
    ensures
        mag(fmul(a, b)) <= ba * bb / (ONE as int),
        mag(a * b) <= ba * bb,
{
    lemma_mag_mul(a, b);
    assert(mag(a) * mag(b) <= ba * bb) by (nonlinear_arith)
        requires
            0 <= mag(a) <= ba && 0 <= mag(b) <= bb,
    ;
    lemma_tq_bound(a * b, ONE as int, ba * bb);
}

/// A product of nonnegative factors is nonnegative.
pub proof fn lemma_fmul_nonneg(a: int, b: int)
    requires
        0 <= a,
        0 <= b,
    ensures
        0 <= fmul(a, b),
{
    assert(a * b >= 0) by (nonlinear_arith)
        requires
            0 <= a && 0 <= b,
    ;
    vstd::arithmetic::div_mod::lemma_div_pos_is_pos(mag(a * b), mag(ONE as int));
}

/// A quotient of a nonnegative dividend by a positive divisor is nonnegative.
pub proof fn lemma_fdiv_nonneg(a: int, b: int)
    requires
        0 <= a,
        0 < b,
    ensures
        0 <= fdiv(a, b),
{
    assert(a * (ONE as int) >= 0) by (nonlinear_arith)
        requires
            0 <= a,
    ;
    vstd::arithmetic::div_mod::lemma_div_pos_is_pos(mag(a * (ONE as int)), mag(b));
}

/// A product with a factor of at most one unit does not grow.
pub proof fn lemma_fmul_frac(a: int, c: int)
    requires
        0 <= a,
        0 <= c <= ONE as int,
    ensures
        0 <= fmul(a, c) <= a,
{
    lemma_mag_mul(a, c);
    assert(0 <= a * c <= a * (ONE as int)) by (nonlinear_arith)
        requires
            0 <= a && 0 <= c <= ONE as int,
    ;
    vstd::arithmetic::div_mod::lemma_div_pos_is_pos(a * c, ONE as int);
    vstd::arithmetic::div_mod::lemma_div_is_ordered(a * c, a * (ONE as int), ONE as int);
    vstd::arithmetic::div_mod::lemma_div_multiples_vanish(a, ONE as int);
    assert(a * (ONE as int) == (ONE as int) * a) by (nonlinear_arith);
}

/// Bound on a fixed-point quotient from a bound on the dividend and a lower
/// bound on the divisor's magnitude.
pub proof fn lemma_fdiv_bound(a: int, b: int, ba: int, dmin: int)
    requires
        mag(a) <= ba,
        1 <= dmin <= mag(b),
    ensures
        mag(fdiv(a, b)) <= ba * (ONE as int) / dmin,
{
    lemma_mag_mul(a, ONE as int);
    assert(mag(a) * (ONE as int) <= ba * (ONE as int)) by (nonlinear_arith)
        requires
            0 <= mag(a) <= ba && ONE as int >= 1,
    ;
    vstd::arithmetic::div_mod::lemma_div_is_ordered(
        mag(a * (ONE as int)),
        ba * (ONE as int),
        mag(b),
    );
    vstd::arithmetic::div_mod::lemma_div_is_ordered_by_denominator(
        ba * (ONE as int),
        dmin,
        mag(b),
    );
    vstd::arithmetic::div_mod::lemma_div_pos_is_pos(mag(a * (ONE as int)), mag(b));
}

/// Truncating division by a positive divisor is monotone in the dividend.
pub proof fn lemma_tq_mono(x: int, y: int, d: int)
    requires
        x <= y,
        d > 0,
    ensures
        tq(x, d) <= tq(y, d),
{
    vstd::arithmetic::div_mod::lemma_div_pos_is_pos(mag(x), d);
    vstd::arithmetic::div_mod::lemma_div_pos_is_pos(mag(y), d);
    if 0 <= x {
        vstd::arithmetic::div_mod::lemma_div_is_ordered(mag(x), mag(y), d);
    } else if y < 0 {
        vstd::arithmetic::div_mod::lemma_div_is_ordered(mag(y), mag(x), d);
    }
}
pub fn fx_mul(a: i128, b: i128) -> (r: i128)
    requires
        mag(a as int) * mag(b as int) < 0x40000000000000000000000000000000,
        mag(a as int) <= 0x40000000000000000000000000000000,
        mag(b as int) <= 0x40000000000000000000000000000000,
    ensures
        r as int == fmul(a as int, b as int),
{
    proof {
        lemma_mag_mul(a as int, b as int);
    }
    let ma: u128 = if a >= 0 {
        a as u128
    } else {
        (-a) as u128
    };
    let mb: u128 = if b >= 0 {
        b as u128
    } else {
        (-b) as u128
    };
    proof {
        assert(ma == mag(a as int) && mb == mag(b as int));
        assert(ma * mb == mag(a as int) * mag(b as int)) by (nonlinear_arith)
            requires
                ma == mag(a as int) && mb == mag(b as int),
        ;
    }
    let p: u128 = ma * mb;
    let q: u128 = p / (ONE as u128);
    proof {
        vstd::arithmetic::div_mod::lemma_div_nonincreasing(p as int, ONE as int);
        vstd::arithmetic::div_mod::lemma_div_pos_is_pos(p as int, ONE as int);
        assert((((a as int) < 0) != ((b as int) < 0)) ==> (a as int) * (b as int) <= 0)
            by (nonlinear_arith);
        assert((((a as int) < 0) == ((b as int) < 0)) ==> (a as int) * (b as int) >= 0)
            by (nonlinear_arith);
        assert(mag((a as int) * (b as int)) / mag(ONE as int) == q);
    }
    if (a < 0) != (b < 0) {
        -(q as i128)
    } else {
        q as i128
    }
}

/// Fixed-point division, truncating toward zero.
pub fn fx_div(a: i128, b: i128) -> (r: i128)
    requires
        b != 0,
        mag(a as int) < 0x400000000000000000000000,
        mag(b as int) <= 0x40000000000000000000000000000000,
    ensures
        r as int == fdiv(a as int, b as int),
{
    proof {
        lemma_mag_mul(a as int, ONE as int);
    }
    let ma: u128 = if a >= 0 {
        a as u128
    } else {
        (-a) as u128
    };
    let mb: u128 = if b >= 0 {
        b as u128
    } else {
        (-b) as u128
    };
    proof {
        assert(ma == mag(a as int) && mb == mag(b as int));
        assert(ma * (ONE as u128) == mag(a as int) * (ONE as int)) by (nonlinear_arith)
            requires
                ma == mag(a as int),
        ;
    }
    let n: u128 = ma * (ONE as u128);
    let q: u128 = n / mb;
    proof {
        vstd::arithmetic::div_mod::lemma_div_nonincreasing(n as int, mb as int);
        vstd::arithmetic::div_mod::lemma_div_pos_is_pos(n as int, mb as int);
        assert(mag((a as int) * (ONE as int)) == ma * (ONE as u128));
        assert(mag((a as int) * (ONE as int)) / mag(b as int) == q);
        assert((a as int) * (ONE as int) < 0 <==> (a as int) < 0) by (nonlinear_arith);
    }
    if (a < 0) != (b < 0) {
        -(q as i128)
    } else {
        q as i128
    }
}

/// Fixed-point square root of a nonnegative scalar.
pub fn fx_sqrt(a: i128) -> (r: i128)
    requires
        0 <= a,
        a < 0x400000000000000000000000,
    ensures
        r as int == fsqrt(a as int),
        r >= 0,
{
    proof {
        assert((a as u128) * (ONE as u128) == (a as int) * (ONE as int) && (a as int) * (ONE
            as int) < 0x4000000000000000000000000000000000000000) by (nonlinear_arith)
            requires
                0 <= a < 0x400000000000000000000000,
        ;
    }
    let x: u128 = (a as u128) * (ONE as u128);
    let mut lo: u128 = 0;
    let mut hi: u128 = 9223372036854775808;
    proof {
        assert(x < hi * hi) by (nonlinear_arith)
            requires
                x == (a as u128) * (ONE as u128) && a < 0x400000000000000000000000 && a >= 0 && hi
                    == 9223372036854775808,
        ;
    }
    while lo + 1 < hi
        invariant
            lo < hi,
            hi <= 9223372036854775808,
            lo * lo <= x,
            x < hi * hi,
        decreases hi - lo,
    {
        let mid: u128 = lo + (hi - lo) / 2;
        proof {
            assert(lo < mid && mid < hi) by (nonlinear_arith)
                requires
                    mid == lo + (hi - lo) / 2 && lo + 1 < hi,
            ;
            assert(mid * mid < 0x40000000000000000000000000000000) by (nonlinear_arith)
                requires
                    mid < 9223372036854775808u128,
            ;
        }
        if mid * mid <= x {
            lo = mid;
        } else {
            hi = mid;
        }
    }
    proof {
        assert(x < (lo + 1) * (lo + 1)) by (nonlinear_arith)
            requires
                x < hi * hi && lo + 1 >= hi && lo < hi,
        ;
        lemma_isqrt_unique(x as int, lo as int);
        assert(x as int == (a as int) * (ONE as int)) by (nonlinear_arith)
            requires
                x == (a as u128) * (ONE as u128) && a >= 0,
        ;
    }
    lo as i128
}

} // verus!
