//! The vector kernel: three-component fixed-point vectors with exact
//! contracts for every algebraic operation.
//!
//! The mathematical model of a vector is `V3`, a triple of unbounded
//! integers; every executable operation states its result as a spec-level
//! function over `V3` values.

use vstd::prelude::*;
use crate::fx::{
    ONE,
    mag,
    fmul,
    fdiv,
    fsqrt,
    fx_mul,
    fx_div,
    fx_sqrt,
    lemma_mag_mul,
    lemma_tq_bound,
    lemma_fmul_bound,
};

verus! {

/// Mathematical value of a vector: three unbounded integers at fixed-point scale.
pub ghost struct V3 {
    pub x: int,
    pub y: int,
    pub z: int,
}

/// Every component has magnitude at most `b`.
pub open spec fn okv(v: V3, b: int) -> bool {
    mag(v.x) <= b && mag(v.y) <= b && mag(v.z) <= b
}

/// Component-wise sum.
pub open spec fn add3(a: V3, b: V3) -> V3 {
    V3 { x: a.x + b.x, y: a.y + b.y, z: a.z + b.z }
}

/// Component-wise difference.
pub open spec fn sub3(a: V3, b: V3) -> V3 {
    V3 { x: a.x - b.x, y: a.y - b.y, z: a.z - b.z }
}

/// Negation.
pub open spec fn neg3(a: V3) -> V3 {
    V3 { x: -a.x, y: -a.y, z: -a.z }
}

/// Scaling by a fixed-point scalar.
pub open spec fn scale3(a: V3, s: int) -> V3 {
    V3 { x: fmul(a.x, s), y: fmul(a.y, s), z: fmul(a.z, s) }
}

/// Component-wise division by a fixed-point scalar.
pub open spec fn sdiv3(a: V3, s: int) -> V3 {
    V3 { x: fdiv(a.x, s), y: fdiv(a.y, s), z: fdiv(a.z, s) }
}

/// Component-wise (Hadamard) product.
pub open spec fn prod3(a: V3, b: V3) -> V3 {
    V3 { x: fmul(a.x, b.x), y: fmul(a.y, b.y), z: fmul(a.z, b.z) }
}

/// Dot product.
pub open spec fn dot3(a: V3, b: V3) -> int {
    fmul(a.x, b.x) + fmul(a.y, b.y) + fmul(a.z, b.z)
}

/// Squared length.
pub open spec fn lsq3(a: V3) -> int {
    dot3(a, a)
}

/// Length: fixed-point square root of the squared length.
pub open spec fn len3(a: V3) -> int {
    fsqrt(lsq3(a))
}

/// Normalized vector.
pub open spec fn unit3(a: V3) -> V3 {
    sdiv3(a, len3(a))
}

/// Cross product.
pub open spec fn cross3(a: V3, b: V3) -> V3 {
    V3 {
        x: fmul(a.y, b.z) - fmul(a.z, b.y),
        y: fmul(a.z, b.x) - fmul(a.x, b.z),
        z: fmul(a.x, b.y) - fmul(a.y, b.x),
    }
}

/// Reflection of `v` about the normal `n`: `v - 2 (v . n) n`.
pub open spec fn reflect3(v: V3, n: V3) -> V3 {
    sub3(v, scale3(n, 2 * dot3(v, n)))
}

/// All components below the near-zero threshold in magnitude.
pub open spec fn near_zero3(v: V3) -> bool {
    mag(v.x) < 43 && mag(v.y) < 43 && mag(v.z) < 43
}

/// Refraction of `v` at a surface with normal `n` for the given ratio of
/// refractive indices, in the standard two-component vector form of
/// Snell's law (cosine clamped from above to counter rounding overshoot).
pub open spec fn refract3(v: V3, n: V3, ratio: int) -> V3 {
    let c0 = dot3(neg3(v), n);
    let cos = if c0 > ONE as int {
        ONE as int
    } else {
        c0
    };
    let perp = scale3(add3(v, scale3(n, cos)), ratio);
    let par = scale3(n, -fsqrt(mag(ONE - lsq3(perp))));
    add3(perp, par)
}

/// Component-wise product preconditions follow from bounds on the factors.
pub proof fn lemma_mul_pre(a: V3, b: V3, ba: int, bb: int)
    requires
        okv(a, ba),
        okv(b, bb),
        0 <= ba,
        0 <= bb,
        ba * bb < 0x40000000000000000000000000000000,
        ba <= 0x40000000000000000000000000000000,
        bb <= 0x40000000000000000000000000000000,
    ensures
        mag(a.x) * mag(b.x) < 0x40000000000000000000000000000000,
        mag(a.y) * mag(b.y) < 0x40000000000000000000000000000000,
        mag(a.z) * mag(b.z) < 0x40000000000000000000000000000000,
        mag(a.x) <= 0x40000000000000000000000000000000,
        mag(a.y) <= 0x40000000000000000000000000000000,
        mag(a.z) <= 0x40000000000000000000000000000000,
        mag(b.x) <= 0x40000000000000000000000000000000,
        mag(b.y) <= 0x40000000000000000000000000000000,
        mag(b.z) <= 0x40000000000000000000000000000000,
{
    lemma_prod_lt(mag(a.x), mag(b.x), ba, bb);
    lemma_prod_lt(mag(a.y), mag(b.y), ba, bb);
    lemma_prod_lt(mag(a.z), mag(b.z), ba, bb);
}

/// A product of nonnegative factors below given bounds stays below the
/// bounds' product, and each factor below it too.
pub proof fn lemma_prod_lt(p: int, q: int, bp: int, bq: int)
    requires
        0 <= p <= bp,
        0 <= q <= bq,
        bp * bq < 0x40000000000000000000000000000000,
        bp <= 0x40000000000000000000000000000000,
        bq <= 0x40000000000000000000000000000000,
    ensures
        p * q < 0x40000000000000000000000000000000,
        p <= 0x40000000000000000000000000000000,
        q <= 0x40000000000000000000000000000000,
{
    assert(p * q <= bp * bq) by (nonlinear_arith)
        requires
            0 <= p <= bp && 0 <= q <= bq,
    ;
    assert(bp * bq >= 0) by (nonlinear_arith)
        requires
            0 <= bp && 0 <= bq,
    ;
}

/// Scalar product preconditions follow from bounds on vector and scalar.
pub proof fn lemma_scale_pre(a: V3, s: int, ba: int, bs: int)
    requires
        okv(a, ba),
        mag(s) <= bs,
        0 <= ba,
        0 <= bs,
        ba * bs < 0x40000000000000000000000000000000,
        ba <= 0x40000000000000000000000000000000,
        bs <= 0x40000000000000000000000000000000,
    ensures
        mag(a.x) * mag(s) < 0x40000000000000000000000000000000,
        mag(a.y) * mag(s) < 0x40000000000000000000000000000000,
        mag(a.z) * mag(s) < 0x40000000000000000000000000000000,
        mag(a.x) <= 0x40000000000000000000000000000000,
        mag(a.y) <= 0x40000000000000000000000000000000,
        mag(a.z) <= 0x40000000000000000000000000000000,
        mag(s) <= 0x40000000000000000000000000000000,
{
    lemma_mul_pre(a, V3 { x: s, y: s, z: s }, ba, bs);
}

/// Bound on a dot product from bounds on its arguments.
pub proof fn lemma_dot_bound(a: V3, b: V3, ba: int, bb: int)
    requires
        okv(a, ba),
        okv(b, bb),
        0 <= ba,
        0 <= bb,
    ensures
        mag(dot3(a, b)) <= 3 * (ba * bb / (ONE as int)),
{
    lemma_fmul_bound(a.x, b.x, ba, bb);
    lemma_fmul_bound(a.y, b.y, ba, bb);
    lemma_fmul_bound(a.z, b.z, ba, bb);
}

/// Bound on a scaled vector from bounds on its inputs.
pub proof fn lemma_scale_bound(a: V3, s: int, ba: int, bs: int)
    requires
        okv(a, ba),
        mag(s) <= bs,
        0 <= ba,
        0 <= bs,
    ensures
        okv(scale3(a, s), ba * bs / (ONE as int)),
{
    lemma_fmul_bound(a.x, s, ba, bs);
    lemma_fmul_bound(a.y, s, ba, bs);
    lemma_fmul_bound(a.z, s, ba, bs);
}

/// Negating one factor negates a fixed-point product.
pub proof fn lemma_fmul_neg(a: int, b: int)
    ensures
        fmul(a, -b) == -fmul(a, b),
{
    assert(a * (-b) == -(a * b)) by (nonlinear_arith);
}

/// Negating one argument negates a dot product.
pub proof fn lemma_dot_neg(a: V3, b: V3)
    ensures
        dot3(a, neg3(b)) == -dot3(a, b),
{
    lemma_fmul_neg(a.x, b.x);
    lemma_fmul_neg(a.y, b.y);
    lemma_fmul_neg(a.z, b.z);
}

/// Bound on a vector divided by a scalar, from a bound on the vector and a
/// lower bound on the scalar's magnitude.
pub proof fn lemma_sdiv_bound(a: V3, s: int, ba: int, dmin: int)
    requires
        okv(a, ba),
        1 <= dmin <= mag(s),
    ensures
        okv(sdiv3(a, s), ba * (ONE as int) / dmin),
{
    crate::fx::lemma_fdiv_bound(a.x, s, ba, dmin);
    crate::fx::lemma_fdiv_bound(a.y, s, ba, dmin);
    crate::fx::lemma_fdiv_bound(a.z, s, ba, dmin);
}

/// Bound on a cross product from bounds on its arguments.
pub proof fn lemma_cross_bound(a: V3, b: V3, ba: int, bb: int)
    requires
        okv(a, ba),
        okv(b, bb),
        0 <= ba,
        0 <= bb,
    ensures
        okv(cross3(a, b), 2 * (ba * bb / (ONE as int))),
{
    lemma_fmul_bound(a.y, b.z, ba, bb);
    lemma_fmul_bound(a.z, b.y, ba, bb);
    lemma_fmul_bound(a.z, b.x, ba, bb);
    lemma_fmul_bound(a.x, b.z, ba, bb);
    lemma_fmul_bound(a.x, b.y, ba, bb);
    lemma_fmul_bound(a.y, b.x, ba, bb);
}

/// A squared length is never negative.
pub proof fn lemma_lsq_nonneg(a: V3)
    ensures
        lsq3(a) >= 0,
{
    assert(a.x * a.x >= 0 && a.y * a.y >= 0 && a.z * a.z >= 0) by (nonlinear_arith);
    vstd::arithmetic::div_mod::lemma_div_pos_is_pos(a.x * a.x, ONE as int);
    vstd::arithmetic::div_mod::lemma_div_pos_is_pos(a.y * a.y, ONE as int);
    vstd::arithmetic::div_mod::lemma_div_pos_is_pos(a.z * a.z, ONE as int);
}

/// One component of a normalized vector: bounding the component against the
/// squared length pins its quotient by the length near the unit scale.
proof fn lemma_unit_comp(c: int, lsq: int, l: int)
    requires
        fmul(c, c) <= lsq,
        1 <= lsq,
        1 <= l,
        l * l <= lsq * (ONE as int),
        lsq * (ONE as int) < (l + 1) * (l + 1),
    ensures
        mag(fdiv(c, l)) <= 3 * (ONE as int),
{
    let s = ONE as int;
    assert(c * c >= 0) by (nonlinear_arith);
    vstd::arithmetic::div_mod::lemma_div_pos_is_pos(c * c, s);
    assert(fmul(c, c) == (c * c) / s);
    vstd::arithmetic::div_mod::lemma_fundamental_div_mod(c * c, s);
    vstd::arithmetic::div_mod::lemma_mod_bound(c * c, s);
    assert(c * c < s * ((c * c) / s) + s);
    assert(c * c < 9 * (l * l)) by (nonlinear_arith)
        requires
            c * c < s * ((c * c) / s) + s && (c * c) / s <= lsq && 1 <= lsq && 1 <= l && lsq * s
                < (l + 1) * (l + 1) && s == ONE as int,
    ;
    assert(mag(c) <= 3 * l) by (nonlinear_arith)
        requires
            c * c < 9 * (l * l) && l >= 1,
    ;
    lemma_mag_mul(c, s);
    assert(mag(c) * s <= l * (3 * s)) by (nonlinear_arith)
        requires
            mag(c) <= 3 * l && s >= 1 && l >= 1,
    ;
    vstd::arithmetic::div_mod::lemma_div_is_ordered(mag(c) * s, l * (3 * s), l);
    vstd::arithmetic::div_mod::lemma_div_multiples_vanish(3 * s, l);
    vstd::arithmetic::div_mod::lemma_div_pos_is_pos(mag(c) * s, l);
}

/// A normalized vector has components within three units of scale, and the
/// length it was divided by is positive.
pub proof fn lemma_unit_bound(v: V3)
    requires
        okv(v, 0x4000000000000000),
        lsq3(v) >= 1,
    ensures
        len3(v) >= 1,
        okv(unit3(v), 3 * (ONE as int)),
{
    let s = ONE as int;
    let lsq = lsq3(v);
    let l = len3(v);
    lemma_lsq_nonneg(v);
    assert(lsq * s >= s) by (nonlinear_arith)
        requires
            lsq >= 1 && s == ONE as int,
    ;
    crate::fx::lemma_isqrt(lsq * s);
    assert(l >= 1) by {
        if l < 1 {
            assert(l == 0);
            assert((l + 1) * (l + 1) == 1) by (nonlinear_arith)
                requires
                    l == 0,
            ;
            assert(lsq * s < (l + 1) * (l + 1));
            assert(false);
        }
    }
    lemma_lsq_nonneg(v);
    assert(fmul(v.x, v.x) >= 0 && fmul(v.y, v.y) >= 0 && fmul(v.z, v.z) >= 0) by {
        assert(v.x * v.x >= 0 && v.y * v.y >= 0 && v.z * v.z >= 0) by (nonlinear_arith);
        vstd::arithmetic::div_mod::lemma_div_pos_is_pos(v.x * v.x, s);
        vstd::arithmetic::div_mod::lemma_div_pos_is_pos(v.y * v.y, s);
        vstd::arithmetic::div_mod::lemma_div_pos_is_pos(v.z * v.z, s);
    }
    lemma_unit_comp(v.x, lsq, l);
    lemma_unit_comp(v.y, lsq, l);
    lemma_unit_comp(v.z, lsq, l);
}

/// A fixed-dimension numeric vector; the components are fixed-point scalars.
#[derive(Clone, Copy, Debug, PartialEq, Eq, Structural)]
pub struct Vector {
    pub x: i128,
    pub y: i128,
    pub z: i128,
}

impl View for Vector {
    type V = V3;

    open spec fn view(&self) -> V3 {
        V3 { x: self.x as int, y: self.y as int, z: self.z as int }
    }
}

impl Vector {
    /// Component-wise sum of two vectors.
    pub fn add_vec(&self, other: &Vector) -> (r: Vector)
        requires
            okv(self@, 0x20000000000000000000000000000000),
            okv(other@, 0x20000000000000000000000000000000),
        ensures
            r@ == add3(self@, other@),
    {
        Vector { x: self.x + other.x, y: self.y + other.y, z: self.z + other.z }
    }

    /// Component-wise difference of two vectors.
    pub fn sub_vec(&self, other: &Vector) -> (r: Vector)
        requires
            okv(self@, 0x20000000000000000000000000000000),
            okv(other@, 0x20000000000000000000000000000000),
        ensures
            r@ == sub3(self@, other@),
    {
        Vector { x: self.x - other.x, y: self.y - other.y, z: self.z - other.z }
    }

    /// Negation of a vector.
    pub fn neg(&self) -> (r: Vector)
        requires
            okv(self@, 0x20000000000000000000000000000000),
        ensures
            r@ == neg3(self@),
    {
        Vector { x: -self.x, y: -self.y, z: -self.z }
    }

    /// The vector scaled by a fixed-point scalar.
    pub fn scale(&self, s: i128) -> (r: Vector)
        requires
            mag(self@.x) * mag(s as int) < 0x40000000000000000000000000000000,
            mag(self@.y) * mag(s as int) < 0x40000000000000000000000000000000,
            mag(self@.z) * mag(s as int) < 0x40000000000000000000000000000000,
            mag(self@.x) <= 0x40000000000000000000000000000000,
            mag(self@.y) <= 0x40000000000000000000000000000000,
            mag(self@.z) <= 0x40000000000000000000000000000000,
            mag(s as int) <= 0x40000000000000000000000000000000,
        ensures
            r@ == scale3(self@, s as int),
    {
        Vector { x: fx_mul(self.x, s), y: fx_mul(self.y, s), z: fx_mul(self.z, s) }
    }

    /// The vector divided component-wise by a fixed-point scalar.
    pub fn scale_div(&self, s: i128) -> (r: Vector)
        requires
            s != 0,
            okv(self@, 0x200000000000000000000000),
            mag(s as int) <= 0x40000000000000000000000000000000,
        ensures
            r@ == sdiv3(self@, s as int),
    {
        Vector { x: fx_div(self.x, s), y: fx_div(self.y, s), z: fx_div(self.z, s) }
    }

    /// Component-wise product of two vectors.
    pub fn prod(&self, other: &Vector) -> (r: Vector)
        requires
            mag(self@.x) * mag(other@.x) < 0x40000000000000000000000000000000,
            mag(self@.y) * mag(other@.y) < 0x40000000000000000000000000000000,
            mag(self@.z) * mag(other@.z) < 0x40000000000000000000000000000000,
            okv(self@, 0x40000000000000000000000000000000),
            okv(other@, 0x40000000000000000000000000000000),
        ensures
            r@ == prod3(self@, other@),
    {
        Vector {
            x: fx_mul(self.x, other.x),
            y: fx_mul(self.y, other.y),
            z: fx_mul(self.z, other.z),
        }
    }

    /// Dot product of two vectors.
    pub fn dot(&self, other: &Vector) -> (r: i128)
        requires
            mag(self@.x) * mag(other@.x) < 0x40000000000000000000000000000000,
            mag(self@.y) * mag(other@.y) < 0x40000000000000000000000000000000,
            mag(self@.z) * mag(other@.z) < 0x40000000000000000000000000000000,
            okv(self@, 0x40000000000000000000000000000000),
            okv(other@, 0x40000000000000000000000000000000),
        ensures
            r as int == dot3(self@, other@),
    {
        let px: i128 = fx_mul(self.x, other.x);
        let py: i128 = fx_mul(self.y, other.y);
        let pz: i128 = fx_mul(self.z, other.z);
        proof {
            lemma_mag_mul(self@.x, other@.x);
            lemma_mag_mul(self@.y, other@.y);
            lemma_mag_mul(self@.z, other@.z);
            lemma_tq_bound(
                (self@.x) * (other@.x),
                ONE as int,
                0x3fffffffffffffffffffffffffffffff,
            );
            lemma_tq_bound(
                (self@.y) * (other@.y),
                ONE as int,
                0x3fffffffffffffffffffffffffffffff,
            );
            lemma_tq_bound(
                (self@.z) * (other@.z),
                ONE as int,
                0x3fffffffffffffffffffffffffffffff,
            );
        }
        px + py + pz
    }

    /// Squared length of the vector.
    pub fn length_squared(&self) -> (r: i128)
        requires
            mag(self@.x) * mag(self@.x) < 0x40000000000000000000000000000000,
            mag(self@.y) * mag(self@.y) < 0x40000000000000000000000000000000,
            mag(self@.z) * mag(self@.z) < 0x40000000000000000000000000000000,
            okv(self@, 0x40000000000000000000000000000000),
        ensures
            r as int == lsq3(self@),
            r >= 0,
    {
        proof {
            lemma_lsq_nonneg(self@);
        }
        self.dot(self)
    }

    /// All components below the fixed near-zero threshold.
    pub fn near_zero(&self) -> (r: bool)
        requires
            okv(self@, 0x20000000000000000000000000000000),
        ensures
            r == near_zero3(self@),
    {
        let nx: bool = if self.x >= 0 {
            self.x < 43
        } else {
            -self.x < 43
        };
        let ny: bool = if self.y >= 0 {
            self.y < 43
        } else {
            -self.y < 43
        };
        let nz: bool = if self.z >= 0 {
            self.z < 43
        } else {
            -self.z < 43
        };
        nx && ny && nz
    }

    /// Length of the vector.
    pub fn length(&self) -> (r: i128)
        requires
            okv(self@, 0x4000000000000000),
        ensures
            r as int == len3(self@),
            r >= 0,
    {
        proof {
            lemma_mul_pre(self@, self@, 0x4000000000000000, 0x4000000000000000);
            lemma_dot_bound(self@, self@, 0x4000000000000000, 0x4000000000000000);
            lemma_lsq_nonneg(self@);
        }
        let lsq: i128 = self.length_squared();
        fx_sqrt(lsq)
    }

    /// The vector scaled to unit length.
    pub fn unit_vector(&self) -> (r: Vector)
        requires
            okv(self@, 0x4000000000000000),
            lsq3(self@) >= 1,
        ensures
            r@ == unit3(self@),
            okv(r@, 3 * (ONE as int)),
            len3(self@) >= 1,
    {
        proof {
            lemma_unit_bound(self@);
            lemma_mul_pre(self@, self@, 0x4000000000000000, 0x4000000000000000);
            lemma_dot_bound(self@, self@, 0x4000000000000000, 0x4000000000000000);
            crate::fx::lemma_isqrt(lsq3(self@) * (ONE as int));
            assert(lsq3(self@) * (ONE as int) < 0x40000000000000000000000000000000)
                by (nonlinear_arith)
                requires
                    0 <= lsq3(self@) <= 0x300000000000000000000000,
            ;
            assert(len3(self@) < 0x8000000000000000) by (nonlinear_arith)
                requires
                    len3(self@) >= 0 && len3(self@) * len3(self@)
                        < 0x40000000000000000000000000000000,
            ;
        }
        let l: i128 = self.length();
        self.scale_div(l)
    }

    /// Reflection about a surface normal: `v - 2 (v . n) n`.
    pub fn reflect(&self, n: &Vector) -> (r: Vector)
        requires
            okv(self@, 0x100000000000),
            okv(n@, 0x100000000000),
        ensures
            r@ == reflect3(self@, n@),
    {
        proof {
            lemma_mul_pre(self@, n@, 0x100000000000, 0x100000000000);
            lemma_dot_bound(self@, n@, 0x100000000000, 0x100000000000);
        }
        let d: i128 = self.dot(n);
        let k: i128 = 2 * d;
        proof {
            lemma_scale_pre(n@, k as int, 0x100000000000, 0x1000000000000000);
            lemma_scale_bound(n@, k as int, 0x100000000000, 0x1000000000000000);
        }
        let scaled: Vector = n.scale(k);
        self.sub_vec(&scaled)
    }

    /// Refraction at a surface with normal `n`, for the given ratio of
    /// refractive indices (the standard vector form of Snell's law).
    pub fn refract(&self, n: &Vector, ratio: i128) -> (r: Vector)
        requires
            okv(self@, 0x300000000),
            okv(n@, 0x400000000),
            0 < ratio <= 0x4000000000,
        ensures
            r@ == refract3(self@, n@, ratio as int),
    {
        let mn: Vector = self.neg();
        proof {
            lemma_mul_pre(mn@, n@, 0x300000000, 0x400000000);
            lemma_dot_bound(mn@, n@, 0x300000000, 0x400000000);
        }
        let c0: i128 = mn.dot(n);
        let cos: i128 = if c0 > ONE {
            ONE
        } else {
            c0
        };
        proof {
            lemma_scale_pre(n@, cos as int, 0x400000000, 0x4000000000);
            lemma_scale_bound(n@, cos as int, 0x400000000, 0x4000000000);
        }
        let cn: Vector = n.scale(cos);
        let sum: Vector = self.add_vec(&cn);
        proof {
            lemma_scale_pre(sum@, ratio as int, 0x20000000000, 0x4000000000);
            lemma_scale_bound(sum@, ratio as int, 0x20000000000, 0x4000000000);
        }
        let perp: Vector = sum.scale(ratio);
        proof {
            lemma_mul_pre(perp@, perp@, 0x800000000000, 0x800000000000);
            lemma_dot_bound(perp@, perp@, 0x800000000000, 0x800000000000);
        }
        let pl: i128 = perp.length_squared();
        let diff: i128 = ONE - pl;
        let ad: i128 = if diff >= 0 {
            diff
        } else {
            -diff
        };
        let sq: i128 = fx_sqrt(ad);
        proof {
            assert(0 <= ad < 0x20000000000000000);
            crate::fx::lemma_isqrt((ad as int) * (ONE as int));
            assert((ad as int) * (ONE as int) < 0x2000000000000000000000000) by (nonlinear_arith)
                requires
                    0 <= (ad as int) < 0x20000000000000000,
            ;
            assert(mag(sq as int) <= 0x2000000000000) by (nonlinear_arith)
                requires
                    sq >= 0 && (sq as int) * (sq as int) < 0x2000000000000000000000000,
            ;
            lemma_scale_pre(n@, -(sq as int), 0x400000000, 0x2000000000000);
            lemma_scale_bound(n@, -(sq as int), 0x400000000, 0x2000000000000);
        }
        let par: Vector = n.scale(-sq);
        perp.add_vec(&par)
    }

    /// In-place component-wise sum.
    pub fn add_assign(&mut self, other: &Vector)
        requires
            okv(old(self)@, 0x20000000000000000000000000000000),
            okv(other@, 0x20000000000000000000000000000000),
        ensures
            final(self)@ == add3(old(self)@, other@),
    {
        self.x = self.x + other.x;
        self.y = self.y + other.y;
        self.z = self.z + other.z;
    }

    /// In-place component-wise difference.
    pub fn sub_assign(&mut self, other: &Vector)
        requires
            okv(old(self)@, 0x20000000000000000000000000000000),
            okv(other@, 0x20000000000000000000000000000000),
        ensures
            final(self)@ == sub3(old(self)@, other@),
    {
        self.x = self.x - other.x;
        self.y = self.y - other.y;
        self.z = self.z - other.z;
    }

    /// In-place scaling by a fixed-point scalar.
    pub fn scale_mult_assign(&mut self, s: i128)
        requires
            mag(old(self)@.x) * mag(s as int) < 0x40000000000000000000000000000000,
            mag(old(self)@.y) * mag(s as int) < 0x40000000000000000000000000000000,
            mag(old(self)@.z) * mag(s as int) < 0x40000000000000000000000000000000,
            mag(old(self)@.x) <= 0x40000000000000000000000000000000,
            mag(old(self)@.y) <= 0x40000000000000000000000000000000,
            mag(old(self)@.z) <= 0x40000000000000000000000000000000,
            mag(s as int) <= 0x40000000000000000000000000000000,
        ensures
            final(self)@ == scale3(old(self)@, s as int),
    {
        self.x = fx_mul(self.x, s);
        self.y = fx_mul(self.y, s);
        self.z = fx_mul(self.z, s);
    }

    /// In-place component-wise division by a fixed-point scalar.
    pub fn scale_div_assign(&mut self, s: i128)
        requires
            s != 0,
            okv(old(self)@, 0x200000000000000000000000),
            mag(s as int) <= 0x40000000000000000000000000000000,
        ensures
            final(self)@ == sdiv3(old(self)@, s as int),
    {
        self.x = fx_div(self.x, s);
        self.y = fx_div(self.y, s);
        self.z = fx_div(self.z, s);
    }

    /// The components in order, as a vector of scalars.
    pub fn iter(&self) -> (r: Vec<i128>)
        ensures
            r@.len() == 3,
            r@[0] == self@.x,
            r@[1] == self@.y,
            r@[2] == self@.z,
    {
        let mut out: Vec<i128> = Vec::new();
        out.push(self.x);
        out.push(self.y);
        out.push(self.z);
        out
    }
}

/// A product with a unit fraction stays within `[0, d]`.
pub proof fn lemma_fmul_unit_range(u: int, d: int)
    requires
        0 <= u < ONE as int,
        0 <= d,
    ensures
        0 <= fmul(u, d) <= d,
{
    lemma_mag_mul(u, d);
    assert(u * d >= 0 && u * d <= (ONE as int) * d) by (nonlinear_arith)
        requires
            0 <= u < ONE as int && 0 <= d,
    ;
    vstd::arithmetic::div_mod::lemma_div_pos_is_pos(u * d, ONE as int);
    vstd::arithmetic::div_mod::lemma_div_is_ordered(u * d, (ONE as int) * d, ONE as int);
    vstd::arithmetic::div_mod::lemma_div_multiples_vanish(d, ONE as int);
}

impl Vector {
    /// A vector of three fresh unit fractions, each uniform in `[0, 1)`.
    pub fn rand(rng: &mut crate::rng::Rng64) -> (r: Vector)
        ensures
            final(rng).state == crate::rng::next_s(
                crate::rng::next_s(crate::rng::next_s(old(rng).state)),
            ),
            r@.x == crate::rng::unit_of(crate::rng::next_s(old(rng).state)),
            r@.y == crate::rng::unit_of(crate::rng::next_s(crate::rng::next_s(old(rng).state))),
            r@.z == crate::rng::unit_of(
                crate::rng::next_s(crate::rng::next_s(crate::rng::next_s(old(rng).state))),
            ),
            okv(r@, ONE as int),
    {
        let x: i128 = rng.next_unit();
        let y: i128 = rng.next_unit();
        let z: i128 = rng.next_unit();
        Vector { x, y, z }
    }

    /// A vector of three fresh fractions, each uniform in `[min, max]`.
    pub fn rand_range(rng: &mut crate::rng::Rng64, min: i128, max: i128) -> (r: Vector)
        requires
            min <= max,
            mag(min as int) <= 0x4000000000000000,
            mag(max as int) <= 0x4000000000000000,
        ensures
            final(rng).state == crate::rng::next_s(
                crate::rng::next_s(crate::rng::next_s(old(rng).state)),
            ),
            r@.x == min + fmul(crate::rng::unit_of(crate::rng::next_s(old(rng).state)), max - min),
            r@.y == min + fmul(
                crate::rng::unit_of(crate::rng::next_s(crate::rng::next_s(old(rng).state))),
                max - min,
            ),
            r@.z == min + fmul(
                crate::rng::unit_of(
                    crate::rng::next_s(crate::rng::next_s(crate::rng::next_s(old(rng).state))),
                ),
                max - min,
            ),
            min as int <= r@.x <= max as int,
            min as int <= r@.y <= max as int,
            min as int <= r@.z <= max as int,
    {
        let d: i128 = max - min;
        let u1: i128 = rng.next_unit();
        let u2: i128 = rng.next_unit();
        let u3: i128 = rng.next_unit();
        proof {
            lemma_prod_lt(mag(u1 as int), mag(d as int), ONE as int, 0x8000000000000000);
            lemma_prod_lt(mag(u2 as int), mag(d as int), ONE as int, 0x8000000000000000);
            lemma_prod_lt(mag(u3 as int), mag(d as int), ONE as int, 0x8000000000000000);
            lemma_fmul_unit_range(u1 as int, d as int);
            lemma_fmul_unit_range(u2 as int, d as int);
            lemma_fmul_unit_range(u3 as int, d as int);
        }
        Vector { x: min + fx_mul(u1, d), y: min + fx_mul(u2, d), z: min + fx_mul(u3, d) }
    }

    /// A fresh vector strictly inside the unit sphere, by rejection
    /// sampling with a draw cap; the fallback after the cap is a fixed
    /// interior point, so the result is never outside the sphere. The
    /// generator advances by three steps per attempt; result and final
    /// state are exactly those of `sphere_sample_rec`.
    pub fn rand_in_unit_sphere(rng: &mut crate::rng::Rng64) -> (r: Vector)
        ensures
            lsq3(r@) < ONE as int,
            okv(r@, ONE as int),
            r@ == sphere_sample_rec(old(rng).state, 32).0,
            final(rng).state == sphere_sample_rec(old(rng).state, 32).1,
    {
        let ghost s0: u64 = rng.state;
        let mut i: u64 = 0;
        while i < 32
            invariant
                i <= 32,
                s0 == old(rng).state,
                sphere_sample_rec(s0, 32) == sphere_sample_rec(rng.state, (32 - i) as nat),
            decreases 32 - i,
        {
            let ghost sb: u64 = rng.state;
            let (p, inside): (Vector, bool) = sphere_attempt(rng);
            if inside {
                proof {
                    assert(sphere_sample_rec(sb, (32 - i) as nat) == (
                        try_of(sb),
                        crate::rng::nth_s(sb, 3),
                    ));
                    assert(s0 == old(rng).state);
                    assert(p@ == sphere_sample_rec(s0, 32).0);
                    assert(rng.state == sphere_sample_rec(s0, 32).1);
                }
                return p;
            }
            proof {
                assert(sphere_sample_rec(sb, (32 - i) as nat) == sphere_sample_rec(
                    crate::rng::nth_s(sb, 3),
                    (32 - i - 1) as nat,
                ));
            }
            i = i + 1;
        }
        proof {
            let fb = V3 { x: 2147483648int, y: 0int, z: 0int };
            assert(sphere_sample_rec(rng.state, 0) == (fb, rng.state));
            assert(lsq3(fb) == fmul(2147483648, 2147483648) + fmul(0, 0) + fmul(0, 0));
            vstd::arithmetic::div_mod::lemma_fundamental_div_mod_converse(
                4611686018427387904,
                4294967296,
                1073741824,
                0,
            );
            vstd::arithmetic::div_mod::lemma_fundamental_div_mod_converse(0, 4294967296, 0, 0);
            assert(fmul(2147483648, 2147483648) == 1073741824);
            assert(fmul(0, 0) == 0);
        }
        Vector { x: 2147483648, y: 0, z: 0 }
    }

    /// A fresh direction of roughly unit length: the rejection sample from
    /// the unit sphere, normalized; a degenerate (near-null) sample falls
    /// back to a fixed axis direction. Result and final state are pinned to
    /// the modeled generator.
    pub fn rand_unit_vector(rng: &mut crate::rng::Rng64) -> (r: Vector)
        ensures
            okv(r@, 3 * (ONE as int)),
            final(rng).state == sphere_sample_rec(old(rng).state, 32).1,
            r@ == ({
                let smp = sphere_sample_rec(old(rng).state, 32).0;
                if lsq3(smp) >= 1 {
                    unit3(smp)
                } else {
                    V3 { x: ONE as int, y: 0, z: 0 }
                }
            }),
    {
        let p: Vector = Vector::rand_in_unit_sphere(rng);
        proof {
            lemma_mul_pre(p@, p@, ONE as int, ONE as int);
        }
        let lsq: i128 = p.length_squared();
        if lsq >= 1 {
            p.unit_vector()
        } else {
            Vector { x: ONE, y: 0, z: 0 }
        }
    }
}

/// One rejection draw: the candidate from three generator advances, and
/// whether it lies strictly inside the unit sphere.
fn sphere_attempt(rng: &mut crate::rng::Rng64) -> (r: (Vector, bool))
    ensures
        r.0@ == try_of(old(rng).state),
        final(rng).state == crate::rng::nth_s(old(rng).state, 3),
        r.1 == (lsq3(try_of(old(rng).state)) < ONE as int),
        okv(r.0@, ONE as int),
{
    let ghost sb: u64 = rng.state;
    let p: Vector = Vector::rand_range(rng, -ONE, ONE);
    proof {
        assert(crate::rng::nth_s(sb, 0) == sb);
        assert(crate::rng::nth_s(sb, 1) == crate::rng::next_s(crate::rng::nth_s(sb, 0)));
        assert(crate::rng::nth_s(sb, 2) == crate::rng::next_s(crate::rng::nth_s(sb, 1)));
        assert(crate::rng::nth_s(sb, 3) == crate::rng::next_s(crate::rng::nth_s(sb, 2)));
        assert(p@ == try_of(sb));
        lemma_mul_pre(p@, p@, ONE as int, ONE as int);
    }
    let lsq: i128 = p.length_squared();
    (p, lsq < ONE)
}

/// One rejection-sampling candidate, drawn from three generator advances
/// starting at state `s`: each component uniform in `[-1, 1]`.
pub open spec fn try_of(s: u64) -> V3 {
    V3 {
        x: -(ONE as int) + fmul(crate::rng::unit_of(crate::rng::nth_s(s, 1)), 2 * (ONE as int)),
        y: -(ONE as int) + fmul(crate::rng::unit_of(crate::rng::nth_s(s, 2)), 2 * (ONE as int)),
        z: -(ONE as int) + fmul(crate::rng::unit_of(crate::rng::nth_s(s, 3)), 2 * (ONE as int)),
    }
}

/// The rejection sampler's result and final generator state, given `tries`
/// remaining draws: the first candidate strictly inside the unit sphere,
/// or the fixed interior fallback once the draw cap is spent.
pub open spec fn sphere_sample_rec(s: u64, tries: nat) -> (V3, u64)
    decreases tries,
{
    if tries == 0 {
        (V3 { x: 2147483648, y: 0, z: 0 }, s)
    } else {
        let c = try_of(s);
        let s3 = crate::rng::nth_s(s, 3);
        if lsq3(c) < ONE as int {
            (c, s3)
        } else {
            sphere_sample_rec(s3, (tries - 1) as nat)
        }
    }
}

} // verus!
