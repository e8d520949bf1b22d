//! Algebraic laws of the kernel, stated and proved over the mathematical
//! model: cancellation of vector sums, the round trip of scaling, symmetry
//! of the dot product, involution of reflection, and the head-on, missing
//! and inside-the-sphere intersection cases.

use vstd::prelude::*;
use crate::fx::{ONE, mag, tq, fmul, fdiv, fsqrt, isqrt, lemma_isqrt, lemma_mag_mul};
use crate::vec::{V3, okv, add3, sub3, dot3, lsq3, reflect3, unit3, len3};

verus! {

/// Adding a vector and subtracting it again returns the original:
/// `(a + b) - b == a`, exactly, whenever both fit the coordinate range.
pub proof fn lemma_add_sub_cancel(a: V3, b: V3)
    ensures
        sub3(add3(a, b), b) == a,
{
}

/// The dot product is symmetric: `a . b == b . a`.
pub proof fn lemma_dot_comm(a: V3, b: V3)
    ensures
        dot3(a, b) == dot3(b, a),
{
    assert(a.x * b.x == b.x * a.x && a.y * b.y == b.y * a.y && a.z * b.z == b.z * a.z)
        by (nonlinear_arith);
}

/// Scaling by `s` and dividing by `s` again returns the original up to the
/// rounding of the two truncations: the error, scaled by `s`, is at most
/// one unit of scale plus one unit of `s`. (At `s` of one unit of scale or
/// more, that is an error of at most two representation steps.)
pub proof fn lemma_scale_div_cancel(c: int, s: int)
    requires
        s != 0,
        mag(c) <= 0x1000000000000000,
        mag(s) <= 0x1000000000000000,
    ensures
        mag(s) * mag(fdiv(fmul(c, s), s) - c) <= (ONE as int) + mag(s),
{
    let sc = ONE as int;
    let m = fmul(c, s);
    let q = fdiv(m, s);
    lemma_mag_mul(c, s);
    lemma_mag_mul(m, sc);
    vstd::arithmetic::div_mod::lemma_fundamental_div_mod(mag(c) * mag(s), sc);
    vstd::arithmetic::div_mod::lemma_mod_bound(mag(c) * mag(s), sc);
    vstd::arithmetic::div_mod::lemma_div_pos_is_pos(mag(c) * mag(s), sc);
    let mm = (mag(c) * mag(s)) / sc;
    assert(mag(m) == mm);
    vstd::arithmetic::div_mod::lemma_fundamental_div_mod(mm * sc, mag(s));
    vstd::arithmetic::div_mod::lemma_mod_bound(mm * sc, mag(s));
    vstd::arithmetic::div_mod::lemma_div_pos_is_pos(mm * sc, mag(s));
    let qq = (mm * sc) / mag(s);
    assert(mag(q) == qq);
    assert(mag(s) * mag(qq - mag(c)) <= sc + mag(s)) by (nonlinear_arith)
        requires
            mag(c) * mag(s) == sc * mm + (mag(c) * mag(s)) % sc && 0 <= (mag(c) * mag(s)) % sc < sc
                && mm * sc == mag(s) * qq + (mm * sc) % mag(s) && 0 <= (mm * sc) % mag(s) < mag(s)
                && 0 <= mm && 0 <= qq && 0 <= mag(c) && 1 <= mag(s) && sc == 4294967296,
    ;
    lemma_same_sign(c, s);
    assert(mag(s) * mag(q - c) <= sc + mag(s)) by (nonlinear_arith)
        requires
            mag(q - c) == mag(mag(q) - mag(c)) && mag(q) == qq && mag(s) * mag(qq - mag(c)) <= sc
                + mag(s) && mag(s) >= 1,
    ;
}

/// The round trip of scaling keeps the sign: `(c * s) / s` lies on the same
/// side of zero as `c`, so the magnitudes subtract directly.
proof fn lemma_same_sign(c: int, s: int)
    requires
        s != 0,
    ensures
        mag(fdiv(fmul(c, s), s) - c) == mag(mag(fdiv(fmul(c, s), s)) - mag(c)),
{
    let sc = ONE as int;
    let m = fmul(c, s);
    let q = fdiv(m, s);
    vstd::arithmetic::div_mod::lemma_div_pos_is_pos(mag(c * s), sc);
    vstd::arithmetic::div_mod::lemma_div_pos_is_pos(mag(m * sc), mag(s));
    assert(m * sc < 0 <==> m < 0) by (nonlinear_arith)
        requires
            sc > 0,
    ;
    assert(c >= 0 && s > 0 ==> c * s >= 0) by (nonlinear_arith);
    assert(c >= 0 && s < 0 ==> c * s <= 0) by (nonlinear_arith);
    assert(c < 0 && s > 0 ==> c * s < 0) by (nonlinear_arith);
    assert(c < 0 && s < 0 ==> c * s > 0) by (nonlinear_arith);
    if c >= 0 {
        assert(q >= 0);
    } else {
        assert(q <= 0);
    }
}

/// A normal that lies exactly along a coordinate axis at unit scale.
pub open spec fn axis_unit(n: V3) -> bool {
    (mag(n.x) == ONE as int && n.y == 0 && n.z == 0) || (n.x == 0 && mag(n.y) == ONE as int && n.z
        == 0) || (n.x == 0 && n.y == 0 && mag(n.z) == ONE as int)
}

/// A product with a factor that is exactly a unit, or exactly zero, is exact.
proof fn lemma_fmul_unit_exact(e: int, s: int)
    requires
        mag(e) == ONE as int || e == 0,
    ensures
        e > 0 ==> fmul(e, s) == s,
        e < 0 ==> fmul(e, s) == -s,
        e == 0 ==> fmul(e, s) == 0,
        fmul(s, e) == fmul(e, s),
{
    lemma_mag_mul(e, s);
    vstd::arithmetic::div_mod::lemma_div_multiples_vanish(mag(s), ONE as int);
    assert(mag(e) == ONE as int ==> mag(e) * mag(s) == (ONE as int) * mag(s)) by (nonlinear_arith);
    assert(e * s == s * e) by (nonlinear_arith);
    assert(e == 0 ==> e * s == 0) by (nonlinear_arith);
    vstd::arithmetic::div_mod::lemma_div_of0(ONE as int);
    assert((e > 0 && s > 0) ==> e * s > 0) by (nonlinear_arith);
    assert((e > 0 && s < 0) ==> e * s < 0) by (nonlinear_arith);
    assert((e < 0 && s > 0) ==> e * s < 0) by (nonlinear_arith);
    assert((e < 0 && s < 0) ==> e * s > 0) by (nonlinear_arith);
    assert((e != 0 && s == 0) ==> e * s == 0) by (nonlinear_arith);
}

/// Reflection about a flat axis-aligned mirror is involutive: reflecting a
/// direction twice about the same unit normal returns the original
/// direction, exactly.
pub proof fn lemma_reflect_involutive(v: V3, n: V3)
    requires
        axis_unit(n),
        okv(v, 0x1000000000000000),
    ensures
        reflect3(reflect3(v, n), n) == v,
{
    lemma_fmul_unit_exact(n.x, v.x);
    lemma_fmul_unit_exact(n.y, v.y);
    lemma_fmul_unit_exact(n.z, v.z);
    let d1 = dot3(v, n);
    let r1 = reflect3(v, n);
    lemma_fmul_unit_exact(n.x, 2 * d1);
    lemma_fmul_unit_exact(n.y, 2 * d1);
    lemma_fmul_unit_exact(n.z, 2 * d1);
    lemma_fmul_unit_exact(n.x, r1.x);
    lemma_fmul_unit_exact(n.y, r1.y);
    lemma_fmul_unit_exact(n.z, r1.z);
    let d2 = dot3(r1, n);
    lemma_fmul_unit_exact(n.x, 2 * d2);
    lemma_fmul_unit_exact(n.y, 2 * d2);
    lemma_fmul_unit_exact(n.z, 2 * d2);
}

/// A truncated quotient multiplied back differs from the dividend by less
/// than the divisor.
proof fn lemma_tq_remainder(n: int, d: int)
    requires
        d > 0,
    ensures
        mag(tq(n, d) * d - n) < d,
{
    vstd::arithmetic::div_mod::lemma_fundamental_div_mod(mag(n), d);
    vstd::arithmetic::div_mod::lemma_mod_bound(mag(n), d);
    let q = mag(n) / d;
    assert(q * d == d * q) by (nonlinear_arith);
    assert((-q) * d == -(d * q)) by (nonlinear_arith);
}

/// A component whose squared contribution fits the squared length is at
/// most three times the length.
proof fn lemma_comp_le_3l(c: int, lsq: int, l: int)
    requires
        fmul(c, c) <= lsq,
        1 <= lsq,
        1 <= l,
        l * l <= lsq * (ONE as int),
        lsq * (ONE as int) < (l + 1) * (l + 1),
    ensures
        mag(c) <= 3 * l,
{
    let s = ONE as int;
    assert(c * c >= 0) by (nonlinear_arith);
    vstd::arithmetic::div_mod::lemma_div_pos_is_pos(c * c, s);
    vstd::arithmetic::div_mod::lemma_fundamental_div_mod(c * c, s);
    vstd::arithmetic::div_mod::lemma_mod_bound(c * c, s);
    assert(c * c < 9 * (l * l)) by (nonlinear_arith)
        requires
            c * c < s * ((c * c) / s) + s && (c * c) / s <= lsq && 1 <= lsq && 1 <= l && lsq * s < (
            l + 1) * (l + 1) && s == ONE as int,
    ;
    assert(mag(c) <= 3 * l) by (nonlinear_arith)
        requires
            c * c < 9 * (l * l) && l >= 1,
    ;
}

/// A normalized vector keeps a squared length within a few representation
/// steps of one: the fixed-point analogue of unit length.
pub proof fn lemma_unit_length(v: V3)
    requires
        okv(v, 0x4000000000000000),
        lsq3(v) >= ONE as int,
    ensures
        mag(lsq3(unit3(v)) - (ONE as int)) <= 64,
{
    let s = ONE as int;
    let lsq = lsq3(v);
    let l = len3(v);
    crate::vec::lemma_lsq_nonneg(v);
    crate::fx::lemma_isqrt(lsq * s);
    assert(lsq * s >= s * s) by (nonlinear_arith)
        requires
            lsq >= s && s > 0,
    ;
    assert(l >= s) by (nonlinear_arith)
        requires
            (l + 1) * (l + 1) > lsq * s && lsq * s >= s * s && l >= 0 && s > 0,
    ;
    assert(v.x * v.x >= 0 && v.y * v.y >= 0 && v.z * v.z >= 0) by (nonlinear_arith);
    vstd::arithmetic::div_mod::lemma_div_pos_is_pos(v.x * v.x, s);
    vstd::arithmetic::div_mod::lemma_div_pos_is_pos(v.y * v.y, s);
    vstd::arithmetic::div_mod::lemma_div_pos_is_pos(v.z * v.z, s);
    assert(fmul(v.x, v.x) >= 0 && fmul(v.y, v.y) >= 0 && fmul(v.z, v.z) >= 0);
    lemma_comp_le_3l(v.x, lsq, l);
    lemma_comp_le_3l(v.y, lsq, l);
    lemma_comp_le_3l(v.z, lsq, l);
    let ux = fdiv(v.x, l);
    let uy = fdiv(v.y, l);
    let uz = fdiv(v.z, l);
    lemma_tq_remainder(v.x * s, l);
    lemma_tq_remainder(v.y * s, l);
    lemma_tq_remainder(v.z * s, l);
    let ex = ux * l - v.x * s;
    let ey = uy * l - v.y * s;
    let ez = uz * l - v.z * s;
    lemma_tq_remainder(v.x * v.x, s);
    lemma_tq_remainder(v.y * v.y, s);
    lemma_tq_remainder(v.z * v.z, s);
    assert(mag(fmul(v.x, v.x) * s - v.x * v.x) < s && mag(fmul(v.y, v.y) * s - v.y * v.y) < s
        && mag(fmul(v.z, v.z) * s - v.z * v.z) < s);
    lemma_sq_err(ux, l, v.x, s, ex);
    lemma_sq_err(uy, l, v.y, s, ey);
    lemma_sq_err(uz, l, v.z, s, ez);
    assert(mag(v.x) <= 3 * l && mag(v.y) <= 3 * l && mag(v.z) <= 3 * l);
    assert(mag(l * l * (ux * ux) - s * s * (v.x * v.x)) <= 7 * (s * (l * l))) by (nonlinear_arith)
        requires
            mag(l * l * (ux * ux) - s * s * (v.x * v.x)) <= 2 * s * mag(v.x) * l + l * l && mag(
                v.x,
            ) <= 3 * l && 1 <= s <= l,
    ;
    assert(mag(l * l * (uy * uy) - s * s * (v.y * v.y)) <= 7 * (s * (l * l))) by (nonlinear_arith)
        requires
            mag(l * l * (uy * uy) - s * s * (v.y * v.y)) <= 2 * s * mag(v.y) * l + l * l && mag(
                v.y,
            ) <= 3 * l && 1 <= s <= l,
    ;
    assert(mag(l * l * (uz * uz) - s * s * (v.z * v.z)) <= 7 * (s * (l * l))) by (nonlinear_arith)
        requires
            mag(l * l * (uz * uz) - s * s * (v.z * v.z)) <= 2 * s * mag(v.z) * l + l * l && mag(
                v.z,
            ) <= 3 * l && 1 <= s <= l,
    ;
    let xx = ux * ux + uy * uy + uz * uz;
    let cc = v.x * v.x + v.y * v.y + v.z * v.z;
    assert(mag(l * l * xx - s * s * cc) <= 21 * (s * (l * l))) by (nonlinear_arith)
        requires
            xx == ux * ux + uy * uy + uz * uz && cc == v.x * v.x + v.y * v.y + v.z * v.z && mag(
                l * l * (ux * ux) - s * s * (v.x * v.x),
            ) <= 7 * (s * (l * l)) && mag(l * l * (uy * uy) - s * s * (v.y * v.y)) <= 7 * (s * (l
                * l)) && mag(l * l * (uz * uz) - s * s * (v.z * v.z)) <= 7 * (s * (l * l)),
    ;
    assert(mag(s * lsq - cc) < 3 * s);
    assert(mag(s * s * cc - s * s * (s * lsq)) <= 3 * (s * (s * s))) by (nonlinear_arith)
        requires
            mag(s * lsq - cc) < 3 * s && s >= 1,
    ;
    assert(mag(s * s * (s * lsq) - s * s * (l * l)) <= 2 * (s * (s * l)) + s * s)
        by (nonlinear_arith)
        requires
            l * l <= lsq * s && lsq * s < (l + 1) * (l + 1) && l >= 1 && s >= 1,
    ;
    assert(mag(l * l * xx - l * l * (s * s)) <= 29 * (s * (l * l))) by (nonlinear_arith)
        requires
            mag(l * l * xx - s * s * cc) <= 21 * (s * (l * l)) && mag(s * s * cc - s * s * (s
                * lsq)) <= 3 * (s * (s * s)) && mag(s * s * (s * lsq) - s * s * (l * l)) <= 2 * (s
                * (s * l)) + s * s && 1 <= s <= l,
    ;
    assert(mag(xx - s * s) <= 29 * s) by (nonlinear_arith)
        requires
            mag(l * l * xx - l * l * (s * s)) <= 29 * (s * (l * l)) && l >= 1,
    ;
    let lu = lsq3(unit3(v));
    lemma_tq_remainder(ux * ux, s);
    lemma_tq_remainder(uy * uy, s);
    lemma_tq_remainder(uz * uz, s);
    assert(mag(lu * s - xx) < 3 * s);
    assert(mag(lu - s) <= 64) by (nonlinear_arith)
        requires
            mag(lu * s - xx) < 3 * s && mag(xx - s * s) <= 29 * s && s >= 1,
    ;
}

/// Squared error of one rounded component against its exact scaled value.
proof fn lemma_sq_err(u: int, l: int, c: int, s: int, e: int)
    requires
        e == u * l - c * s,
        mag(e) < l,
        l >= 1,
        s >= 1,
    ensures
        mag(l * l * (u * u) - s * s * (c * c)) <= 2 * s * mag(c) * l + l * l,
{
    assert((u * l) * (u * l) == l * l * (u * u)) by (nonlinear_arith);
    assert((c * s + e) * (c * s + e) == s * s * (c * c) + 2 * (c * s) * e + e * e)
        by (nonlinear_arith);
    assert(mag(2 * (c * s) * e + e * e) <= 2 * s * mag(c) * l + l * l) by (nonlinear_arith)
        requires
            mag(e) < l && l >= 1 && s >= 1,
    ;
}

/// Dividing by one unit of scale changes nothing.
proof fn lemma_fdiv_one(x: int)
    ensures
        fdiv(x, ONE as int) == x,
{
    lemma_mag_mul(x, ONE as int);
    vstd::arithmetic::div_mod::lemma_div_multiples_vanish(mag(x), ONE as int);
    assert(mag(x) * (ONE as int) == (ONE as int) * mag(x)) by (nonlinear_arith);
    assert(x * (ONE as int) < 0 <==> x < 0) by (nonlinear_arith);
}

/// The fixed-point square root of a squared radius lies within one
/// sub-unit step of the radius itself.
proof fn lemma_fsqrt_near(rad: int)
    requires
        131072 <= rad,
        rad <= 0x1000000000000000,
    ensures
        fmul(rad, rad) >= 1,
        rad - 65536 <= fsqrt(fmul(rad, rad)) <= rad,
{
    let sc = ONE as int;
    let rr = fmul(rad, rad);
    lemma_mag_mul(rad, rad);
    vstd::arithmetic::div_mod::lemma_fundamental_div_mod(rad * rad, sc);
    vstd::arithmetic::div_mod::lemma_mod_bound(rad * rad, sc);
    assert(rr == (rad * rad) / sc);
    assert(rad * rad >= sc) by (nonlinear_arith)
        requires
            rad >= 131072 && sc == 4294967296,
    ;
    vstd::arithmetic::div_mod::lemma_div_is_ordered(sc, rad * rad, sc);
    vstd::arithmetic::div_mod::lemma_div_by_self(sc);
    let sq = isqrt(rr * sc);
    lemma_isqrt(rr * sc);
    assert(rr * sc <= rad * rad && rr * sc > rad * rad - sc) by (nonlinear_arith)
        requires
            rad * rad == sc * rr + (rad * rad) % sc && 0 <= (rad * rad) % sc < sc,
    ;
    assert(sq <= rad) by (nonlinear_arith)
        requires
            sq >= 0 && rad >= 0 && sq * sq <= rr * sc && rr * sc <= rad * rad,
    ;
    assert(sq >= rad - 65536) by (nonlinear_arith)
        requires
            sq >= 0 && rad >= 131072 && rr * sc < (sq + 1) * (sq + 1) && rr * sc > rad * rad - sc
                && sc == 4294967296,
    ;
}

/// A ray aimed along an axis at a sphere's center from outside reports a
/// front-face hit at a parametric distance within one sub-unit step of the
/// center distance minus the radius.
pub proof fn lemma_sphere_hit_head_on(d: i128, rad: i128, tmax: i128, m: crate::material::Material)
    requires
        131072 <= rad <= 0x100000000000,
        rad < d,
        d <= tmax,
        d <= 0x100000000000,
    ensures
        ({
            let sph = crate::figure::Sphere {
                center: crate::vec::Vector { x: d, y: 0, z: 0 },
                radius: rad,
                material: m,
            };
            let r = crate::ray::RayV {
                origin: V3 { x: 0, y: 0, z: 0 },
                direction: V3 { x: ONE as int, y: 0, z: 0 },
            };
            crate::figure::sphere_hit_s(sph, r, 0, tmax as int) matches Some(h) && mag(
                h.t - (d - rad),
            ) <= 65536 && h.front_face
        }),
{
    let sc = ONE as int;
    lemma_fmul_unit_exact(0, 0);
    lemma_fmul_unit_exact(sc, sc);
    lemma_fmul_unit_exact(sc, -(d as int));
    let dd = fmul(-(d as int), -(d as int));
    let rr = fmul(rad as int, rad as int);
    let c = dd - rr;
    lemma_fmul_unit_exact(sc, c);
    assert((-(d as int)) * (-(d as int)) == (d as int) * (d as int)) by (nonlinear_arith);
    assert((-(d as int)) * sc == -((d as int) * sc)) by (nonlinear_arith);
    lemma_fmul_unit_exact(sc, d as int);
    lemma_fsqrt_near(rad as int);
    let sq = fsqrt(rr);
    lemma_fdiv_one(-(-(d as int)) - sq);
    lemma_fdiv_one(d - sq);
    lemma_fmul_unit_exact(sc, d - sq);
    lemma_fdiv_rad_neg(sq, rad as int);
}

/// A negative numerator of at least the divisor's share divides to a
/// strictly negative quotient: the oriented-normal test of a head-on hit.
proof fn lemma_fdiv_rad_neg(sq: int, rad: int)
    requires
        131072 <= rad,
        rad - 65536 <= sq <= rad,
    ensures
        fdiv(-sq, rad) <= -1,
        fdiv(sq, rad) >= 1,
{
    let sc = ONE as int;
    assert(sq * sc >= rad) by (nonlinear_arith)
        requires
            sq >= rad - 65536 && rad >= 131072 && sc == 4294967296,
    ;
    lemma_mag_mul(-sq, sc);
    lemma_mag_mul(sq, sc);
    assert(mag(-sq) == sq && mag(sq) == sq);
    vstd::arithmetic::div_mod::lemma_div_is_ordered(rad, sq * sc, rad);
    vstd::arithmetic::div_mod::lemma_div_by_self(rad);
    assert((-sq) * sc < 0) by (nonlinear_arith)
        requires
            sq > 0 && sc > 0,
    ;
}

/// A ray whose closest approach to a sphere's center exceeds the radius by
/// at least one sub-unit step reports no hit.
pub proof fn lemma_sphere_miss(d: i128, k: i128, rad: i128, tmax: i128, m: crate::material::Material)
    requires
        131072 <= rad <= 0x100000000000,
        mag(k as int) >= rad + 65536,
        mag(k as int) <= 0x100000000000,
        mag(d as int) <= 0x100000000000,
    ensures
        crate::figure::sphere_hit_s(
            crate::figure::Sphere {
                center: crate::vec::Vector { x: d, y: k, z: 0 },
                radius: rad,
                material: m,
            },
            crate::ray::RayV {
                origin: V3 { x: 0, y: 0, z: 0 },
                direction: V3 { x: ONE as int, y: 0, z: 0 },
            },
            0,
            tmax as int,
        ) is None,
{
    let sc = ONE as int;
    lemma_fmul_unit_exact(0, 0);
    lemma_fmul_unit_exact(sc, sc);
    lemma_fmul_unit_exact(sc, -(d as int));
    lemma_fmul_unit_exact(0, -(k as int));
    let dd = fmul(-(d as int), -(d as int));
    let kk = fmul(-(k as int), -(k as int));
    let rr = fmul(rad as int, rad as int);
    let c = dd + kk - rr;
    lemma_fmul_unit_exact(sc, c);
    assert((-(d as int)) * (-(d as int)) == (d as int) * (d as int)) by (nonlinear_arith);
    assert((-(k as int)) * (-(k as int)) == (k as int) * (k as int)) by (nonlinear_arith);
    lemma_mag_mul(k as int, k as int);
    lemma_mag_mul(rad as int, rad as int);
    assert((k as int) * (k as int) >= (rad as int) * (rad as int) + sc) by (nonlinear_arith)
        requires
            mag(k as int) >= (rad as int) + 65536 && (rad as int) >= 131072 && sc == 4294967296
                && mag(k as int) * mag(k as int) == (k as int) * (k as int) && mag(rad as int)
                * mag(rad as int) == (rad as int) * (rad as int) && mag(rad as int) == rad as int,
    ;
    vstd::arithmetic::div_mod::lemma_div_is_ordered(
        (rad as int) * (rad as int) + sc,
        (k as int) * (k as int),
        sc,
    );
    vstd::arithmetic::div_mod::lemma_div_plus_one((rad as int) * (rad as int), sc);
    vstd::arithmetic::div_mod::lemma_div_pos_is_pos((k as int) * (k as int), sc);
    vstd::arithmetic::div_mod::lemma_div_pos_is_pos((rad as int) * (rad as int), sc);
}

/// A ray starting inside a sphere still reports exactly one forward hit, at
/// the far boundary, struck from the back face.
pub proof fn lemma_sphere_hit_inside(h0: i128, rad: i128, tmax: i128, m: crate::material::Material)
    requires
        262144 <= rad <= 0x100000000000,
        0 <= h0 <= rad - 131072,
        rad <= tmax,
    ensures
        ({
            let sph = crate::figure::Sphere {
                center: crate::vec::Vector { x: 0, y: 0, z: 0 },
                radius: rad,
                material: m,
            };
            let r = crate::ray::RayV {
                origin: V3 { x: h0 as int, y: 0, z: 0 },
                direction: V3 { x: ONE as int, y: 0, z: 0 },
            };
            crate::figure::sphere_hit_s(sph, r, 0, tmax as int) matches Some(h) && mag(
                h.t - (rad - h0),
            ) <= 65536 && !h.front_face && h.t > 0
        }),
{
    let sc = ONE as int;
    lemma_fmul_unit_exact(0, 0);
    lemma_fmul_unit_exact(sc, sc);
    lemma_fmul_unit_exact(sc, h0 as int);
    let hh = fmul(h0 as int, h0 as int);
    let rr = fmul(rad as int, rad as int);
    let c = hh - rr;
    lemma_fmul_unit_exact(sc, c);
    lemma_fsqrt_near(rad as int);
    let sq = fsqrt(rr);
    lemma_fdiv_one(-(h0 as int) - sq);
    lemma_fdiv_one(sq - h0);
    lemma_fmul_unit_exact(sc, sq - h0);
    lemma_fdiv_rad_neg(sq, rad as int);
}

} // verus!
