//! Primitives: the sphere and its ray-intersection query.

use vstd::prelude::*;
use crate::vec::{
    Vector,
    V3,
    okv,
    lsq3,
    dot3,
    sub3,
    neg3,
    sdiv3,
    lemma_mul_pre,
    lemma_dot_bound,
    lemma_prod_lt,
    lemma_dot_neg,
    lemma_sdiv_bound,
};
use crate::fx::{ONE, mag, fmul, fdiv, fsqrt, fx_mul, fx_div, fx_sqrt, lemma_fmul_bound};
use crate::ray::{Ray, RayV, ray_at, ray_ok};
use crate::hitrecord::{HitRecord, FaceNormal};
use crate::material::{Material, mat_ok};

verus! {

/// A sphere: center, radius (negative to model an inverted, hollow shell),
/// and its owned material.
#[derive(Clone, Debug)]
pub struct Sphere {
    pub center: Vector,
    pub radius: i128,
    pub material: Material,
}

/// The closed set of primitives.
pub enum Figure {
    Sphere(Sphere),
}

/// Mathematical value of a hit.
pub ghost struct HitS {
    pub t: int,
    pub p: V3,
    pub normal: V3,
    pub front_face: bool,
    pub material: Material,
}

/// A sphere the pipeline accepts: center within the coordinate range,
/// radius magnitude within its machine-bounded range, material well-formed.
pub open spec fn sphere_ok(s: Sphere) -> bool {
    okv(s.center@, 0x100000000000) && 0x100000 <= mag(s.radius as int) <= 0x100000000000 && mat_ok(
        s.material,
    )
}

/// A primitive the pipeline accepts.
pub open spec fn fig_ok(f: Figure) -> bool {
    match f {
        Figure::Sphere(s) => sphere_ok(s),
    }
}

/// The hit a sphere reports in the window `[t_min, t_max]`: the nearer root
/// of the quadratic if it lies in the window, else the farther root, else
/// nothing; the reported normal is oriented against the ray.
pub open spec fn sphere_hit_s(s: Sphere, r: RayV, t_min: int, t_max: int) -> Option<HitS> {
    let oc = sub3(r.origin, s.center@);
    let a = lsq3(r.direction);
    let half_b = dot3(oc, r.direction);
    let c = lsq3(oc) - fmul(s.radius as int, s.radius as int);
    let disc = fmul(half_b, half_b) - fmul(a, c);
    if disc < 0 {
        None
    } else {
        let sq = fsqrt(disc);
        let r1 = fdiv(-half_b - sq, a);
        let root = if r1 < t_min || t_max < r1 {
            fdiv(-half_b + sq, a)
        } else {
            r1
        };
        if root < t_min || t_max < root {
            None
        } else {
            let p = ray_at(r, root);
            let on = sdiv3(sub3(p, s.center@), s.radius as int);
            let front = dot3(r.direction, on) < 0;
            let n = if front {
                on
            } else {
                neg3(on)
            };
            Some(HitS { t: root, p, normal: n, front_face: front, material: s.material })
        }
    }
}

/// The hit a primitive reports.
pub open spec fn fig_hit_s(f: Figure, r: RayV, t_min: int, t_max: int) -> Option<HitS> {
    match f {
        Figure::Sphere(s) => sphere_hit_s(s, r, t_min, t_max),
    }
}

/// Shrinking the query window is consistent with the two-root policy: a hit
/// inside the smaller window is the same hit the larger window reports, and
/// a hit of the larger window within the smaller one is kept by it.
pub proof fn lemma_sphere_hit_shrink(s: Sphere, r: RayV, t_min: int, cur: int, t_max: int)
    requires
        cur <= t_max,
        lsq3(r.direction) >= 1,
    ensures
        (sphere_hit_s(s, r, t_min, t_max) matches Some(g) && g.t <= cur) ==> sphere_hit_s(
            s,
            r,
            t_min,
            cur,
        ) == sphere_hit_s(s, r, t_min, t_max),
        sphere_hit_s(s, r, t_min, cur) is Some ==> sphere_hit_s(s, r, t_min, cur)
            == sphere_hit_s(s, r, t_min, t_max),
{
    let oc = sub3(r.origin, s.center@);
    let a = lsq3(r.direction);
    let half_b = dot3(oc, r.direction);
    let c = lsq3(oc) - fmul(s.radius as int, s.radius as int);
    let disc = fmul(half_b, half_b) - fmul(a, c);
    if disc >= 0 {
        let sq = fsqrt(disc);
        crate::fx::lemma_isqrt(disc * (ONE as int));
        assert(disc * (ONE as int) >= 0) by (nonlinear_arith)
            requires
                disc >= 0 && ONE as int > 0,
        ;
        crate::fx::lemma_tq_mono((-half_b - sq) * (ONE as int), (-half_b + sq) * (ONE as int), a);
        assert((-half_b - sq) * (ONE as int) <= (-half_b + sq) * (ONE as int)) by (nonlinear_arith)
            requires
                sq >= 0 && ONE as int > 0,
        ;
    }
}

/// The window-shrink consistency of `lemma_sphere_hit_shrink`, lifted to
/// primitives.
pub proof fn lemma_fig_hit_shrink(f: Figure, r: RayV, t_min: int, cur: int, t_max: int)
    requires
        cur <= t_max,
        lsq3(r.direction) >= 1,
    ensures
        (fig_hit_s(f, r, t_min, t_max) matches Some(g) && g.t <= cur) ==> fig_hit_s(
            f,
            r,
            t_min,
            cur,
        ) == fig_hit_s(f, r, t_min, t_max),
        fig_hit_s(f, r, t_min, cur) is Some ==> fig_hit_s(f, r, t_min, cur) == fig_hit_s(
            f,
            r,
            t_min,
            t_max,
        ),
        fig_hit_s(f, r, t_min, cur) matches Some(g) ==> t_min <= g.t <= cur,
{
    match f {
        Figure::Sphere(s) => lemma_sphere_hit_shrink(s, r, t_min, cur, t_max),
    }
}

impl Sphere {
    /// A sphere from its parts.
    pub fn new(center: Vector, radius: i128, material: Material) -> (r: Sphere)
        ensures
            r.center == center,
            r.radius == radius,
            r.material == material,
    {
        Self { center, radius, material }
    }

    /// The nearest intersection of the ray with this sphere inside
    /// `[t_min, t_max]`, with the normal oriented against the ray.
    pub fn hit(&self, ray: &Ray, t_min: i128, t_max: i128) -> (r: Option<HitRecord>)
        requires
            sphere_ok(*self),
            ray_ok(ray@),
            0 <= t_min,
            t_max <= 0x800000000000,
        ensures
            (r is Some) == (sphere_hit_s(*self, ray@, t_min as int, t_max as int) is Some),
            r matches Some(h) ==> (sphere_hit_s(*self, ray@, t_min as int, t_max as int)
                matches Some(hs) && h.t as int == hs.t && h.p@ == hs.p && h.normal@ == hs.normal
                && h.front_face == hs.front_face && h.material == hs.material),
            r matches Some(h) ==> t_min <= h.t <= t_max && dot3(ray@.direction, h.normal@) <= 0
                && okv(h.p@, 0x1000000000000000) && okv(h.normal@, 0x2000000000000000000)
                && h.material == self.material && mat_ok(h.material),
    {
        proof {
            lemma_mul_pre(ray@.direction, ray@.direction, 0x100000000000, 0x100000000000);
            lemma_dot_bound(ray@.direction, ray@.direction, 0x100000000000, 0x100000000000);
        }
        let oc: Vector = ray.origin.sub_vec(&self.center);
        let a: i128 = ray.direction.length_squared();
        proof {
            lemma_mul_pre(oc@, ray@.direction, 0x900000000000, 0x100000000000);
            lemma_dot_bound(oc@, ray@.direction, 0x900000000000, 0x100000000000);
        }
        let half_b: i128 = oc.dot(&ray.direction);
        proof {
            lemma_mul_pre(oc@, oc@, 0x900000000000, 0x900000000000);
            lemma_dot_bound(oc@, oc@, 0x900000000000, 0x900000000000);
            lemma_prod_lt(
                mag(self.radius as int),
                mag(self.radius as int),
                0x100000000000,
                0x100000000000,
            );
            lemma_fmul_bound(
                self.radius as int,
                self.radius as int,
                0x100000000000,
                0x100000000000,
            );
        }
        let c: i128 = oc.length_squared() - fx_mul(self.radius, self.radius);
        proof {
            lemma_prod_lt(
                mag(half_b as int),
                mag(half_b as int),
                0x1b00000000000000,
                0x1b00000000000000,
            );
            lemma_fmul_bound(half_b as int, half_b as int, 0x1b00000000000000, 0x1b00000000000000);
            lemma_prod_lt(mag(a as int), mag(c as int), 0x300000000000000, 0xf400000000000000);
            lemma_fmul_bound(a as int, c as int, 0x300000000000000, 0xf400000000000000);
        }
        let disc: i128 = fx_mul(half_b, half_b) - fx_mul(a, c);
        if disc < 0 {
            return None;
        }
        let sq: i128 = fx_sqrt(disc);
        proof {
            crate::fx::lemma_isqrt((disc as int) * (ONE as int));
            assert((disc as int) * (ONE as int) < 0x4000000000000000 * 0x4000000000000000)
                by (nonlinear_arith)
                requires
                    0 <= disc < 0x80000000000000000000000,
            ;
            assert(mag(sq as int) <= 0x4000000000000000) by (nonlinear_arith)
                requires
                    sq >= 0 && (sq as int) * (sq as int) < 0x4000000000000000 * 0x4000000000000000,
            ;
        }
        let r1: i128 = fx_div(0 - half_b - sq, a);
        let mut root: i128 = r1;
        if root < t_min || t_max < root {
            root = fx_div(0 - half_b + sq, a);
            if root < t_min || t_max < root {
                return None;
            }
        }
        let point: Vector = ray.at(root);
        let pc: Vector = point.sub_vec(&self.center);
        proof {
            lemma_sdiv_bound(pc@, self.radius as int, 0x1100000000000000, 0x100000);
        }
        let outward: Vector = pc.scale_div(self.radius);
        match HitRecord::get_face_normal(ray, &outward) {
            FaceNormal::Front(normal) => Some(
                HitRecord::new(point, normal, root, true, self.material.clone()),
            ),
            FaceNormal::Back(normal) => {
                proof {
                    lemma_dot_neg(ray@.direction, outward@);
                }
                Some(HitRecord::new(point, normal, root, false, self.material.clone()))
            },
        }
    }
}

impl Figure {
    /// A sphere primitive from its parts.
    pub fn sphere(center: Vector, radius: i128, mat: Material) -> (r: Figure)
        ensures
            r == Figure::Sphere(Sphere { center, radius, material: mat }),
    {
        Self::Sphere(Sphere::new(center, radius, mat))
    }

    /// The nearest intersection of the ray with this primitive inside
    /// `[t_min, t_max]`.
    pub fn hit(&self, ray: &Ray, t_min: i128, t_max: i128) -> (r: Option<HitRecord>)
        requires
            fig_ok(*self),
            ray_ok(ray@),
            0 <= t_min,
            t_max <= 0x800000000000,
        ensures
            (r is Some) == (fig_hit_s(*self, ray@, t_min as int, t_max as int) is Some),
            r matches Some(h) ==> (fig_hit_s(*self, ray@, t_min as int, t_max as int)
                matches Some(hs) && h.t as int == hs.t && h.p@ == hs.p && h.normal@ == hs.normal
                && h.front_face == hs.front_face && h.material == hs.material),
            r matches Some(h) ==> t_min <= h.t <= t_max && dot3(ray@.direction, h.normal@) <= 0
                && okv(h.p@, 0x1000000000000000) && okv(h.normal@, 0x2000000000000000000)
                && mat_ok(h.material),
    {
        match self {
            Figure::Sphere(sphere) => sphere.hit(ray, t_min, t_max),
        }
    }
}

} // verus!
