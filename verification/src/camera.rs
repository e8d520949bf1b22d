//! The camera: an immutable viewport basis derived once from look-from,
//! look-at, up, field of view and aspect ratio, mapping image-plane
//! coordinates to world-space rays.

use vstd::prelude::*;
use crate::vec::{
    Vector,
    okv,
    lsq3,
    sub3,
    add3,
    scale3,
    sdiv3,
    cross3,
    unit3,
    lemma_scale_pre,
    lemma_scale_bound,
    lemma_cross_bound,
    lemma_sdiv_bound,
    lemma_prod_lt,
};
use crate::fx::{
    ONE,
    mag,
    fmul,
    fdiv,
    fx_mul,
    fx_div,
    lemma_fmul_bound,
    lemma_fdiv_bound,
    lemma_fmul_nonneg,
    lemma_fdiv_nonneg,
};
use crate::util::{PI_FX, clamp, clamp_s, tan_s, fx_tan, degrees_to_radians};
use crate::ray::Ray;

verus! {

/// The camera basis: origin, viewport corner and spanning vectors,
/// computed once and never mutated afterward.
pub struct Camera {
    pub origin: Vector,
    pub lower_left_corner: Vector,
    pub horizontal: Vector,
    pub vertical: Vector,
}

/// A camera the pipeline accepts: all basis vectors within the ranges the
/// ray generator needs.
pub open spec fn camera_ok(c: Camera) -> bool {
    okv(c.origin@, 0x20000000000) && okv(c.lower_left_corner@, 0x40000000000) && okv(
        c.horizontal@,
        0x18000000000,
    ) && okv(c.vertical@, 0x12000000000)
}

/// The viewport height for a vertical field of view in degrees: twice the
/// tangent of half the angle in radians, the tangent clamped to a fixed
/// range to keep the viewport within machine bounds.
pub open spec fn viewport_h(vfov: int) -> int {
    let theta = fdiv(fmul(vfov, PI_FX as int), 180 * (ONE as int));
    let half = fdiv(theta, 2 * (ONE as int));
    2 * clamp_s(tan_s(half), 0, 8 * (ONE as int))
}

impl Camera {
    /// A camera from look-from, look-at, the up direction, the vertical
    /// field of view in degrees, and the aspect ratio; the focal length is
    /// one.
    #[verifier::rlimit(100)]
    pub fn new(lookfrom: Vector, lookat: Vector, vup: Vector, vfov: i128, aspect: i128) -> (r:
        Camera)
        requires
            okv(lookfrom@, 0x20000000000),
            okv(lookat@, 0x20000000000),
            okv(vup@, 0x20000000000),
            4294967296 <= vfov <= 687194767360,
            0 < aspect <= 0x800000000,
            lsq3(sub3(lookfrom@, lookat@)) >= 1,
            lsq3(cross3(vup@, unit3(sub3(lookfrom@, lookat@)))) >= 1,
        ensures
            camera_ok(r),
            r.origin@ == lookfrom@,
            ({
                let w = unit3(sub3(lookfrom@, lookat@));
                let u = unit3(cross3(vup@, w));
                let v = cross3(w, u);
                let vh = viewport_h(vfov as int);
                let vw = fmul(aspect as int, vh);
                r.horizontal@ == scale3(u, vw) && r.vertical@ == scale3(v, vh)
                    && r.lower_left_corner@ == sub3(
                    sub3(
                        sub3(lookfrom@, sdiv3(scale3(u, vw), 2 * (ONE as int))),
                        sdiv3(scale3(v, vh), 2 * (ONE as int)),
                    ),
                    w,
                )
            }),
    {
        let theta: i128 = degrees_to_radians(vfov);
        proof {
            lemma_prod_lt(mag(vfov as int), mag(PI_FX as int), 687194767360, 13493037705);
            lemma_fmul_bound(vfov as int, PI_FX as int, 687194767360, 13493037705);
            lemma_fdiv_bound(
                fmul(vfov as int, PI_FX as int),
                180 * (ONE as int),
                2158886032800,
                180 * (ONE as int),
            );
            lemma_fmul_nonneg(vfov as int, PI_FX as int);
            lemma_fdiv_nonneg(fmul(vfov as int, PI_FX as int), 180 * (ONE as int));
            lemma_fdiv_bound(
                fdiv(fmul(vfov as int, PI_FX as int), 180 * (ONE as int)),
                2 * (ONE as int),
                12000000000,
                2 * (ONE as int),
            );
            lemma_fdiv_nonneg(
                fdiv(fmul(vfov as int, PI_FX as int), 180 * (ONE as int)),
                2 * (ONE as int),
            );
        }
        let half: i128 = fx_div(theta, 2 * ONE);
        let h: i128 = clamp(fx_tan(half), 0, 8 * ONE);
        let viewport_height: i128 = 2 * h;
        proof {
            lemma_prod_lt(mag(aspect as int), mag(viewport_height as int), 0x800000000, 0x1000000000);
            lemma_fmul_bound(aspect as int, viewport_height as int, 0x800000000, 0x1000000000);
        }
        let viewport_width: i128 = fx_mul(aspect, viewport_height);
        let w: Vector = lookfrom.sub_vec(&lookat).unit_vector();
        proof {
            lemma_cross_bound(vup@, w@, 0x20000000000, 0x300000000);
        }
        let u: Vector = vup.cross(&w).unit_vector();
        let v: Vector = w.cross(&u);
        proof {
            lemma_cross_bound(w@, u@, 0x300000000, 0x300000000);
            lemma_scale_pre(u@, viewport_width as int, 0x300000000, 0x8000000000);
            lemma_scale_bound(u@, viewport_width as int, 0x300000000, 0x8000000000);
            lemma_scale_pre(v@, viewport_height as int, 0x1200000000, 0x1000000000);
            lemma_scale_bound(v@, viewport_height as int, 0x1200000000, 0x1000000000);
        }
        let origin: Vector = lookfrom;
        let horizontal: Vector = u.scale(viewport_width);
        let vertical: Vector = v.scale(viewport_height);
        proof {
            lemma_sdiv_bound(horizontal@, 2 * (ONE as int), 0x18000000000, 2 * (ONE as int));
            lemma_sdiv_bound(vertical@, 2 * (ONE as int), 0x12000000000, 2 * (ONE as int));
        }
        let half_h: Vector = horizontal.scale_div(2 * ONE);
        let half_v: Vector = vertical.scale_div(2 * ONE);
        let lower_left_corner: Vector = origin.sub_vec(&half_h).sub_vec(&half_v).sub_vec(&w);
        Self { origin, horizontal, vertical, lower_left_corner }
    }

    /// The ray from the camera origin toward viewport coordinates `(s, t)`.
    pub fn get_ray(&self, s: i128, t: i128) -> (r: Ray)
        requires
            camera_ok(*self),
            0 <= s <= 2 * (ONE as int),
            0 <= t <= 2 * (ONE as int),
        ensures
            r@.origin == self.origin@,
            r@.direction == sub3(
                add3(
                    add3(self.lower_left_corner@, scale3(self.horizontal@, s as int)),
                    scale3(self.vertical@, t as int),
                ),
                self.origin@,
            ),
            okv(r@.origin, 0x800000000000),
            okv(r@.direction, 0x100000000000),
    {
        proof {
            lemma_scale_pre(self.horizontal@, s as int, 0x18000000000, 0x200000000);
            lemma_scale_bound(self.horizontal@, s as int, 0x18000000000, 0x200000000);
            lemma_scale_pre(self.vertical@, t as int, 0x12000000000, 0x200000000);
            lemma_scale_bound(self.vertical@, t as int, 0x12000000000, 0x200000000);
        }
        let origin: Vector = self.origin.clone();
        let sh: Vector = self.horizontal.scale(s);
        let tv: Vector = self.vertical.scale(t);
        let direction: Vector = self.lower_left_corner.add_vec(&sh).add_vec(&tv).sub_vec(
            &self.origin,
        );
        Ray::new(origin, direction)
    }
}

} // verus!
