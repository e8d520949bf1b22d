//! Rays: an origin, a direction, and point-at-parameter evaluation.

use vstd::prelude::*;
use crate::vec::{Vector, V3, okv, lsq3, add3, scale3, lemma_scale_pre, lemma_scale_bound};
use crate::fx::mag;

verus! {

/// Mathematical value of a ray.
pub ghost struct RayV {
    pub origin: V3,
    pub direction: V3,
}

/// A ray, freely copied value data.
#[derive(Clone, Copy, Debug)]
pub struct Ray {
    pub origin: Vector,
    pub direction: Vector,
}

impl View for Ray {
    type V = RayV;

    open spec fn view(&self) -> RayV {
        RayV { origin: self.origin@, direction: self.direction@ }
    }
}

/// The point at parameter `t` along a ray: `origin + t * direction`.
pub open spec fn ray_at(r: RayV, t: int) -> V3 {
    add3(r.origin, scale3(r.direction, t))
}

/// A ray the tracing pipeline accepts: origin and direction within the
/// coordinate range, and a direction that is not degenerate.
pub open spec fn ray_ok(r: RayV) -> bool {
    okv(r.origin, 0x800000000000) && okv(r.direction, 0x100000000000) && lsq3(r.direction) >= 1
}

impl Ray {
    /// A ray from its origin and direction.
    pub fn new(origin: Vector, direction: Vector) -> (r: Ray)
        ensures
            r@.origin == origin@,
            r@.direction == direction@,
    {
        Ray { origin, direction }
    }

    /// The point at parameter `t` along this ray.
    pub fn at(&self, t: i128) -> (p: Vector)
        requires
            okv(self@.origin, 0x800000000000),
            okv(self@.direction, 0x100000000000),
            mag(t as int) <= 0x800000000000,
        ensures
            p@ == ray_at(self@, t as int),
            okv(p@, 0x1000000000000000),
    {
        proof {
            lemma_scale_pre(self@.direction, t as int, 0x100000000000, 0x800000000000);
            lemma_scale_bound(self@.direction, t as int, 0x100000000000, 0x800000000000);
        }
        let d: Vector = self.direction.scale(t);
        self.origin.add_vec(&d)
    }
}

} // verus!
