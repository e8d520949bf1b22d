//! Hit records: the result of one ray/primitive intersection query, with
//! the surface normal oriented to oppose the incoming ray.

use vstd::prelude::*;
use crate::vec::{Vector, okv, dot3, neg3, lemma_mul_pre};
use crate::ray::Ray;
use crate::material::Material;

verus! {

/// The result of an intersection query: hit point, oriented normal,
/// parametric distance, which side was struck, and the material there.
pub struct HitRecord {
    pub p: Vector,
    pub normal: Vector,
    pub t: i128,
    pub front_face: bool,
    pub material: Material,
}

/// A surface normal oriented against the incoming ray, tagged with the
/// side of the surface the ray approached from.
pub enum FaceNormal {
    Front(Vector),
    Back(Vector),
}

/// A record the scattering models accept: the hit point within the
/// coordinate range and a normal of roughly unit magnitude.
pub open spec fn rec_ok(r: HitRecord) -> bool {
    okv(r.p@, 0x800000000000) && okv(r.normal@, 0x400000000)
}

impl HitRecord {
    /// A record from its parts.
    pub fn new(p: Vector, normal: Vector, t: i128, front_face: bool, material: Material) -> (r:
        HitRecord)
        ensures
            r.p == p,
            r.normal == normal,
            r.t == t,
            r.front_face == front_face,
            r.material == material,
    {
        Self { p, normal, t, front_face, material }
    }

    /// The outward normal oriented against the ray: kept as a front face
    /// when the ray approaches from outside, negated as a back face
    /// otherwise.
    pub fn get_face_normal(ray: &Ray, outward_normal: &Vector) -> (r: FaceNormal)
        requires
            okv(ray@.direction, 0x100000000000),
            okv(outward_normal@, 0x2000000000000000000),
        ensures
            (dot3(ray@.direction, outward_normal@) < 0) == (r is Front),
            r matches FaceNormal::Front(v) ==> v == *outward_normal,
            r matches FaceNormal::Back(v) ==> v@ == neg3(outward_normal@),
    {
        proof {
            lemma_mul_pre(ray@.direction, outward_normal@, 0x100000000000, 0x2000000000000000000);
        }
        let d: i128 = ray.direction.dot(outward_normal);
        if d < 0 {
            FaceNormal::Front(outward_normal.clone())
        } else {
            FaceNormal::Back(outward_normal.neg())
        }
    }
}

} // verus!
