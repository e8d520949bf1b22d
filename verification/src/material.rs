//! Material scattering models: diffuse, metallic with fuzz, and dielectric
//! refraction with total internal reflection.

use vstd::prelude::*;
use crate::vec::{
    Vector,
    V3,
    okv,
    lsq3,
    dot3,
    add3,
    neg3,
    reflect3,
    refract3,
    unit3,
    scale3,
    lemma_mul_pre,
    lemma_scale_pre,
    lemma_scale_bound,
    lemma_dot_bound,
    lemma_prod_lt,
};
use crate::fx::{ONE, mag, fmul, fdiv, fsqrt, fx_mul, fx_div, fx_sqrt};
use crate::ray::{Ray, ray_ok};
use crate::hitrecord::{HitRecord, rec_ok};
use crate::rng::Rng64;
use crate::color::Color;

verus! {

/// A diffuse surface.
#[derive(Clone, Copy, Debug)]
pub struct Lambertian {
    pub albedo: Color,
}

/// A reflective surface with a roughness perturbation.
#[derive(Clone, Copy, Debug)]
pub struct Metal {
    pub albedo: Color,
    pub fuzz: i128,
}

/// A transparent refractive surface.
#[derive(Clone, Copy, Debug)]
pub struct Dielectric {
    pub ref_idx: i128,
}

/// The closed set of scattering behaviors.
#[derive(Clone, Copy, Debug)]
pub enum Material {
    Lambertian(Lambertian),
    Metal(Metal),
    Dielectric(Dielectric),
}

/// A color whose channels are fractions in `[0, 1]`.
pub open spec fn color_ok(c: V3) -> bool {
    0 <= c.x <= ONE as int && 0 <= c.y <= ONE as int && 0 <= c.z <= ONE as int
}

/// A material the pipeline accepts: albedo channels are fractions, fuzz
/// and refractive index lie in their machine-bounded ranges.
pub open spec fn mat_ok(m: Material) -> bool {
    match m {
        Material::Lambertian(l) => color_ok(l.albedo@),
        Material::Metal(mt) => color_ok(mt.albedo@) && 0 <= mt.fuzz <= 0x1000000000,
        Material::Dielectric(d) => 0x40000000 <= d.ref_idx <= 0x1000000000,
    }
}

/// The direction a dielectric scatters into: refraction by Snell's law,
/// except total internal reflection past the critical angle.
pub open spec fn dielectric_dir(ref_idx: int, front: bool, d: V3, n: V3) -> V3 {
    let ratio = if front {
        fdiv(ONE as int, ref_idx)
    } else {
        ref_idx
    };
    let u = unit3(d);
    let c0 = dot3(neg3(u), n);
    let cos = if c0 > ONE as int {
        ONE as int
    } else {
        c0
    };
    let csq = fmul(cos, cos);
    let dsq = if ONE - csq >= 0 {
        ONE - csq
    } else {
        0
    };
    if fmul(ratio, fsqrt(dsq)) > ONE as int {
        reflect3(u, n)
    } else {
        refract3(u, n, ratio)
    }
}

/// Whether a dielectric hit is past the critical angle, so that it must
/// reflect rather than refract.
pub open spec fn dielectric_tir(ref_idx: int, front: bool, d: V3, n: V3) -> bool {
    let ratio = if front {
        fdiv(ONE as int, ref_idx)
    } else {
        ref_idx
    };
    let u = unit3(d);
    let c0 = dot3(neg3(u), n);
    let cos = if c0 > ONE as int {
        ONE as int
    } else {
        c0
    };
    let csq = fmul(cos, cos);
    let dsq = if ONE - csq >= 0 {
        ONE - csq
    } else {
        0
    };
    fmul(ratio, fsqrt(dsq)) > ONE as int
}

/// What a material's scatter returns, as a function of the incoming
/// direction, the oriented normal, the struck side, and the generator
/// state: the attenuation and scattered direction (or absorption), paired
/// with the generator state after the call.
pub open spec fn scatter_s(m: Material, rdir: V3, n: V3, front: bool, s: u64) -> (
    Option<(V3, V3)>,
    u64,
) {
    match m {
        Material::Lambertian(l) => {
            let smp = crate::vec::sphere_sample_rec(s, 32);
            (Some((l.albedo@, add3(n, smp.0))), smp.1)
        },
        Material::Metal(mt) => {
            let smp = crate::vec::sphere_sample_rec(s, 32);
            let dir = add3(reflect3(unit3(rdir), n), scale3(smp.0, mt.fuzz as int));
            if dot3(dir, n) > 0 {
                (Some((mt.albedo@, dir)), smp.1)
            } else {
                (None, smp.1)
            }
        },
        Material::Dielectric(d) => (
            Some(
                (
                    V3 { x: ONE as int, y: ONE as int, z: ONE as int },
                    dielectric_dir(d.ref_idx as int, front, rdir, n),
                ),
            ),
            s,
        ),
    }
}

impl Lambertian {
    /// A diffuse material from its albedo.
    pub fn new(albedo: Color) -> (r: Lambertian)
        ensures
            r.albedo == albedo,
    {
        Lambertian { albedo }
    }

    /// Diffuse scattering: the new direction is the oriented normal plus a
    /// fresh point inside the unit sphere; the ray is never absorbed.
    pub fn scatter(&self, ray_in: &Ray, rec: &HitRecord, rng: &mut Rng64) -> (r: Option<
        (Color, Ray),
    >)
        requires
            color_ok(self.albedo@),
            rec_ok(*rec),
        ensures
            r.is_some(),
            final(rng).state == crate::vec::sphere_sample_rec(old(rng).state, 32).1,
            r matches Some((att, sc)) ==> att@ == self.albedo@ && sc@.origin == rec.p@ && okv(
                sc@.direction,
                0x500000000,
            ) && sc@.direction == add3(
                rec.normal@,
                crate::vec::sphere_sample_rec(old(rng).state, 32).0,
            ),
    {
        let s: Vector = Vector::rand_in_unit_sphere(rng);
        let target: Vector = rec.p.add_vec(&rec.normal).add_vec(&s);
        let dir: Vector = target.sub_vec(&rec.p);
        let scattered: Ray = Ray::new(rec.p.clone(), dir);
        proof {
            assert(lsq3(s@) < ONE as int && okv(s@, ONE as int) && scattered@.direction == add3(
                rec.normal@,
                s@,
            ));
        }
        Some((self.albedo.clone(), scattered))
    }
}

impl Metal {
    /// A metallic material from its albedo and fuzz.
    pub fn new(albedo: Color, fuzz: i128) -> (r: Metal)
        ensures
            r.albedo == albedo,
            r.fuzz == fuzz,
    {
        Metal { albedo, fuzz }
    }

    /// Metallic scattering: the unit incoming direction reflected about the
    /// normal, perturbed by fuzz; absorbed when the perturbed direction
    /// points into the surface.
    pub fn scatter(&self, ray_in: &Ray, rec: &HitRecord, rng: &mut Rng64) -> (r: Option<
        (Color, Ray),
    >)
        requires
            color_ok(self.albedo@),
            0 <= self.fuzz <= 0x1000000000,
            rec_ok(*rec),
            ray_ok(ray_in@),
        ensures
            r matches Some((att, sc)) ==> att@ == self.albedo@ && sc@.origin == rec.p@ && dot3(
                sc@.direction,
                rec.normal@,
            ) > 0 && okv(sc@.direction, 0x20000000000),
            final(rng).state == crate::vec::sphere_sample_rec(old(rng).state, 32).1,
            ({
                let dir = add3(
                    reflect3(unit3(ray_in@.direction), rec.normal@),
                    scale3(crate::vec::sphere_sample_rec(old(rng).state, 32).0, self.fuzz as int),
                );
                ((r is Some) == (dot3(dir, rec.normal@) > 0)) && (r matches Some((att, sc))
                    ==> sc@.direction == dir)
            }),
    {
        let u: Vector = ray_in.direction.unit_vector();
        let reflected: Vector = u.reflect(&rec.normal);
        proof {
            lemma_mul_pre(unit3(ray_in@.direction), rec.normal@, 0x300000000, 0x400000000);
            lemma_dot_bound(unit3(ray_in@.direction), rec.normal@, 0x300000000, 0x400000000);
            lemma_scale_bound(
                rec.normal@,
                2 * dot3(unit3(ray_in@.direction), rec.normal@),
                0x400000000,
                0x4800000000,
            );
        }
        let s: Vector = Vector::rand_in_unit_sphere(rng);
        proof {
            lemma_scale_pre(s@, self.fuzz as int, ONE as int, 0x1000000000);
            lemma_scale_bound(s@, self.fuzz as int, ONE as int, 0x1000000000);
        }
        let f: Vector = s.scale(self.fuzz);
        let dir: Vector = reflected.add_vec(&f);
        let scattered: Ray = Ray::new(rec.p.clone(), dir);
        proof {
            lemma_mul_pre(dir@, rec.normal@, 0x20000000000, 0x400000000);
        }
        let d: i128 = scattered.direction.dot(&rec.normal);
        if d > 0 {
            Some((self.albedo.clone(), scattered))
        } else {
            None
        }
    }
}

impl Dielectric {
    /// A dielectric material from its refractive index.
    pub fn new(ref_idx: i128) -> (r: Dielectric)
        ensures
            r.ref_idx == ref_idx,
    {
        Dielectric { ref_idx }
    }

    /// Dielectric scattering: the ray always continues, reflected past the
    /// critical angle and refracted otherwise, with no tinting. The square
    /// root's argument is floored at zero to guard the near-grazing case
    /// where rounding pushes the cosine past one.
    pub fn scatter(&self, ray_in: &Ray, rec: &HitRecord, rng: &mut Rng64) -> (r: Option<
        (Color, Ray),
    >)
        requires
            0x40000000 <= self.ref_idx <= 0x1000000000,
            rec_ok(*rec),
            ray_ok(ray_in@),
        ensures
            r.is_some(),
            r matches Some((att, sc)) ==> att@ == (V3 {
                x: ONE as int,
                y: ONE as int,
                z: ONE as int,
            }) && sc@.origin == rec.p@ && sc@.direction == dielectric_dir(
                self.ref_idx as int,
                rec.front_face,
                ray_in@.direction,
                rec.normal@,
            ) && okv(sc@.direction, 0x10000000000000),
            dielectric_tir(
                self.ref_idx as int,
                rec.front_face,
                ray_in@.direction,
                rec.normal@,
            ) ==> (r matches Some((att, sc)) && sc@.direction == reflect3(
                unit3(ray_in@.direction),
                rec.normal@,
            )),
            final(rng).state == old(rng).state,
    {
        let attenuation: Color = Vector::new_color(ONE, ONE, ONE);
        let ratio: i128 = if rec.front_face {
            proof {
                vstd::arithmetic::div_mod::lemma_div_is_ordered_by_denominator(
                    0x10000000000000000,
                    self.ref_idx as int,
                    0x1000000000,
                );
                vstd::arithmetic::div_mod::lemma_div_pos_is_pos(
                    0x10000000000000000,
                    self.ref_idx as int,
                );
                crate::fx::lemma_fdiv_bound(ONE as int, self.ref_idx as int, ONE as int, 0x40000000);
            }
            fx_div(ONE, self.ref_idx)
        } else {
            self.ref_idx
        };
        let u: Vector = ray_in.direction.unit_vector();
        let mu: Vector = u.neg();
        proof {
            lemma_mul_pre(mu@, rec.normal@, 0x300000000, 0x400000000);
            lemma_dot_bound(mu@, rec.normal@, 0x300000000, 0x400000000);
        }
        let c0: i128 = mu.dot(&rec.normal);
        let cos: i128 = if c0 > ONE {
            ONE
        } else {
            c0
        };
        proof {
            lemma_prod_lt(mag(cos as int), mag(cos as int), 0x3000000000, 0x3000000000);
            crate::fx::lemma_fmul_bound(cos as int, cos as int, 0x3000000000, 0x3000000000);
        }
        let csq: i128 = fx_mul(cos, cos);
        proof {
            assert((cos as int) * (cos as int) >= 0) by (nonlinear_arith);
            vstd::arithmetic::div_mod::lemma_div_pos_is_pos(
                mag((cos as int) * (cos as int)),
                mag(ONE as int),
            );
        }
        let dsq: i128 = ONE - csq;
        let adsq: i128 = if dsq >= 0 {
            dsq
        } else {
            0
        };
        let sin: i128 = fx_sqrt(adsq);
        proof {
            crate::fx::lemma_isqrt((adsq as int) * (ONE as int));
            assert((adsq as int) * (ONE as int) < 0x100000000000000000000) by (nonlinear_arith)
                requires
                    0 <= adsq < 0x10000000000,
            ;
            assert(mag(sin as int) <= 0x10000000000) by (nonlinear_arith)
                requires
                    sin >= 0 && (sin as int) * (sin as int) < 0x100000000000000000000,
            ;
            lemma_prod_lt(mag(ratio as int), mag(sin as int), 0x1000000000, 0x10000000000);
            crate::fx::lemma_fmul_bound(ratio as int, sin as int, 0x1000000000, 0x10000000000);
        }
        let ts: i128 = fx_mul(ratio, sin);
        let dir: Vector = if ts > ONE {
            u.reflect(&rec.normal)
        } else {
            u.refract(&rec.normal, ratio)
        };
        proof {
            lemma_dot_bound(unit3(ray_in@.direction), rec.normal@, 0x300000000, 0x400000000);
            lemma_scale_bound(
                rec.normal@,
                2 * dot3(unit3(ray_in@.direction), rec.normal@),
                0x400000000,
                0x4800000000,
            );
            lemma_refract_bound(unit3(ray_in@.direction), rec.normal@, ratio as int);
        }
        Some((attenuation, Ray::new(rec.p.clone(), dir)))
    }
}

/// Bound on a refracted direction's components for unit-scale inputs.
pub proof fn lemma_refract_bound(v: V3, n: V3, ratio: int)
    requires
        okv(v, 0x300000000),
        okv(n, 0x400000000),
        0 < ratio <= 0x4000000000,
    ensures
        okv(refract3(v, n, ratio), 0x10000000000000),
{
    let c0 = dot3(neg3(v), n);
    let cos = if c0 > ONE as int {
        ONE as int
    } else {
        c0
    };
    lemma_dot_bound(neg3(v), n, 0x300000000, 0x400000000);
    lemma_scale_bound(n, cos, 0x400000000, 0x3000000000);
    let sum = add3(v, scale3(n, cos));
    lemma_scale_bound(sum, ratio, 0x20000000000, 0x4000000000);
    let perp = scale3(sum, ratio);
    lemma_dot_bound(perp, perp, 0x800000000000, 0x800000000000);
    let dsq = mag(ONE - lsq3(perp));
    crate::fx::lemma_isqrt(dsq * (ONE as int));
    let par_s = fsqrt(dsq);
    assert(dsq * (ONE as int) < 0x2000000000000000000000000) by (nonlinear_arith)
        requires
            0 <= dsq < 0x20000000000000000,
    ;
    assert(mag(-par_s) <= 0x2000000000000) by (nonlinear_arith)
        requires
            par_s >= 0 && par_s * par_s < 0x2000000000000000000000000,
    ;
    lemma_scale_bound(n, -par_s, 0x400000000, 0x2000000000000);
    assert(okv(add3(perp, scale3(n, -par_s)), 0x10000000000000));
}

impl Material {
    /// Dispatch to the variant's scattering model.
    pub fn scatter(&self, ray_in: &Ray, rec: &HitRecord, rng: &mut Rng64) -> (r: Option<
        (Color, Ray),
    >)
        requires
            mat_ok(*self),
            rec_ok(*rec),
            ray_ok(ray_in@),
        ensures
            r matches Some((att, sc)) ==> color_ok(att@) && sc@.origin == rec.p@ && okv(
                sc@.direction,
                0x10000000000000,
            ),
            self is Lambertian ==> r.is_some(),
            self is Dielectric ==> r.is_some(),
            ({
                let (res, s2) = scatter_s(
                    *self,
                    ray_in@.direction,
                    rec.normal@,
                    rec.front_face,
                    old(rng).state,
                );
                final(rng).state == s2 && ((r is Some) == (res is Some)) && (r matches Some(
                    (att, sc),
                ) ==> (res matches Some((ar, dr)) && att@ == ar && sc@.direction == dr))
            }),
    {
        match self {
            Material::Lambertian(l) => l.scatter(ray_in, rec, rng),
            Material::Metal(m) => m.scatter(ray_in, rec, rng),
            Material::Dielectric(d) => d.scatter(ray_in, rec, rng),
        }
    }

    /// A diffuse material.
    pub fn lambertian(albedo: Color) -> (r: Material)
        ensures
            r == Material::Lambertian(Lambertian { albedo }),
    {
        Material::Lambertian(Lambertian::new(albedo))
    }

    /// A metallic material.
    pub fn metal(albedo: Color, fuzz: i128) -> (r: Material)
        ensures
            r == Material::Metal(Metal { albedo, fuzz }),
    {
        Material::Metal(Metal::new(albedo, fuzz))
    }

    /// A dielectric material.
    pub fn dielectric(ref_idx: i128) -> (r: Material)
        ensures
            r == Material::Dielectric(Dielectric { ref_idx }),
    {
        Material::Dielectric(Dielectric::new(ref_idx))
    }
}

} // verus!
