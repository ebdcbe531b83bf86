//! Materials and their scattering behaviour.
//!
//! A material answers an intersection with an attenuation color and a
//! scattered ray, or declines, absorbing the path.  The three kinds form a
//! closed sum: ideal diffuse ([`Lambertian`]), fuzzed mirror ([`Metal`]) and
//! refractive ([`Dielectric`]).

use vstd::prelude::*;

use crate::fixed::{fx_add, fx_div, fx_mul, fx_sqrt, fx_sub, in_fx, sfadd, sfdiv, sfmul, sfsqrt,
    sfsub, FX_MAX, SCALE};
use crate::hittable::HitRecord;
use crate::ray::{ray_wf, Ray};
use crate::rng::Rand;
use crate::vec3::{in3, in_ball, sadd3, sdot, slen_sq, smin, sneg3, snear_zero, sreflect,
    srefract, sscale3, sunit, s_runit, Color, Vec3, V3};

verus! {

/// Ideal diffuse reflection with the given albedo.
#[derive(Clone, Copy)]
pub struct Lambertian {
    pub albedo: Color,
}

/// Mirror reflection, roughened by `fuzz` in `[0, 1]`.
#[derive(Clone, Copy)]
pub struct Metal {
    pub albedo: Color,
    pub fuzz: i128,
}

/// A clear refractive material with the given index of refraction.
#[derive(Clone, Copy)]
pub struct Dielectric {
    pub ir: i128,
}

/// The closed set of material kinds.
#[derive(Clone, Copy)]
pub enum Material {
    Lambertian(Lambertian),
    Metal(Metal),
    Dielectric(Dielectric),
}

/// Each channel is a fraction of reflected light, in `[0, 1]`.
pub open spec fn color01(v: V3) -> bool {
    0 <= v.x <= SCALE && 0 <= v.y <= SCALE && 0 <= v.z <= SCALE
}

/// Pure white: no absorption.
pub open spec fn white3() -> V3 {
    V3 { x: SCALE as int, y: SCALE as int, z: SCALE as int }
}

/// Validity of a material's parameters.
pub open spec fn mat_wf(m: Material) -> bool {
    match m {
        Material::Lambertian(l) => color01(l.albedo@),
        Material::Metal(mt) => color01(mt.albedo@) && 0 <= mt.fuzz <= SCALE,
        Material::Dielectric(d) => 0 < d.ir <= FX_MAX,
    }
}

/// The attenuation a material applies to whatever it scatters: the albedo
/// for the diffuse and metal kinds, pure white for the dielectric.
pub open spec fn s_attenuation(m: Material) -> V3 {
    match m {
        Material::Lambertian(l) => l.albedo@,
        Material::Metal(mt) => mt.albedo@,
        Material::Dielectric(_) => white3(),
    }
}

/// The diffuse scatter direction: the normal plus a random unit vector,
/// falling back to the normal itself when the sum degenerates to zero.
pub open spec fn s_lambertian_dir(n: V3, u: V3) -> V3 {
    let d = sadd3(n, u);
    if snear_zero(d) {
        n
    } else {
        d
    }
}

/// The effective refraction ratio at a dielectric boundary.
pub open spec fn s_ratio(d: Dielectric, front_face: bool) -> int {
    if front_face {
        sfdiv(SCALE as int, d.ir as int)
    } else {
        d.ir as int
    }
}

/// Cosine of the angle of incidence, clamped to at most one.
pub open spec fn s_cos(uv: V3, n: V3) -> int {
    smin(sdot(sneg3(uv), n), SCALE as int)
}

/// Sine from the cosine, with a negative radicand clamped to zero.
pub open spec fn s_sin(cos: int) -> int {
    let k = sfsub(SCALE as int, sfmul(cos, cos));
    sfsqrt(
        if k < 0 {
            0
        } else {
            k
        },
    )
}

/// Total internal reflection: the refracted angle would need a sine above
/// one.
pub open spec fn s_tir(ratio: int, sin: int) -> bool {
    sfmul(ratio, sin) > SCALE
}

/// Schlick's closed-form reflectance approximation.
pub open spec fn s_reflectance(cosine: int, ref_idx: int) -> int {
    let r0 = sfdiv(sfsub(SCALE as int, ref_idx), sfadd(SCALE as int, ref_idx));
    let r0sq = sfmul(r0, r0);
    sfadd(r0sq, sfmul(sfsub(SCALE as int, r0sq), spow5(sfsub(SCALE as int, cosine))))
}

/// Fifth power in fixed-point arithmetic.
pub open spec fn spow5(x: int) -> int {
    sfmul(sfmul(sfmul(sfmul(x, x), x), x), x)
}

impl Lambertian {
    pub fn new(a: Color) -> (r: Lambertian)
        requires
            color01(a@),
        ensures
            r.albedo == a,
    {
        Lambertian { albedo: a }
    }
}

impl Metal {
    /// Fuzz above one is capped at one, as a fuzz ball larger than the
    /// reflection step loses meaning.
    pub fn new(a: Color, f: i128) -> (r: Metal)
        requires
            color01(a@),
            0 <= f,
            in_fx(f as int),
        ensures
            r.albedo == a,
            r.fuzz == smin(f as int, SCALE as int),
    {
        Metal {
            albedo: a,
            fuzz: if f < SCALE {
                f
            } else {
                SCALE
            },
        }
    }
}

impl Dielectric {
    pub fn new(ir: i128) -> (r: Dielectric)
        requires
            0 < ir <= FX_MAX,
        ensures
            r.ir == ir,
    {
        Dielectric { ir }
    }
}

/// Schlick's reflectance, pinned to its fixed-point formula.
fn reflectance(cosine: i128, ref_idx: i128) -> (r: i128)
    requires
        in_fx(cosine as int),
        0 <= ref_idx <= FX_MAX,
    ensures
        r == s_reflectance(cosine as int, ref_idx as int),
        in_fx(r as int),
{
    let denom: i128 = fx_add(SCALE, ref_idx);
    let r0: i128 = fx_div(fx_sub(SCALE, ref_idx), denom);
    let r0sq: i128 = fx_mul(r0, r0);
    let x: i128 = fx_sub(SCALE, cosine);
    let x2: i128 = fx_mul(x, x);
    let x3: i128 = fx_mul(x2, x);
    let x4: i128 = fx_mul(x3, x);
    let x5: i128 = fx_mul(x4, x);
    fx_add(r0sq, fx_mul(fx_sub(SCALE, r0sq), x5))
}

impl Material {
    /// Scatter an incoming ray at a hit.  `None` means the path is
    /// absorbed.  Which direction comes back may depend on the random
    /// source, so the contract pins each kind's outcome up to the stated
    /// random draw; with no random source available every kind takes its
    /// deterministic branch.
    pub fn scatter(&self, r_in: &Ray, rec: &HitRecord, rand: &mut Rand) -> (res: Option<
        (Color, Ray),
    >)
        requires
            mat_wf(*self),
            ray_wf(*r_in),
            in3(rec.p@),
            in3(rec.normal@),
            self matches Material::Metal(_) ==> slen_sq(r_in.dir@) > 0,
            self matches Material::Dielectric(_) ==> slen_sq(r_in.dir@) > 0,
        ensures
            final(rand).available() == old(rand).available(),
            res matches Some(ar) ==> ar.1.org == rec.p && in3(ar.1.dir@) && color01(ar.0@),
            self matches Material::Lambertian(l) ==> (res matches Some(ar) && ar.0 == l.albedo
                && (exists|p: V3|
                in_ball(p) && ar.1.dir@ == s_lambertian_dir(rec.normal@, s_runit(p)))),
            self matches Material::Metal(m) ==> (res matches Some(ar) ==> (ar.0 == m.albedo
                && sdot(ar.1.dir@, rec.normal@) > 0 && (exists|f: V3|
                in_ball(f) && ar.1.dir@ == sadd3(
                    sreflect(sunit(r_in.dir@), rec.normal@),
                    sscale3(m.fuzz as int, f),
                )))),
            self matches Material::Metal(m) ==> (res is None ==> (exists|f: V3|
                in_ball(f) && sdot(
                    sadd3(sreflect(sunit(r_in.dir@), rec.normal@), sscale3(m.fuzz as int, f)),
                    rec.normal@,
                ) <= 0)),
            self matches Material::Dielectric(d) ==> (res matches Some(ar) && ar.0@ == white3()
                && (s_tir(s_ratio(*d, rec.front_face), s_sin(s_cos(sunit(r_in.dir@), rec.normal@)))
                ==> ar.1.dir@ == sreflect(sunit(r_in.dir@), rec.normal@)) && (ar.1.dir@
                == sreflect(sunit(r_in.dir@), rec.normal@) || ar.1.dir@ == srefract(
                sunit(r_in.dir@),
                rec.normal@,
                s_ratio(*d, rec.front_face),
            )) && ((!s_tir(
                s_ratio(*d, rec.front_face),
                s_sin(s_cos(sunit(r_in.dir@), rec.normal@)),
            ) && !old(rand).available()) ==> ar.1.dir@ == srefract(
                sunit(r_in.dir@),
                rec.normal@,
                s_ratio(*d, rec.front_face),
            ))),
    {
        match self {
            Material::Lambertian(l) => {
                let u: Vec3 = Vec3::random_unit_vector(rand);
                let cand: Vec3 = rec.normal.add(u);
                let scatter_direction: Vec3 = if cand.near_zero() {
                    rec.normal
                } else {
                    cand
                };
                proof {
                    let pw = choose|p: V3| in_ball(p) && u@ == s_runit(p);
                    assert(in_ball(pw) && scatter_direction@ == s_lambertian_dir(
                        rec.normal@,
                        s_runit(pw),
                    ));
                }
                Some((l.albedo, Ray::new(rec.p, scatter_direction)))
            },
            Material::Metal(m) => {
                let reflected: Vec3 = r_in.direction().unit_vector().reflect(rec.normal);
                let f: Vec3 = Vec3::random_in_unit_sphere(rand);
                let dir: Vec3 = reflected.add(f.scaled(m.fuzz));
                let scattered: Ray = Ray::new(rec.p, dir);
                if scattered.direction().dot(rec.normal) > 0 {
                    proof {
                        assert(in_ball(f@) && dir@ == sadd3(
                            sreflect(sunit(r_in.dir@), rec.normal@),
                            sscale3(m.fuzz as int, f@),
                        ));
                    }
                    Some((m.albedo, scattered))
                } else {
                    proof {
                        assert(in_ball(f@) && sdot(
                            sadd3(sreflect(sunit(r_in.dir@), rec.normal@), sscale3(
                                m.fuzz as int,
                                f@,
                            )),
                            rec.normal@,
                        ) <= 0);
                    }
                    None
                }
            },
            Material::Dielectric(d) => {
                let refraction_ratio: i128 = if rec.front_face {
                    fx_div(SCALE, d.ir)
                } else {
                    d.ir
                };
                let unit_direction: Vec3 = r_in.direction().unit_vector();
                let d0: i128 = unit_direction.neg().dot(rec.normal);
                let cos_theta: i128 = if d0 < SCALE {
                    d0
                } else {
                    SCALE
                };
                let k: i128 = fx_sub(SCALE, fx_mul(cos_theta, cos_theta));
                let kpos: i128 = if k < 0 {
                    0
                } else {
                    k
                };
                let sin_theta: i128 = fx_sqrt(kpos);
                let reflectivity: bool = match rand.try_unit() {
                    Some(u) => reflectance(cos_theta, refraction_ratio) > u,
                    None => false,
                };
                let direction: Vec3 = if fx_mul(refraction_ratio, sin_theta) > SCALE
                    || reflectivity {
                    unit_direction.reflect(rec.normal)
                } else {
                    unit_direction.refract(rec.normal, refraction_ratio)
                };
                Some((Color::new(SCALE, SCALE, SCALE), Ray::new(rec.p, direction)))
            },
        }
    }
}

} // verus!
