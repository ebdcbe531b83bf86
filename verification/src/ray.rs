//! Rays: an origin, a direction, and parametric evaluation.

use vstd::prelude::*;

use crate::fixed::{fx_add, fx_mul, fx_sub, in_fx, sfadd, sfmul, sfsub, stdiv, FX_MAX, SCALE};
use crate::hittable_list::{list_wf, s_list_hit, HittableList};
use crate::material::{color01, s_attenuation, Material};
use crate::rng::Rand;
use crate::vec3::{
    in3, lemma_len_sq_nonneg, sadd3, slen_sq, smul3, sscale3, sunit, zero3, Color, Point3, Vec3,
    V3,
};

verus! {

/// Query floor for scattered rays: suppresses self-intersection at the
/// origin of a bounce (about a thousandth in fixed-point units).
pub const T_EPS: i128 = 66;

/// Half of one, for the sky gradient midpoint.
pub const HALF_SCALE: i128 = 32768;

/// Green channel of the sky's zenith color (seven tenths).
pub const SKY_G: i128 = 45875;

/// Saturation of a blend weight into `[0, 1]`.
pub open spec fn sclamp01(x: int) -> int {
    if x < 0 {
        0
    } else if x > SCALE {
        SCALE as int
    } else {
        x
    }
}

/// Zenith color of the sky gradient.
pub open spec fn skyblue3() -> V3 {
    V3 { x: HALF_SCALE as int, y: SKY_G as int, z: SCALE as int }
}

/// Horizon color of the sky gradient.
pub open spec fn white3v() -> V3 {
    V3 { x: SCALE as int, y: SCALE as int, z: SCALE as int }
}

/// The sky blend weight: `(unit_y + 1) / 2`, saturated into `[0, 1]`.
pub open spec fn s_sky_t(dir: V3) -> int
    recommends
        slen_sq(dir) > 0,
{
    sclamp01(sfmul(HALF_SCALE as int, sfadd(sunit(dir).y, SCALE as int)))
}

/// The sky gradient: white blended toward sky blue by the direction's
/// vertical component.
pub open spec fn s_sky(dir: V3) -> V3
    recommends
        slen_sq(dir) > 0,
{
    let t = s_sky_t(dir);
    sadd3(sscale3(sfsub(SCALE as int, t), white3v()), sscale3(t, skyblue3()))
}

/// A half-line through `org` along `dir`; the direction need not be unit
/// length.
pub struct Ray {
    pub org: Point3,
    pub dir: Vec3,
}

/// Both defining vectors are in range.
pub open spec fn ray_wf(r: Ray) -> bool {
    in3(r.org@) && in3(r.dir@)
}

/// The point reached after parameter `t`: `org + t * dir`.
pub open spec fn s_at(r: Ray, t: int) -> V3 {
    sadd3(r.org@, sscale3(t, r.dir@))
}

impl Ray {
    pub fn new(org: Point3, dir: Vec3) -> (r: Ray)
        ensures
            r.org == org,
            r.dir == dir,
    {
        Ray { org, dir }
    }

    pub fn origin(&self) -> (r: Point3)
        ensures
            r == self.org,
    {
        self.org
    }

    pub fn direction(&self) -> (r: Vec3)
        ensures
            r == self.dir,
    {
        self.dir
    }

    pub fn at(&self, t: i128) -> (r: Point3)
        requires
            ray_wf(*self),
            in_fx(t as int),
        ensures
            r@ == s_at(*self, t as int),
            in3(r@),
    {
        self.org.add(self.dir.scaled(t))
    }

    /// The radiance carried back along this ray: black once the bounce
    /// budget `depth` is spent, the sky gradient where the scene is missed,
    /// and otherwise the scattering material's attenuation times the
    /// radiance of the scattered ray — so on a hit the result is always
    /// that attenuation times some in-range color, with black only where a
    /// metal absorbs the path.  Degenerate directions produce black rather
    /// than an undefined sky sample.
    pub fn color(&self, world: &HittableList, depth: i64, rand: &mut Rand) -> (c: Color)
        requires
            ray_wf(*self),
            list_wf(world@),
        ensures
            in3(c@),
            color01(c@),
            depth <= 0 ==> c@ == zero3(),
            depth > 0 && slen_sq(self.dir@) == 0 ==> c@ == zero3(),
            (depth > 0 && slen_sq(self.dir@) > 0 && s_list_hit(
                world@,
                *self,
                T_EPS as int,
                FX_MAX as int,
            ) is None) ==> c@ == s_sky(self.dir@),
            (depth > 0 && s_list_hit(world@, *self, T_EPS as int, FX_MAX as int) is Some) ==> ({
                let g = s_list_hit(world@, *self, T_EPS as int, FX_MAX as int)->Some_0;
                (c@ == zero3() && g.mat matches Material::Metal(_)) || (exists|b: V3|
                    #[trigger] color01(b) && c@ == smul3(s_attenuation(g.mat), b))
            }),
            final(rand).available() == old(rand).available(),
        decreases depth,
    {
        if depth <= 0 {
            return Vec3::default();
        }
        proof {
            lemma_len_sq_nonneg(self.dir@);
        }
        match world.hit(self, T_EPS, FX_MAX) {
            Some(rec) => {
                match rec.mat.scatter(self, &rec, rand) {
                    Some((attenuation, scattered)) => {
                        let bounced: Color = scattered.color(world, depth - 1, rand);
                        proof {
                            lemma_mul_color01(attenuation@, bounced@);
                            assert(attenuation@ == s_attenuation(rec.mat));
                            assert(color01(bounced@) && smul3(attenuation@, bounced@) == smul3(
                                s_attenuation(rec.mat),
                                bounced@,
                            ));
                        }
                        attenuation.mul(bounced)
                    },
                    None => {
                        proof {
                            assert(rec.mat matches Material::Metal(_));
                        }
                        Vec3::default()
                    },
                }
            },
            None => {
                let ls: i128 = self.dir.length_squared();
                if ls == 0 {
                    return Vec3::default();
                }
                let unit_direction: Vec3 = self.dir.unit_vector();
                let raw_t: i128 = fx_mul(HALF_SCALE, fx_add(unit_direction.y(), SCALE));
                let t: i128 = if raw_t < 0 {
                    0
                } else if raw_t > SCALE {
                    SCALE
                } else {
                    raw_t
                };
                let white: Color = Vec3::new(SCALE, SCALE, SCALE);
                let skyblue: Color = Vec3::new(HALF_SCALE, SKY_G, SCALE);
                proof {
                    lemma_blend_color01(t as int, white3v(), skyblue3());
                }
                white.scaled(fx_sub(SCALE, t)).add(skyblue.scaled(t))
            },
        }
    }
}

/// An empty scene reports no hit for any ray and any query window, so the
/// integrator's contract owes the sky gradient for every nondegenerate ray
/// with bounces left.
pub proof fn lemma_empty_scene_misses(r: Ray, t_min: int, t_max: int)
    ensures
        s_list_hit(Seq::<crate::sphere::Sphere>::empty(), r, t_min, t_max) is None,
{
}

/// The sky gradient at its three reference directions: level rays blend
/// white and sky blue equally, a straight-up unit direction gives pure sky
/// blue, a straight-down one pure white.  (The level blend is the exact
/// fixed-point average of the two colors.)
pub proof fn lemma_sky_endpoints(dir: V3)
    requires
        slen_sq(dir) > 0,
    ensures
        sunit(dir).y == 0 ==> s_sky(dir) == (V3 { x: 49152, y: 55705, z: 65536 }),
        sunit(dir).y == SCALE ==> s_sky(dir) == skyblue3(),
        sunit(dir).y == -SCALE ==> s_sky(dir) == white3v(),
{
    let u = sunit(dir);
    if u.y == 0 {
        crate::fixed::lemma_fmul_one(HALF_SCALE as int);
        assert(s_sky_t(dir) == HALF_SCALE);
        assert(32768 * 32768 == 1073741824);
        assert(32768 * 45875 == 1503232000);
        assert(32768 * 65536 == 2147483648);
        assert(sfmul(HALF_SCALE as int, 32768) == 16384);
        assert(sfmul(HALF_SCALE as int, 45875) == 22937);
        assert(sfmul(HALF_SCALE as int, 65536) == 32768);
    } else if u.y == SCALE {
        assert(32768 * 131072 == 4294967296);
        assert(sfadd(u.y, SCALE as int) == 131072);
        assert(4294967296int / 65536int == 65536int) by (nonlinear_arith);
        assert(stdiv(4294967296, 65536 as int) == 65536);
        assert(sfmul(HALF_SCALE as int, 131072) == 65536);
        assert(s_sky_t(dir) == SCALE);
        crate::fixed::lemma_fmul_one(32768);
        crate::fixed::lemma_fmul_one(45875);
        crate::fixed::lemma_fmul_one(65536);
        assert(0 * 65536 == 0);
        assert(sfmul(0, 65536) == 0);
    } else if u.y == -SCALE {
        assert(32768 * 0 == 0);
        assert(s_sky_t(dir) == 0);
        crate::fixed::lemma_fmul_one(32768);
        crate::fixed::lemma_fmul_one(45875);
        crate::fixed::lemma_fmul_one(65536);
        assert(0 * 32768 == 0 && 0 * 45875 == 0 && 0 * 65536 == 0);
        assert(sfmul(0, 32768) == 0 && sfmul(0, 45875) == 0 && sfmul(0, 65536) == 0);
    }
}

/// The elementwise product of colors in `[0, 1]` stays in `[0, 1]`.
pub proof fn lemma_mul_color01(a: V3, b: V3)
    requires
        color01(a),
        color01(b),
    ensures
        color01(smul3(a, b)),
        in3(smul3(a, b)),
{
    lemma_fmul_le_left(a.x, b.x);
    lemma_fmul_le_left(a.y, b.y);
    lemma_fmul_le_left(a.z, b.z);
}

/// For `x >= 0` and `0 <= y <= 1`, the product `x * y` stays in `[0, x]`.
pub proof fn lemma_fmul_le_left(x: int, y: int)
    requires
        0 <= x,
        0 <= y <= SCALE,
    ensures
        0 <= sfmul(x, y) <= x,
{
    let p = x * y;
    assert(0 <= p <= x * SCALE) by (nonlinear_arith)
        requires
            p == x * y,
            0 <= x,
            0 <= y <= SCALE,
    ;
    assert(0 <= p / (SCALE as int) <= x) by (nonlinear_arith)
        requires
            0 <= p <= x * SCALE,
            SCALE == 65536,
    ;
    assert(stdiv(p, SCALE as int) == p / (SCALE as int));
}

/// A convex blend of two colors in `[0, 1]` by a weight in `[0, 1]` stays
/// in `[0, 1]`.
pub proof fn lemma_blend_color01(t: int, a: V3, b: V3)
    requires
        0 <= t <= SCALE,
        color01(a),
        color01(b),
    ensures
        color01(sadd3(sscale3(sfsub(SCALE as int, t), a), sscale3(t, b))),
        in3(sadd3(sscale3(sfsub(SCALE as int, t), a), sscale3(t, b))),
{
    lemma_fmul_le_left(SCALE - t, a.x);
    lemma_fmul_le_left(SCALE - t, a.y);
    lemma_fmul_le_left(SCALE - t, a.z);
    lemma_fmul_le_left(t, b.x);
    lemma_fmul_le_left(t, b.y);
    lemma_fmul_le_left(t, b.z);
}

} // verus!
