//! Three-component fixed-point vectors, used as points, directions and colors.
//!
//! Every executable operation is pinned to a spec-level twin over [`V3`],
//! the mathematical view of a vector, so that downstream contracts can state
//! exactly what geometry was computed.

use vstd::prelude::*;

use crate::fixed::{
    fx_add, fx_div, fx_mul, fx_neg, fx_sqrt, fx_sub, in_fx, lemma_fmul_one, sabs, sfadd, sfdiv,
    sfmul, sfneg, sfsqrt, sfsub, stdiv, FX_MAX, SCALE,
};

verus! {

/// Components whose absolute value falls below this quantum count as zero.
pub const NEAR_EPS: i128 = 1;

/// Mathematical view of a vector: three unbounded integers, each standing
/// for a real number times `SCALE`.
pub struct V3 {
    pub x: int,
    pub y: int,
    pub z: int,
}

/// All three components lie in the representable fixed-point range.
pub open spec fn in3(v: V3) -> bool {
    in_fx(v.x) && in_fx(v.y) && in_fx(v.z)
}

pub open spec fn zero3() -> V3 {
    V3 { x: 0, y: 0, z: 0 }
}

pub open spec fn sadd3(a: V3, b: V3) -> V3 {
    V3 { x: sfadd(a.x, b.x), y: sfadd(a.y, b.y), z: sfadd(a.z, b.z) }
}

pub open spec fn ssub3(a: V3, b: V3) -> V3 {
    V3 { x: sfsub(a.x, b.x), y: sfsub(a.y, b.y), z: sfsub(a.z, b.z) }
}

pub open spec fn sneg3(a: V3) -> V3 {
    V3 { x: sfneg(a.x), y: sfneg(a.y), z: sfneg(a.z) }
}

/// Elementwise product, as used for color attenuation.
pub open spec fn smul3(a: V3, b: V3) -> V3 {
    V3 { x: sfmul(a.x, b.x), y: sfmul(a.y, b.y), z: sfmul(a.z, b.z) }
}

/// Scalar times vector.
pub open spec fn sscale3(t: int, v: V3) -> V3 {
    V3 { x: sfmul(t, v.x), y: sfmul(t, v.y), z: sfmul(t, v.z) }
}

/// Vector divided by scalar.
pub open spec fn sdiv3(v: V3, t: int) -> V3
    recommends
        t != 0,
{
    V3 { x: sfdiv(v.x, t), y: sfdiv(v.y, t), z: sfdiv(v.z, t) }
}

pub open spec fn sdot(a: V3, b: V3) -> int {
    sfadd(sfadd(sfmul(a.x, b.x), sfmul(a.y, b.y)), sfmul(a.z, b.z))
}

pub open spec fn scross(a: V3, b: V3) -> V3 {
    V3 {
        x: sfsub(sfmul(a.y, b.z), sfmul(a.z, b.y)),
        y: sfsub(sfmul(a.z, b.x), sfmul(a.x, b.z)),
        z: sfsub(sfmul(a.x, b.y), sfmul(a.y, b.x)),
    }
}

pub open spec fn slen_sq(v: V3) -> int {
    sdot(v, v)
}

pub open spec fn slen(v: V3) -> int {
    sfsqrt(slen_sq(v))
}

pub open spec fn sunit(v: V3) -> V3
    recommends
        slen(v) != 0,
{
    sdiv3(v, slen(v))
}

pub open spec fn snear_zero(v: V3) -> bool {
    sabs(v.x) < NEAR_EPS && sabs(v.y) < NEAR_EPS && sabs(v.z) < NEAR_EPS
}

pub open spec fn smin(a: int, b: int) -> int {
    if a < b {
        a
    } else {
        b
    }
}

/// Mirror of `v` about the plane with normal `n`: `v - 2 (v . n) n`.
pub open spec fn sreflect(v: V3, n: V3) -> V3 {
    ssub3(v, sscale3(sfadd(sdot(v, n), sdot(v, n)), n))
}

/// Snell refraction of the unit vector `uv` at a surface with unit normal
/// `n` and refraction ratio `eta`, via the perpendicular/parallel
/// decomposition.  A negative radicand (grazing incidence reached through
/// rounding) is clamped to zero rather than left undefined.
pub open spec fn srefract(uv: V3, n: V3, eta: int) -> V3 {
    let cos = smin(sdot(sneg3(uv), n), SCALE as int);
    let perp = sscale3(eta, sadd3(uv, sscale3(cos, n)));
    let k = sfsub(SCALE as int, slen_sq(perp));
    let kpos = if k < 0 {
        0
    } else {
        k
    };
    sadd3(perp, sscale3(sfneg(sfsqrt(kpos)), n))
}

/// A fixed-point vector.
#[derive(Clone, Copy)]
pub struct Vec3 {
    x: i128,
    y: i128,
    z: i128,
}

impl View for Vec3 {
    type V = V3;

    closed spec fn view(&self) -> V3 {
        V3 { x: self.x as int, y: self.y as int, z: self.z as int }
    }
}

/// A point in space; the same representation as a vector.
pub type Point3 = Vec3;

/// A linear color; the same representation as a vector.
pub type Color = Vec3;

impl Vec3 {
    /// The zero vector.
    pub fn default() -> (r: Vec3)
        ensures
            r@ == zero3(),
            in3(r@),
    {
        Vec3 { x: 0, y: 0, z: 0 }
    }

    pub fn new(x: i128, y: i128, z: i128) -> (r: Vec3)
        requires
            in_fx(x as int),
            in_fx(y as int),
            in_fx(z as int),
        ensures
            r@ == (V3 { x: x as int, y: y as int, z: z as int }),
            in3(r@),
    {
        Vec3 { x, y, z }
    }

    pub fn x(self) -> (r: i128)
        ensures
            r == self@.x,
    {
        self.x
    }

    pub fn y(self) -> (r: i128)
        ensures
            r == self@.y,
    {
        self.y
    }

    pub fn z(self) -> (r: i128)
        ensures
            r == self@.z,
    {
        self.z
    }

    pub fn neg(self) -> (r: Vec3)
        requires
            in3(self@),
        ensures
            r@ == sneg3(self@),
            in3(r@),
    {
        Vec3 { x: fx_neg(self.x), y: fx_neg(self.y), z: fx_neg(self.z) }
    }

    pub fn add(self, other: Vec3) -> (r: Vec3)
        requires
            in3(self@),
            in3(other@),
        ensures
            r@ == sadd3(self@, other@),
            in3(r@),
    {
        Vec3 {
            x: fx_add(self.x, other.x),
            y: fx_add(self.y, other.y),
            z: fx_add(self.z, other.z),
        }
    }

    pub fn sub(self, other: Vec3) -> (r: Vec3)
        requires
            in3(self@),
            in3(other@),
        ensures
            r@ == ssub3(self@, other@),
            in3(r@),
    {
        Vec3 {
            x: fx_sub(self.x, other.x),
            y: fx_sub(self.y, other.y),
            z: fx_sub(self.z, other.z),
        }
    }

    /// Elementwise product.
    pub fn mul(self, other: Vec3) -> (r: Vec3)
        requires
            in3(self@),
            in3(other@),
        ensures
            r@ == smul3(self@, other@),
            in3(r@),
    {
        Vec3 {
            x: fx_mul(self.x, other.x),
            y: fx_mul(self.y, other.y),
            z: fx_mul(self.z, other.z),
        }
    }

    /// Scalar multiple.
    pub fn scaled(self, t: i128) -> (r: Vec3)
        requires
            in3(self@),
            in_fx(t as int),
        ensures
            r@ == sscale3(t as int, self@),
            in3(r@),
    {
        Vec3 { x: fx_mul(t, self.x), y: fx_mul(t, self.y), z: fx_mul(t, self.z) }
    }

    /// Division by a scalar.
    pub fn div(self, t: i128) -> (r: Vec3)
        requires
            in3(self@),
            in_fx(t as int),
            t != 0,
        ensures
            r@ == sdiv3(self@, t as int),
            in3(r@),
    {
        Vec3 { x: fx_div(self.x, t), y: fx_div(self.y, t), z: fx_div(self.z, t) }
    }

    pub fn add_assign(&mut self, other: Vec3)
        requires
            in3(old(self)@),
            in3(other@),
        ensures
            final(self)@ == sadd3(old(self)@, other@),
            in3(final(self)@),
    {
        *self = self.add(other);
    }

    pub fn mul_assign(&mut self, t: i128)
        requires
            in3(old(self)@),
            in_fx(t as int),
        ensures
            final(self)@ == sscale3(t as int, old(self)@),
            in3(final(self)@),
    {
        *self = self.scaled(t);
    }

    pub fn div_assign(&mut self, t: i128)
        requires
            in3(old(self)@),
            in_fx(t as int),
            t != 0,
        ensures
            final(self)@ == sdiv3(old(self)@, t as int),
            in3(final(self)@),
    {
        *self = self.div(t);
    }

    pub fn dot(self, other: Vec3) -> (r: i128)
        requires
            in3(self@),
            in3(other@),
        ensures
            r == sdot(self@, other@),
            in_fx(r as int),
    {
        fx_add(
            fx_add(fx_mul(self.x, other.x), fx_mul(self.y, other.y)),
            fx_mul(self.z, other.z),
        )
    }

    pub fn cross(self, other: Vec3) -> (r: Vec3)
        requires
            in3(self@),
            in3(other@),
        ensures
            r@ == scross(self@, other@),
            in3(r@),
    {
        Vec3 {
            x: fx_sub(fx_mul(self.y, other.z), fx_mul(self.z, other.y)),
            y: fx_sub(fx_mul(self.z, other.x), fx_mul(self.x, other.z)),
            z: fx_sub(fx_mul(self.x, other.y), fx_mul(self.y, other.x)),
        }
    }

    pub fn length_squared(self) -> (r: i128)
        requires
            in3(self@),
        ensures
            r == slen_sq(self@),
            0 <= r <= FX_MAX,
    {
        proof {
            lemma_len_sq_nonneg(self@);
        }
        self.dot(self)
    }

    pub fn length(self) -> (r: i128)
        requires
            in3(self@),
        ensures
            r == slen(self@),
            0 <= r <= FX_MAX,
    {
        fx_sqrt(self.length_squared())
    }

    /// True when every component is below the representable quantum.
    pub fn near_zero(self) -> (r: bool)
        requires
            in3(self@),
        ensures
            r == snear_zero(self@),
    {
        let ax: i128 = if self.x < 0 {
            -self.x
        } else {
            self.x
        };
        let ay: i128 = if self.y < 0 {
            -self.y
        } else {
            self.y
        };
        let az: i128 = if self.z < 0 {
            -self.z
        } else {
            self.z
        };
        ax < NEAR_EPS && ay < NEAR_EPS && az < NEAR_EPS
    }

    /// The direction of `self` with unit length; the caller must supply a
    /// vector of nonzero length.
    pub fn unit_vector(self) -> (r: Vec3)
        requires
            in3(self@),
            slen_sq(self@) > 0,
        ensures
            r@ == sunit(self@),
            in3(r@),
            slen(self@) > 0,
    {
        let ls: i128 = self.length_squared();
        let len: i128 = fx_sqrt(ls);
        proof {
            crate::fixed::lemma_ssqrt(ls * SCALE);
            assert(len > 0) by (nonlinear_arith)
                requires
                    (len + 1) * (len + 1) > ls * SCALE,
                    ls >= 1,
                    SCALE == 65536,
                    len >= 0,
            ;
        }
        self.div(len)
    }

    /// `self - 2 (self . n) n`.
    pub fn reflect(self, n: Vec3) -> (r: Vec3)
        requires
            in3(self@),
            in3(n@),
        ensures
            r@ == sreflect(self@, n@),
            in3(r@),
    {
        let d: i128 = self.dot(n);
        self.sub(n.scaled(fx_add(d, d)))
    }

    /// Snell refraction; `self` should be unit length, `n` the unit normal
    /// opposing it, and `eta` the ratio of refraction indices.
    pub fn refract(self, n: Vec3, eta: i128) -> (r: Vec3)
        requires
            in3(self@),
            in3(n@),
            in_fx(eta as int),
        ensures
            r@ == srefract(self@, n@, eta as int),
            in3(r@),
    {
        let d: i128 = self.neg().dot(n);
        let cos: i128 = if d < SCALE {
            d
        } else {
            SCALE
        };
        let perp: Vec3 = self.add(n.scaled(cos)).scaled(eta);
        proof {
            lemma_len_sq_nonneg(perp@);
        }
        let k: i128 = fx_sub(SCALE, perp.length_squared());
        let kpos: i128 = if k < 0 {
            0
        } else {
            k
        };
        let par: Vec3 = n.scaled(fx_neg(fx_sqrt(kpos)));
        perp.add(par)
    }
}

/// One uniformly drawn component: `min + (max - min) * u` for a unit draw
/// `u` in `[0, SCALE)`.
pub open spec fn s_rand_comp(min: int, max: int, u: int) -> int {
    sfadd(min, sfmul(sfsub(max, min), u))
}

/// A vector drawn inside the unit ball (squared length below one).
pub open spec fn in_ball(v: V3) -> bool {
    in3(v) && slen_sq(v) < SCALE
}

/// The unit vector obtained from a ball sample, with the degenerate zero
/// sample sent to the `z` axis instead of an undefined direction.
pub open spec fn s_runit(p: V3) -> V3 {
    if slen_sq(p) == 0 {
        V3 { x: 0, y: 0, z: SCALE as int }
    } else {
        sunit(p)
    }
}

/// A uniformly drawn component stays inside `[min, max)`.
pub proof fn lemma_rand_comp_range(min: int, max: int, u: int)
    requires
        in_fx(min),
        in_fx(max),
        min < max,
        0 <= u < SCALE,
    ensures
        min <= s_rand_comp(min, max, u) < max,
        in_fx(s_rand_comp(min, max, u)),
{
    let range = sfsub(max, min);
    assert(1 <= range <= max - min);
    let p = range * u;
    assert(0 <= p && p < range * SCALE) by (nonlinear_arith)
        requires
            p == range * u,
            range >= 1,
            0 <= u < SCALE,
    ;
    assert(0 <= p / (SCALE as int) < range) by (nonlinear_arith)
        requires
            0 <= p < range * SCALE,
            SCALE == 65536,
    ;
    assert(stdiv(p, SCALE as int) == p / (SCALE as int));
    assert(sfmul(range, u) == p / (SCALE as int));
}

impl Vec3 {
    /// A vector with each component drawn uniformly from `[min, max)`, or
    /// the zero vector when no random source is available.
    pub fn random(rand: &mut crate::rng::Rand, min: i128, max: i128) -> (r: Vec3)
        requires
            in_fx(min as int),
            in_fx(max as int),
            min < max,
        ensures
            in3(r@),
            final(rand).available() == old(rand).available(),
            old(rand).available() ==> (exists|u: V3|
                0 <= u.x < SCALE && 0 <= u.y < SCALE && 0 <= u.z < SCALE && r@ == (V3 {
                    x: s_rand_comp(min as int, max as int, u.x),
                    y: s_rand_comp(min as int, max as int, u.y),
                    z: s_rand_comp(min as int, max as int, u.z),
                })),
            old(rand).available() ==> min <= r@.x < max && min <= r@.y < max && min <= r@.z
                < max,
            !old(rand).available() ==> r@ == zero3(),
    {
        let ux: Option<i128> = rand.try_unit();
        let uy: Option<i128> = rand.try_unit();
        let uz: Option<i128> = rand.try_unit();
        match (ux, uy, uz) {
            (Some(ax), Some(ay), Some(az)) => {
                proof {
                    lemma_rand_comp_range(min as int, max as int, ax as int);
                    lemma_rand_comp_range(min as int, max as int, ay as int);
                    lemma_rand_comp_range(min as int, max as int, az as int);
                }
                let range: i128 = fx_sub(max, min);
                let r = Vec3 {
                    x: fx_add(min, fx_mul(range, ax)),
                    y: fx_add(min, fx_mul(range, ay)),
                    z: fx_add(min, fx_mul(range, az)),
                };
                proof {
                    let u = V3 { x: ax as int, y: ay as int, z: az as int };
                    assert(0 <= u.x < SCALE && 0 <= u.y < SCALE && 0 <= u.z < SCALE && r@ == (V3 {
                        x: s_rand_comp(min as int, max as int, u.x),
                        y: s_rand_comp(min as int, max as int, u.y),
                        z: s_rand_comp(min as int, max as int, u.z),
                    }));
                }
                r
            },
            _ => Vec3::default(),
        }
    }

    /// A rejection-sampled point inside the unit ball; after a bounded
    /// number of tries, or without a random source, the center is used.
    pub fn random_in_unit_sphere(rand: &mut crate::rng::Rand) -> (r: Vec3)
        ensures
            in_ball(r@),
            final(rand).available() == old(rand).available(),
    {
        let mut i: u32 = 0;
        while i < 32
            invariant
                rand.available() == old(rand).available(),
            decreases 32 - i,
        {
            let p = Vec3::random(rand, -SCALE, SCALE);
            if p.length_squared() < SCALE {
                return p;
            }
            i = i + 1;
        }
        proof {
            lemma_len_sq_zero();
        }
        Vec3::default()
    }

    /// A random direction of unit length (the ball sample normalized, with
    /// the zero sample sent to the `z` axis).
    pub fn random_unit_vector(rand: &mut crate::rng::Rand) -> (r: Vec3)
        ensures
            in3(r@),
            (exists|p: V3| in_ball(p) && r@ == s_runit(p)),
            final(rand).available() == old(rand).available(),
    {
        let p = Vec3::random_in_unit_sphere(rand);
        let ls: i128 = p.length_squared();
        if ls == 0 {
            let r = Vec3::new(0, 0, SCALE);
            proof {
                assert(in_ball(p@) && r@ == s_runit(p@));
            }
            r
        } else {
            let r = p.unit_vector();
            proof {
                assert(in_ball(p@) && r@ == s_runit(p@));
            }
            r
        }
    }

    /// A ball sample flipped, if needed, into the hemisphere around
    /// `normal`.
    pub fn random_in_hemisphere(rand: &mut crate::rng::Rand, normal: Vec3) -> (r: Vec3)
        requires
            in3(normal@),
        ensures
            in_ball(r@),
            sdot(r@, normal@) >= 0,
            final(rand).available() == old(rand).available(),
    {
        let p = Vec3::random_in_unit_sphere(rand);
        if p.dot(normal) > 0 {
            p
        } else {
            proof {
                lemma_dot_neg_left(p@, normal@);
                lemma_len_sq_neg(p@);
            }
            p.neg()
        }
    }

    /// A rejection-sampled point inside the unit disk of the `x`/`y` plane,
    /// used for lens sampling; bounded tries with the center as fallback.
    pub fn random_in_unit_disk(rand: &mut crate::rng::Rand) -> (r: Vec3)
        ensures
            in_ball(r@),
            r@.z == 0,
            final(rand).available() == old(rand).available(),
    {
        let mut i: u32 = 0;
        while i < 32
            invariant
                rand.available() == old(rand).available(),
            decreases 32 - i,
        {
            let v = Vec3::random(rand, -SCALE, SCALE);
            let p = Vec3::new(v.x(), v.y(), 0);
            if p.length_squared() < SCALE {
                return p;
            }
            i = i + 1;
        }
        proof {
            lemma_len_sq_zero();
        }
        Vec3::default()
    }
}

/// Largest channel value before 8-bit quantization: just below one, so
/// that the brightest channel maps to 255 and not past it.
pub const CLAMP_MAX: i128 = 65470;

/// One display channel: the accumulated linear value averaged over the
/// sample count, gamma-corrected by a square root, saturated just below
/// one, and quantized to eight bits.  Negative averages (which a physical
/// accumulation never produces) quantize to zero.
pub open spec fn s_channel8(c: int, samples: int) -> int
    recommends
        samples > 0,
{
    let avg = stdiv(c, samples);
    let avgpos = if avg < 0 {
        0
    } else {
        avg
    };
    let root = sfsqrt(avgpos);
    let clamped = if root > CLAMP_MAX {
        CLAMP_MAX as int
    } else {
        root
    };
    stdiv(256 * clamped, SCALE as int)
}

fn channel8(c: i128, samples: i64) -> (r: u8)
    requires
        in_fx(c as int),
        samples > 0,
    ensures
        r as int == s_channel8(c as int, samples as int),
{
    let avg: i128 = crate::fixed::fx_divi(c, samples as i128);
    let avgpos: i128 = if avg < 0 {
        0
    } else {
        avg
    };
    let root: i128 = crate::fixed::fx_sqrt(avgpos);
    let clamped: i128 = if root > CLAMP_MAX {
        CLAMP_MAX
    } else {
        root
    };
    let q: i128 = crate::fixed::fx_divi(256 * clamped, SCALE);
    proof {
        assert(0 <= 256 * clamped <= 16760320);
        assert(stdiv(256 * clamped, SCALE as int) == (256 * clamped) / (SCALE as int));
        assert(0 <= (256 * clamped) / (SCALE as int) <= 255) by (nonlinear_arith)
            requires
                0 <= 256 * clamped <= 16760320,
                SCALE == 65536,
        ;
    }
    q as u8
}

/// Map an accumulated pixel color to gamma-corrected 8-bit channels; the
/// caller emits them in its image format of choice.
pub fn to_rgb8(pixel_color: Color, samples_per_pixel: i64) -> (rgb: (u8, u8, u8))
    requires
        in3(pixel_color@),
        samples_per_pixel > 0,
    ensures
        rgb.0 as int == s_channel8(pixel_color@.x, samples_per_pixel as int),
        rgb.1 as int == s_channel8(pixel_color@.y, samples_per_pixel as int),
        rgb.2 as int == s_channel8(pixel_color@.z, samples_per_pixel as int),
{
    (
        channel8(pixel_color.x, samples_per_pixel),
        channel8(pixel_color.y, samples_per_pixel),
        channel8(pixel_color.z, samples_per_pixel),
    )
}

/// The zero vector has squared length zero.
pub proof fn lemma_len_sq_zero()
    ensures
        slen_sq(zero3()) == 0,
{
}

/// Negating the first argument of a dot product negates the result.
pub proof fn lemma_dot_neg_left(a: V3, b: V3)
    requires
        in3(a),
    ensures
        sdot(sneg3(a), b) == -sdot(a, b),
        in_fx(sdot(a, b)),
{
    lemma_fmul_neg_left(a.x, b.x);
    lemma_fmul_neg_left(a.y, b.y);
    lemma_fmul_neg_left(a.z, b.z);
}

/// `sfmul(-a, b) == -sfmul(a, b)` when `-a` does not saturate.
pub proof fn lemma_fmul_neg_left(a: int, b: int)
    requires
        in_fx(a),
    ensures
        sfmul(sfneg(a), b) == -sfmul(a, b),
{
    assert((-a) * b == -(a * b)) by (nonlinear_arith);
}

/// The squared length of a vector is a nonnegative in-range value.
pub proof fn lemma_len_sq_nonneg(v: V3)
    ensures
        0 <= slen_sq(v) <= FX_MAX,
{
    assert(v.x * v.x >= 0) by (nonlinear_arith);
    assert(v.y * v.y >= 0) by (nonlinear_arith);
    assert(v.z * v.z >= 0) by (nonlinear_arith);
}

/// Negating one argument of a dot product negates the result exactly:
/// truncation toward zero and saturation are both symmetric about zero.
pub proof fn lemma_dot_neg(a: V3, b: V3)
    requires
        in3(b),
    ensures
        sdot(a, sneg3(b)) == -sdot(a, b),
        in_fx(sdot(a, b)),
{
    lemma_fmul_neg(a.x, b.x);
    lemma_fmul_neg(a.y, b.y);
    lemma_fmul_neg(a.z, b.z);
}

/// `sfmul(a, -b) == -sfmul(a, b)` when `-b` does not saturate.
pub proof fn lemma_fmul_neg(a: int, b: int)
    requires
        in_fx(b),
    ensures
        sfmul(a, sfneg(b)) == -sfmul(a, b),
{
    assert(a * -b == -(a * b)) by (nonlinear_arith);
}

/// Negation preserves squared length exactly.
pub proof fn lemma_len_sq_neg(v: V3)
    requires
        in3(v),
    ensures
        slen_sq(sneg3(v)) == slen_sq(v),
{
    assert((-v.x) * (-v.x) == v.x * v.x) by (nonlinear_arith);
    assert((-v.y) * (-v.y) == v.y * v.y) by (nonlinear_arith);
    assert((-v.z) * (-v.z) == v.z * v.z) by (nonlinear_arith);
}

/// An axis-aligned unit vector: exactly representable, so products against
/// it lose nothing to truncation.
pub open spec fn axis_unit(n: V3) -> bool {
    ||| n == (V3 { x: SCALE as int, y: 0, z: 0 })
    ||| n == (V3 { x: -(SCALE as int), y: 0, z: 0 })
    ||| n == (V3 { x: 0, y: SCALE as int, z: 0 })
    ||| n == (V3 { x: 0, y: -(SCALE as int), z: 0 })
    ||| n == (V3 { x: 0, y: 0, z: SCALE as int })
    ||| n == (V3 { x: 0, y: 0, z: -(SCALE as int) })
}

/// Every component leaves room to double without saturating.
pub open spec fn in3_half(v: V3) -> bool {
    sabs(v.x) <= crate::fixed::FX_HALF && sabs(v.y) <= crate::fixed::FX_HALF && sabs(v.z)
        <= crate::fixed::FX_HALF
}

/// On an axis-aligned unit normal the quantized, executable-level
/// reflection obeys the reflection laws with no rounding error at all, for
/// every vector with room to double: the dot product against the normal is
/// negated exactly, and the squared length is preserved exactly.
pub proof fn lemma_reflect_axis_exact(v: V3, n: V3)
    requires
        axis_unit(n),
        in3_half(v),
    ensures
        sdot(sreflect(v, n), n) == -sdot(v, n),
        slen_sq(sreflect(v, n)) == slen_sq(v),
{
    if n.x != 0 {
        lemma_reflect_axis_x(v, n.x);
    } else if n.y != 0 {
        lemma_reflect_axis_y(v, n.y);
    } else {
        lemma_reflect_axis_z(v, n.z);
    }
}

proof fn lemma_reflect_axis_x(v: V3, s: int)
    requires
        s == SCALE || s == -(SCALE as int),
        in3_half(v),
    ensures
        sdot(sreflect(v, V3 { x: s, y: 0, z: 0 }), V3 { x: s, y: 0, z: 0 }) == -sdot(
            v,
            V3 { x: s, y: 0, z: 0 },
        ),
        slen_sq(sreflect(v, V3 { x: s, y: 0, z: 0 })) == slen_sq(v),
{
    let n = V3 { x: s, y: 0, z: 0 };
    assert(v.y * 0 == 0 && v.z * 0 == 0);
    lemma_fmul_one(v.x);
    lemma_fmul_neg(v.x, SCALE as int);
    let d = sdot(v, n);
    assert(d == if s == SCALE {
        v.x
    } else {
        -v.x
    });
    let dd = sfadd(d, d);
    assert(dd == 2 * d);
    assert(dd * 0 == 0);
    lemma_fmul_one(dd);
    lemma_fmul_neg(dd, SCALE as int);
    let r = sreflect(v, n);
    assert(r.y == v.y && r.z == v.z && r.x == -v.x);
    lemma_fmul_one(-v.x);
    lemma_fmul_neg(-v.x, SCALE as int);
    assert((-v.x) * 0 == 0);
    assert(sdot(r, n) == -d);
    assert((-v.x) * (-v.x) == v.x * v.x) by (nonlinear_arith);
    assert(slen_sq(r) == slen_sq(v));
}

proof fn lemma_reflect_axis_y(v: V3, s: int)
    requires
        s == SCALE || s == -(SCALE as int),
        in3_half(v),
    ensures
        sdot(sreflect(v, V3 { x: 0, y: s, z: 0 }), V3 { x: 0, y: s, z: 0 }) == -sdot(
            v,
            V3 { x: 0, y: s, z: 0 },
        ),
        slen_sq(sreflect(v, V3 { x: 0, y: s, z: 0 })) == slen_sq(v),
{
    let n = V3 { x: 0, y: s, z: 0 };
    assert(v.x * 0 == 0 && v.z * 0 == 0);
    lemma_fmul_one(v.y);
    lemma_fmul_neg(v.y, SCALE as int);
    let d = sdot(v, n);
    assert(d == if s == SCALE {
        v.y
    } else {
        -v.y
    });
    let dd = sfadd(d, d);
    assert(dd == 2 * d);
    assert(dd * 0 == 0);
    lemma_fmul_one(dd);
    lemma_fmul_neg(dd, SCALE as int);
    let r = sreflect(v, n);
    assert(r.x == v.x && r.z == v.z && r.y == -v.y);
    lemma_fmul_one(-v.y);
    lemma_fmul_neg(-v.y, SCALE as int);
    assert((-v.y) * 0 == 0);
    assert(sdot(r, n) == -d);
    assert((-v.y) * (-v.y) == v.y * v.y) by (nonlinear_arith);
    assert(slen_sq(r) == slen_sq(v));
}

proof fn lemma_reflect_axis_z(v: V3, s: int)
    requires
        s == SCALE || s == -(SCALE as int),
        in3_half(v),
    ensures
        sdot(sreflect(v, V3 { x: 0, y: 0, z: s }), V3 { x: 0, y: 0, z: s }) == -sdot(
            v,
            V3 { x: 0, y: 0, z: s },
        ),
        slen_sq(sreflect(v, V3 { x: 0, y: 0, z: s })) == slen_sq(v),
{
    let n = V3 { x: 0, y: 0, z: s };
    assert(v.x * 0 == 0 && v.y * 0 == 0);
    lemma_fmul_one(v.z);
    lemma_fmul_neg(v.z, SCALE as int);
    let d = sdot(v, n);
    assert(d == if s == SCALE {
        v.z
    } else {
        -v.z
    });
    let dd = sfadd(d, d);
    assert(dd == 2 * d);
    assert(dd * 0 == 0);
    lemma_fmul_one(dd);
    lemma_fmul_neg(dd, SCALE as int);
    let r = sreflect(v, n);
    assert(r.x == v.x && r.y == v.y && r.z == -v.z);
    lemma_fmul_one(-v.z);
    lemma_fmul_neg(-v.z, SCALE as int);
    assert((-v.z) * 0 == 0);
    assert(sdot(r, n) == -d);
    assert((-v.z) * (-v.z) == v.z * v.z) by (nonlinear_arith);
    assert(slen_sq(r) == slen_sq(v));
}

/// Exact-arithmetic dot product of the underlying integer model, before any
/// truncation or saturation.
pub open spec fn rdot(a: V3, b: V3) -> int {
    a.x * b.x + a.y * b.y + a.z * b.z
}

/// Exact-arithmetic reflection, scaled by `rdot(n, n)` so that it stays
/// integral for every `n`: `rdot(n,n) v - 2 rdot(v,n) n`.
pub open spec fn rreflect(v: V3, n: V3) -> V3 {
    V3 {
        x: rdot(n, n) * v.x - 2 * rdot(v, n) * n.x,
        y: rdot(n, n) * v.y - 2 * rdot(v, n) * n.y,
        z: rdot(n, n) * v.z - 2 * rdot(v, n) * n.z,
    }
}

/// Reflection reverses the component along the normal: in exact arithmetic,
/// `reflect(v, n) . n == -(v . n)` up to the `rdot(n, n)` scaling, for every
/// `v` and `n`.  The executable [`Vec3::reflect`] realizes this law up to
/// the fixed-point quantum.
pub proof fn lemma_reflect_opposes(v: V3, n: V3)
    ensures
        rdot(rreflect(v, n), n) == -(rdot(n, n) * rdot(v, n)),
{
    let k = rdot(n, n);
    let d = rdot(v, n);
    let r = rreflect(v, n);
    assert(r.x * n.x == k * (v.x * n.x) - 2 * d * (n.x * n.x)) by (nonlinear_arith)
        requires
            r.x == k * v.x - 2 * d * n.x,
    ;
    assert(r.y * n.y == k * (v.y * n.y) - 2 * d * (n.y * n.y)) by (nonlinear_arith)
        requires
            r.y == k * v.y - 2 * d * n.y,
    ;
    assert(r.z * n.z == k * (v.z * n.z) - 2 * d * (n.z * n.z)) by (nonlinear_arith)
        requires
            r.z == k * v.z - 2 * d * n.z,
    ;
    assert(k * (v.x * n.x) + k * (v.y * n.y) + k * (v.z * n.z) == k * d) by (nonlinear_arith)
        requires
            d == v.x * n.x + v.y * n.y + v.z * n.z,
    ;
    assert(2 * d * (n.x * n.x) + 2 * d * (n.y * n.y) + 2 * d * (n.z * n.z) == 2 * d * k)
        by (nonlinear_arith)
        requires
            k == n.x * n.x + n.y * n.y + n.z * n.z,
    ;
    assert(2 * d * k == 2 * (k * d)) by (nonlinear_arith);
    assert(rdot(rreflect(v, n), n) == -(k * d));
}

/// Reflection preserves length: in exact arithmetic the squared length of
/// `reflect(v, n)` equals that of `v` times the square of the `rdot(n, n)`
/// scaling, for every `v` and `n` (so exactly, whenever `n` is unit).
pub proof fn lemma_reflect_preserves_length(v: V3, n: V3)
    ensures
        rdot(rreflect(v, n), rreflect(v, n)) == rdot(n, n) * rdot(n, n) * rdot(v, v),
{
    let k = rdot(n, n);
    let d = rdot(v, n);
    let r = rreflect(v, n);
    let kk: int = k * k;
    let kd: int = k * d;
    let dd: int = d * d;
    lemma_square_component(r.x, k, d, v.x, n.x);
    lemma_square_component(r.y, k, d, v.y, n.y);
    lemma_square_component(r.z, k, d, v.z, n.z);
    assert(kk * (v.x * v.x) + kk * (v.y * v.y) + kk * (v.z * v.z) == kk * rdot(v, v))
        by (nonlinear_arith)
        requires
            rdot(v, v) == v.x * v.x + v.y * v.y + v.z * v.z,
    ;
    assert((kd * (v.x * n.x)) + (kd * (v.y * n.y)) + (kd * (v.z * n.z)) == kd * d)
        by (nonlinear_arith)
        requires
            d == v.x * n.x + v.y * n.y + v.z * n.z,
    ;
    assert((dd * (n.x * n.x)) + (dd * (n.y * n.y)) + (dd * (n.z * n.z)) == dd * k)
        by (nonlinear_arith)
        requires
            k == n.x * n.x + n.y * n.y + n.z * n.z,
    ;
    assert(kd * d == dd * k) by (nonlinear_arith)
        requires
            kd == k * d,
            dd == d * d,
    ;
    assert(kk * rdot(v, v) == k * k * rdot(v, v));
    assert(rdot(r, r) == k * k * rdot(v, v));
}

/// One component of the squared reflection, expanded over the atomic
/// products `k * k`, `k * d` and `d * d`.
proof fn lemma_square_component(ri: int, k: int, d: int, vi: int, ni: int)
    requires
        ri == k * vi - 2 * d * ni,
    ensures
        ri * ri == (k * k) * (vi * vi) - 4 * ((k * d) * (vi * ni)) + 4 * ((d * d) * (ni * ni)),
{
    let a: int = k * vi;
    let b: int = 2 * d * ni;
    assert(ri * ri == a * a - 2 * (a * b) + b * b) by (nonlinear_arith)
        requires
            ri == a - b,
    ;
    assert(a * a == (k * k) * (vi * vi)) by (nonlinear_arith)
        requires
            a == k * vi,
    ;
    assert(a * b == 2 * ((k * d) * (vi * ni))) by (nonlinear_arith)
        requires
            a == k * vi,
            b == 2 * d * ni,
    ;
    assert(b * b == 4 * ((d * d) * (ni * ni))) by (nonlinear_arith)
        requires
            b == 2 * d * ni,
    ;
}

} // verus!
