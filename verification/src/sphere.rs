//! Closed-form ray/sphere intersection.
//!
//! The quadratic `a t^2 + 2 half_b t + c = 0` is solved in fixed point; the
//! smaller root strictly inside the query window wins, with the larger root
//! as fallback.  A negative radius is a valid configuration that models an
//! inverted shell: it flips the outward normal, which
//! [`lemma_negative_radius_flips_normal`] states exactly.

use vstd::prelude::*;

use crate::fixed::{fx_add, fx_div, fx_mul, fx_neg, fx_sqrt, fx_sub, in_fx, is_isqrt,
    lemma_fmul_one, lemma_fmul_whole, lemma_stdiv_scale, sabs, sclamp, sfadd, sfdiv, sfmul, sfneg,
    sfsqrt, sfsub, stdiv, FX_MAX, SCALE};
use crate::hittable::{outward_of, rec_matches, GHit, HitRecord};
use crate::material::{mat_wf, Material};
use crate::ray::{ray_wf, s_at, Ray};
use crate::vec3::{in3, lemma_dot_neg, sdiv3, sdot, slen_sq, sneg3, ssub3, Point3, V3};

verus! {

/// A sphere; the radius may be negative (an inverted shell) but not zero.
pub struct Sphere {
    cen: Point3,
    r: i128,
    mat: Material,
}

/// Validity of a sphere: in-range geometry, nonzero radius, valid material.
pub open spec fn sphere_wf(s: Sphere) -> bool {
    in3(s.center_spec()) && in_fx(s.radius_spec()) && s.radius_spec() != 0 && mat_wf(s.mat_spec())
}

impl Sphere {
    pub closed spec fn center_spec(self) -> V3 {
        self.cen@
    }

    pub closed spec fn radius_spec(self) -> int {
        self.r as int
    }

    pub closed spec fn mat_spec(self) -> Material {
        self.mat
    }

    pub fn new(cen: Point3, r: i128, mat: Material) -> (s: Sphere)
        requires
            in3(cen@),
            in_fx(r as int),
            r != 0,
            mat_wf(mat),
        ensures
            s.center_spec() == cen@,
            s.radius_spec() == r as int,
            s.mat_spec() == mat,
            sphere_wf(s),
    {
        Sphere { cen, r, mat }
    }

    fn center(&self) -> (c: Point3)
        ensures
            c@ == self.center_spec(),
    {
        self.cen
    }

    fn radius(&self) -> (r: i128)
        ensures
            r as int == self.radius_spec(),
    {
        self.r
    }
}

/// The hit record produced for an accepted root `t`.
pub open spec fn s_make_hit(s: Sphere, r: Ray, t: int) -> GHit {
    let p = s_at(r, t);
    let outward = sdiv3(ssub3(p, s.center_spec()), s.radius_spec());
    let front = sdot(r.dir@, outward) < 0;
    GHit {
        p,
        normal: if front {
            outward
        } else {
            sneg3(outward)
        },
        t,
        front_face: front,
        mat: s.mat_spec(),
    }
}

/// The exact fixed-point ray/sphere intersection: `None` when the
/// discriminant is negative, the direction is degenerate, or no root lies
/// strictly inside `(t_min, t_max)`.
pub open spec fn s_sphere_hit(s: Sphere, r: Ray, t_min: int, t_max: int) -> Option<GHit> {
    let oc = ssub3(r.org@, s.center_spec());
    let a = sdot(r.dir@, r.dir@);
    let half_b = sdot(oc, r.dir@);
    let c = sfsub(slen_sq(oc), sfmul(s.radius_spec(), s.radius_spec()));
    let disc = sfsub(sfmul(half_b, half_b), sfmul(a, c));
    if disc < 0 || a == 0 {
        None
    } else {
        let sq = sfsqrt(disc);
        let root1 = sfdiv(sfsub(sfneg(half_b), sq), a);
        let root2 = sfdiv(sfadd(sfneg(half_b), sq), a);
        if t_min < root1 && root1 < t_max {
            Some(s_make_hit(s, r, root1))
        } else if t_min < root2 && root2 < t_max {
            Some(s_make_hit(s, r, root2))
        } else {
            None
        }
    }
}

/// Negating the divisor of a fixed-point division negates the quotient.
proof fn lemma_fdiv_neg_divisor(a: int, b: int)
    requires
        b != 0,
    ensures
        sfdiv(a, -b) == -sfdiv(a, b),
{
    assert(sabs(-b) == sabs(b));
}

/// Componentwise form of [`lemma_fdiv_neg_divisor`].
proof fn lemma_sdiv3_neg_divisor(v: V3, b: int)
    requires
        b != 0,
    ensures
        sdiv3(v, -b) == sneg3(sdiv3(v, b)),
{
    lemma_fdiv_neg_divisor(v.x, b);
    lemma_fdiv_neg_divisor(v.y, b);
    lemma_fdiv_neg_divisor(v.z, b);
    assert(sdiv3(v, -b).x == sfneg(sdiv3(v, b).x));
    assert(sdiv3(v, -b).y == sfneg(sdiv3(v, b).y));
    assert(sdiv3(v, -b).z == sfneg(sdiv3(v, b).z));
}

/// Flipping the sign of a sphere's radius leaves every accepted root and
/// hit point unchanged but reverses the outward geometric normal and the
/// `front_face` flag — the configuration used to build hollow shells.  The
/// flip of the recovered normal is stated away from exact grazing
/// (`sdot(dir, outward) == 0`), where both orientations store the same
/// record.
pub proof fn lemma_negative_radius_flips_normal(
    s1: Sphere,
    s2: Sphere,
    r: Ray,
    t_min: int,
    t_max: int,
)
    requires
        s2.center_spec() == s1.center_spec(),
        s2.radius_spec() == -s1.radius_spec(),
        s1.radius_spec() != 0,
        s2.mat_spec() == s1.mat_spec(),
    ensures
        (s_sphere_hit(s2, r, t_min, t_max) is Some) == (s_sphere_hit(s1, r, t_min, t_max)
            is Some),
        s_sphere_hit(s1, r, t_min, t_max) is Some ==> ({
            let g1 = s_sphere_hit(s1, r, t_min, t_max)->Some_0;
            let g2 = s_sphere_hit(s2, r, t_min, t_max)->Some_0;
            g2.t == g1.t && g2.p == g1.p && (sdot(r.dir@, outward_of(g1)) != 0 ==> (outward_of(g2)
                == sneg3(outward_of(g1)) && g2.front_face == !g1.front_face))
        }),
{
    let r1 = s1.radius_spec();
    assert((-r1) * (-r1) == r1 * r1) by (nonlinear_arith);
    if s_sphere_hit(s1, r, t_min, t_max) is Some {
        let g1 = s_sphere_hit(s1, r, t_min, t_max)->Some_0;
        let g2 = s_sphere_hit(s2, r, t_min, t_max)->Some_0;
        let t = g1.t;
        let p = s_at(r, t);
        let o1 = sdiv3(ssub3(p, s1.center_spec()), r1);
        lemma_sdiv3_neg_divisor(ssub3(p, s1.center_spec()), r1);
        let o2 = sdiv3(ssub3(p, s2.center_spec()), -r1);
        assert(o2 == sneg3(o1));
        assert(in3(o1));
        lemma_dot_neg(r.dir@, o1);
        let d = sdot(r.dir@, o1);
        assert(sdot(r.dir@, o2) == -d);
        assert(outward_of(g1) == o1);
        assert(outward_of(g2) == o2);
        if d != 0 {
            assert(g2.front_face == !g1.front_face);
        }
    }
}

/// A ray fired from the origin straight at a sphere centered `k` units
/// down the axis with whole radius `m < k` meets it exactly at the
/// parameters `k - m` and `k + m`: the near root wins whenever the window
/// admits it, and the far root is the fallback.  On this whole-unit
/// configuration the fixed-point arithmetic is exact.
pub proof fn lemma_axial_sphere_roots(s: Sphere, r: Ray, t_min: int, t_max: int, k: int, m: int)
    requires
        1 <= m < k <= 30000,
        s.center_spec() == (V3 { x: 0, y: 0, z: -k * SCALE }),
        s.radius_spec() == m * SCALE,
        r.org@ == crate::vec3::zero3(),
        r.dir@ == (V3 { x: 0, y: 0, z: -(SCALE as int) }),
    ensures
        (t_min < (k - m) * SCALE < t_max) ==> (s_sphere_hit(s, r, t_min, t_max) matches Some(g)
            && g.t == (k - m) * SCALE),
        (!(t_min < (k - m) * SCALE < t_max) && t_min < (k + m) * SCALE < t_max) ==> (s_sphere_hit(
            s,
            r,
            t_min,
            t_max,
        ) matches Some(g) && g.t == (k + m) * SCALE),
{
    let oc = ssub3(r.org@, s.center_spec());
    assert(oc == (V3 { x: 0, y: 0, z: k * SCALE }));
    let a = sdot(r.dir@, r.dir@);
    assert(a == SCALE as int);
    let half_b = sdot(oc, r.dir@);
    assert((k * SCALE) * (-(SCALE as int)) == (-(k * SCALE)) * SCALE) by (nonlinear_arith);
    lemma_stdiv_scale(-(k * SCALE));
    assert(sfmul(k * SCALE, -(SCALE as int)) == -(k * SCALE));
    assert(half_b == -(k * SCALE));
    assert(sabs(k * k) * SCALE <= FX_MAX) by (nonlinear_arith)
        requires
            1 <= k <= 30000,
            SCALE == 65536,
            FX_MAX == 0x4000_0000_0000_0000,
    ;
    lemma_fmul_whole(k, k);
    assert(slen_sq(oc) == k * k * SCALE);
    assert(sabs(m * m) * SCALE <= FX_MAX) by (nonlinear_arith)
        requires
            1 <= m <= 30000,
            SCALE == 65536,
            FX_MAX == 0x4000_0000_0000_0000,
    ;
    lemma_fmul_whole(m, m);
    let c = sfsub(slen_sq(oc), sfmul(m * SCALE, m * SCALE));
    assert(m * m * SCALE <= k * k * SCALE) by (nonlinear_arith)
        requires
            1 <= m < k,
            SCALE == 65536,
    ;
    assert(c == (k * k - m * m) * SCALE) by (nonlinear_arith)
        requires
            c == sclamp(k * k * SCALE - m * m * SCALE),
            0 <= k * k * SCALE - m * m * SCALE <= FX_MAX,
            m * m * SCALE <= k * k * SCALE,
            k * k * SCALE <= FX_MAX,
    ;
    assert((-k) * (-k) == k * k) by (nonlinear_arith);
    assert(sabs((-k) * (-k)) * SCALE <= FX_MAX);
    lemma_fmul_whole(-k, -k);
    assert(sfmul(half_b, half_b) == k * k * SCALE) by {
        assert(half_b == (-k) * SCALE) by (nonlinear_arith)
            requires
                half_b == -(k * SCALE),
        ;
    }
    lemma_fmul_one((k * k - m * m) * SCALE);
    let disc = sfsub(sfmul(half_b, half_b), sfmul(a, c));
    assert(disc == m * m * SCALE) by (nonlinear_arith)
        requires
            disc == sclamp(k * k * SCALE - sclamp((k * k - m * m) * SCALE)),
            0 <= (k * k - m * m) * SCALE <= FX_MAX,
            0 <= m * m * SCALE <= FX_MAX,
            0 <= k * k * SCALE <= FX_MAX,
    ;
    assert(disc > 0) by (nonlinear_arith)
        requires
            disc == m * m * SCALE,
            m >= 1,
            SCALE == 65536,
    ;
    let sq = sfsqrt(disc);
    assert(is_isqrt(m * m * SCALE * SCALE, m * SCALE)) by (nonlinear_arith)
        requires
            1 <= m <= 30000,
            SCALE == 65536,
    ;
    crate::fixed::lemma_ssqrt(disc * SCALE);
    crate::fixed::lemma_isqrt_unique(
        m * m * SCALE * SCALE,
        m * SCALE,
        crate::fixed::ssqrt(m * m * SCALE * SCALE),
    );
    assert(disc * SCALE == m * m * SCALE * SCALE) by (nonlinear_arith)
        requires
            disc == m * m * SCALE,
    ;
    assert(sq == m * SCALE);
    let num1 = sfsub(sfneg(half_b), sq);
    assert(num1 == (k - m) * SCALE) by (nonlinear_arith)
        requires
            num1 == sclamp(sclamp(k * SCALE) - m * SCALE),
            1 <= m < k <= 30000,
            SCALE == 65536,
            FX_MAX == 0x4000_0000_0000_0000,
    ;
    let num2 = sfadd(sfneg(half_b), sq);
    assert(num2 == (k + m) * SCALE) by (nonlinear_arith)
        requires
            num2 == sclamp(sclamp(k * SCALE) + m * SCALE),
            1 <= m < k <= 30000,
            SCALE == 65536,
            FX_MAX == 0x4000_0000_0000_0000,
    ;
    crate::fixed::lemma_fdiv_one((k - m) * SCALE);
    crate::fixed::lemma_fdiv_one((k + m) * SCALE);
    assert(sfdiv(num1, a) == (k - m) * SCALE) by (nonlinear_arith)
        requires
            sfdiv(num1, SCALE as int) == sclamp((k - m) * SCALE),
            num1 == (k - m) * SCALE,
            a == SCALE as int,
            sfdiv(num1, a) == sfdiv(num1, SCALE as int),
            0 <= (k - m) * SCALE <= FX_MAX,
            1 <= m < k <= 30000,
            SCALE == 65536,
            FX_MAX == 0x4000_0000_0000_0000,
    ;
    assert(sfdiv(num2, a) == (k + m) * SCALE) by (nonlinear_arith)
        requires
            sfdiv(num2, SCALE as int) == sclamp((k + m) * SCALE),
            num2 == (k + m) * SCALE,
            a == SCALE as int,
            sfdiv(num2, a) == sfdiv(num2, SCALE as int),
            0 <= (k + m) * SCALE <= FX_MAX,
            1 <= m < k <= 30000,
            SCALE == 65536,
            FX_MAX == 0x4000_0000_0000_0000,
    ;
}

/// A ray fired from the origin down the axis misses a sphere whose center
/// sits `j > m` whole units off the axis: the discriminant is exactly
/// `(m * m - j * j) * SCALE`, which is negative.
pub proof fn lemma_axial_sphere_miss(s: Sphere, r: Ray, t_min: int, t_max: int, k: int, j: int, m: int)
    requires
        1 <= m < j <= 30000,
        1 <= k <= 30000,
        s.center_spec() == (V3 { x: 0, y: j * SCALE, z: -k * SCALE }),
        s.radius_spec() == m * SCALE,
        r.org@ == crate::vec3::zero3(),
        r.dir@ == (V3 { x: 0, y: 0, z: -(SCALE as int) }),
    ensures
        s_sphere_hit(s, r, t_min, t_max) is None,
{
    let oc = ssub3(r.org@, s.center_spec());
    assert(oc == (V3 { x: 0, y: -(j * SCALE), z: k * SCALE }));
    let a = sdot(r.dir@, r.dir@);
    assert(a == SCALE as int);
    let half_b = sdot(oc, r.dir@);
    assert((k * SCALE) * (-(SCALE as int)) == (-(k * SCALE)) * SCALE) by (nonlinear_arith);
    lemma_stdiv_scale(-(k * SCALE));
    assert(sfmul(k * SCALE, -(SCALE as int)) == -(k * SCALE));
    assert((-(j * SCALE)) * 0 == 0) by (nonlinear_arith);
    assert(half_b == -(k * SCALE));
    assert(sabs(k * k) * SCALE <= FX_MAX && sabs((-j) * (-j)) * SCALE <= FX_MAX && sabs(m * m)
        * SCALE <= FX_MAX) by (nonlinear_arith)
        requires
            1 <= k <= 30000,
            1 <= j <= 30000,
            1 <= m <= 30000,
            SCALE == 65536,
            FX_MAX == 0x4000_0000_0000_0000,
    ;
    lemma_fmul_whole(k, k);
    lemma_fmul_whole(-j, -j);
    lemma_fmul_whole(m, m);
    assert((-(j * SCALE)) == (-j) * SCALE) by (nonlinear_arith);
    assert((-j) * (-j) == j * j) by (nonlinear_arith);
    assert(j * j * SCALE + k * k * SCALE <= FX_MAX) by (nonlinear_arith)
        requires
            1 <= j <= 30000,
            1 <= k <= 30000,
            SCALE == 65536,
            FX_MAX == 0x4000_0000_0000_0000,
    ;
    let ls = slen_sq(oc);
    assert(ls == (j * j + k * k) * SCALE) by (nonlinear_arith)
        requires
            ls == sclamp(sclamp(sclamp(stdiv(0, SCALE as int)) + j * j * SCALE) + k * k * SCALE),
            0 <= j * j * SCALE <= FX_MAX,
            0 <= k * k * SCALE <= FX_MAX,
            j * j * SCALE + k * k * SCALE <= FX_MAX,
            1 <= j <= 30000,
            1 <= k <= 30000,
            SCALE == 65536,
            FX_MAX == 0x4000_0000_0000_0000,
    ;
    let c = sfsub(ls, sfmul(m * SCALE, m * SCALE));
    assert(c == (j * j + k * k - m * m) * SCALE) by (nonlinear_arith)
        requires
            c == sclamp((j * j + k * k) * SCALE - m * m * SCALE),
            1 <= m < j <= 30000,
            1 <= k <= 30000,
            SCALE == 65536,
            FX_MAX == 0x4000_0000_0000_0000,
    ;
    assert((-k) * (-k) == k * k) by (nonlinear_arith);
    assert(sabs((-k) * (-k)) * SCALE <= FX_MAX);
    lemma_fmul_whole(-k, -k);
    assert(sfmul(half_b, half_b) == k * k * SCALE) by {
        assert(half_b == (-k) * SCALE) by (nonlinear_arith)
            requires
                half_b == -(k * SCALE),
        ;
    }
    lemma_fmul_one((j * j + k * k - m * m) * SCALE);
    let disc = sfsub(sfmul(half_b, half_b), sfmul(a, c));
    assert(disc < 0) by (nonlinear_arith)
        requires
            disc == sclamp(k * k * SCALE - sclamp((j * j + k * k - m * m) * SCALE)),
            1 <= m < j <= 30000,
            1 <= k <= 30000,
            SCALE == 65536,
            FX_MAX == 0x4000_0000_0000_0000,
    ;
}

impl Sphere {
    /// The closest intersection with parameter strictly inside
    /// `(t_min, t_max)`, or `None`.  The record's normal always opposes the
    /// incoming ray.
    pub fn hit(&self, r: &Ray, t_min: i128, t_max: i128) -> (res: Option<HitRecord>)
        requires
            sphere_wf(*self),
            ray_wf(*r),
            in_fx(t_min as int),
            in_fx(t_max as int),
        ensures
            (res is Some) == (s_sphere_hit(*self, *r, t_min as int, t_max as int) is Some),
            res matches Some(h) ==> (s_sphere_hit(*self, *r, t_min as int, t_max as int)
                matches Some(g) && rec_matches(h, g)),
            res matches Some(h) ==> t_min < h.t < t_max && in_fx(h.t as int) && in3(h.p@) && in3(
                h.normal@,
            ) && h.mat == self.mat_spec() && sdot(r.dir@, h.normal@) <= 0 && slen_sq(r.dir@) > 0,
    {
        let oc = r.origin().sub(self.center());
        let a: i128 = r.direction().length_squared();
        let half_b: i128 = oc.dot(r.direction());
        let c: i128 = fx_sub(oc.length_squared(), fx_mul(self.r, self.r));
        let disc: i128 = fx_sub(fx_mul(half_b, half_b), fx_mul(a, c));
        if disc < 0 || a == 0 {
            return None;
        }
        let sqrtd: i128 = fx_sqrt(disc);
        let neg_hb: i128 = fx_neg(half_b);
        let root1: i128 = fx_div(fx_sub(neg_hb, sqrtd), a);
        let root2: i128 = fx_div(fx_add(neg_hb, sqrtd), a);
        let root: i128 = if t_min < root1 && root1 < t_max {
            root1
        } else if t_min < root2 && root2 < t_max {
            root2
        } else {
            return None;
        };
        let p = r.at(root);
        let outward_normal = p.sub(self.center()).div(self.r);
        let mut rec = HitRecord::new(p, root, self.mat);
        rec.set_face_normal(r, outward_normal);
        proof {
            crate::vec3::lemma_len_sq_nonneg(r.dir@);
        }
        Some(rec)
    }
}

} // verus!
