//! The depth-of-field camera.
//!
//! Construction turns a look-from/look-at configuration, a vertical field
//! of view in degrees and an aspect ratio into an orthonormal viewport
//! basis, scaled by the focus distance; ray generation maps normalized
//! image-plane coordinates to world-space rays, perturbing the origin
//! inside the lens disk when the aperture is open.

use vstd::prelude::*;

use crate::fixed::{fx_add, fx_div, fx_mul, fx_sub, in_fx, sfadd, sfdiv, sfmul, sfsub, SCALE};
use crate::ray::{ray_wf, Ray};
use crate::rng::Rand;
use crate::vec3::{
    in3, in_ball, sadd3, scross, sdiv3, slen_sq, sscale3, ssub3, sunit, zero3, Point3, Vec3, V3,
};

verus! {

/// Two, in fixed-point units.
pub const TWO_FX: i128 = 131072;

/// Radians per half degree: `pi / 360`, in fixed-point units.
pub const RAD_HALF: i128 = 572;

/// Truncated Taylor series for the sine, evaluated in fixed point.
pub open spec fn s_sin_series(x: int) -> int {
    let x2 = sfmul(x, x);
    let x3 = sfmul(x2, x);
    let x5 = sfmul(x3, x2);
    let x7 = sfmul(x5, x2);
    let t3 = sfdiv(x3, 6 * SCALE);
    let t5 = sfdiv(x5, 120 * SCALE);
    let t7 = sfdiv(x7, 5040 * SCALE);
    sfsub(sfadd(sfsub(x, t3), t5), t7)
}

/// Truncated Taylor series for the cosine, evaluated in fixed point.
pub open spec fn s_cos_series(x: int) -> int {
    let x2 = sfmul(x, x);
    let x4 = sfmul(x2, x2);
    let x6 = sfmul(x4, x2);
    let x8 = sfmul(x6, x2);
    let t2 = sfdiv(x2, 2 * SCALE);
    let t4 = sfdiv(x4, 24 * SCALE);
    let t6 = sfdiv(x6, 720 * SCALE);
    let t8 = sfdiv(x8, 40320 * SCALE);
    sfadd(sfsub(sfadd(sfsub(SCALE as int, t2), t4), t6), t8)
}

/// Tangent as the ratio of the two series; a non-positive cosine (outside
/// the intended field-of-view range) falls back to the smallest positive
/// denominator rather than dividing by zero.
pub open spec fn s_tan_series(x: int) -> int {
    let s = s_sin_series(x);
    let c = s_cos_series(x);
    let cpos = if c <= 0 {
        1
    } else {
        c
    };
    sfdiv(s, cpos)
}

/// Tangent of half the vertical field of view, given in degrees.
pub open spec fn s_tan_half_fov(vfov_deg: int) -> int {
    s_tan_series(sfmul(vfov_deg, RAD_HALF as int))
}

/// Viewport height: twice the half-field tangent.
pub open spec fn s_viewport_h(vfov_deg: int) -> int {
    sfadd(s_tan_half_fov(vfov_deg), s_tan_half_fov(vfov_deg))
}

/// Viewport width: the height scaled by the aspect ratio.
pub open spec fn s_viewport_w(vfov_deg: int, aspect_ratio: int) -> int {
    sfmul(aspect_ratio, s_viewport_h(vfov_deg))
}

fn sin_series(x: i128) -> (r: i128)
    requires
        in_fx(x as int),
    ensures
        r == s_sin_series(x as int),
        in_fx(r as int),
{
    let x2: i128 = fx_mul(x, x);
    let x3: i128 = fx_mul(x2, x);
    let x5: i128 = fx_mul(x3, x2);
    let x7: i128 = fx_mul(x5, x2);
    let t3: i128 = fx_div(x3, 6 * SCALE);
    let t5: i128 = fx_div(x5, 120 * SCALE);
    let t7: i128 = fx_div(x7, 5040 * SCALE);
    fx_sub(fx_add(fx_sub(x, t3), t5), t7)
}

fn cos_series(x: i128) -> (r: i128)
    requires
        in_fx(x as int),
    ensures
        r == s_cos_series(x as int),
        in_fx(r as int),
{
    let x2: i128 = fx_mul(x, x);
    let x4: i128 = fx_mul(x2, x2);
    let x6: i128 = fx_mul(x4, x2);
    let x8: i128 = fx_mul(x6, x2);
    let t2: i128 = fx_div(x2, 2 * SCALE);
    let t4: i128 = fx_div(x4, 24 * SCALE);
    let t6: i128 = fx_div(x6, 720 * SCALE);
    let t8: i128 = fx_div(x8, 40320 * SCALE);
    fx_add(fx_sub(fx_add(fx_sub(SCALE, t2), t4), t6), t8)
}

fn tan_series(x: i128) -> (r: i128)
    requires
        in_fx(x as int),
    ensures
        r == s_tan_series(x as int),
        in_fx(r as int),
{
    let s: i128 = sin_series(x);
    let c: i128 = cos_series(x);
    let cpos: i128 = if c <= 0 {
        1
    } else {
        c
    };
    fx_div(s, cpos)
}

/// The camera's derived, immutable state.
pub struct Camera {
    pub org: Point3,
    pub lower_left_corner: Point3,
    pub horizontal: Vec3,
    pub vertical: Vec3,
    pub u: Vec3,
    pub v: Vec3,
    pub w: Vec3,
    pub lens_radius: i128,
}

/// All camera state is in range and the lens radius is nonnegative.
pub open spec fn cam_wf(c: Camera) -> bool {
    in3(c.org@) && in3(c.lower_left_corner@) && in3(c.horizontal@) && in3(c.vertical@) && in3(
        c.u@,
    ) && in3(c.v@) && in3(c.w@) && in_fx(c.lens_radius as int) && c.lens_radius >= 0
}

/// The image-plane point addressed by normalized coordinates `(s, t)`.
pub open spec fn s_target(c: Camera, s: int, t: int) -> V3 {
    sadd3(sadd3(c.lower_left_corner@, sscale3(s, c.horizontal@)), sscale3(t, c.vertical@))
}

/// The origin perturbation induced by a lens-disk sample `d`.
pub open spec fn s_offset(c: Camera, d: V3) -> V3 {
    let rd = sscale3(c.lens_radius as int, d);
    sadd3(sscale3(rd.x, c.u@), sscale3(rd.y, c.v@))
}

/// The componentwise sum of two vectors stays representable.
pub open spec fn sum_in_range(a: V3, b: V3) -> bool {
    in_fx(a.x + b.x) && in_fx(a.y + b.y) && in_fx(a.z + b.z)
}

/// The componentwise difference of two vectors stays representable.
pub open spec fn diff_in_range(a: V3, b: V3) -> bool {
    in_fx(a.x - b.x) && in_fx(a.y - b.y) && in_fx(a.z - b.z)
}

/// Whatever lens sample `d` perturbs the origin, the perturbed origin plus
/// the generated direction still lands exactly on the addressed
/// image-plane target, as long as no intermediate sum saturates — so every
/// ray for the same `(s, t)` aims at the same focus-plane point.
pub proof fn lemma_get_ray_targets(c: Camera, s: int, t: int, d: V3)
    requires
        sum_in_range(c.org@, s_offset(c, d)),
        diff_in_range(s_target(c, s, t), c.org@),
        diff_in_range(ssub3(s_target(c, s, t), c.org@), s_offset(c, d)),
    ensures
        sadd3(
            sadd3(c.org@, s_offset(c, d)),
            ssub3(ssub3(s_target(c, s, t), c.org@), s_offset(c, d)),
        ) == s_target(c, s, t),
{
    let target = s_target(c, s, t);
    assert(in_fx(target.x) && in_fx(target.y) && in_fx(target.z));
}

impl Camera {
    /// Build the camera basis.  `vup` must not be parallel to the viewing
    /// direction and the two viewpoints must differ, which the two
    /// nonzero-length conditions state.
    pub fn new(
        look_from: Point3,
        look_at: Point3,
        vup: Vec3,
        vfov_deg: i128,
        aspect_ratio: i128,
        aperture: i128,
        focus_dist: i128,
    ) -> (c: Camera)
        requires
            in3(look_from@),
            in3(look_at@),
            in3(vup@),
            in_fx(vfov_deg as int),
            in_fx(aspect_ratio as int),
            in_fx(aperture as int),
            aperture >= 0,
            in_fx(focus_dist as int),
            slen_sq(ssub3(look_from@, look_at@)) > 0,
            slen_sq(scross(vup@, sunit(ssub3(look_from@, look_at@)))) > 0,
        ensures
            c.org == look_from,
            c.w@ == sunit(ssub3(look_from@, look_at@)),
            c.u@ == sunit(scross(vup@, c.w@)),
            c.v@ == scross(c.w@, c.u@),
            c.horizontal@ == sscale3(
                sfmul(focus_dist as int, s_viewport_w(vfov_deg as int, aspect_ratio as int)),
                c.u@,
            ),
            c.vertical@ == sscale3(
                sfmul(focus_dist as int, s_viewport_h(vfov_deg as int)),
                c.v@,
            ),
            c.lower_left_corner@ == ssub3(
                ssub3(
                    ssub3(look_from@, sdiv3(c.horizontal@, TWO_FX as int)),
                    sdiv3(c.vertical@, TWO_FX as int),
                ),
                sscale3(focus_dist as int, c.w@),
            ),
            c.lens_radius == sfdiv(aperture as int, TWO_FX as int),
            cam_wf(c),
    {
        let half_theta: i128 = fx_mul(vfov_deg, RAD_HALF);
        let h: i128 = tan_series(half_theta);
        let viewport_height: i128 = fx_add(h, h);
        let viewport_width: i128 = fx_mul(aspect_ratio, viewport_height);

        let w: Vec3 = look_from.sub(look_at).unit_vector();
        let u: Vec3 = vup.cross(w).unit_vector();
        let v: Vec3 = w.cross(u);

        let org: Point3 = look_from;
        let horizontal: Vec3 = u.scaled(fx_mul(focus_dist, viewport_width));
        let vertical: Vec3 = v.scaled(fx_mul(focus_dist, viewport_height));
        let lower_left_corner: Point3 = org.sub(horizontal.div(TWO_FX)).sub(
            vertical.div(TWO_FX),
        ).sub(w.scaled(focus_dist));
        let lens_radius: i128 = fx_div(aperture, TWO_FX);

        Camera { org, lower_left_corner, horizontal, vertical, u, v, w, lens_radius }
    }

    /// The ray addressed by normalized image coordinates `(s, t)`.  With a
    /// closed aperture (`lens_radius == 0`) the result is a fixed function
    /// of `(s, t)` alone; with an open aperture the origin is perturbed
    /// inside the lens disk while the ray still aims at the same
    /// image-plane target.
    pub fn get_ray(&self, s: i128, t: i128, rand: &mut Rand) -> (ray: Ray)
        requires
            cam_wf(*self),
            in_fx(s as int),
            in_fx(t as int),
        ensures
            ray_wf(ray),
            exists|d: V3|
                #[trigger] in_ball(d) && d.z == 0 && ray.org@ == sadd3(
                    self.org@,
                    s_offset(*self, d),
                ) && ray.dir@ == ssub3(
                    ssub3(s_target(*self, s as int, t as int), self.org@),
                    s_offset(*self, d),
                ),
            self.lens_radius == 0 ==> ray.org@ == self.org@ && ray.dir@ == ssub3(
                s_target(*self, s as int, t as int),
                self.org@,
            ),
            final(rand).available() == old(rand).available(),
    {
        let disk: Vec3 = Vec3::random_in_unit_disk(rand);
        let rd: Vec3 = disk.scaled(self.lens_radius);
        let offset: Vec3 = self.u.scaled(rd.x()).add(self.v.scaled(rd.y()));
        let target: Point3 = self.lower_left_corner.add(self.horizontal.scaled(s)).add(
            self.vertical.scaled(t),
        );
        let ray: Ray = Ray::new(self.org.add(offset), target.sub(self.org).sub(offset));
        proof {
            assert(in_ball(disk@) && disk@.z == 0 && ray.org@ == sadd3(
                self.org@,
                s_offset(*self, disk@),
            ) && ray.dir@ == ssub3(
                ssub3(s_target(*self, s as int, t as int), self.org@),
                s_offset(*self, disk@),
            ));
            if self.lens_radius == 0 {
                let d = disk@;
                assert(0 * d.x == 0);
                assert(0 * d.y == 0);
                assert(sfmul(0, d.x) == 0);
                assert(sfmul(0, d.y) == 0);
                assert(0 * self.u@.x == 0 && 0 * self.u@.y == 0 && 0 * self.u@.z == 0);
                assert(0 * self.v@.x == 0 && 0 * self.v@.y == 0 && 0 * self.v@.z == 0);
                assert(sfmul(0, self.u@.x) == 0 && sfmul(0, self.u@.y) == 0 && sfmul(
                    0,
                    self.u@.z,
                ) == 0);
                assert(sfmul(0, self.v@.x) == 0 && sfmul(0, self.v@.y) == 0 && sfmul(
                    0,
                    self.v@.z,
                ) == 0);
                assert(s_offset(*self, disk@) == zero3());
                assert(ray.org@ == self.org@);
            }
        }
        ray
    }
}

} // verus!
