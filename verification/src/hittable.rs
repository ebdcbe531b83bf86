//! Intersection records.
//!
//! A [`HitRecord`] carries the hit point, the ray parameter, the material
//! struck, and a normal that is always re-oriented to oppose the incoming
//! ray; `front_face` remembers whether the outer side was struck.

use vstd::prelude::*;

use crate::material::Material;
use crate::ray::{ray_wf, Ray};
use crate::vec3::{
    in3, lemma_dot_neg, sdot, sneg3, zero3, Point3, Vec3, V3,
};

verus! {

/// An intersection between a ray and a primitive.
pub struct HitRecord {
    pub p: Point3,
    pub normal: Vec3,
    pub t: i128,
    pub front_face: bool,
    pub mat: Material,
}

/// The mathematical content of a hit record, used by the spec-level
/// intersection functions.
pub struct GHit {
    pub p: V3,
    pub normal: V3,
    pub t: int,
    pub front_face: bool,
    pub mat: Material,
}

/// An executable record carries exactly the stated mathematical hit.
pub open spec fn rec_matches(r: HitRecord, g: GHit) -> bool {
    r.p@ == g.p && r.normal@ == g.normal && r.t == g.t && r.front_face == g.front_face && r.mat
        == g.mat
}

/// The outward geometric normal recovered from a record: the stored normal
/// if the outer side was struck, else its negation.
pub open spec fn outward_of(g: GHit) -> V3 {
    if g.front_face {
        g.normal
    } else {
        sneg3(g.normal)
    }
}

impl HitRecord {
    /// A fresh record; the normal is derived afterwards by
    /// [`HitRecord::set_face_normal`].
    pub fn new(p: Point3, t: i128, mat: Material) -> (r: HitRecord)
        ensures
            r.p == p,
            r.t == t,
            r.mat == mat,
            r.normal@ == zero3(),
            !r.front_face,
    {
        HitRecord { p, normal: Vec3::default(), t, front_face: false, mat }
    }

    /// Derive `front_face` and the stored normal from the raw outward
    /// normal, so that the stored normal always opposes the incoming ray.
    pub fn set_face_normal(&mut self, r: &Ray, outward_normal: Vec3)
        requires
            ray_wf(*r),
            in3(outward_normal@),
        ensures
            final(self).front_face == (sdot(r.dir@, outward_normal@) < 0),
            final(self).normal@ == (if sdot(r.dir@, outward_normal@) < 0 {
                outward_normal@
            } else {
                sneg3(outward_normal@)
            }),
            final(self).p == old(self).p,
            final(self).t == old(self).t,
            final(self).mat == old(self).mat,
            sdot(r.dir@, final(self).normal@) <= 0,
            in3(final(self).normal@),
    {
        proof {
            lemma_dot_neg(r.dir@, outward_normal@);
        }
        self.front_face = r.direction().dot(outward_normal) < 0;
        self.normal = if self.front_face {
            outward_normal
        } else {
            outward_normal.neg()
        };
    }
}

} // verus!
