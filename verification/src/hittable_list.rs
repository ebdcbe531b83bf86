//! The scene: an ordered collection of spheres with nearest-hit reduction.
//!
//! The aggregate query keeps the closest parameter found so far as the
//! upper bound handed to each further member, so one pass returns the
//! single closest record.

use vstd::prelude::*;

use crate::fixed::in_fx;
use crate::hittable::{rec_matches, GHit, HitRecord};
use crate::material::mat_wf;
use crate::ray::{ray_wf, Ray};
use crate::sphere::{s_sphere_hit, sphere_wf, Sphere};
use crate::vec3::{in3, sdot, slen_sq};

verus! {

/// An ordered collection of spheres.
pub struct HittableList {
    objects: Vec<Sphere>,
}

impl View for HittableList {
    type V = Seq<Sphere>;

    closed spec fn view(&self) -> Seq<Sphere> {
        self.objects@
    }
}

/// Every member is a valid sphere.
pub open spec fn list_wf(l: Seq<Sphere>) -> bool {
    forall|i: int| 0 <= i < l.len() ==> #[trigger] sphere_wf(l[i])
}

/// The nearest-hit reduction: each member is queried with the closest
/// parameter found among the earlier members as its upper bound, so the
/// result is the closest hit over the whole collection.
pub open spec fn s_list_hit(objs: Seq<Sphere>, r: Ray, t_min: int, t_max: int) -> Option<GHit>
    decreases objs.len(),
{
    if objs.len() == 0 {
        None
    } else {
        let prev = s_list_hit(objs.drop_last(), r, t_min, t_max);
        let bound = match prev {
            Some(g) => g.t,
            None => t_max,
        };
        match s_sphere_hit(objs.last(), r, t_min, bound) {
            Some(h) => Some(h),
            None => prev,
        }
    }
}

impl HittableList {
    pub fn new() -> (l: HittableList)
        ensures
            l@ =~= Seq::<Sphere>::empty(),
    {
        HittableList { objects: Vec::new() }
    }

    pub fn clear(&mut self)
        ensures
            final(self)@ =~= Seq::<Sphere>::empty(),
    {
        self.objects = Vec::new();
    }

    pub fn add(&mut self, object: Sphere)
        ensures
            final(self)@ =~= old(self)@.push(object),
    {
        self.objects.push(object);
    }

    /// The closest intersection across all members with parameter strictly
    /// inside `(t_min, t_max)`, or `None`.
    pub fn hit(&self, r: &Ray, t_min: i128, t_max: i128) -> (res: Option<HitRecord>)
        requires
            list_wf(self@),
            ray_wf(*r),
            in_fx(t_min as int),
            in_fx(t_max as int),
        ensures
            (res is Some) == (s_list_hit(self@, *r, t_min as int, t_max as int) is Some),
            res matches Some(h) ==> (s_list_hit(self@, *r, t_min as int, t_max as int)
                matches Some(g) && rec_matches(h, g)),
            res matches Some(h) ==> t_min < h.t < t_max && in_fx(h.t as int) && in3(h.p@) && in3(
                h.normal@,
            ) && mat_wf(h.mat) && sdot(r.dir@, h.normal@) <= 0 && slen_sq(r.dir@) > 0,
    {
        let mut result: Option<HitRecord> = None;
        let mut t_closest: i128 = t_max;
        let n: usize = self.objects.len();
        let mut i: usize = 0;
        while i < n
            invariant
                0 <= i <= n,
                n == self@.len(),
                list_wf(self@),
                ray_wf(*r),
                in_fx(t_min as int),
                in_fx(t_max as int),
                in_fx(t_closest as int),
                t_closest <= t_max,
                (result is Some) == (s_list_hit(self@.take(i as int), *r, t_min as int, t_max as int)
                    is Some),
                result is None ==> t_closest == t_max,
                result matches Some(h) ==> (s_list_hit(self@.take(i as int), *r, t_min as int,
                    t_max as int) matches Some(g) && rec_matches(h, g)),
                result matches Some(h) ==> t_closest == h.t && t_min < h.t < t_max && in3(h.p@)
                    && in3(h.normal@) && mat_wf(h.mat) && sdot(r.dir@, h.normal@) <= 0 && slen_sq(
                    r.dir@,
                ) > 0,
            decreases n - i,
        {
            let obj: &Sphere = &self.objects[i];
            proof {
                assert(sphere_wf(self@[i as int]));
            }
            let cand: Option<HitRecord> = obj.hit(r, t_min, t_closest);
            proof {
                assert(self@.take(i as int + 1).drop_last() =~= self@.take(i as int));
                assert(self@.take(i as int + 1).last() == self@[i as int]);
            }
            match cand {
                Some(rec) => {
                    t_closest = rec.t;
                    result = Some(rec);
                },
                None => {},
            }
            i = i + 1;
        }
        proof {
            assert(self@.take(n as int) =~= self@);
        }
        result
    }
}

} // verus!
