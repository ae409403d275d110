//! A flat list of primitives answering nearest-hit queries by a linear
//! scan. This is the reference the bounding-volume hierarchy is held to:
//! both report a hit of least parameter among the same per-primitive
//! queries.

use vstd::prelude::*;

verus! {

use crate::utils::ray::{Ray, ray_wf};
use crate::behaviors::intersect::IntersectResult;
use crate::objects::{Object, obj_wf, obj_is_mesh, obj_first_t, obj_hit_record, lemma_obj_restrict};
use vstd::math::abs;

/// Every primitive is well formed, and meshes have been divided away.
pub open spec fn scene_wf(objs: Seq<Object>) -> bool {
    forall|i: int| 0 <= i < objs.len() ==> obj_wf(#[trigger] objs[i]) && !obj_is_mesh(objs[i])
}

/// No primitive reports a parameter in `[t_min, t_max]`.
pub open spec fn scene_miss(objs: Seq<Object>, r: Ray, t_min: int, t_max: int) -> bool {
    forall|i: int|
        0 <= i < objs.len() ==> (#[trigger] obj_first_t(objs[i], r, t_min, t_max)) is None
}

/// `t` is at most every parameter any primitive reports over the range.
pub open spec fn hit_minimal(objs: Seq<Object>, r: Ray, t_min: int, t_max: int, t: int) -> bool {
    forall|i: int|
        0 <= i < objs.len() ==> match #[trigger] obj_first_t(objs[i], r, t_min, t_max) {
            Some(ti) => t <= ti,
            None => true,
        }
}

/// `res` is the record some primitive reports over the range.
pub open spec fn hit_valid(
    objs: Seq<Object>,
    r: Ray,
    t_min: int,
    t_max: int,
    res: IntersectResult,
) -> bool {
    exists|i: int|
        0 <= i < objs.len() && (#[trigger] obj_first_t(objs[i], r, t_min, t_max)) == Some(
            res.t as int,
        ) && res == obj_hit_record(objs[i], r, t_min, t_max)
}

#[derive(Clone, Debug)]
pub struct World {
    pub objects: Vec<Object>,
}

impl World {
    pub fn new() -> (w: World)
        ensures
            w.objects@.len() == 0,
    {
        World { objects: Vec::new() }
    }

    pub fn add(&mut self, object: Object)
        ensures
            final(self).objects@ == old(self).objects@.push(object),
    {
        self.objects.push(object);
    }

    /// The union of all primitives' boxes.
    pub fn bounding_box(&self) -> (b: crate::objects::aabb::Aabb)
        requires
            scene_wf(self.objects@),
        ensures
            b == crate::objects::bvh::boxes_fold(self.objects@),
    {
        let mut bb = crate::objects::aabb::Aabb::null();
        let n = self.objects.len();
        let mut i: usize = 0;
        while i < n
            invariant
                i <= n,
                n == self.objects@.len(),
                scene_wf(self.objects@),
                bb == crate::objects::bvh::boxes_fold(self.objects@.take(i as int)),
            decreases n - i,
        {
            let ob = &self.objects[i];
            bb = bb.merge(ob.bbox());
            proof {
                assert(self.objects@.take(i as int + 1).drop_last() =~= self.objects@.take(
                    i as int,
                ));
                assert(self.objects@.take(i as int + 1).last() == self.objects@[i as int]);
            }
            i = i + 1;
        }
        proof {
            assert(self.objects@.take(n as int) =~= self.objects@);
        }
        bb
    }

    /// The nearest hit by brute force: every primitive is queried, with the
    /// running range shrunk to the best parameter found so far.
    pub fn intersect(&self, ray: &Ray, t_min: i64, t_max: i64) -> (res: Option<IntersectResult>)
        requires
            scene_wf(self.objects@),
            ray_wf(*ray),
            0 <= t_min,
            t_max <= 0x100_0000_0000,
        ensures
            (res is None) == scene_miss(self.objects@, *ray, t_min as int, t_max as int),
            res is Some ==> hit_valid(
                self.objects@,
                *ray,
                t_min as int,
                t_max as int,
                res->0,
            ),
            res is Some ==> hit_minimal(
                self.objects@,
                *ray,
                t_min as int,
                t_max as int,
                res->0.t as int,
            ),
            res is Some ==> t_min <= res->0.t <= t_max,
    {
        let ghost objs = self.objects@;
        let ghost tmin0 = t_min as int;
        let ghost tmax0 = t_max as int;
        let n = self.objects.len();
        let mut best: Option<IntersectResult> = None;
        let mut closest_t: i64 = t_max;
        let mut k: usize = 0;
        while k < n
            invariant
                n == objs.len(),
                objs == self.objects@,
                scene_wf(objs),
                ray_wf(*ray),
                tmin0 == t_min as int,
                tmax0 == t_max as int,
                0 <= tmin0,
                tmax0 <= 0x100_0000_0000,
                k <= n,
                best is None ==> closest_t == t_max,
                best is None ==> forall|i: int|
                    0 <= i < k ==> (#[trigger] obj_first_t(objs[i], *ray, tmin0, tmax0)) is None,
                best matches Some(b) ==> {
                    &&& closest_t == b.t
                    &&& t_min <= b.t <= t_max
                    &&& hit_valid(objs, *ray, tmin0, tmax0, b)
                    &&& forall|i: int|
                        0 <= i < k ==> match #[trigger] obj_first_t(objs[i], *ray, tmin0, tmax0) {
                            Some(ti) => b.t <= ti,
                            None => true,
                        }
                },
            decreases n - k,
        {
            let obj = &self.objects[k];
            let result = obj.intersect(ray, t_min, closest_t);
            proof {
                lemma_obj_restrict(objs[k as int], *ray, tmin0, tmax0, closest_t as int);
            }
            match result {
                Some(r) => {
                    closest_t = r.t;
                    best = Some(r);
                },
                None => {},
            }
            k = k + 1;
        }
        best
    }
}

} // verus!
