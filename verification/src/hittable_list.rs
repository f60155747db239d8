//! The scene: an ordered collection of spheres, hit-tested as a whole by
//! keeping the closest intersection seen so far.

use vstd::prelude::*;
use crate::fixed::{FMAX, SCALE};
use crate::vec3::{bounded3, dot3_s, len3_s};
use crate::ray::Ray;
use crate::hittable::{HitRecord, DIR_CAP, MAX_COORD, NORM_TOL, ORIG_CAP};
use crate::sphere::{sphere_hit_s, Sphere};

verus! {

/// The nearest hit over a sequence of spheres: each sphere is tested with
/// the upper bound shrunk to the best parameter found among the earlier
/// ones, and a hit within that narrowed interval supersedes it.
pub open spec fn list_hit_s(objs: Seq<Sphere>, ray: Ray, t_min: int, t_max: int) -> Option<
    HitRecord,
> decreases objs.len() {
    if objs.len() == 0 {
        None::<HitRecord>
    } else {
        let prefix = list_hit_s(objs.drop_last(), ray, t_min, t_max);
        let cur_max: int = match prefix {
            Some(rec) => rec.t as int,
            None => t_max,
        };
        match sphere_hit_s(objs.last(), ray, t_min, cur_max) {
            Some(rec) => Some(rec),
            None => prefix,
        }
    }
}

/// An empty scene intersects nothing: every ray misses.
pub proof fn lemma_empty_scene_no_hit(ray: Ray, t_min: int, t_max: int)
    ensures
        list_hit_s(Seq::<Sphere>::empty(), ray, t_min, t_max) is None,
{
}

pub struct HittableList {
    pub objects: Vec<Sphere>,
}

impl HittableList {
    /// Every sphere in the scene satisfies the geometric caps.
    pub open spec fn wf(self) -> bool {
        forall|i: int| 0 <= i < self.objects@.len() ==> self.objects@[i].wf()
    }

    pub fn new() -> (r: HittableList)
        ensures
            r.objects@.len() == 0,
    {
        HittableList { objects: Vec::new() }
    }

    pub fn clear(&mut self)
        ensures
            final(self).objects@.len() == 0,
    {
        self.objects.clear();
    }

    pub fn add(&mut self, hittable: Sphere)
        ensures
            final(self).objects@ == old(self).objects@.push(hittable),
    {
        self.objects.push(hittable);
    }

    /// The single nearest hit across the whole scene, or no hit.
    pub fn hit(&self, ray: &Ray, t_min: i64, t_max: i64) -> (res: Option<HitRecord>)
        requires
            self.wf(),
            bounded3(ray.orig.m(), ORIG_CAP as int),
            bounded3(ray.dir.m(), DIR_CAP as int),
            0 <= t_min <= t_max <= FMAX,
        ensures
            res == list_hit_s(self.objects@, *ray, t_min as int, t_max as int),
            res matches Some(rec) ==> {
                &&& t_min <= rec.t <= t_max
                &&& bounded3(rec.p.m(), MAX_COORD as int)
                &&& bounded3(rec.normal.m(), 2 * SCALE as int)
                &&& (SCALE - NORM_TOL) as int <= len3_s(rec.normal.m()) <= (SCALE
                    + NORM_TOL) as int
                &&& dot3_s(rec.normal.m(), ray.dir.m()) <= 0
                &&& rec.mat.wf()
            },
    {
        let mut hit_record: Option<HitRecord> = None;
        let mut closest_so_far: i64 = t_max;
        let n = self.objects.len();
        let mut idx: usize = 0;
        while idx < n
            invariant
                idx <= n,
                n == self.objects@.len(),
                self.wf(),
                bounded3(ray.orig.m(), ORIG_CAP as int),
                bounded3(ray.dir.m(), DIR_CAP as int),
                0 <= t_min <= t_max <= FMAX,
                t_min <= closest_so_far <= t_max,
                hit_record == list_hit_s(
                    self.objects@.take(idx as int),
                    *ray,
                    t_min as int,
                    t_max as int,
                ),
                match hit_record {
                    Some(rec) => {
                        &&& rec.t == closest_so_far
                        &&& bounded3(rec.p.m(), MAX_COORD as int)
                        &&& bounded3(rec.normal.m(), 2 * SCALE as int)
                        &&& (SCALE - NORM_TOL) as int <= len3_s(rec.normal.m()) <= (SCALE
                            + NORM_TOL) as int
                        &&& dot3_s(rec.normal.m(), ray.dir.m()) <= 0
                        &&& rec.mat.wf()
                    },
                    None => closest_so_far == t_max,
                },
            decreases n - idx,
        {
            let obj = &self.objects[idx];
            let this_hit = obj.hit(ray, t_min, closest_so_far);
            proof {
                assert(self.objects@.take(idx as int + 1).drop_last()
                    =~= self.objects@.take(idx as int));
                assert(self.objects@.take(idx as int + 1).last() == self.objects@[idx as int]);
            }
            match this_hit {
                Some(rec) => {
                    closest_so_far = rec.t;
                    hit_record = Some(rec);
                },
                None => {
                },
            }
            idx = idx + 1;
        }
        proof {
            assert(self.objects@.take(n as int) =~= self.objects@);
        }
        hit_record
    }
}

} // verus!
