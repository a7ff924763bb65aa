//! An aggregate of spheres that reports the globally nearest hit by
//! shrinking the acceptance window as better hits are found.

use vstd::prelude::*;

use crate::hittable::HitRecord;
use crate::interval::Interval;
use crate::ray::{ray_in_range, Ray};
use crate::sphere::{
    lemma_hit_in_window, lemma_hit_window_none, lemma_hit_window_up, none_or_at_least,
    none_or_beyond, record_matches, sphere_hit, Sphere,
};

verus! {

pub struct HittableList {
    pub objects: Vec<Sphere>,
}

impl HittableList {
    /// Every member has admissible geometry.
    pub open spec fn wf(self) -> bool {
        forall|i: int| 0 <= i < self.objects@.len() ==> (#[trigger] self.objects@[i]).wf()
    }

    pub fn new() -> (r: Self)
        ensures
            r.objects@.len() == 0,
            r.wf(),
    {
        HittableList { objects: Vec::new() }
    }

    /// Append a member; existing members are untouched.
    pub fn add(&mut self, object: Sphere)
        ensures
            final (self).objects@ == old(self).objects@.push(object),
            old(self).wf() && object.wf() ==> final (self).wf(),
    {
        self.objects.push(object);
    }

    /// Remove every member.
    pub fn clear(&mut self)
        ensures
            final (self).objects@.len() == 0,
            final (self).wf(),
    {
        self.objects.clear();
    }

    /// Executable check of `wf`, for callers outside the proof world.
    pub fn check_geometry(&self) -> (r: bool)
        ensures
            r == self.wf(),
    {
        let mut idx: usize = 0;
        while idx < self.objects.len()
            invariant
                idx <= self.objects@.len(),
                forall|i: int| 0 <= i < idx ==> (#[trigger] self.objects@[i]).wf(),
            decreases self.objects@.len() - idx,
        {
            let s = &self.objects[idx];
            if !(s.radius > 0 && s.radius <= crate::vec3::COORD_MAX && s.center.x
                >= -crate::vec3::COORD_MAX && s.center.x <= crate::vec3::COORD_MAX && s.center.y
                >= -crate::vec3::COORD_MAX && s.center.y <= crate::vec3::COORD_MAX && s.center.z
                >= -crate::vec3::COORD_MAX && s.center.z <= crate::vec3::COORD_MAX) {
                return false;
            }
            idx = idx + 1;
        }
        true
    }

    /// Find the nearest hit among all members, strictly inside `ray_t`.
    ///
    /// The result is a hit if and only if some member reports one for the
    /// full window; its parameter is the minimum over all members' reported
    /// parameters, and the record is the reporting member's record.
    pub fn hit(&self, ray: &Ray, ray_t: Interval) -> (r: Option<HitRecord>)
        requires
            self.wf(),
            ray_in_range(*ray),
        ensures
            match r {
                None => forall|i: int|
                    0 <= i < self.objects@.len() ==> (#[trigger] sphere_hit(
                        self.objects@[i],
                        *ray,
                        ray_t.min as int,
                        ray_t.max as int,
                    )) is None,
                Some(hr) => {
                    &&& ray_t.min < hr.t < ray_t.max
                    &&& exists|i: int|
                        0 <= i < self.objects@.len() && (#[trigger] sphere_hit(
                            self.objects@[i],
                            *ray,
                            ray_t.min as int,
                            ray_t.max as int,
                        )) == Some(hr.t as int) && record_matches(self.objects@[i], *ray, hr)
                            && (forall|i2: int|
                            0 <= i2 < i ==> none_or_beyond(
                                #[trigger] sphere_hit(
                                    self.objects@[i2],
                                    *ray,
                                    ray_t.min as int,
                                    ray_t.max as int,
                                ),
                                hr.t as int,
                            ))
                    &&& forall|i: int|
                        0 <= i < self.objects@.len() ==> none_or_at_least(
                            #[trigger] sphere_hit(
                                self.objects@[i],
                                *ray,
                                ray_t.min as int,
                                ray_t.max as int,
                            ),
                            hr.t as int,
                        )
                },
            },
    {
        let mut hit_record: Option<HitRecord> = None;
        let mut closest_so_far: i64 = ray_t.max;
        let mut idx: usize = 0;
        while idx < self.objects.len()
            invariant
                self.wf(),
                ray_in_range(*ray),
                idx <= self.objects@.len(),
                match hit_record {
                    None => closest_so_far == ray_t.max && forall|i: int|
                        0 <= i < idx ==> (#[trigger] sphere_hit(
                            self.objects@[i],
                            *ray,
                            ray_t.min as int,
                            ray_t.max as int,
                        )) is None,
                    Some(hr) => {
                        &&& closest_so_far == hr.t
                        &&& ray_t.min < hr.t < ray_t.max
                        &&& exists|i: int|
                            0 <= i < idx && (#[trigger] sphere_hit(
                                self.objects@[i],
                                *ray,
                                ray_t.min as int,
                                ray_t.max as int,
                            )) == Some(hr.t as int) && record_matches(self.objects@[i], *ray, hr)
                                && (forall|i2: int|
                                0 <= i2 < i ==> none_or_beyond(
                                    #[trigger] sphere_hit(
                                        self.objects@[i2],
                                        *ray,
                                        ray_t.min as int,
                                        ray_t.max as int,
                                    ),
                                    hr.t as int,
                                ))
                        &&& forall|i: int|
                            0 <= i < idx ==> none_or_at_least(
                                #[trigger] sphere_hit(
                                    self.objects@[i],
                                    *ray,
                                    ray_t.min as int,
                                    ray_t.max as int,
                                ),
                                hr.t as int,
                            )
                    },
                },
            decreases self.objects@.len() - idx,
        {
            let obj = &self.objects[idx];
            // Pass the current closest hit distance as the upper bound, so
            // that any new hit must be strictly closer than the previous one.
            let window = Interval::new(ray_t.min, closest_so_far);
            let res = obj.hit(ray, &window);
            proof {
                let s = self.objects@[idx as int];
                let tmin = ray_t.min as int;
                let tmax = ray_t.max as int;
                match res {
                    Some(hr2) => {
                        lemma_hit_window_up(s, *ray, tmin, closest_so_far as int, tmax);
                        lemma_hit_in_window(s, *ray, tmin, closest_so_far as int);
                    },
                    None => {
                        lemma_hit_window_none(s, *ray, tmin, closest_so_far as int, tmax);
                    },
                }
            }
            match res {
                Some(hr2) => {
                    proof {
                        let tmin = ray_t.min as int;
                        let tmax = ray_t.max as int;
                        assert forall|i2: int| 0 <= i2 < idx as int implies none_or_beyond(
                            #[trigger] sphere_hit(self.objects@[i2], *ray, tmin, tmax),
                            hr2.t as int,
                        ) by {
                            match hit_record {
                                Some(oldhr) => {
                                    assert(none_or_at_least(
                                        sphere_hit(self.objects@[i2], *ray, tmin, tmax),
                                        oldhr.t as int,
                                    ));
                                },
                                None => {
                                    assert(sphere_hit(self.objects@[i2], *ray, tmin, tmax)
                                        is None);
                                },
                            }
                        }
                    }
                    closest_so_far = hr2.t;
                    hit_record = Some(hr2);
                },
                None => {},
            }
            idx = idx + 1;
        }
        hit_record
    }
}

impl Default for HittableList {
    fn default() -> (r: Self)
        ensures
            r.objects@.len() == 0,
            r.wf(),
    {
        Self::new()
    }
}

} // verus!
