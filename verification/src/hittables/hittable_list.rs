use vstd::prelude::*;

use crate::fx::COORD_LIMIT;
use crate::hittables::aabb::{sbox_spec, AABB};
use crate::hittables::hit_record::{rec_in_range, HitRecord};
use crate::hittables::sphere::{
    sphere_bbox_spec, sphere_hit_record, sphere_hit_t, sphere_in_range, Sphere,
};
use crate::ray::{ray_in_range, Ray};
use crate::vec3::Point;

verus! {

/// A flat, ordered collection of spheres.
#[derive(Debug)]
pub struct HittableList {
    pub objects: Vec<Sphere>,
}

/// Every member lies in the ranges the intersection math needs.
pub open spec fn spheres_in_range(s: Seq<Sphere>) -> bool {
    forall|i: int| 0 <= i < s.len() ==> sphere_in_range(#[trigger] s[i])
}

/// The scan over the list in order, shrinking the window to the best
/// parameter seen: which sphere wrote the record last, and at what
/// parameter.
pub open spec fn scan_hit(s: Seq<Sphere>, ray: Ray, t_min: int, t_max: int) -> Option<(Sphere, int)>
    decreases s.len(),
{
    if s.len() == 0 {
        None
    } else {
        let front = scan_hit(s.drop_last(), ray, t_min, t_max);
        let window = match front {
            Some(pr) => pr.1,
            None => t_max,
        };
        match sphere_hit_t(s.last(), ray, t_min, window) {
            Some(t) => Some((s.last(), t)),
            None => front,
        }
    }
}

/// The box around all members, folded left to right; an empty list has
/// none.
pub open spec fn list_bbox(s: Seq<Sphere>) -> Option<AABB>
    decreases s.len(),
{
    if s.len() == 0 {
        None
    } else if s.len() == 1 {
        Some(sphere_bbox_spec(s[0]))
    } else {
        Some(sbox_spec(list_bbox(s.drop_last())->0, sphere_bbox_spec(s.last())))
    }
}

/// A scan result stays within the window it was asked about.
pub proof fn lemma_scan_hit_in_window(s: Seq<Sphere>, ray: Ray, t_min: int, t_max: int)
    ensures
        scan_hit(s, ray, t_min, t_max) matches Some(pr) ==> t_min <= pr.1 <= t_max,
    decreases s.len(),
{
    if s.len() > 0 {
        lemma_scan_hit_in_window(s.drop_last(), ray, t_min, t_max);
    }
}

impl HittableList {
    pub fn new() -> (r: Self)
        ensures
            r.objects@ == Seq::<Sphere>::empty(),
    {
        Self { objects: Vec::new() }
    }

    pub fn with_objects(objects: Vec<Sphere>) -> (r: Self)
        ensures
            r.objects@ == objects@,
    {
        Self { objects }
    }

    pub fn clear(&mut self)
        ensures
            final(self).objects@ == Seq::<Sphere>::empty(),
    {
        self.objects.clear();
    }

    pub fn add(&mut self, object: Sphere)
        ensures
            final(self).objects@ == old(self).objects@.push(object),
    {
        self.objects.push(object);
    }

    pub fn count(&self) -> (r: usize)
        ensures
            r == self.objects@.len(),
    {
        self.objects.len()
    }

    /// Scan all members in order for the nearest hit, shrinking the search
    /// window to the best parameter found so far.
    pub fn hit(&self, ray: &Ray, t_min: i64, t_max: i64, rec: &mut HitRecord) -> (r: bool)
        requires
            spheres_in_range(self.objects@),
            ray_in_range(*ray),
            -(COORD_LIMIT as int) <= t_min,
            t_max <= COORD_LIMIT as int,
        ensures
            r == (scan_hit(self.objects@, *ray, t_min as int, t_max as int) is Some),
            r ==> (scan_hit(self.objects@, *ray, t_min as int, t_max as int) matches Some(pr)
                && *final(rec) == sphere_hit_record(pr.0, *ray, pr.1)),
            r ==> rec_in_range(*final(rec)),
            !r ==> *final(rec) == *old(rec),
    {
        let mut record = HitRecord::new();
        let ghost record0 = record;
        let mut hit = false;
        let mut closest = t_max;
        let mut i: usize = 0;
        proof {
            assert(self.objects@.subrange(0, 0) =~= Seq::<Sphere>::empty());
        }
        while i < self.objects.len()
            invariant
                i <= self.objects@.len(),
                spheres_in_range(self.objects@),
                ray_in_range(*ray),
                -(COORD_LIMIT as int) <= t_min,
                t_max <= COORD_LIMIT as int,
                closest <= t_max,
                hit == (scan_hit(self.objects@.subrange(0, i as int), *ray, t_min as int, t_max as int)
                    is Some),
                hit ==> (scan_hit(
                    self.objects@.subrange(0, i as int),
                    *ray,
                    t_min as int,
                    t_max as int,
                ) matches Some(pr) && record == sphere_hit_record(pr.0, *ray, pr.1) && closest
                    == pr.1),
                hit ==> rec_in_range(record),
                !hit ==> record == record0 && closest == t_max,
            decreases self.objects@.len() - i,
        {
            let ghost prefix = self.objects@.subrange(0, i as int);
            proof {
                lemma_scan_hit_in_window(prefix, *ray, t_min as int, t_max as int);
            }
            let this_hit = self.objects[i].hit(ray, t_min, closest, &mut record);
            if this_hit {
                hit = true;
                closest = record.t;
            }
            proof {
                let ext = self.objects@.subrange(0, i + 1 as int);
                assert(ext.drop_last() =~= prefix);
                assert(ext.last() == self.objects@[i as int]);
            }
            i = i + 1;
        }
        proof {
            assert(self.objects@.subrange(0, self.objects@.len() as int) =~= self.objects@);
        }
        if hit {
            *rec = record;
        }
        hit
    }

    /// The union of all members' boxes; fails only on an empty list.
    pub fn bounding_box(&self, output_box: &mut AABB) -> (r: bool)
        requires
            spheres_in_range(self.objects@),
        ensures
            r == (self.objects@.len() > 0),
            r ==> Some(*final(output_box)) == list_bbox(self.objects@),
            !r ==> *final(output_box) == *old(output_box),
    {
        if self.objects.len() == 0 {
            return false;
        }
        let mut tmp = AABB::new(Point::ceros(), Point::ceros());
        let mut first = true;
        let mut i: usize = 0;
        while i < self.objects.len()
            invariant
                i <= self.objects@.len(),
                spheres_in_range(self.objects@),
                self.objects@.len() > 0,
                first == (i == 0),
                i > 0 ==> Some(tmp) == list_bbox(self.objects@.subrange(0, i as int)),
            decreases self.objects@.len() - i,
        {
            let mut sphere_box = AABB::new(Point::ceros(), Point::ceros());
            let _got = self.objects[i].bounding_box(&mut sphere_box);
            if first {
                tmp = sphere_box;
            } else {
                tmp = AABB::surrounding_box(&tmp, &sphere_box);
            }
            first = false;
            proof {
                let ext = self.objects@.subrange(0, i + 1 as int);
                assert(ext.drop_last() =~= self.objects@.subrange(0, i as int));
                assert(ext.last() == self.objects@[i as int]);
                if i == 0 {
                    assert(ext.len() == 1);
                    assert(ext[0] == self.objects@[0]);
                }
            }
            i = i + 1;
        }
        proof {
            assert(self.objects@.subrange(0, self.objects@.len() as int) =~= self.objects@);
        }
        *output_box = tmp;
        true
    }
}

} // verus!
