use vstd::prelude::*;

use crate::fx::COORD_LIMIT;
use crate::hittables::aabb::AABB;
use crate::hittables::bvh::{bvh_bbox_spec, bvh_hit_spec, bvh_wf, BVH};
use crate::hittables::hit_record::{rec_in_range, HitRecord};
use crate::hittables::hittable_list::{list_bbox, scan_hit, spheres_in_range, HittableList};
use crate::hittables::sphere::{sphere_hit_record, Sphere};
use crate::ray::{ray_in_range, Ray};

verus! {

/// The closed set of intersectable surfaces: a flat list of spheres, or a
/// bounding-volume hierarchy over them.
#[derive(Debug)]
pub enum Hittable {
    List(HittableList),
    Bvh(BVH),
}

/// The surface's members are in range and any cached boxes are exact.
pub open spec fn world_wf(h: Hittable) -> bool {
    match h {
        Hittable::List(l) => spheres_in_range(l.objects@),
        Hittable::Bvh(b) => bvh_wf(b),
    }
}

/// What the surface reports for a ray over `[t_min, t_max]`: the sphere
/// that wrote the record last, and its parameter.
pub open spec fn world_hit_spec(h: Hittable, ray: Ray, t_min: int, t_max: int) -> Option<
    (Sphere, int),
> {
    match h {
        Hittable::List(l) => scan_hit(l.objects@, ray, t_min, t_max),
        Hittable::Bvh(b) => bvh_hit_spec(b, ray, t_min, t_max),
    }
}

impl Hittable {
    /// Find the nearest intersection within the window, if any.
    pub fn hit(&self, ray: &Ray, t_min: i64, t_max: i64, rec: &mut HitRecord) -> (r: bool)
        requires
            world_wf(*self),
            ray_in_range(*ray),
            -(COORD_LIMIT as int) <= t_min,
            t_max <= COORD_LIMIT as int,
        ensures
            r == (world_hit_spec(*self, *ray, t_min as int, t_max as int) is Some),
            r ==> (world_hit_spec(*self, *ray, t_min as int, t_max as int) matches Some(pr)
                && *final(rec) == sphere_hit_record(pr.0, *ray, pr.1)),
            r ==> rec_in_range(*final(rec)),
            !r ==> *final(rec) == *old(rec),
    {
        match self {
            Hittable::List(l) => l.hit(ray, t_min, t_max, rec),
            Hittable::Bvh(b) => b.hit(ray, t_min, t_max, rec),
        }
    }

    /// The box around everything, if there is anything.
    pub fn bounding_box(&self, output_box: &mut AABB) -> (r: bool)
        requires
            world_wf(*self),
        ensures
            match *self {
                Hittable::List(l) => r == (l.objects@.len() > 0) && (r ==> Some(
                    *final(output_box),
                ) == list_bbox(l.objects@)),
                Hittable::Bvh(b) => r && *final(output_box) == bvh_bbox_spec(b),
            },
            !r ==> *final(output_box) == *old(output_box),
    {
        match self {
            Hittable::List(l) => l.bounding_box(output_box),
            Hittable::Bvh(b) => b.bounding_box(output_box),
        }
    }
}

} // verus!
