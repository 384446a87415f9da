use vstd::prelude::*;

use crate::fx::{COORD_LIMIT, FS, POINT_LIMIT};
use crate::materials::{Lambertian, Material};
use crate::ray::Ray;
use crate::vec3::{bounded_by, dot3, vneg, Color, Point, Vec3};

verus! {

/// The nearest intersection found so far along a ray.
#[derive(Clone, Copy, PartialEq, Eq, Structural, Debug)]
pub struct HitRecord {
    pub p: Point,
    pub normal: Vec3,
    pub t: i64,
    pub front_face: bool,
    pub material: Material,
}

/// The record's fields stay within the ranges the scatter math needs.
pub open spec fn rec_in_range(rec: HitRecord) -> bool {
    &&& bounded_by(rec.p, POINT_LIMIT as int)
    &&& bounded_by(rec.normal, 2 * (FS as int))
    &&& -(COORD_LIMIT as int) <= rec.t <= COORD_LIMIT as int
    &&& crate::materials::mat_valid(rec.material)
}

/// What `set_face_normal` stores: the outward normal re-oriented to oppose
/// the ray.
pub open spec fn face_normal_spec(rec: HitRecord, ray: Ray, outward_normal: Vec3) -> HitRecord {
    let front = dot3(ray.direction, outward_normal) < 0;
    HitRecord {
        front_face: front,
        normal: if front {
            outward_normal
        } else {
            vneg(outward_normal)
        },
        ..rec
    }
}

impl HitRecord {
    /// An empty record: the zero point, a black diffuse material.
    pub fn new() -> (r: Self)
        ensures
            r.p == (Vec3 { x: 0, y: 0, z: 0 }),
            r.normal == (Vec3 { x: 0, y: 0, z: 0 }),
            r.t == 0,
            !r.front_face,
            r.material == Material::Lambertian(Lambertian { albedo: Vec3 { x: 0, y: 0, z: 0 } }),
            rec_in_range(r),
    {
        Self {
            p: Point::ceros(),
            normal: Vec3::ceros(),
            t: 0,
            front_face: false,
            material: Material::Lambertian(Lambertian::new(Color::ceros())),
        }
    }

    /// Record whether the geometric normal faced the ray, and store the
    /// normal turned against the ray's direction.
    pub fn set_face_normal(&mut self, ray: &Ray, outward_normal: Vec3)
        requires
            bounded_by(ray.direction, COORD_LIMIT as int),
            bounded_by(outward_normal, 2 * (FS as int)),
        ensures
            *final(self) == face_normal_spec(*old(self), *ray, outward_normal),
    {
        proof {
            crate::fx::lemma_prod_bound(
                ray.direction.x as int,
                outward_normal.x as int,
                COORD_LIMIT as int,
                200_000,
            );
            crate::fx::lemma_prod_bound(
                ray.direction.y as int,
                outward_normal.y as int,
                COORD_LIMIT as int,
                200_000,
            );
            crate::fx::lemma_prod_bound(
                ray.direction.z as int,
                outward_normal.z as int,
                COORD_LIMIT as int,
                200_000,
            );
        }
        let d: i128 = (ray.direction.x as i128) * (outward_normal.x as i128) + (
        ray.direction.y as i128) * (outward_normal.y as i128) + (ray.direction.z as i128) * (
        outward_normal.z as i128);
        self.front_face = d < 0;
        self.normal = if self.front_face {
            outward_normal
        } else {
            outward_normal.neg()
        };
    }
}

} // verus!
