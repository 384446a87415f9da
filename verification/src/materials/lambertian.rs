use vstd::prelude::*;

use crate::fx::FS;
use crate::hittables::hit_record::{rec_in_range, HitRecord};
use crate::ray::Ray;
use crate::vec3::{bounded_by, Color, Vec3};

verus! {

/// Diffuse material: always scatters about the surface normal.
#[derive(Clone, Copy, PartialEq, Eq, Structural, Debug)]
pub struct Lambertian {
    pub albedo: Color,
}

/// What the diffuse scatter produces for a given unit draw: the normal
/// plus the draw, falling back to the bare normal on exact cancellation.
pub open spec fn lambertian_scatter_spec(m: Lambertian, rec: HitRecord, rand_unit: Vec3) -> (
    Color,
    Ray,
) {
    let dir = Vec3 {
        x: (rec.normal.x + rand_unit.x) as i64,
        y: (rec.normal.y + rand_unit.y) as i64,
        z: (rec.normal.z + rand_unit.z) as i64,
    };
    let out = if dir.x == 0 && dir.y == 0 && dir.z == 0 {
        rec.normal
    } else {
        dir
    };
    (m.albedo, Ray { origin: rec.p, direction: out })
}

impl Lambertian {
    pub fn new(albedo: Color) -> (r: Self)
        ensures
            r.albedo == albedo,
    {
        Self { albedo }
    }

    /// The deterministic scatter step, for a given unit-sphere draw.
    pub fn scatter_with(&self, rec: &HitRecord, rand_unit: Vec3) -> (r: (Color, Ray))
        requires
            rec_in_range(*rec),
            bounded_by(rand_unit, FS as int),
        ensures
            r == lambertian_scatter_spec(*self, *rec, rand_unit),
            r.0 == self.albedo,
            r.1.origin == rec.p,
            bounded_by(r.1.direction, 3 * (FS as int)),
    {
        let mut direction = rec.normal.add(rand_unit);
        if direction.approx_cero() {
            direction = rec.normal;
        }
        (self.albedo, Ray::new(rec.p, direction))
    }

    /// Scatter with a fresh random draw; always succeeds, and the outcome
    /// is the deterministic step applied to some unit draw.
    pub fn scatter(
        &self,
        _ray: &Ray,
        rec: &HitRecord,
        attenuation: &mut Color,
        scattered: &mut Ray,
    ) -> (b: bool)
        requires
            rec_in_range(*rec),
        ensures
            b,
            *final(attenuation) == self.albedo,
            final(scattered).origin == rec.p,
            bounded_by(final(scattered).direction, 3 * (FS as int)),
            exists|u: Vec3|
                bounded_by(u, FS as int) && #[trigger] lambertian_scatter_spec(*self, *rec, u) == (
                *final(attenuation),
                *final(scattered),
                ),
    {
        let draw = Vec3::random_unit_vector();
        let (a, s) = self.scatter_with(rec, draw);
        *attenuation = a;
        *scattered = s;
        proof {
            assert(bounded_by(draw, FS as int) && lambertian_scatter_spec(*self, *rec, draw) == (
            a,
            s,
            ));
        }
        true
    }
}

} // verus!
