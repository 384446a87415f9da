pub mod dielectric;
pub mod lambertian;
pub mod metal;

pub use dielectric::Dielectric;
pub use lambertian::Lambertian;
pub use metal::Metal;

use vstd::prelude::*;

use crate::fx::FS;
use crate::hittables::hit_record::{rec_in_range, HitRecord};
use crate::materials::dielectric::{dielectric_scatter_spec, ri_in_range};
use crate::materials::lambertian::lambertian_scatter_spec;
use crate::materials::metal::metal_scatter_spec;
use crate::ray::Ray;
use crate::vec3::{bounded_by, color_in_unit, dot3, Color, Vec3};

verus! {

/// The closed set of scatter behaviours.
#[derive(Clone, Copy, PartialEq, Eq, Structural, Debug)]
pub enum Material {
    Lambertian(Lambertian),
    Metal(Metal),
    Dielectric(Dielectric),
}

/// The material's parameters lie in the ranges scattering needs: albedos
/// within the unit color cube, fuzz within one, a sane refractive index.
pub open spec fn mat_valid(m: Material) -> bool {
    match m {
        Material::Lambertian(l) => color_in_unit(l.albedo),
        Material::Metal(me) => color_in_unit(me.albedo) && 0 <= me.fuzz <= FS,
        Material::Dielectric(d) => ri_in_range(d.ri as int),
    }
}

/// The color a scatter multiplies into the path: the albedo of a diffuse
/// or specular material, the identity for glass.
pub open spec fn mat_albedo(m: Material) -> Color {
    match m {
        Material::Lambertian(l) => l.albedo,
        Material::Metal(me) => me.albedo,
        Material::Dielectric(_) => Vec3 { x: FS, y: FS, z: FS },
    }
}

/// The scatter outcome `(attenuation, scattered, accepted)` is one this
/// material can produce: the deterministic scatter step applied to some
/// admissible draw.
pub open spec fn scatter_possible(
    m: Material,
    ray: Ray,
    rec: HitRecord,
    att: Color,
    sc: Ray,
    accepted: bool,
) -> bool {
    match m {
        Material::Lambertian(l) => accepted && exists|u: Vec3|
            bounded_by(u, FS as int) && #[trigger] lambertian_scatter_spec(l, rec, u) == (att, sc),
        Material::Metal(me) => exists|u: Vec3|
            bounded_by(u, FS as int) && 0 < dot3(u, u) < (FS as int) * (FS as int)
                && #[trigger] metal_scatter_spec(me, ray, rec, u) == (att, sc, accepted),
        Material::Dielectric(d) => accepted && exists|dr: int|
            0 <= dr < FS as int && #[trigger] dielectric_scatter_spec(d, ray, rec, dr) == (
            att,
            sc,
            ),
    }
}

impl Material {
    /// Decide whether the incoming ray is absorbed or scattered; on a
    /// scatter, fill in the attenuation color and the outgoing ray.
    pub fn scatter(
        &self,
        ray: &Ray,
        rec: &HitRecord,
        attenuation: &mut Color,
        scattered: &mut Ray,
    ) -> (b: bool)
        requires
            mat_valid(*self),
            rec_in_range(*rec),
            bounded_by(ray.direction, crate::vec3::DOT_LIMIT as int),
            dot3(ray.direction, ray.direction) > 0,
        ensures
            b ==> final(scattered).origin == rec.p,
            b ==> bounded_by(final(scattered).direction, 200_000_000),
            b ==> color_in_unit(*final(attenuation)),
            b ==> *final(attenuation) == mat_albedo(*self),
            *self matches Material::Lambertian(_) ==> b,
            *self matches Material::Dielectric(_) ==> b,
            scatter_possible(*self, *ray, *rec, *final(attenuation), *final(scattered), b),
    {
        match self {
            Material::Lambertian(l) => l.scatter(ray, rec, attenuation, scattered),
            Material::Metal(m) => m.scatter(ray, rec, attenuation, scattered),
            Material::Dielectric(d) => d.scatter(ray, rec, attenuation, scattered),
        }
    }
}

} // verus!
