use ray_tracing::fx::FS;
use ray_tracing::materials::{Dielectric, Lambertian, Material, Metal};
use ray_tracing::{HitRecord, Ray, Sphere, Vec3};

fn record_at(p: Vec3, normal: Vec3, front_face: bool) -> HitRecord {
    HitRecord {
        p,
        normal,
        t: 100_000,
        front_face,
        material: Material::Lambertian(Lambertian::new(Vec3::new(0, 0, 0))),
    }
}

#[test]
fn lambertian_degenerate_falls_back_to_normal() {
    let material = Lambertian::new(Vec3::new(40_000, 20_000, 10_000));
    let normal = Vec3::new(0, FS, 0);
    let rec = record_at(Vec3::new(0, 200_000, 0), normal, true);
    // A unit draw exactly opposite the normal cancels it; the scatter
    // falls back to the bare normal.
    let (att, scattered) = material.scatter_with(&rec, Vec3::new(0, -FS, 0));
    assert!(att == Vec3::new(40_000, 20_000, 10_000));
    assert!(scattered.direction == normal);
}

#[test]
fn metal_absorbs_into_surface() {
    let material = Metal::new(Vec3::new(70_000, 60_000, 50_000), 50_000);
    let normal = Vec3::new(0, FS, 0);
    let rec = record_at(Vec3::new(0, 0, 0), normal, true);
    // A grazing reflection fuzzed below the surface is absorbed.
    let ray = Ray::new(Vec3::new(-100_000, 100, 0), Vec3::new(100_000, -100, 0));
    let (_, scattered, ok) = material.scatter_with(&ray, &rec, Vec3::new(0, -99_000, 0));
    assert!(!ok);
    assert!(scattered.direction == Vec3::new(100_000, -49_400, 0));
    // The same reflection with no fuzz leaves the surface and is kept.
    let polished = Metal::new(Vec3::new(70_000, 60_000, 50_000), 0);
    let (_, kept, ok2) = polished.scatter_with(&ray, &rec, Vec3::new(0, -99_000, 0));
    assert!(ok2);
    assert!(kept.direction == Vec3::new(100_000, 100, 0));
}

#[test]
fn dielectric_normal_incidence_refracts() {
    // Matching refractive index at normal incidence: the ray passes
    // through undeviated, whatever the reflectance draw.
    let material = Dielectric::new(FS);
    let sphere = Sphere::new(
        Vec3::new(0, 100_000, 0),
        100_000,
        Material::Dielectric(material),
    );
    let ray = Ray::new(Vec3::new(0, 300_000, 0), Vec3::new(0, -100_000, 0));
    let mut rec = HitRecord::new();
    assert!(sphere.hit(&ray, 100, 409_600_000, &mut rec));
    assert!(rec.front_face);
    for draw in [0i64, 1, 50_000, 99_999] {
        let (att, scattered) = material.scatter_with(&ray, &rec, draw);
        assert!(att == Vec3::new(FS, FS, FS));
        assert!(scattered.direction == Vec3::new(0, -FS, 0));
    }
}

#[test]
fn dielectric_total_internal_reflection() {
    // Leaving glass at a grazing angle: ratio * sin exceeds one, so the
    // ray must reflect regardless of the draw.
    let material = Dielectric::new(150_000);
    let normal = Vec3::new(0, FS, 0);
    let rec = record_at(Vec3::new(0, 0, 0), normal, false);
    let ray = Ray::new(Vec3::new(-200_000, 50_000, 0), Vec3::new(100_000, -20_000, 0));
    let (att, scattered) = material.scatter_with(&ray, &rec, 99_999);
    assert!(att == Vec3::new(FS, FS, FS));
    assert!(scattered.direction == Vec3::new(98_058, 19_611, 0));
}

#[test]
fn reflectance_at_extremes() {
    // Matching media at normal incidence reflect nothing.
    assert!(Dielectric::reflectance(FS, FS) == 0);
    // Grazing incidence (cosine zero) against glass: r0^2 + (1 - r0^2),
    // which is one up to fixed-point truncation.
    let grazing = Dielectric::reflectance(0, 150_000);
    assert!(99_000 <= grazing && grazing <= 100_000);
}
