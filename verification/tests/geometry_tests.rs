use ray_tracing::fx::FS;
use ray_tracing::hittables::hittable::Hittable;
use ray_tracing::materials::{Lambertian, Material};
use ray_tracing::{HitRecord, HittableList, Ray, Sphere, Vec3, AABB, BVH};

fn gray() -> Material {
    Material::Lambertian(Lambertian::new(Vec3::new(50_000, 50_000, 50_000)))
}

#[test]
fn ray_sanity() {
    let a = Vec3::new(100_000, 200_000, 300_000);
    let b = Vec3::new(400_000, 500_000, 600_000);

    let ray = Ray::new(a, b);

    assert!(ray.origin().approx_eq(a));
    assert!(ray.direction().approx_eq(b));
}

#[test]
fn point_at() {
    let ray = Ray::new(Vec3::new(100_000, 200_000, 300_000), Vec3::new(400_000, 500_000, 600_000));
    let t: i64 = 800_000;

    let res = Vec3::new(3_300_000, 4_200_000, 5_100_000);

    assert!(res.approx_eq(ray.at(t)));
}

#[test]
fn surrounding_box_commutes_and_contains() {
    let b0 = AABB::new(Vec3::new(-100_000, 0, 0), Vec3::new(100_000, 200_000, 50_000));
    let b1 = AABB::new(Vec3::new(0, -300_000, 20_000), Vec3::new(50_000, 100_000, 400_000));

    let u01 = AABB::surrounding_box(&b0, &b1);
    let u10 = AABB::surrounding_box(&b1, &b0);
    assert!(u01 == u10);

    assert!(u01.min == Vec3::new(-100_000, -300_000, 0));
    assert!(u01.max == Vec3::new(100_000, 200_000, 400_000));

    // Corners of both inputs lie inside the union.
    for b in [b0, b1] {
        assert!(u01.min.x <= b.min.x && b.max.x <= u01.max.x);
        assert!(u01.min.y <= b.min.y && b.max.y <= u01.max.y);
        assert!(u01.min.z <= b.min.z && b.max.z <= u01.max.z);
    }
}

#[test]
fn aabb_parallel_ray() {
    // A zero-width box on one axis must still answer the slab test.
    let b = AABB::new(Vec3::new(-100_000, 0, -100_000), Vec3::new(100_000, 0, 100_000));
    // A ray parallel to the degenerate axis, passing through the sheet.
    let through = Ray::new(Vec3::new(0, 0, -300_000), Vec3::new(0, 0, 100_000));
    assert!(b.hit(&through, 100, 409_600_000));
    // The same direction but displaced above the sheet: a miss.
    let above = Ray::new(Vec3::new(0, 50_000, -300_000), Vec3::new(0, 0, 100_000));
    assert!(!b.hit(&above, 100, 409_600_000));
}

#[test]
fn sphere_hit_reports_nearest_root() {
    let s = Sphere::new(Vec3::new(0, 100_000, 0), 100_000, gray());
    // Straight down onto the top of the sphere from (0, 3, 0).
    let ray = Ray::new(Vec3::new(0, 300_000, 0), Vec3::new(0, -100_000, 0));
    let mut rec = HitRecord::new();
    assert!(s.hit(&ray, 100, 409_600_000, &mut rec));
    assert!(rec.t == 100_000);
    assert!(rec.p == Vec3::new(0, 200_000, 0));
    assert!(rec.normal == Vec3::new(0, FS, 0));
    assert!(rec.front_face);
}

#[test]
fn sphere_hit_normal_outward() {
    // The recorded normal points away from the center: its dot product
    // with the center-to-point offset is positive.
    let center = Vec3::new(0, 100_000, 0);
    let s = Sphere::new(center, 100_000, gray());
    let ray = Ray::new(Vec3::new(0, 300_000, 0), Vec3::new(0, -100_000, 0));
    let mut rec = HitRecord::new();
    assert!(s.hit(&ray, 100, 409_600_000, &mut rec));
    let off = rec.p.sub(center);
    let d = (rec.normal.x as i128) * (off.x as i128) + (rec.normal.y as i128) * (off.y as i128)
        + (rec.normal.z as i128) * (off.z as i128);
    assert!(d > 0);
}

#[test]
fn empty_list_misses() {
    let list = HittableList::new();
    let ray = Ray::new(Vec3::new(0, 0, 0), Vec3::new(0, 0, 100_000));
    let mut rec = HitRecord::new();
    let before = rec.clone();
    assert!(!list.hit(&ray, 100, 409_600_000, &mut rec));
    assert!(rec == before);
    let mut b = AABB::new(Vec3::new(0, 0, 0), Vec3::new(0, 0, 0));
    assert!(!list.bounding_box(&mut b));
}

#[test]
fn list_reports_nearest_of_many() {
    let mut list = HittableList::new();
    // Three spheres along +z; the nearest is at z = 3.
    list.add(Sphere::new(Vec3::new(0, 0, 900_000), 100_000, gray()));
    list.add(Sphere::new(Vec3::new(0, 0, 300_000), 100_000, gray()));
    list.add(Sphere::new(Vec3::new(0, 0, 600_000), 100_000, gray()));
    let ray = Ray::new(Vec3::new(0, 0, 0), Vec3::new(0, 0, 100_000));
    let mut rec = HitRecord::new();
    assert!(list.hit(&ray, 100, 409_600_000, &mut rec));
    assert!(rec.t == 200_000);
    assert!(rec.p == Vec3::new(0, 0, 200_000));
}

#[test]
fn bvh_matches_list_hits() {
    // The core acceleration-structure property: a flat list and a tree
    // over the same spheres report the same nearest hit.
    let mut list = HittableList::new();
    let centers: [(i64, i64, i64); 7] = [
        (0, 0, 900_000),
        (0, 0, 300_000),
        (250_000, 0, 600_000),
        (-400_000, 100_000, 500_000),
        (100_000, -200_000, 700_000),
        (0, 500_000, 400_000),
        (-150_000, 250_000, 800_000),
    ];
    for (x, y, z) in centers {
        list.add(Sphere::new(Vec3::new(x, y, z), 120_000, gray()));
    }
    let bvh = BVH::from_hittable_list(&list);
    let flat = Hittable::List(list);
    let tree = Hittable::Bvh(bvh);

    let rays = [
        Ray::new(Vec3::new(0, 0, 0), Vec3::new(0, 0, 100_000)),
        Ray::new(Vec3::new(0, 0, 0), Vec3::new(30_000, 10_000, 100_000)),
        Ray::new(Vec3::new(-500_000, 0, 0), Vec3::new(100_000, 20_000, 80_000)),
        Ray::new(Vec3::new(0, 800_000, 0), Vec3::new(0, -100_000, 60_000)),
        Ray::new(Vec3::new(0, 0, 0), Vec3::new(0, -100_000, 0)),
        Ray::new(Vec3::new(900_000, 900_000, 0), Vec3::new(-60_000, -60_000, 50_000)),
    ];
    for ray in rays {
        let mut rec_flat = HitRecord::new();
        let mut rec_tree = HitRecord::new();
        let hit_flat = flat.hit(&ray, 100, 409_600_000, &mut rec_flat);
        let hit_tree = tree.hit(&ray, 100, 409_600_000, &mut rec_tree);
        assert!(hit_flat == hit_tree);
        if hit_flat {
            assert!(rec_flat.t == rec_tree.t);
        }
    }
}
