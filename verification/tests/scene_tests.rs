use ray_tracing::config::SceneConfig;
use ray_tracing::fx::FS;
use ray_tracing::hittables::hittable::Hittable;
use ray_tracing::materials::{Dielectric, Lambertian, Material, Metal};
use ray_tracing::{
    random_scene, ray_color, render, render_row, Camera, HitRecord, HittableList, Ray, Sphere,
    Vec3, BVH,
};

fn run_scene_count(config: &SceneConfig) {
    let mut values = Vec::new();
    for _ in 0..100 {
        let world = random_scene(config);
        values.push(world.count() - 4);
    }
    let total: usize = values.iter().sum();
    let avg = (total / values.len()) as i64;
    assert!(
        (config.small_sphere_count as i64 - avg).abs()
            < (config.small_sphere_count / 20).max(1) as i64
    );
}

#[test]
fn random_scene_count() {
    let mut conf = SceneConfig::default();
    run_scene_count(&conf);

    for c in (0..=400).step_by(50) {
        conf.small_sphere_count = c;
        run_scene_count(&conf);
    }
}

#[test]
fn validate_probabilities() {
    let mut conf = SceneConfig::default();
    assert!(conf.validate());
    // More than everything diffuse plus metal: the glass residue would be
    // negative.
    conf.diffuse_prob = 80_000;
    conf.metal_prob = 30_000;
    assert!(!conf.validate());
    conf.metal_prob = 20_000;
    assert!(conf.validate());
    conf.diffuse_prob = -10_000;
    assert!(!conf.validate());
}

#[test]
fn scene_layout() {
    let conf = SceneConfig::default();
    let world = random_scene(&conf);
    let n = world.objects.len();
    assert!(n >= 4);
    // The ground sphere comes first.
    assert!(world.objects[0].center == Vec3::new(0, -100_000_000, 0));
    assert!(world.objects[0].radius == 100_000_000);
    // The three feature spheres come last: glass, brown diffuse, metal.
    assert!(
        world.objects[n - 3].material
            == Material::Dielectric(Dielectric::new(150_000))
    );
    assert!(
        world.objects[n - 2].material
            == Material::Lambertian(Lambertian::new(Vec3::new(40_000, 20_000, 10_000)))
    );
    assert!(
        world.objects[n - 1].material
            == Material::Metal(Metal::new(Vec3::new(70_000, 60_000, 50_000), 0))
    );
    // Every scattered sphere is small and sits on the grid plane.
    for i in 1..n - 3 {
        assert!(world.objects[i].radius == 20_000);
        assert!(world.objects[i].center.y == 20_000);
    }
}

#[test]
fn depth_zero_black() {
    let world = Hittable::List(HittableList::new());
    let ray = Ray::new(Vec3::new(0, 0, 0), Vec3::new(30_000, -20_000, 100_000));
    let c = ray_color(&ray, &world, 0);
    assert!(c == Vec3::new(0, 0, 0));
}

#[test]
fn empty_scene_sky() {
    let world = Hittable::List(HittableList::new());
    // Straight down: pure white.
    let down = Ray::new(Vec3::new(0, 0, 0), Vec3::new(0, -FS, 0));
    assert!(ray_color(&down, &world, 5) == Vec3::new(FS, FS, FS));
    // Straight up: the sky blue.
    let up = Ray::new(Vec3::new(0, 0, 0), Vec3::new(0, FS, 0));
    assert!(ray_color(&up, &world, 5) == Vec3::new(50_000, 70_000, 100_000));
}

#[test]
fn single_lambertian_bounce() {
    // One diffuse sphere under the sky, one sample, one bounce, with the
    // scatter direction fixed: the pixel is the albedo times the sky color
    // in the scattered direction.
    let albedo = Vec3::new(50_000, 50_000, 50_000);
    let material = Lambertian::new(albedo);
    let sphere = Sphere::new(
        Vec3::new(0, 100_000, 0),
        100_000,
        Material::Lambertian(material),
    );
    let mut list = HittableList::new();
    list.add(sphere);
    let world = Hittable::List(list);

    let ray = Ray::new(Vec3::new(0, 300_000, 0), Vec3::new(0, -100_000, 0));
    let mut rec = HitRecord::new();
    assert!(world.hit(&ray, 100, 409_600_000, &mut rec));

    // Deterministic scatter: override the unit draw with straight up.
    let (attenuation, scattered) = material.scatter_with(&rec, Vec3::new(0, FS, 0));
    assert!(attenuation == albedo);
    assert!(scattered.origin == Vec3::new(0, 200_000, 0));
    assert!(scattered.direction == Vec3::new(0, 200_000, 0));

    // The scattered ray escapes: its radiance is the sky at the zenith.
    let mut rec2 = HitRecord::new();
    assert!(!world.hit(&scattered, 100, 409_600_000, &mut rec2));
    let sub = ray_color(&scattered, &world, 1);
    assert!(sub == Vec3::new(50_000, 70_000, 100_000));

    // albedo (0.5 gray) times the sky: (0.25, 0.35, 0.5).
    let pixel = attenuation.mul(sub);
    assert!(pixel == Vec3::new(25_000, 35_000, 50_000));
}

#[test]
fn render_small_image() {
    let camera = Camera::new(
        Vec3::new(1_300_000, 200_000, 300_000),
        Vec3::new(0, 0, 0),
        Vec3::new(0, 100_000, 0),
        17_633,
        177_777,
    );
    let mut conf = SceneConfig::default();
    conf.small_sphere_count = 5;
    let world = Hittable::Bvh(BVH::from_hittable_list(&random_scene(&conf)));
    let buf = render(&camera, &world, 8, 6, 2, 4);
    assert!(buf.len() == 8 * 6 * 3);
    let row = render_row(&camera, &world, 0, 8, 6, 2, 4);
    assert!(row.len() == 24);
}
