pub mod camera;
pub mod config;
pub mod fx;
pub mod hittables;
pub mod materials;
pub mod ray;
pub mod rng;
pub mod vec3;

pub use camera::Camera;
pub use config::{CameraConfig, ImgConfig, RunConfig, SceneConfig};
pub use hittables::hittable::Hittable;
pub use hittables::{HitRecord, HittableList, Sphere, AABB, BVH};
pub use materials::{Dielectric, Lambertian, Material, Metal};
pub use ray::Ray;
pub use vec3::{Color, Point, Vec3};

use vstd::prelude::*;

use crate::config::scene_config_valid;
use crate::fx::{fmul, tdiv, COORD_LIMIT, FS};
use crate::hittables::hittable_list::spheres_in_range;
use crate::camera::cam_wf;
use crate::hittables::hittable::{world_hit_spec, world_wf};
use crate::hittables::sphere::sphere_hit_record;
use crate::materials::{mat_albedo, scatter_possible};
use crate::vec3::cmul_spec;
use crate::vec3::{color_in_unit, dot3};

verus! {

/// The lower intersection bound of every traced ray: skips
/// self-intersections at the ray's own origin (shadow acne).
pub const SHADOW_EPS: i64 = 100;

/// A ray the integrator traces for light: within the world's coordinate
/// bounds and with a usable direction.
pub open spec fn ray_ok(ray: Ray) -> bool {
    &&& crate::ray::ray_in_range(ray)
    &&& dot3(ray.direction, ray.direction) > 0
}

/// The sky gradient: white at the horizon blended to sky blue at the
/// zenith, by the unit direction's height.
pub open spec fn sky_spec(ray: Ray) -> Color {
    let u = ray.direction.unit_spec();
    let t = tdiv(u.y + FS as int, 2);
    Vec3 {
        x: (fmul(FS as int, FS as int - t) + fmul(50_000, t)) as i64,
        y: (fmul(FS as int, FS as int - t) + fmul(70_000, t)) as i64,
        z: (fmul(FS as int, FS as int - t) + fmul(100_000, t)) as i64,
    }
}

/// A unit-cube product stays under both factors.
proof fn lemma_unit_mul(a: int, b: int)
    requires
        0 <= a <= FS as int,
        0 <= b <= FS as int,
    ensures
        0 <= fmul(a, b) <= b,
        0 <= fmul(a, b) <= a,
        0 <= fmul(a, b) <= FS as int,
{
    assert(0 <= tdiv(a * b, FS as int) <= b && 0 <= tdiv(a * b, FS as int) <= a)
        by (nonlinear_arith)
        requires
            0 <= a <= FS as int,
            0 <= b <= FS as int,
            tdiv(a * b, FS as int) == if a * b >= 0 {
                (a * b) / (FS as int)
            } else {
                -((-(a * b)) / (FS as int))
            },
    ;
}

/// Scaling by exactly one is the identity.
proof fn lemma_one_mul(x: int)
    requires
        0 <= x <= FS as int,
    ensures
        fmul(FS as int, x) == x,
{
    assert(tdiv((FS as int) * x, FS as int) == x) by (nonlinear_arith)
        requires
            0 <= x,
            tdiv((FS as int) * x, FS as int) == if (FS as int) * x >= 0 {
                ((FS as int) * x) / (FS as int)
            } else {
                -((-((FS as int) * x)) / (FS as int))
            },
    ;
}

/// A value the integrator can return for this ray at this depth: black at
/// the depth cutoff and for out-of-domain rays; the sky on a miss; on a
/// hit, black (an absorbed path) or the hit material's attenuation times
/// a value the integrator can return for some scattered ray one bounce
/// deeper.
pub open spec fn possible_radiance(ray: Ray, world: Hittable, depth: int, c: Color) -> bool
    decreases depth,
{
    if depth <= 0 || !ray_ok(ray) {
        c == (Vec3 { x: 0, y: 0, z: 0 })
    } else {
        match world_hit_spec(world, ray, SHADOW_EPS as int, COORD_LIMIT as int) {
            None => c == sky_spec(ray),
            Some(pr) => {
                let rec = sphere_hit_record(pr.0, ray, pr.1);
                ||| c == (Vec3 { x: 0, y: 0, z: 0 })
                ||| exists|att: Color, sc: Ray, sub: Color|
                    {
                        &&& #[trigger] scatter_possible(rec.material, ray, rec, att, sc, true)
                        &&& #[trigger] color_in_unit(sub)
                        &&& possible_radiance(sc, world, depth - 1, sub)
                        &&& c == cmul_spec(att, sub)
                    }
            },
        }
    }
}

/// The recursive path-tracing estimate for one ray: black at the depth
/// cutoff, the sky on a miss, and the scatter's attenuation times the
/// recursive estimate on a hit. Rays outside the integrator's domain
/// contribute nothing.
pub fn ray_color(ray: &Ray, world: &Hittable, depth: i32) -> (r: Color)
    requires
        world_wf(*world),
    ensures
        color_in_unit(r),
        depth <= 0 ==> r == (Vec3 { x: 0, y: 0, z: 0 }),
        (depth > 0 && ray_ok(*ray) && world_hit_spec(
            *world,
            *ray,
            SHADOW_EPS as int,
            COORD_LIMIT as int,
        ) is None) ==> r == sky_spec(*ray),
        (depth > 0 && ray_ok(*ray)) ==> (world_hit_spec(
            *world,
            *ray,
            SHADOW_EPS as int,
            COORD_LIMIT as int,
        ) matches Some(pr) ==> (r == (Vec3 { x: 0, y: 0, z: 0 }) || exists|sub: Color|
            color_in_unit(sub) && r == #[trigger] cmul_spec(mat_albedo(pr.0.material), sub))),
        possible_radiance(*ray, *world, depth as int, r),
    decreases depth,
{
    if depth <= 0 {
        return Color::ceros();
    }
    if !ray_ok_exec(ray) {
        return Color::ceros();
    }
    let mut rec = HitRecord::new();
    if world.hit(ray, SHADOW_EPS, COORD_LIMIT, &mut rec) {
        let mut scattered = Ray::new(Point::ceros(), Vec3::ceros());
        let mut attenuation = Vec3::ceros();
        if rec.material.scatter(ray, &rec, &mut attenuation, &mut scattered) {
            let sub = ray_color(&scattered, world, depth - 1);
            proof {
                lemma_unit_mul(attenuation.x as int, sub.x as int);
                lemma_unit_mul(attenuation.y as int, sub.y as int);
                lemma_unit_mul(attenuation.z as int, sub.z as int);
            }
            let result = attenuation.mul(sub);
            proof {
                let pr = world_hit_spec(*world, *ray, SHADOW_EPS as int, COORD_LIMIT as int)->0;
                assert(rec == sphere_hit_record(pr.0, *ray, pr.1));
                assert(result == cmul_spec(attenuation, sub));
                assert(scatter_possible(
                    sphere_hit_record(pr.0, *ray, pr.1).material,
                    *ray,
                    sphere_hit_record(pr.0, *ray, pr.1),
                    attenuation,
                    scattered,
                    true,
                ));
                assert(color_in_unit(sub));
                assert(possible_radiance(scattered, *world, depth as int - 1, sub));
            }
            return result;
        }
        return Color::ceros();
    }
    let unit_dir = ray.direction.unit_vector();
    let t: i64 = (unit_dir.y + FS) / 2;
    proof {
        lemma_one_mul(FS as int - t);
        lemma_unit_mul(50_000, t as int);
        lemma_unit_mul(70_000, t as int);
        lemma_unit_mul(100_000, t as int);
    }
    Vec3::ones().scale(FS - t).add(Vec3::new(50_000, 70_000, 100_000).scale(t))
}

/// A ray pointing straight down sees pure white at the horizon end of
/// the sky gradient.
pub proof fn lemma_sky_down_is_white(ray: Ray)
    requires
        ray.direction == (Vec3 { x: 0, y: (-100_000) as i64, z: 0 }),
    ensures
        sky_spec(ray) == (Vec3 { x: FS, y: FS, z: FS }),
{
    let d = ray.direction;
    assert(dot3(d, d) == 10_000_000_000) by (nonlinear_arith)
        requires
            d.x == 0 && d.y == -100_000 && d.z == 0,
            dot3(d, d) == (d.x as int) * (d.x as int) + (d.y as int) * (d.y as int) + (d.z as int)
                * (d.z as int),
    ;
    assert(100_000 * 100_000 <= 10_000_000_000 < 100_001 * 100_001) by (nonlinear_arith);
    crate::vec3::lemma_sqrt_i(10_000_000_000, 100_000);
    let u = d.unit_spec();
    assert(u.y == tdiv((-100_000) * (FS as int), 100_000));
    assert(tdiv((-100_000) * (FS as int), 100_000) == -100_000) by (nonlinear_arith);
    assert(u.y == -100_000);
    let t = tdiv(u.y + FS as int, 2);
    assert(t == 0);
    lemma_one_mul(FS as int - t);
    assert(fmul(50_000, 0) == 0);
    assert(fmul(70_000, 0) == 0);
    assert(fmul(100_000, 0) == 0);
}

/// A ray pointing straight up sees the full sky blue at the zenith end
/// of the gradient.
pub proof fn lemma_sky_up_is_blue(ray: Ray)
    requires
        ray.direction == (Vec3 { x: 0, y: 100_000i64, z: 0 }),
    ensures
        sky_spec(ray) == (Vec3 { x: 50_000, y: 70_000, z: 100_000 }),
{
    let d = ray.direction;
    assert(dot3(d, d) == 10_000_000_000) by (nonlinear_arith)
        requires
            d.x == 0 && d.y == 100_000 && d.z == 0,
            dot3(d, d) == (d.x as int) * (d.x as int) + (d.y as int) * (d.y as int) + (d.z as int)
                * (d.z as int),
    ;
    assert(100_000 * 100_000 <= 10_000_000_000 < 100_001 * 100_001) by (nonlinear_arith);
    crate::vec3::lemma_sqrt_i(10_000_000_000, 100_000);
    let u = d.unit_spec();
    assert(u.y == tdiv(100_000 * (FS as int), 100_000));
    assert(tdiv(100_000 * (FS as int), 100_000) == 100_000) by (nonlinear_arith);
    let t = tdiv(u.y + FS as int, 2);
    assert(t == 100_000);
    lemma_one_mul(FS as int - t);
    lemma_one_mul_rhs(50_000);
    lemma_one_mul_rhs(70_000);
    lemma_one_mul_rhs(100_000);
}

/// Scaling a unit factor by exactly one is the identity, on either side.
proof fn lemma_one_mul_rhs(x: int)
    requires
        0 <= x <= FS as int,
    ensures
        fmul(x, FS as int) == x,
{
    assert(tdiv(x * (FS as int), FS as int) == x) by (nonlinear_arith)
        requires
            0 <= x,
            tdiv(x * (FS as int), FS as int) == if x * (FS as int) >= 0 {
                (x * (FS as int)) / (FS as int)
            } else {
                -((-(x * (FS as int))) / (FS as int))
            },
    ;
}

/// The fixed ground sphere: a huge flat-gray diffuse floor.
pub open spec fn ground_sphere() -> Sphere {
    Sphere {
        center: Vec3 { x: 0, y: (-100_000_000) as i64, z: 0 },
        radius: 100_000_000,
        material: Material::Lambertian(
            Lambertian { albedo: Vec3 { x: 50_000, y: 50_000, z: 50_000 } },
        ),
    }
}

/// The fixed glass feature sphere at the origin's right.
pub open spec fn glass_feature() -> Sphere {
    Sphere {
        center: Vec3 { x: 0, y: 100_000, z: 0 },
        radius: 100_000,
        material: Material::Dielectric(Dielectric { ri: 150_000 }),
    }
}

/// The fixed brown diffuse feature sphere.
pub open spec fn brown_feature() -> Sphere {
    Sphere {
        center: Vec3 { x: (-400_000) as i64, y: 100_000, z: 0 },
        radius: 100_000,
        material: Material::Lambertian(
            Lambertian { albedo: Vec3 { x: 40_000, y: 20_000, z: 10_000 } },
        ),
    }
}

/// The fixed polished metal feature sphere.
pub open spec fn metal_feature() -> Sphere {
    Sphere {
        center: Vec3 { x: 400_000, y: 100_000, z: 0 },
        radius: 100_000,
        material: Material::Metal(
            Metal { albedo: Vec3 { x: 70_000, y: 60_000, z: 50_000 }, fuzz: 0 },
        ),
    }
}

/// A small scattered sphere: a fifth of a unit in radius, centered on the
/// jittered grid, with one of the three material draws.
pub open spec fn small_sphere_ok(s: Sphere) -> bool {
    &&& s.radius == 20_000
    &&& s.center.y == 20_000
    &&& -1_100_000 <= s.center.x < 1_090_000
    &&& -1_100_000 <= s.center.z < 1_090_000
    &&& match s.material {
        Material::Lambertian(l) => 0 <= l.albedo.x < FS && 0 <= l.albedo.y < FS && 0 <= l.albedo.z
            < FS,
        Material::Metal(m) => 50_000 <= m.albedo.x < FS && 50_000 <= m.albedo.y < FS && 50_000
            <= m.albedo.z < FS && 0 <= m.fuzz < 50_000,
        Material::Dielectric(d) => d.ri == 150_000,
    }
}

/// Populate the scene: the ground sphere, then small spheres scattered
/// over a 22 by 22 jittered grid with a streaming count control aimed at
/// `small_sphere_count`, then the three fixed feature spheres.
pub fn random_scene(config: &SceneConfig) -> (world: HittableList)
    requires
        scene_config_valid(*config),
    ensures
        spheres_in_range(world.objects@),
        4 <= world.objects@.len() <= 488,
        world.objects@.len() <= 4 + config.small_sphere_count,
        config.small_sphere_count >= 1 ==> world.objects@.len() >= 5,
        world.objects@[0] == ground_sphere(),
        world.objects@[world.objects@.len() - 3] == glass_feature(),
        world.objects@[world.objects@.len() - 2] == brown_feature(),
        world.objects@[world.objects@.len() - 1] == metal_feature(),
        forall|i: int|
            1 <= i < world.objects@.len() - 3 ==> small_sphere_ok(#[trigger] world.objects@[i]),
{
    let mut world = HittableList::new();
    world.add(
        Sphere::new(
            Point::new(0, -100_000_000, 0),
            100_000_000,
            Material::Lambertian(Lambertian::new(Color::new(50_000, 50_000, 50_000))),
        ),
    );
    let goal: u32 = config.small_sphere_count;
    let mut current: u32 = 0;
    let mut iterations_remaining: u32 = 484;
    let mut a: i64 = -11;
    while a < 11
        invariant
            -11 <= a <= 11,
            scene_config_valid(*config),
            iterations_remaining as int == (11 - a) * 22,
            current <= 484 - iterations_remaining,
            current <= goal,
            goal >= 1 ==> (current >= 1 || iterations_remaining >= 1),
            world.objects@.len() == 1 + current,
            world.objects@[0] == ground_sphere(),
            spheres_in_range(world.objects@),
            forall|i: int|
                1 <= i < world.objects@.len() ==> small_sphere_ok(#[trigger] world.objects@[i]),
        decreases 11 - a,
    {
        let mut b: i64 = -11;
        proof {
            assert((11 - a) * 22 == (11 - (a + 1)) * 22 + 22) by (nonlinear_arith);
        }
        while b < 11
            invariant
                -11 <= b <= 11,
                -11 <= a < 11,
                scene_config_valid(*config),
                iterations_remaining as int == (11 - (a + 1)) * 22 + (11 - b),
                current <= 484 - iterations_remaining,
                current <= goal,
                goal >= 1 ==> (current >= 1 || iterations_remaining >= 1),
                world.objects@.len() == 1 + current,
                world.objects@[0] == ground_sphere(),
                spheres_in_range(world.objects@),
                forall|i: int|
                    1 <= i < world.objects@.len() ==> small_sphere_ok(#[trigger] world.objects@[i]),
            decreases 11 - b,
        {
            proof {
                assert((11 - (a + 1)) * 22 >= 0) by (nonlinear_arith)
                    requires
                        a < 11,
                ;
            }
            let draw = crate::rng::random_unit_scalar();
            proof {
                crate::fx::lemma_prod_bound(draw as int, iterations_remaining as int, 100_000, 484);
                crate::fx::lemma_prod_bound(
                    goal as int - current as int,
                    FS as int,
                    u32::MAX as int,
                    FS as int,
                );
            }
            let accept = current < goal && (draw as i128) * (iterations_remaining as i128) < ((
            goal - current) as i128) * (FS as i128);
            proof {
                if goal >= 1 && current == 0 && iterations_remaining == 1 {
                    assert((goal as int) * (FS as int) >= FS as int) by (nonlinear_arith)
                        requires
                            goal as int >= 1,
                    ;
                    assert((draw as int) * (iterations_remaining as int) == draw as int)
                        by (nonlinear_arith)
                        requires
                            iterations_remaining as int == 1,
                    ;
                    assert(accept);
                }
            }
            if accept {
                let u1 = crate::rng::random_unit_scalar();
                let u2 = crate::rng::random_unit_scalar();
                proof {
                    lemma_unit_mul(90_000, u1 as int);
                    lemma_unit_mul(90_000, u2 as int);
                }
                let cx: i64 = a * FS + crate::fx::fx_mul(90_000, u1);
                let cz: i64 = b * FS + crate::fx::fx_mul(90_000, u2);
                let center = Point::new(cx, 20_000, cz);
                let delta = center.sub(Point::new(400_000, 20_000, 0));
                let dist = delta.len();
                proof {
                    if iterations_remaining == 1 {
                        assert(a == 10 && b == 10) by (nonlinear_arith)
                            requires
                                (11 - (a + 1)) * 22 + (11 - b) == 1,
                                -11 <= a < 11,
                                -11 <= b < 11,
                        ;
                        assert(delta.x >= 600_000);
                        crate::vec3::lemma_sq_nonneg(delta.y as int);
                        crate::vec3::lemma_sq_nonneg(delta.z as int);
                        assert((delta.x as int) * (delta.x as int) >= 360_000_000_000)
                            by (nonlinear_arith)
                            requires
                                delta.x as int >= 600_000,
                        ;
                        assert(dist > 90_000) by (nonlinear_arith)
                            requires
                                0 <= dist,
                                (dist as int + 1) * (dist as int + 1) > 360_000_000_000,
                        ;
                    }
                }
                if dist > 90_000 {
                    let choose_mat = crate::rng::random_unit_scalar();
                    let material: Material = if choose_mat < config.diffuse_prob {
                        let c1 = Color::random_in_unit_cube();
                        let c2 = Color::random_in_unit_cube();
                        proof {
                            lemma_unit_mul(c1.x as int, c2.x as int);
                            lemma_unit_mul(c1.y as int, c2.y as int);
                            lemma_unit_mul(c1.z as int, c2.z as int);
                        }
                        Material::Lambertian(Lambertian::new(c1.mul(c2)))
                    } else if choose_mat < config.diffuse_prob + config.metal_prob {
                        let albedo = Color::random_in_range(50_000, FS);
                        let fuzz = crate::rng::random_in_range_scalar(0, 50_000);
                        Material::Metal(Metal::new(albedo, fuzz))
                    } else {
                        Material::Dielectric(Dielectric::new(150_000))
                    };
                    world.add(Sphere::new(center, 20_000, material));
                    current = current + 1;
                }
            }
            iterations_remaining = iterations_remaining - 1;
            b = b + 1;
        }
        a = a + 1;
    }
    world.add(
        Sphere::new(
            Point::new(0, 100_000, 0),
            100_000,
            Material::Dielectric(Dielectric::new(150_000)),
        ),
    );
    world.add(
        Sphere::new(
            Point::new(-400_000, 100_000, 0),
            100_000,
            Material::Lambertian(Lambertian::new(Color::new(40_000, 20_000, 10_000))),
        ),
    );
    world.add(
        Sphere::new(
            Point::new(400_000, 100_000, 0),
            100_000,
            Material::Metal(Metal::new(Color::new(70_000, 60_000, 50_000), 0)),
        ),
    );
    world
}

/// One integrator sample for the pixel at column `px` of (bottom-based)
/// image row `row`: some jitter pair, turned into the camera ray for that
/// pixel, with a value the integrator can return for it.
pub open spec fn pixel_sample_possible(
    cam: Camera,
    world: Hittable,
    px: int,
    row: int,
    width: int,
    height: int,
    depth: int,
    c: Color,
) -> bool {
    exists|du: int, dv: int|
        {
            &&& 0 <= du < FS as int
            &&& 0 <= dv < FS as int
            &&& possible_radiance(
                #[trigger] crate::camera::get_ray_spec(
                    cam,
                    tdiv(px * (FS as int) + du, width - 1),
                    tdiv(row * (FS as int) + dv, height - 1),
                ),
                world,
                depth,
                c,
            )
        }
}

/// The componentwise sums of a sequence of sample colors.
pub open spec fn color_sum(cs: Seq<Color>) -> (int, int, int)
    decreases cs.len(),
{
    if cs.len() == 0 {
        (0, 0, 0)
    } else {
        let front = color_sum(cs.drop_last());
        (front.0 + cs.last().x, front.1 + cs.last().y, front.2 + cs.last().z)
    }
}

/// The three bytes of one pixel are the tone-mapped channel sums of a
/// full set of per-sample integrator outcomes for that pixel.
pub open spec fn pixel_bytes_ok(
    cam: Camera,
    world: Hittable,
    px: int,
    row: int,
    width: int,
    height: int,
    spp: int,
    depth: int,
    b0: u8,
    b1: u8,
    b2: u8,
) -> bool {
    exists|cs: Seq<Color>|
        {
            &&& (#[trigger] cs.len()) == spp
            &&& forall|k: int|
                0 <= k < cs.len() ==> pixel_sample_possible(
                    cam,
                    world,
                    px,
                    row,
                    width,
                    height,
                    depth,
                    #[trigger] cs[k],
                )
            &&& b0 as int == crate::vec3::tone_map(color_sum(cs).0, spp)
            &&& b1 as int == crate::vec3::tone_map(color_sum(cs).1, spp)
            &&& b2 as int == crate::vec3::tone_map(color_sum(cs).2, spp)
        }
}

/// A jittered sample coordinate stays within twice the unit.
proof fn lemma_sample_coord(i: int, w: int, du: int)
    requires
        0 <= i < w,
        2 <= w,
        0 <= du < FS as int,
    ensures
        0 <= tdiv(i * (FS as int) + du, w - 1) <= 2 * (FS as int),
{
    assert(0 <= tdiv(i * (FS as int) + du, w - 1) <= 2 * (FS as int)) by (nonlinear_arith)
        requires
            0 <= i < w,
            2 <= w,
            0 <= du < FS as int,
            tdiv(i * (FS as int) + du, w - 1) == if i * (FS as int) + du >= 0 {
                (i * (FS as int) + du) / (w - 1)
            } else {
                -((-(i * (FS as int) + du)) / (w - 1))
            },
    ;
}

/// Render one row of the image (row 0 is the bottom): three bytes per
/// pixel, each pixel the tone-mapped average of independent samples.
pub fn render_row(
    camera: &Camera,
    world: &Hittable,
    row: u32,
    width: u32,
    height: u32,
    samples_per_pixel: u32,
    max_depth: i32,
) -> (bytes: Vec<u8>)
    requires
        cam_wf(*camera),
        world_wf(*world),
        2 <= width <= 100_000,
        2 <= height <= 100_000,
        row < height,
        1 <= samples_per_pixel <= 100_000,
    ensures
        bytes@.len() == 3 * width,
        forall|px: int|
            0 <= px < width ==> #[trigger] pixel_bytes_ok(
                *camera,
                *world,
                px,
                row as int,
                width as int,
                height as int,
                samples_per_pixel as int,
                max_depth as int,
                bytes@[3 * px],
                bytes@[3 * px + 1],
                bytes@[3 * px + 2],
            ),
{
    let mut bytes: Vec<u8> = Vec::new();
    let mut i: u32 = 0;
    while i < width
        invariant
            i <= width,
            bytes@.len() == 3 * i,
            cam_wf(*camera),
            world_wf(*world),
            2 <= width <= 100_000,
            2 <= height <= 100_000,
            row < height,
            1 <= samples_per_pixel <= 100_000,
            forall|px: int|
                0 <= px < i ==> #[trigger] pixel_bytes_ok(
                    *camera,
                    *world,
                    px,
                    row as int,
                    width as int,
                    height as int,
                    samples_per_pixel as int,
                    max_depth as int,
                    bytes@[3 * px],
                    bytes@[3 * px + 1],
                    bytes@[3 * px + 2],
                ),
        decreases width - i,
    {
        let mut sum_x: i64 = 0;
        let mut sum_y: i64 = 0;
        let mut sum_z: i64 = 0;
        let mut s: u32 = 0;
        let ghost mut samples: Seq<Color> = Seq::empty();
        while s < samples_per_pixel
            invariant
                s <= samples_per_pixel,
                0 <= sum_x <= s * (FS as int),
                0 <= sum_y <= s * (FS as int),
                0 <= sum_z <= s * (FS as int),
                i < width,
                cam_wf(*camera),
                world_wf(*world),
                2 <= width <= 100_000,
                2 <= height <= 100_000,
                row < height,
                1 <= samples_per_pixel <= 100_000,
                samples.len() == s,
                forall|k: int|
                    0 <= k < samples.len() ==> pixel_sample_possible(
                        *camera,
                        *world,
                        i as int,
                        row as int,
                        width as int,
                        height as int,
                        max_depth as int,
                        #[trigger] samples[k],
                    ),
                sum_x == color_sum(samples).0,
                sum_y == color_sum(samples).1,
                sum_z == color_sum(samples).2,
            decreases samples_per_pixel - s,
        {
            let du = crate::rng::random_unit_scalar();
            let dv = crate::rng::random_unit_scalar();
            proof {
                lemma_sample_coord(i as int, width as int, du as int);
                lemma_sample_coord(row as int, height as int, dv as int);
                crate::fx::lemma_prod_bound(i as int, FS as int, 100_000, FS as int);
                crate::fx::lemma_prod_bound(row as int, FS as int, 100_000, FS as int);
            }
            let u: i64 = ((i as i64) * FS + du) / ((width - 1) as i64);
            let v: i64 = ((row as i64) * FS + dv) / ((height - 1) as i64);
            let ray = camera.get_ray(u, v);
            let c = ray_color(&ray, world, max_depth);
            proof {
                assert((s + 1) * (FS as int) == s * (FS as int) + FS) by (nonlinear_arith);
                assert(samples_per_pixel * (FS as int) <= 10_000_000_000) by (nonlinear_arith)
                    requires
                        samples_per_pixel <= 100_000,
                ;
                assert(possible_radiance(
                    crate::camera::get_ray_spec(
                        *camera,
                        tdiv(i as int * (FS as int) + du, width as int - 1),
                        tdiv(row as int * (FS as int) + dv, height as int - 1),
                    ),
                    *world,
                    max_depth as int,
                    c,
                ));
                assert(pixel_sample_possible(
                    *camera,
                    *world,
                    i as int,
                    row as int,
                    width as int,
                    height as int,
                    max_depth as int,
                    c,
                ));
                let prev = samples;
                samples = samples.push(c);
                assert(samples.drop_last() =~= prev);
                assert(samples.last() == c);
                assert(color_sum(samples).0 == color_sum(prev).0 + c.x);
                assert(forall|k: int| 0 <= k < prev.len() ==> samples[k] == prev[k]);
            }
            sum_x = sum_x + c.x;
            sum_y = sum_y + c.y;
            sum_z = sum_z + c.z;
            s = s + 1;
        }
        let b0 = crate::vec3::get_color_value(sum_x, samples_per_pixel);
        let b1 = crate::vec3::get_color_value(sum_y, samples_per_pixel);
        let b2 = crate::vec3::get_color_value(sum_z, samples_per_pixel);
        let ghost old_bytes = bytes@;
        bytes.push(b0);
        bytes.push(b1);
        bytes.push(b2);
        proof {
            assert(pixel_bytes_ok(
                *camera,
                *world,
                i as int,
                row as int,
                width as int,
                height as int,
                samples_per_pixel as int,
                max_depth as int,
                b0,
                b1,
                b2,
            )) by {
                assert(samples.len() == samples_per_pixel as int && b0 as int
                    == crate::vec3::tone_map(color_sum(samples).0, samples_per_pixel as int)
                    && b1 as int == crate::vec3::tone_map(
                    color_sum(samples).1,
                    samples_per_pixel as int,
                ) && b2 as int == crate::vec3::tone_map(
                    color_sum(samples).2,
                    samples_per_pixel as int,
                ));
            }
            assert(bytes@.len() == 3 * i + 3);
            assert(forall|px: int|
                0 <= px < i ==> #[trigger] bytes@[3 * px] == old_bytes[3 * px] && bytes@[3 * px
                    + 1] == old_bytes[3 * px + 1] && bytes@[3 * px + 2] == old_bytes[3 * px + 2]);
            assert(bytes@[3 * (i as int)] == b0 && bytes@[3 * (i as int) + 1] == b1 && bytes@[3
                * (i as int) + 2] == b2);
        }
        i = i + 1;
    }
    bytes
}

/// Render the whole image, top row first: `width * height * 3` bytes,
/// row-major RGB8, buffer row `k` holding (bottom-based) image row
/// `height - 1 - k`, each pixel the tone-mapped sums of a full set of
/// per-sample integrator outcomes.
pub fn render(
    camera: &Camera,
    world: &Hittable,
    width: u32,
    height: u32,
    samples_per_pixel: u32,
    max_depth: i32,
) -> (buf: Vec<u8>)
    requires
        cam_wf(*camera),
        world_wf(*world),
        2 <= width <= 100_000,
        2 <= height <= 100_000,
        1 <= samples_per_pixel <= 100_000,
    ensures
        buf@.len() == 3 * width * height,
        forall|k: int, px: int|
            0 <= k < height && 0 <= px < width ==> #[trigger] pixel_bytes_ok(
                *camera,
                *world,
                px,
                height - 1 - k,
                width as int,
                height as int,
                samples_per_pixel as int,
                max_depth as int,
                buf@[3 * (k * width + px)],
                buf@[3 * (k * width + px) + 1],
                buf@[3 * (k * width + px) + 2],
            ),
{
    let mut buf: Vec<u8> = Vec::new();
    let mut k: u32 = 0;
    while k < height
        invariant
            k <= height,
            buf@.len() == 3 * width * k,
            cam_wf(*camera),
            world_wf(*world),
            2 <= width <= 100_000,
            2 <= height <= 100_000,
            1 <= samples_per_pixel <= 100_000,
            forall|k2: int, px: int|
                0 <= k2 < k && 0 <= px < width ==> #[trigger] pixel_bytes_ok(
                    *camera,
                    *world,
                    px,
                    height - 1 - k2,
                    width as int,
                    height as int,
                    samples_per_pixel as int,
                    max_depth as int,
                    buf@[3 * (k2 * width + px)],
                    buf@[3 * (k2 * width + px) + 1],
                    buf@[3 * (k2 * width + px) + 2],
                ),
        decreases height - k,
    {
        let row_index: u32 = height - 1 - k;
        let mut row = render_row(camera, world, row_index, width, height, samples_per_pixel, max_depth);
        let ghost old_buf = buf@;
        let ghost row_seq = row@;
        buf.append(&mut row);
        proof {
            assert(3 * width * k + 3 * width == 3 * width * (k + 1)) by (nonlinear_arith);
            assert(buf@ == old_buf + row_seq);
            assert forall|k2: int, px: int|
                0 <= k2 < k + 1 && 0 <= px < width implies #[trigger] pixel_bytes_ok(
                *camera,
                *world,
                px,
                height - 1 - k2,
                width as int,
                height as int,
                samples_per_pixel as int,
                max_depth as int,
                buf@[3 * (k2 * width + px)],
                buf@[3 * (k2 * width + px) + 1],
                buf@[3 * (k2 * width + px) + 2],
            ) by {
                if k2 < k {
                    assert(3 * (k2 * width + px) + 2 < 3 * width * k) by (nonlinear_arith)
                        requires
                            0 <= k2 < k as int,
                            0 <= px < width as int,
                    ;
                    assert(buf@[3 * (k2 * width + px)] == old_buf[3 * (k2 * width + px)]);
                    assert(buf@[3 * (k2 * width + px) + 1] == old_buf[3 * (k2 * width + px) + 1]);
                    assert(buf@[3 * (k2 * width + px) + 2] == old_buf[3 * (k2 * width + px) + 2]);
                } else {
                    assert(3 * (k2 * width + px) == 3 * width * (k as int) + 3 * px)
                        by (nonlinear_arith)
                        requires
                            k2 == k as int,
                    ;
                    assert(buf@[3 * width * (k as int) + 3 * px] == row_seq[3 * px]);
                    assert(buf@[3 * width * (k as int) + 3 * px + 1] == row_seq[3 * px + 1]);
                    assert(buf@[3 * width * (k as int) + 3 * px + 2] == row_seq[3 * px + 2]);
                    assert(pixel_bytes_ok(
                        *camera,
                        *world,
                        px,
                        row_index as int,
                        width as int,
                        height as int,
                        samples_per_pixel as int,
                        max_depth as int,
                        row_seq[3 * px],
                        row_seq[3 * px + 1],
                        row_seq[3 * px + 2],
                    ));
                }
            }
        }
        k = k + 1;
    }
    proof {
        assert(3 * width * height == 3 * width * height);
    }
    buf
}

/// The integrator's domain test, executable.
fn ray_ok_exec(ray: &Ray) -> (r: bool)
    ensures
        r == ray_ok(*ray),
{
    let o = ray.origin;
    let d = ray.direction;
    let in_range = -COORD_LIMIT <= o.x && o.x <= COORD_LIMIT && -COORD_LIMIT <= o.y && o.y
        <= COORD_LIMIT && -COORD_LIMIT <= o.z && o.z <= COORD_LIMIT && -COORD_LIMIT <= d.x && d.x
        <= COORD_LIMIT && -COORD_LIMIT <= d.y && d.y <= COORD_LIMIT && -COORD_LIMIT <= d.z && d.z
        <= COORD_LIMIT;
    if !in_range {
        return false;
    }
    let l2 = d.len2();
    l2 > 0
}

} // verus!
