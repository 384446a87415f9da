use ray_tracing::fx::FS;
use ray_tracing::vec3::{get_color_value, Vec3};

#[test]
fn vec3_sanity() {
    let mut vec = Vec3::new(100_000, 200_000, 300_000);

    assert!(vec.x == 100_000);
    assert!(vec.y == 200_000);
    assert!(vec.z == 300_000);

    assert!(vec.x == vec.x());
    assert!(vec.y == vec.y());
    assert!(vec.z == vec.z());

    // 1.0 maps to 255; anything above one saturates at 255.
    assert!(vec.r(1) == 255);
    assert!(vec.g(1) == 255);
    assert!(vec.b(1) == 255);

    vec.x = 400_000;
    assert!(vec.x == 400_000);
    assert!(vec.y == 200_000);
    assert!(vec.z == 300_000);

    vec.y = 500_000;
    assert!(vec.x == 400_000);
    assert!(vec.y == 500_000);
    assert!(vec.z == 300_000);

    vec.z = 600_000;
    assert!(vec.x == 400_000);
    assert!(vec.y == 500_000);
    assert!(vec.z == 600_000);
}

#[test]
fn approx_eq() {
    let v1 = Vec3::new(100_000, 200_000, 300_000);
    let v2 = v1.clone();

    assert!(v1.approx_eq(v2));

    let v3 = v2.scale(100_001);

    assert!(v1.approx_eq_epsilon(v3, 10));
    assert!(!v1.approx_eq_epsilon(v3, 1));
    assert!(!v1.approx_eq(v3));
}

#[test]
fn len() {
    let mut vec = Vec3::new(100_000, 200_000, 300_000);

    let res: i128 = 140_000_000_000;

    assert!(vec.len2() == res);
    assert!(vec.len() == 374_165);

    vec.y = -vec.y;

    assert!(vec.len2() == res);
    assert!(vec.len() == 374_165);
}

#[test]
fn unit_vector() {
    let mut vec = Vec3::new(100_000, 200_000, 300_000);

    let unit = vec.unit_vector();

    assert!(unit.x == 26_726);
    assert!(unit.y == 53_452);
    assert!(unit.z == 80_178);

    vec.make_unit_vector();

    assert!(vec.x == 26_726);
    assert!(vec.y == 53_452);
    assert!(vec.z == 80_178);
}

#[test]
fn dot() {
    let v1 = Vec3::new(100_000, 200_000, 300_000);
    let v2 = Vec3::new(400_000, 500_000, 600_000);

    assert!(v1.dot(v2) == 3_200_000);
}

#[test]
fn cross() {
    let v1 = Vec3::new(100_000, 200_000, 300_000);
    let v2 = Vec3::new(400_000, 500_000, 600_000);

    let res = v1.cross(v2);

    assert!(res.x == -300_000);
    assert!(res.y == 600_000);
    assert!(res.z == -300_000);
}

#[test]
fn neg() {
    let vec = Vec3::new(100_000, 200_000, 300_000).neg();

    assert!(vec.x == -100_000);
    assert!(vec.y == -200_000);
    assert!(vec.z == -300_000);
}

#[test]
fn add() {
    let mut v1 = Vec3::new(100_000, 200_000, 300_000);
    let v2 = Vec3::new(400_000, 500_000, 600_000);

    let res = v1.add(v2);

    assert!(res.x == 500_000);
    assert!(res.y == 700_000);
    assert!(res.z == 900_000);

    v1 = v1.add(v2);
    assert!(v1.approx_eq(res));
}

#[test]
fn sub() {
    let mut v1 = Vec3::new(100_000, 200_000, 300_000);
    let v2 = Vec3::new(600_000, 500_000, 400_000);

    let res = v1.sub(v2);

    assert!(res.x == -500_000);
    assert!(res.y == -300_000);
    assert!(res.z == -100_000);

    v1 = v1.sub(v2);
    assert!(v1.approx_eq(res));
}

#[test]
fn mul() {
    let mut v1 = Vec3::new(100_000, 200_000, 300_000);
    let v2 = Vec3::new(400_000, 500_000, 600_000);

    let res = v1.mul(v2);

    assert!(res.x == 400_000);
    assert!(res.y == 1_000_000);
    assert!(res.z == 1_800_000);

    v1 = v1.mul(v2);
    assert!(v1.approx_eq(res));
}

#[test]
fn mul_float() {
    let mut v1 = Vec3::new(100_000, 200_000, 300_000);
    let t: i64 = 300_000;

    let res = v1.scale(t);

    assert!(res.x == 300_000);
    assert!(res.y == 600_000);
    assert!(res.z == 900_000);

    v1 = v1.scale(t);
    assert!(v1.approx_eq(res));
}

#[test]
fn div() {
    let mut v1 = Vec3::new(100_000, 200_000, 300_000);
    let v2 = Vec3::new(400_000, 500_000, 600_000);

    let res = v1.div(v2);

    assert!(res.x == 25_000);
    assert!(res.y == 40_000);
    assert!(res.z == 50_000);

    v1 = v1.div(v2);
    assert!(v1.approx_eq(res));
}

#[test]
fn div_float() {
    let mut v1 = Vec3::new(100_000, 200_000, 300_000);
    let t: i64 = 300_000;

    let res = v1.div_scale(t);

    assert!(res.x == 33_333);
    assert!(res.y == 66_666);
    assert!(res.z == 100_000);

    v1 = v1.div_scale(t);
    assert!(v1.approx_eq(res));
}

#[test]
fn reflect_self_inverse_axis() {
    // About an axis-aligned unit normal the scaled reflection is exact, so
    // reflecting twice returns the original vector bit for bit.
    let v = Vec3::new(300_000, -500_000, 700_000);
    let n = Vec3::new(0, FS, 0);

    let once = Vec3::reflect(v, n);
    assert!(once.x == 300_000 && once.y == 500_000 && once.z == 700_000);

    let twice = Vec3::reflect(once, n);
    assert!(twice == v);
}

#[test]
fn tone_map_quarter() {
    // A quarter of full radiance: sqrt(0.25) = 0.5, and 0.5 * 255.999
    // truncates to 127.
    assert!(get_color_value(25_000, 1) == 127);
    // Zero and negative radiance map to black.
    assert!(get_color_value(0, 1) == 0);
    assert!(get_color_value(-50_000, 1) == 0);
    // Averaging over samples: four samples summing to one unit is a
    // quarter per sample.
    assert!(get_color_value(100_000, 4) == 127);
}

#[test]
fn random_draw_ranges() {
    for _ in 0..200 {
        let u = ray_tracing::rng::random_unit_scalar();
        assert!(0 <= u && u < FS);
        let r = ray_tracing::rng::random_in_range_scalar(-50_000, 50_000);
        assert!(-50_000 <= r && r < 50_000);
        let v = Vec3::random_in_unit_cube();
        assert!(0 <= v.x && v.x < FS && 0 <= v.y && v.y < FS && 0 <= v.z && v.z < FS);
        let s = Vec3::random_in_unit_sphere();
        let l2 = s.len2();
        assert!(0 < l2 && l2 < (FS as i128) * (FS as i128));
        let uv = Vec3::random_unit_vector();
        let ul2 = uv.len2();
        assert!(9_999_400_000 <= ul2 && ul2 <= 10_002_600_003);
        let d = Vec3::random_in_unit_disk();
        assert!(d.z == 0);
        let l2d = d.len2();
        assert!(0 < l2d && l2d < (FS as i128) * (FS as i128));
    }
}
