use vstd::prelude::*;

use crate::fx::{fdiv, lemma_prod_bound, tdiv, COORD_LIMIT, FS, POINT_LIMIT};
use crate::hittables::aabb::AABB;
use crate::hittables::hit_record::{rec_in_range, HitRecord};
use crate::materials::{mat_valid, Material};
use crate::ray::{at_spec, ray_in_range, Ray};
use crate::vec3::{
    bounded_by, dot3, lemma_sq_nonneg, lemma_sqrt_i, lemma_tdiv_bound, sqrt_i, vneg, Point, Vec3,
};

verus! {

/// The one primitive shape: a sphere with its material.
#[derive(Clone, Copy, PartialEq, Eq, Structural, Debug)]
pub struct Sphere {
    pub center: Point,
    pub radius: i64,
    pub material: Material,
}

/// The sphere's geometry and material lie in the ranges the math needs.
pub open spec fn sphere_in_range(s: Sphere) -> bool {
    &&& bounded_by(s.center, COORD_LIMIT as int)
    &&& 0 < s.radius <= COORD_LIMIT
    &&& mat_valid(s.material)
}

/// `|d|^2`: the quadratic's leading coefficient (exact, raw scale squared).
pub open spec fn sph_a(ray: Ray) -> int {
    dot3(ray.direction, ray.direction)
}

/// `oc . d` with `oc = origin - center`: half the linear coefficient.
pub open spec fn sph_half_b(s: Sphere, ray: Ray) -> int {
    (ray.origin.x - s.center.x) * (ray.direction.x as int) + (ray.origin.y - s.center.y) * (
    ray.direction.y as int) + (ray.origin.z - s.center.z) * (ray.direction.z as int)
}

/// `|oc|^2 - r^2`: the quadratic's constant coefficient.
pub open spec fn sph_c(s: Sphere, ray: Ray) -> int {
    (ray.origin.x - s.center.x) * (ray.origin.x - s.center.x) + (ray.origin.y - s.center.y) * (
    ray.origin.y - s.center.y) + (ray.origin.z - s.center.z) * (ray.origin.z - s.center.z) - (
    s.radius as int) * (s.radius as int)
}

/// The discriminant of the intersection quadratic.
pub open spec fn sph_disc(s: Sphere, ray: Ray) -> int {
    sph_half_b(s, ray) * sph_half_b(s, ray) - sph_a(ray) * sph_c(s, ray)
}

/// The nearer root of the quadratic, at the fixed-point scale.
pub open spec fn sph_root1(s: Sphere, ray: Ray) -> int {
    tdiv((-sph_half_b(s, ray) - sqrt_i(sph_disc(s, ray))) * (FS as int), sph_a(ray))
}

/// The farther root of the quadratic, at the fixed-point scale.
pub open spec fn sph_root2(s: Sphere, ray: Ray) -> int {
    tdiv((-sph_half_b(s, ray) + sqrt_i(sph_disc(s, ray))) * (FS as int), sph_a(ray))
}

/// The ray parameter reported for this sphere over `[t_min, t_max]`: the
/// nearer in-range root, else the farther, else none. A degenerate ray
/// (zero direction) or a negative discriminant is a miss.
pub open spec fn sphere_hit_t(s: Sphere, ray: Ray, t_min: int, t_max: int) -> Option<int> {
    if sph_a(ray) == 0 {
        None
    } else if sph_disc(s, ray) < 0 {
        None
    } else {
        let r1 = sph_root1(s, ray);
        if t_min <= r1 <= t_max {
            Some(r1)
        } else {
            let r2 = sph_root2(s, ray);
            if t_min <= r2 <= t_max {
                Some(r2)
            } else {
                None
            }
        }
    }
}

/// Clamp a scalar to twice a unit: the guard on normal components
/// against rounding pathologies far from the surface.
pub open spec fn clamp2(v: int) -> int {
    if v > 2 * (FS as int) {
        2 * (FS as int)
    } else if v < -2 * (FS as int) {
        -2 * (FS as int)
    } else {
        v
    }
}

/// The outward normal at `p`: the offset from the center divided by the
/// radius, each component clamped to twice a unit.
pub open spec fn sphere_outward(s: Sphere, p: Vec3) -> Vec3 {
    Vec3 {
        x: clamp2(fdiv(p.x - s.center.x, s.radius as int)) as i64,
        y: clamp2(fdiv(p.y - s.center.y, s.radius as int)) as i64,
        z: clamp2(fdiv(p.z - s.center.z, s.radius as int)) as i64,
    }
}

/// The record a hit at parameter `t` fills in: the hit point, the normal
/// re-oriented against the ray, and the sphere's material.
pub open spec fn sphere_hit_record(s: Sphere, ray: Ray, t: int) -> HitRecord {
    let p = at_spec(ray, t);
    let ow = sphere_outward(s, p);
    let front = dot3(ray.direction, ow) < 0;
    HitRecord {
        p,
        normal: if front {
            ow
        } else {
            vneg(ow)
        },
        t: t as i64,
        front_face: front,
        material: s.material,
    }
}

impl Sphere {
    pub fn new(center: Point, radius: i64, material: Material) -> (r: Self)
        ensures
            r.center == center && r.radius == radius && r.material == material,
    {
        Self { center, radius, material }
    }

    /// Solve the intersection quadratic over `[t_min, t_max]`; on a hit,
    /// fill the record with the nearer admissible root.
    pub fn hit(&self, ray: &Ray, t_min: i64, t_max: i64, rec: &mut HitRecord) -> (r: bool)
        requires
            sphere_in_range(*self),
            ray_in_range(*ray),
            -(COORD_LIMIT as int) <= t_min,
            t_max <= COORD_LIMIT as int,
        ensures
            r == (sphere_hit_t(*self, *ray, t_min as int, t_max as int) is Some),
            r ==> *final(rec) == sphere_hit_record(
                *self,
                *ray,
                sphere_hit_t(*self, *ray, t_min as int, t_max as int)->0,
            ),
            r ==> rec_in_range(*final(rec)),
            !r ==> *final(rec) == *old(rec),
    {
        let ocx: i64 = ray.origin.x - self.center.x;
        let ocy: i64 = ray.origin.y - self.center.y;
        let ocz: i64 = ray.origin.z - self.center.z;
        proof {
            lemma_prod_bound(
                ray.direction.x as int,
                ray.direction.x as int,
                COORD_LIMIT as int,
                COORD_LIMIT as int,
            );
            lemma_prod_bound(
                ray.direction.y as int,
                ray.direction.y as int,
                COORD_LIMIT as int,
                COORD_LIMIT as int,
            );
            lemma_prod_bound(
                ray.direction.z as int,
                ray.direction.z as int,
                COORD_LIMIT as int,
                COORD_LIMIT as int,
            );
            lemma_sq_nonneg(ray.direction.x as int);
            lemma_sq_nonneg(ray.direction.y as int);
            lemma_sq_nonneg(ray.direction.z as int);
            lemma_prod_bound(ocx as int, ray.direction.x as int, 819_200_000, COORD_LIMIT as int);
            lemma_prod_bound(ocy as int, ray.direction.y as int, 819_200_000, COORD_LIMIT as int);
            lemma_prod_bound(ocz as int, ray.direction.z as int, 819_200_000, COORD_LIMIT as int);
            lemma_prod_bound(ocx as int, ocx as int, 819_200_000, 819_200_000);
            lemma_prod_bound(ocy as int, ocy as int, 819_200_000, 819_200_000);
            lemma_prod_bound(ocz as int, ocz as int, 819_200_000, 819_200_000);
            lemma_prod_bound(
                self.radius as int,
                self.radius as int,
                COORD_LIMIT as int,
                COORD_LIMIT as int,
            );
            lemma_sq_nonneg(self.radius as int);
        }
        let a: i128 = (ray.direction.x as i128) * (ray.direction.x as i128) + (
        ray.direction.y as i128) * (ray.direction.y as i128) + (ray.direction.z as i128) * (
        ray.direction.z as i128);
        let half_b: i128 = (ocx as i128) * (ray.direction.x as i128) + (ocy as i128) * (
        ray.direction.y as i128) + (ocz as i128) * (ray.direction.z as i128);
        let c: i128 = (ocx as i128) * (ocx as i128) + (ocy as i128) * (ocy as i128) + (
        ocz as i128) * (ocz as i128) - (self.radius as i128) * (self.radius as i128);
        if a == 0 {
            return false;
        }
        proof {
            lemma_prod_bound(
                half_b as int,
                half_b as int,
                1_006_632_960_000_000_000,
                1_006_632_960_000_000_000,
            );
            lemma_prod_bound(
                a as int,
                c as int,
                503_316_480_000_000_000,
                2_181_038_080_000_000_000,
            );
        }
        let disc: i128 = half_b * half_b - a * c;
        if disc < 0 {
            return false;
        }
        let sqrtd: i128 = crate::fx::isqrt_i128(disc) as i128;
        proof {
            lemma_sqrt_i(disc as int, sqrtd as int);
            assert(sqrtd as int <= 1_460_000_000_000_000_000) by (nonlinear_arith)
                requires
                    0 <= sqrtd as int,
                    (sqrtd as int) * (sqrtd as int) <= 2_111_120_000_000_000_000_000_000_000_000_000_000,
            ;
            lemma_prod_bound(-(half_b as int) - sqrtd as int, FS as int, 2_500_000_000_000_000_000, FS as int);
            lemma_prod_bound(-(half_b as int) + sqrtd as int, FS as int, 2_500_000_000_000_000_000, FS as int);
            lemma_tdiv_bound(
                (-(half_b as int) - sqrtd as int) * (FS as int),
                250_000_000_000_000_000_000_000,
                a as int,
            );
            lemma_tdiv_bound(
                (-(half_b as int) + sqrtd as int) * (FS as int),
                250_000_000_000_000_000_000_000,
                a as int,
            );
        }
        let mut root: i128 = ((-half_b - sqrtd) * (FS as i128)) / a;
        if root < t_min as i128 || root > t_max as i128 {
            root = ((-half_b + sqrtd) * (FS as i128)) / a;
            if root < t_min as i128 || root > t_max as i128 {
                return false;
            }
        }
        let t: i64 = root as i64;
        rec.t = t;
        rec.p = ray.at(t);
        proof {
            lemma_prod_bound(rec.p.x - self.center.x, FS as int, 2_000_500_000_000, FS as int);
            lemma_prod_bound(rec.p.y - self.center.y, FS as int, 2_000_500_000_000, FS as int);
            lemma_prod_bound(rec.p.z - self.center.z, FS as int, 2_000_500_000_000, FS as int);
            lemma_tdiv_bound(
                (rec.p.x - self.center.x) * (FS as int),
                200_050_000_000_000_000,
                self.radius as int,
            );
            lemma_tdiv_bound(
                (rec.p.y - self.center.y) * (FS as int),
                200_050_000_000_000_000,
                self.radius as int,
            );
            lemma_tdiv_bound(
                (rec.p.z - self.center.z) * (FS as int),
                200_050_000_000_000_000,
                self.radius as int,
            );
        }
        let owx: i64 = clamp2_exec(((rec.p.x as i128 - self.center.x as i128) * (FS as i128) / (
        self.radius as i128)) as i64);
        let owy: i64 = clamp2_exec(((rec.p.y as i128 - self.center.y as i128) * (FS as i128) / (
        self.radius as i128)) as i64);
        let owz: i64 = clamp2_exec(((rec.p.z as i128 - self.center.z as i128) * (FS as i128) / (
        self.radius as i128)) as i64);
        let outward_normal = Vec3 { x: owx, y: owy, z: owz };
        rec.set_face_normal(ray, outward_normal);
        rec.material = self.material;
        true
    }

    /// The box `center - (r,r,r)` to `center + (r,r,r)`.
    pub fn bounding_box(&self, output_box: &mut AABB) -> (r: bool)
        requires
            sphere_in_range(*self),
        ensures
            r,
            *final(output_box) == sphere_bbox_spec(*self),
    {
        let rad = Vec3::new(self.radius, self.radius, self.radius);
        *output_box = AABB::new(self.center.sub(rad), self.center.add(rad));
        true
    }
}

/// The box a sphere reports: its center offset by the radius both ways.
pub open spec fn sphere_bbox_spec(s: Sphere) -> AABB {
    AABB {
        min: Vec3 {
            x: (s.center.x - s.radius) as i64,
            y: (s.center.y - s.radius) as i64,
            z: (s.center.z - s.radius) as i64,
        },
        max: Vec3 {
            x: (s.center.x + s.radius) as i64,
            y: (s.center.y + s.radius) as i64,
            z: (s.center.z + s.radius) as i64,
        },
    }
}

/// One term of the outward-normal dot product: scaling and clamping keep
/// the sign, and a measurable offset keeps at least a whole unit of it.
proof fn lemma_outward_term(dx: int, r: int)
    requires
        0 < r,
    ensures
        clamp2(tdiv(dx * (FS as int), r)) * dx >= 0,
        dx * (FS as int) >= r || -(dx * (FS as int)) >= r ==> clamp2(tdiv(dx * (FS as int), r))
            * dx >= 1,
{
    assert(clamp2(tdiv(dx * (FS as int), r)) * dx >= 0 && (dx * (FS as int) >= r || -(dx * (
    FS as int)) >= r ==> clamp2(tdiv(dx * (FS as int), r)) * dx >= 1)) by (nonlinear_arith)
        requires
            0 < r,
            tdiv(dx * (FS as int), r) == if dx * (FS as int) >= 0 {
                (dx * (FS as int)) / r
            } else {
                -((-(dx * (FS as int))) / r)
            },
            clamp2(tdiv(dx * (FS as int), r)) == if tdiv(dx * (FS as int), r) > 2 * (FS as int) {
                2 * (FS as int)
            } else if tdiv(dx * (FS as int), r) < -2 * (FS as int) {
                -2 * (FS as int)
            } else {
                tdiv(dx * (FS as int), r)
            },
    ;
}

/// The outward normal recorded for a hit points away from the sphere's
/// center: its dot product with the center-to-point offset is positive,
/// whenever the hit point is measurably off the center along some axis
/// (at least the radius scaled down by one unit).
pub proof fn lemma_hit_normal_outward(s: Sphere, p: Vec3)
    requires
        0 < s.radius,
        (p.x - s.center.x) * (FS as int) >= s.radius || -((p.x - s.center.x) * (FS as int))
            >= s.radius || (p.y - s.center.y) * (FS as int) >= s.radius || -((p.y - s.center.y) * (
        FS as int)) >= s.radius || (p.z - s.center.z) * (FS as int) >= s.radius || -((p.z
            - s.center.z) * (FS as int)) >= s.radius,
    ensures
        sphere_outward(s, p).x * (p.x - s.center.x) + sphere_outward(s, p).y * (p.y - s.center.y)
            + sphere_outward(s, p).z * (p.z - s.center.z) > 0,
{
    lemma_outward_term(p.x - s.center.x, s.radius as int);
    lemma_outward_term(p.y - s.center.y, s.radius as int);
    lemma_outward_term(p.z - s.center.z, s.radius as int);
}

/// The same, stated of the record a front-face hit fills in: the stored
/// normal (the outward normal, kept as-is when the geometry faces the
/// ray) points away from the center.
pub proof fn lemma_hit_record_normal_outward(s: Sphere, ray: Ray, t: int)
    requires
        0 < s.radius,
        ({
            let p = at_spec(ray, t);
            ||| (p.x - s.center.x) * (FS as int) >= s.radius
            ||| -((p.x - s.center.x) * (FS as int)) >= s.radius
            ||| (p.y - s.center.y) * (FS as int) >= s.radius
            ||| -((p.y - s.center.y) * (FS as int)) >= s.radius
            ||| (p.z - s.center.z) * (FS as int) >= s.radius
            ||| -((p.z - s.center.z) * (FS as int)) >= s.radius
        }),
        sphere_hit_record(s, ray, t).front_face,
    ensures
        ({
            let rec = sphere_hit_record(s, ray, t);
            rec.normal.x * (rec.p.x - s.center.x) + rec.normal.y * (rec.p.y - s.center.y)
                + rec.normal.z * (rec.p.z - s.center.z) > 0
        }),
{
    lemma_hit_normal_outward(s, at_spec(ray, t));
}

/// Clamp a scalar to twice a unit.
fn clamp2_exec(v: i64) -> (r: i64)
    ensures
        r as int == clamp2(v as int),
{
    if v > 200_000 {
        200_000
    } else if v < -200_000 {
        -200_000
    } else {
        v
    }
}

} // verus!
