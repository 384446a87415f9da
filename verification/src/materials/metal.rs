use vstd::prelude::*;

use crate::fx::{fmul, lemma_prod_bound, tdiv, FS};
use crate::hittables::hit_record::{rec_in_range, HitRecord};
use crate::ray::Ray;
use crate::vec3::{bounded_by, dot3, lemma_tdiv_bound, reflect_spec, Color, Vec3};

verus! {

/// Specular material with a fuzz factor; absorbs rays fuzzed into the
/// surface.
#[derive(Clone, Copy, PartialEq, Eq, Structural, Debug)]
pub struct Metal {
    pub albedo: Color,
    pub fuzz: i64,
}

/// What the metal scatter produces for a given unit-ball draw: the
/// mirrored unit direction plus the fuzzed draw, accepted only on the
/// outside of the surface.
pub open spec fn metal_scatter_spec(m: Metal, ray: Ray, rec: HitRecord, rand_ball: Vec3) -> (
    Color,
    Ray,
    bool,
) {
    let unit = ray.direction.unit_spec();
    let reflected = reflect_spec(unit, rec.normal);
    let dir = Vec3 {
        x: (reflected.x + fmul(rand_ball.x as int, m.fuzz as int)) as i64,
        y: (reflected.y + fmul(rand_ball.y as int, m.fuzz as int)) as i64,
        z: (reflected.z + fmul(rand_ball.z as int, m.fuzz as int)) as i64,
    };
    (m.albedo, Ray { origin: rec.p, direction: dir }, dot3(rec.normal, dir) > 0)
}

impl Metal {
    pub fn new(albedo: Color, fuzz: i64) -> (r: Self)
        ensures
            r.albedo == albedo && r.fuzz == fuzz,
    {
        Self { albedo, fuzz }
    }

    /// The deterministic scatter step, for a given unit-ball draw.
    pub fn scatter_with(&self, ray: &Ray, rec: &HitRecord, rand_ball: Vec3) -> (r: (
        Color,
        Ray,
        bool,
    ))
        requires
            rec_in_range(*rec),
            bounded_by(ray.direction, crate::vec3::DOT_LIMIT as int),
            dot3(ray.direction, ray.direction) > 0,
            bounded_by(rand_ball, FS as int),
            0 <= self.fuzz <= FS,
        ensures
            r == metal_scatter_spec(*self, *ray, *rec, rand_ball),
            r.0 == self.albedo,
            r.1.origin == rec.p,
            bounded_by(r.1.direction, 401 * (FS as int)),
            r.2 == (dot3(rec.normal, r.1.direction) > 0),
    {
        let reflected = Vec3::reflect(ray.direction.unit_vector(), rec.normal);
        proof {
            crate::vec3::lemma_fmul_fits(rand_ball.x as int, self.fuzz as int, FS as int, FS as int);
            crate::vec3::lemma_fmul_fits(rand_ball.y as int, self.fuzz as int, FS as int, FS as int);
            crate::vec3::lemma_fmul_fits(rand_ball.z as int, self.fuzz as int, FS as int, FS as int);
            assert((FS as int) * (FS as int) / (FS as int) == FS as int) by (nonlinear_arith);
        }
        let direction = reflected.add(rand_ball.scale(self.fuzz));
        let scattered = Ray::new(rec.p, direction);
        proof {
            crate::fx::lemma_prod_bound(
                rec.normal.x as int,
                direction.x as int,
                200_000,
                40_100_000,
            );
            crate::fx::lemma_prod_bound(
                rec.normal.y as int,
                direction.y as int,
                200_000,
                40_100_000,
            );
            crate::fx::lemma_prod_bound(
                rec.normal.z as int,
                direction.z as int,
                200_000,
                40_100_000,
            );
        }
        let d: i128 = (rec.normal.x as i128) * (direction.x as i128) + (rec.normal.y as i128) * (
        direction.y as i128) + (rec.normal.z as i128) * (direction.z as i128);
        (self.albedo, scattered, d > 0)
    }

    /// Scatter with a fresh random draw; the outcome, acceptance flag
    /// included, is the deterministic step applied to some unit-ball draw.
    pub fn scatter(
        &self,
        ray: &Ray,
        rec: &HitRecord,
        attenuation: &mut Color,
        scattered: &mut Ray,
    ) -> (b: bool)
        requires
            rec_in_range(*rec),
            bounded_by(ray.direction, crate::vec3::DOT_LIMIT as int),
            dot3(ray.direction, ray.direction) > 0,
            0 <= self.fuzz <= FS,
        ensures
            *final(attenuation) == self.albedo,
            final(scattered).origin == rec.p,
            bounded_by(final(scattered).direction, 401 * (FS as int)),
            b == (dot3(rec.normal, final(scattered).direction) > 0),
            exists|u: Vec3|
                bounded_by(u, FS as int) && 0 < dot3(u, u) < (FS as int) * (FS as int)
                    && #[trigger] metal_scatter_spec(*self, *ray, *rec, u) == (
                *final(attenuation),
                *final(scattered),
                b,
                ),
    {
        let draw = Vec3::random_in_unit_sphere();
        let (a, s, ok) = self.scatter_with(ray, rec, draw);
        *attenuation = a;
        *scattered = s;
        proof {
            assert(bounded_by(draw, FS as int) && 0 < dot3(draw, draw) < (FS as int) * (FS as int)
                && metal_scatter_spec(*self, *ray, *rec, draw) == (a, s, ok));
        }
        ok
    }
}

/// Polished metal (no fuzz) reflects deterministically and is accepted:
/// when the incoming unit direction meets a near-unit normal from the
/// front by at least a small margin (a thousandth of a unit of cosine,
/// comfortably above the truncation error), the scatter is never
/// absorbed, whatever the ball draw, and the outgoing direction is
/// exactly the mirrored unit direction.
pub proof fn lemma_polished_metal_accepts(m: Metal, ray: Ray, rec: HitRecord, ball: Vec3)
    requires
        m.fuzz == 0,
        bounded_by(rec.normal, 2 * (FS as int)),
        bounded_by(ray.direction.unit_spec(), FS as int),
        9_900_000_000 <= dot3(rec.normal, rec.normal) <= 10_100_000_000,
        dot3(rec.normal, ray.direction.unit_spec()) <= -10_000_000,
    ensures
        metal_scatter_spec(m, ray, rec, ball).1.direction == reflect_spec(
            ray.direction.unit_spec(),
            rec.normal,
        ),
        metal_scatter_spec(m, ray, rec, ball).2,
{
    let s = FS as int;
    let n = rec.normal;
    let un = ray.direction.unit_spec();
    let kk = dot3(n, n);
    let dd = dot3(un, n);
    assert(dd == dot3(n, un)) by (nonlinear_arith)
        requires
            dd == (un.x as int) * (n.x as int) + (un.y as int) * (n.y as int) + (un.z as int)
                * (n.z as int),
            dot3(n, un) == (n.x as int) * (un.x as int) + (n.y as int) * (un.y as int) + (n.z as int)
                * (un.z as int),
    ;
    // the fuzz term vanishes, so the scattered direction is the reflection
    assert((ball.x as int) * 0 == 0 && (ball.y as int) * 0 == 0 && (ball.z as int) * 0 == 0)
        by (nonlinear_arith);
    let refl = reflect_spec(un, n);
    assert(metal_scatter_spec(m, ray, rec, ball).1.direction == refl);
    // the scaled cosine, with its truncation remainder
    let q = tdiv(dd, s);
    lemma_prod_bound(un.x as int, n.x as int, s, 2 * s);
    lemma_prod_bound(un.y as int, n.y as int, s, 2 * s);
    lemma_prod_bound(un.z as int, n.z as int, s, 2 * s);
    lemma_tdiv_bound(dd, 6 * s * s, s);
    assert(dd <= q * s < dd + s);
    // each reflected component, with its truncation remainder
    let fx_ = fmul(n.x as int, 2 * q);
    let fy_ = fmul(n.y as int, 2 * q);
    let fz_ = fmul(n.z as int, 2 * q);
    assert(6 * s * s / s == 6 * s) by (nonlinear_arith)
        requires
            s == 100_000,
    ;
    lemma_prod_bound(n.x as int, 2 * q, 2 * s, 12 * s);
    lemma_prod_bound(n.y as int, 2 * q, 2 * s, 12 * s);
    lemma_prod_bound(n.z as int, 2 * q, 2 * s, 12 * s);
    lemma_tdiv_bound(n.x as int * (2 * q), 24 * s * s, s);
    lemma_tdiv_bound(n.y as int * (2 * q), 24 * s * s, s);
    lemma_tdiv_bound(n.z as int * (2 * q), 24 * s * s, s);
    let ex = fx_ * s - n.x as int * (2 * q);
    let ey = fy_ * s - n.y as int * (2 * q);
    let ez = fz_ * s - n.z as int * (2 * q);
    assert(-s < ex < s && -s < ey < s && -s < ez < s);
    // the scaled alignment of the reflection with the normal, component
    // by component
    let dr = dot3(n, refl);
    let e_sum = (n.x as int) * ex + (n.y as int) * ey + (n.z as int) * ez;
    assert(s * ((n.x as int) * (refl.x as int)) == s * ((n.x as int) * (un.x as int)) - (2 * q) * (
    (n.x as int) * (n.x as int)) - (n.x as int) * ex) by (nonlinear_arith)
        requires
            refl.x as int == un.x - fx_,
            fx_ * s == n.x as int * (2 * q) + ex,
    ;
    assert(s * ((n.y as int) * (refl.y as int)) == s * ((n.y as int) * (un.y as int)) - (2 * q) * (
    (n.y as int) * (n.y as int)) - (n.y as int) * ey) by (nonlinear_arith)
        requires
            refl.y as int == un.y - fy_,
            fy_ * s == n.y as int * (2 * q) + ey,
    ;
    assert(s * ((n.z as int) * (refl.z as int)) == s * ((n.z as int) * (un.z as int)) - (2 * q) * (
    (n.z as int) * (n.z as int)) - (n.z as int) * ez) by (nonlinear_arith)
        requires
            refl.z as int == un.z - fz_,
            fz_ * s == n.z as int * (2 * q) + ez,
    ;
    vstd::arithmetic::mul::lemma_mul_is_distributive_add(
        s,
        (n.x as int) * (refl.x as int) + (n.y as int) * (refl.y as int),
        (n.z as int) * (refl.z as int),
    );
    vstd::arithmetic::mul::lemma_mul_is_distributive_add(
        s,
        (n.x as int) * (refl.x as int),
        (n.y as int) * (refl.y as int),
    );
    vstd::arithmetic::mul::lemma_mul_is_distributive_add(
        s,
        (n.x as int) * (un.x as int) + (n.y as int) * (un.y as int),
        (n.z as int) * (un.z as int),
    );
    vstd::arithmetic::mul::lemma_mul_is_distributive_add(
        s,
        (n.x as int) * (un.x as int),
        (n.y as int) * (un.y as int),
    );
    vstd::arithmetic::mul::lemma_mul_is_distributive_add(
        2 * q,
        (n.x as int) * (n.x as int) + (n.y as int) * (n.y as int),
        (n.z as int) * (n.z as int),
    );
    vstd::arithmetic::mul::lemma_mul_is_distributive_add(
        2 * q,
        (n.x as int) * (n.x as int),
        (n.y as int) * (n.y as int),
    );
    assert(s * dr == s * dd - (2 * q) * kk - e_sum);
    assert(s * (s * dr) == s * (s * dd) - s * ((2 * q) * kk) - s * e_sum) by {
        vstd::arithmetic::mul::lemma_mul_is_distributive_sub(s, s * dd - (2 * q) * kk, e_sum);
        vstd::arithmetic::mul::lemma_mul_is_distributive_sub(s, s * dd, (2 * q) * kk);
    }
    assert(s * ((2 * q) * kk) == 2 * (q * s) * kk) by (nonlinear_arith);
    assert(s * (s * dd) == s * s * dd) by (nonlinear_arith);
    assert(-6 * s * s <= (n.x as int) * ex + (n.y as int) * ey + (n.z as int) * ez <= 6 * s * s)
        by (nonlinear_arith)
        requires
            -2 * s <= n.x as int <= 2 * s,
            -2 * s <= n.y as int <= 2 * s,
            -2 * s <= n.z as int <= 2 * s,
            -s < ex < s,
            -s < ey < s,
            -s < ez < s,
            0 < s,
    ;
    assert(s * (s * dr) > 0) by (nonlinear_arith)
        requires
            s * (s * dr) == s * s * dd - 2 * (q * s) * kk - s * e_sum,
            -6 * s * s <= e_sum <= 6 * s * s,
            dd <= q * s < dd + s,
            dd <= -10_000_000,
            9_900_000_000 <= kk <= 10_100_000_000,
            s == 100_000,
    ;
    assert(dr > 0) by (nonlinear_arith)
        requires
            s * (s * dr) > 0,
            s == 100_000,
    ;
}

} // verus!
