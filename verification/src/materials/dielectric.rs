use vstd::prelude::*;

use crate::fx::{fdiv, fmul, fx_div, fx_mul, isqrt_i128, tdiv, FS};
use crate::hittables::hit_record::{rec_in_range, HitRecord};
use crate::ray::Ray;
use crate::vec3::{
    bounded_by, dot3, lemma_fmul_fits, lemma_sqrt_i, lemma_tdiv_bound, reflect_spec, refract_spec,
    sqrt_i, vneg, Color, Vec3,
};

verus! {

/// Glass: refracts or reflects by Schlick-weighted choice, absorbing
/// nothing.
#[derive(Clone, Copy, PartialEq, Eq, Structural, Debug)]
pub struct Dielectric {
    pub ri: i64,
}

/// The refractive index stays within a sixteenth and sixteen.
pub open spec fn ri_in_range(ri: int) -> bool {
    FS as int / 16 <= ri <= 16 * (FS as int)
}

/// The Schlick reflectance approximation:
/// `r0^2 + (1 - r0^2) * (1 - cos)^5` with `r0 = (1 - ri) / (1 + ri)`.
pub open spec fn reflectance_spec(cosine: int, ref_idx: int) -> int {
    let r0 = fdiv(FS as int - ref_idx, FS as int + ref_idx);
    let r02 = fmul(r0, r0);
    let pw = FS as int - cosine;
    let pw2 = fmul(pw, pw);
    let pw4 = fmul(pw2, pw2);
    let pw5 = fmul(pw4, pw);
    r02 + fmul(FS as int - r02, pw5)
}

/// What the glass scatter produces for a given unit draw: reflect on total
/// internal reflection or a Schlick-favoured draw, otherwise refract.
pub open spec fn dielectric_scatter_spec(m: Dielectric, ray: Ray, rec: HitRecord, draw: int) -> (
    Color,
    Ray,
) {
    let ratio = if rec.front_face {
        fdiv(FS as int, m.ri as int)
    } else {
        m.ri as int
    };
    let unit = ray.direction.unit_spec();
    let mcos = tdiv(dot3(rec.normal, vneg(unit)), FS as int);
    let cos = if mcos > FS as int {
        FS as int
    } else if mcos < -(FS as int) {
        -(FS as int)
    } else {
        mcos
    };
    let sin = sqrt_i((FS as int) * (FS as int) - cos * cos);
    let reflects = ratio * sin > (FS as int) * (FS as int) || reflectance_spec(cos, ratio) > draw;
    let dir = if reflects {
        reflect_spec(unit, rec.normal)
    } else {
        refract_spec(unit, rec.normal, ratio)
    };
    (Vec3 { x: FS, y: FS, z: FS }, Ray { origin: rec.p, direction: dir })
}

impl Dielectric {
    pub fn new(ri: i64) -> (r: Self)
        ensures
            r.ri == ri,
    {
        Self { ri }
    }

    /// Schlick's approximation of the Fresnel reflectance.
    pub fn reflectance(cosine: i64, ref_idx: i64) -> (r: i64)
        requires
            -(FS as int) <= cosine <= FS as int,
            0 < ref_idx <= 16 * (FS as int),
        ensures
            r as int == reflectance_spec(cosine as int, ref_idx as int),
    {
        proof {
            crate::fx::lemma_prod_bound(
                FS as int - ref_idx,
                FS as int,
                1_500_000,
                FS as int,
            );
            lemma_tdiv_bound(
                (FS as int - ref_idx) * (FS as int),
                150_000_000_000,
                FS as int + ref_idx,
            );
        }
        let r0 = fx_div(FS - ref_idx, FS + ref_idx);
        proof {
            lemma_fmul_fits(r0 as int, r0 as int, 150_000_000_000, 150_000_000_000);
        }
        let r02 = fx_mul(r0, r0);
        let pw = FS - cosine;
        proof {
            lemma_fmul_fits(pw as int, pw as int, 200_000, 200_000);
        }
        let pw2 = fx_mul(pw, pw);
        proof {
            lemma_fmul_fits(pw2 as int, pw2 as int, 400_000, 400_000);
        }
        let pw4 = fx_mul(pw2, pw2);
        proof {
            lemma_fmul_fits(pw4 as int, pw as int, 1_600_000, 200_000);
        }
        let pw5 = fx_mul(pw4, pw);
        proof {
            lemma_fmul_fits(
                FS as int - r02 as int,
                pw5 as int,
                225_000_000_000_100_000,
                3_200_000,
            );
        }
        r02 + fx_mul(FS - r02, pw5)
    }

    /// The deterministic scatter step, for a given reflectance draw.
    pub fn scatter_with(&self, ray: &Ray, rec: &HitRecord, draw: i64) -> (r: (Color, Ray))
        requires
            rec_in_range(*rec),
            bounded_by(ray.direction, crate::vec3::DOT_LIMIT as int),
            dot3(ray.direction, ray.direction) > 0,
            ri_in_range(self.ri as int),
            0 <= draw,
        ensures
            r == dielectric_scatter_spec(*self, *ray, *rec, draw as int),
            r.0 == (Vec3 { x: FS, y: FS, z: FS }),
            r.1.origin == rec.p,
            bounded_by(r.1.direction, 200_000_000),
    {
        let ratio: i64 = if rec.front_face {
            proof {
                lemma_ratio_range(self.ri as int);
            }
            fx_div(FS, self.ri)
        } else {
            self.ri
        };
        let unit_direction = ray.direction.unit_vector();
        let mcos = rec.normal.dot(unit_direction.neg());
        let cos_theta: i64 = if mcos > FS {
            FS
        } else if mcos < -FS {
            -FS
        } else {
            mcos
        };
        proof {
            crate::fx::lemma_prod_bound(cos_theta as int, cos_theta as int, FS as int, FS as int);
            assert((FS as int) * (FS as int) == 10_000_000_000) by (nonlinear_arith);
            crate::vec3::lemma_sq_nonneg(cos_theta as int);
        }
        let sin2: i128 = 10_000_000_000 - (cos_theta as i128) * (cos_theta as i128);
        let sin_theta: i64 = isqrt_i128(sin2);
        proof {
            lemma_sqrt_i(sin2 as int, sin_theta as int);
            assert(sin_theta as int <= 100_000) by (nonlinear_arith)
                requires
                    0 <= sin_theta as int,
                    (sin_theta as int) * (sin_theta as int) <= 10_000_000_000,
            ;
            crate::fx::lemma_prod_bound(ratio as int, sin_theta as int, 1_600_000, 100_000);
        }
        let tir = (ratio as i128) * (sin_theta as i128) > 10_000_000_000;
        let direction: Vec3 = if tir || Dielectric::reflectance(cos_theta, ratio) > draw {
            Vec3::reflect(unit_direction, rec.normal)
        } else {
            Vec3::refract(unit_direction, rec.normal, ratio)
        };
        (Vec3::ones(), Ray::new(rec.p, direction))
    }

    /// Scatter with a fresh random draw; glass always scatters, and the
    /// outcome is the deterministic step applied to some reflectance draw.
    pub fn scatter(
        &self,
        ray: &Ray,
        rec: &HitRecord,
        attenuation: &mut Color,
        scattered: &mut Ray,
    ) -> (b: bool)
        requires
            rec_in_range(*rec),
            bounded_by(ray.direction, crate::vec3::DOT_LIMIT as int),
            dot3(ray.direction, ray.direction) > 0,
            ri_in_range(self.ri as int),
        ensures
            b,
            *final(attenuation) == (Vec3 { x: FS, y: FS, z: FS }),
            final(scattered).origin == rec.p,
            bounded_by(final(scattered).direction, 200_000_000),
            exists|dr: int|
                0 <= dr < FS as int && #[trigger] dielectric_scatter_spec(*self, *ray, *rec, dr)
                    == (*final(attenuation), *final(scattered)),
    {
        let draw = crate::rng::random_unit_scalar();
        let (a, s) = self.scatter_with(ray, rec, draw);
        *attenuation = a;
        *scattered = s;
        proof {
            assert(0 <= draw && (draw as int) < FS as int && dielectric_scatter_spec(
                *self,
                *ray,
                *rec,
                draw as int,
            ) == (a, s));
        }
        true
    }
}

/// Scaling by one (or minus one) unit is exact for either sign.
proof fn lemma_fmul_one_signed(x: int)
    ensures
        fmul(x, FS as int) == x,
        fmul(FS as int, x) == x,
        fmul(x, -(FS as int)) == -x,
{
    assert(tdiv(x * (FS as int), FS as int) == x && tdiv((FS as int) * x, FS as int) == x && tdiv(
        x * (-(FS as int)),
        FS as int,
    ) == -x) by (nonlinear_arith)
        requires
            tdiv(x * (FS as int), FS as int) == if x * (FS as int) >= 0 {
                (x * (FS as int)) / (FS as int)
            } else {
                -((-(x * (FS as int))) / (FS as int))
            },
            tdiv((FS as int) * x, FS as int) == if (FS as int) * x >= 0 {
                ((FS as int) * x) / (FS as int)
            } else {
                -((-((FS as int) * x)) / (FS as int))
            },
            tdiv(x * (-(FS as int)), FS as int) == if x * (-(FS as int)) >= 0 {
                (x * (-(FS as int))) / (FS as int)
            } else {
                -((-(x * (-(FS as int)))) / (FS as int))
            },
    ;
}

/// At normal incidence with a matching refractive index the glass always
/// refracts (the Schlick reflectance vanishes and nothing is internally
/// reflected), and the ray passes through undeviated: the outgoing
/// direction is exactly the incoming unit direction.
pub proof fn lemma_dielectric_normal_incidence(
    m: Dielectric,
    ray: Ray,
    rec: HitRecord,
    draw: int,
    n: Vec3,
)
    requires
        m.ri == FS,
        rec.front_face,
        rec.normal == n,
        bounded_by(n, FS as int),
        dot3(n, n) == (FS as int) * (FS as int),
        ray.direction.unit_spec() == vneg(n),
        0 <= draw,
    ensures
        dielectric_scatter_spec(m, ray, rec, draw).1.direction == ray.direction.unit_spec(),
{
    let uv = vneg(n);
    assert(vneg(uv) == n);
    assert((FS as int) * (FS as int) == 10_000_000_000) by (nonlinear_arith);
    let ratio = fdiv(FS as int, m.ri as int);
    assert(ratio == tdiv(10_000_000_000, 100_000));
    assert(tdiv(10_000_000_000, 100_000) == 100_000) by (nonlinear_arith);
    let mcos = tdiv(dot3(rec.normal, vneg(uv)), FS as int);
    assert(mcos == tdiv(10_000_000_000, 100_000));
    let cos = FS as int;
    assert(100_000 * 100_000 <= 10_000_000_000 < 100_001 * 100_001) by (nonlinear_arith);
    lemma_sqrt_i(0, 0);
    assert(sqrt_i((FS as int) * (FS as int) - cos * cos) == 0);
    assert(ratio * 0 == 0) by (nonlinear_arith);
    // the Schlick reflectance vanishes
    assert(fdiv(FS as int - ratio, FS as int + ratio) == 0) by {
        assert(tdiv(0 * (FS as int), 200_000) == 0) by (nonlinear_arith);
    }
    assert(fmul(0, 0) == 0) by {
        assert(tdiv(0, FS as int) == 0) by (nonlinear_arith);
    }
    assert(reflectance_spec(cos, ratio) == 0 + fmul(FS as int - 0, 0)) by {
        assert(fmul(0, FS as int - cos) == 0) by {
            assert(tdiv(0 * (FS as int - cos), FS as int) == 0) by (nonlinear_arith);
        }
        lemma_fmul_one_signed(0);
        assert(FS as int - cos == 0);
        assert(fmul(0, 0) == 0);
    }
    assert(fmul(FS as int, 0) == 0) by {
        lemma_fmul_one_signed(0);
    }
    assert(reflectance_spec(cos, ratio) == 0);
    // the refraction leaves the unit direction unchanged
    let r = refract_spec(uv, n, ratio);
    assert(tdiv(dot3(n, vneg(uv)), FS as int) == 100_000);
    lemma_fmul_one_signed(n.x as int);
    lemma_fmul_one_signed(n.y as int);
    lemma_fmul_one_signed(n.z as int);
    assert(fmul(n.x as int, cos) + uv.x == 0);
    assert(fmul(n.y as int, cos) + uv.y == 0);
    assert(fmul(n.z as int, cos) + uv.z == 0);
    lemma_fmul_one_signed(0);
    lemma_sqrt_i(10_000_000_000, 100_000);
    assert(r.x == 0 + fmul(n.x as int, -100_000));
    assert(r == uv);
}

/// The inverted index of a valid dielectric stays within the same range.
proof fn lemma_ratio_range(ri: int)
    requires
        ri_in_range(ri),
    ensures
        FS as int / 16 <= fdiv(FS as int, ri) <= 16 * (FS as int),
        -(i64::MAX as int) <= fdiv(FS as int, ri) <= i64::MAX as int,
{
    assert(6250 <= tdiv((FS as int) * (FS as int), ri) <= 1_600_000) by (nonlinear_arith)
        requires
            6250 <= ri <= 1_600_000,
            tdiv((FS as int) * (FS as int), ri) == if (FS as int) * (FS as int) >= 0 {
                ((FS as int) * (FS as int)) / ri
            } else {
                -((-((FS as int) * (FS as int))) / ri)
            },
            (FS as int) * (FS as int) == 10_000_000_000,
    ;
}

} // verus!
