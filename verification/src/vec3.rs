use vstd::prelude::*;

use crate::fx::{fdiv, fmul, fx_div, fx_mul, isqrt_i128, tdiv, FS};
use crate::rng::{random_in_range_scalar, random_unit_scalar};

verus! {

/// A three-component vector of fixed-point scalars (see `fx::FS`), used for
/// points, directions and colors alike.
#[derive(Clone, Copy, PartialEq, Eq, Structural, Debug)]
pub struct Vec3 {
    pub x: i64,
    pub y: i64,
    pub z: i64,
}

pub type Point = Vec3;

pub type Color = Vec3;

/// Raw byte scale for tone mapping: 255.999 at the fixed-point scale.
pub const COLOR_MAX: i64 = 25_599_900;

/// Component magnitude below which the products of `dot` and `cross` fit
/// in the scalar range.
pub const DOT_LIMIT: i64 = 500_000_000_000;

/// The mathematical (unscaled) dot product of the raw components.
pub open spec fn dot3(a: Vec3, b: Vec3) -> int {
    (a.x as int) * (b.x as int) + (a.y as int) * (b.y as int) + (a.z as int) * (b.z as int)
}

/// Every component lies inside the unit color cube `[0, 1]`.
pub open spec fn color_in_unit(c: Vec3) -> bool {
    &&& 0 <= c.x <= FS
    &&& 0 <= c.y <= FS
    &&& 0 <= c.z <= FS
}

/// The component-wise fixed-point product, as a spec-level value.
pub open spec fn cmul_spec(a: Vec3, b: Vec3) -> Vec3 {
    Vec3 {
        x: fmul(a.x as int, b.x as int) as i64,
        y: fmul(a.y as int, b.y as int) as i64,
        z: fmul(a.z as int, b.z as int) as i64,
    }
}

/// Every component lies within `m` in magnitude.
pub open spec fn bounded_by(v: Vec3, m: int) -> bool {
    &&& -m <= v.x <= m
    &&& -m <= v.y <= m
    &&& -m <= v.z <= m
}

/// The square root of `x`, rounded down.
pub open spec fn sqrt_i(x: int) -> int {
    choose|r: int| 0 <= r && #[trigger] (r * r) <= x && x < (r + 1) * (r + 1)
}

/// The floor square root exists and is unique, so `sqrt_i` picks exactly it.
pub proof fn lemma_sqrt_i(x: int, r: int)
    requires
        0 <= r,
        r * r <= x,
        x < (r + 1) * (r + 1),
    ensures
        sqrt_i(x) == r,
{
    assert(exists|q: int| 0 <= q && #[trigger] (q * q) <= x && x < (q + 1) * (q + 1)) by {
        assert(0 <= r && r * r <= x && x < (r + 1) * (r + 1));
    }
    let q = sqrt_i(x);
    assert(0 <= q && q * q <= x && x < (q + 1) * (q + 1));
    if q < r {
        assert((q + 1) * (q + 1) <= r * r) by (nonlinear_arith)
            requires
                0 <= q < r,
        ;
    }
    if r < q {
        assert((r + 1) * (r + 1) <= q * q) by (nonlinear_arith)
            requires
                0 <= r < q,
        ;
    }
}

impl Vec3 {
    pub fn new(e1: i64, e2: i64, e3: i64) -> (r: Self)
        ensures
            r.x == e1 && r.y == e2 && r.z == e3,
    {
        Self { x: e1, y: e2, z: e3 }
    }

    /// The vector of ones (at the fixed-point scale).
    pub fn ones() -> (r: Self)
        ensures
            r.x == FS && r.y == FS && r.z == FS,
    {
        Self { x: FS, y: FS, z: FS }
    }

    /// The zero vector.
    pub fn ceros() -> (r: Self)
        ensures
            r.x == 0 && r.y == 0 && r.z == 0,
    {
        Self { x: 0, y: 0, z: 0 }
    }

    pub fn x(&self) -> (r: i64)
        ensures
            r == self.x,
    {
        self.x
    }

    pub fn y(&self) -> (r: i64)
        ensures
            r == self.y,
    {
        self.y
    }

    pub fn z(&self) -> (r: i64)
        ensures
            r == self.z,
    {
        self.z
    }

    pub fn neg(&self) -> (r: Self)
        requires
            bounded_by(*self, i64::MAX as int),
        ensures
            r.x == -self.x && r.y == -self.y && r.z == -self.z,
    {
        Self { x: -self.x, y: -self.y, z: -self.z }
    }

    pub fn add(&self, rhs: Self) -> (r: Self)
        requires
            i64::MIN <= self.x + rhs.x <= i64::MAX,
            i64::MIN <= self.y + rhs.y <= i64::MAX,
            i64::MIN <= self.z + rhs.z <= i64::MAX,
        ensures
            r.x == self.x + rhs.x && r.y == self.y + rhs.y && r.z == self.z + rhs.z,
    {
        Self { x: self.x + rhs.x, y: self.y + rhs.y, z: self.z + rhs.z }
    }

    pub fn sub(&self, rhs: Self) -> (r: Self)
        requires
            i64::MIN <= self.x - rhs.x <= i64::MAX,
            i64::MIN <= self.y - rhs.y <= i64::MAX,
            i64::MIN <= self.z - rhs.z <= i64::MAX,
        ensures
            r.x == self.x - rhs.x && r.y == self.y - rhs.y && r.z == self.z - rhs.z,
    {
        Self { x: self.x - rhs.x, y: self.y - rhs.y, z: self.z - rhs.z }
    }

    /// Component-wise fixed-point product.
    pub fn mul(&self, rhs: Self) -> (r: Self)
        requires
            i64::MIN <= fmul(self.x as int, rhs.x as int) <= i64::MAX,
            i64::MIN <= fmul(self.y as int, rhs.y as int) <= i64::MAX,
            i64::MIN <= fmul(self.z as int, rhs.z as int) <= i64::MAX,
        ensures
            r.x as int == fmul(self.x as int, rhs.x as int),
            r.y as int == fmul(self.y as int, rhs.y as int),
            r.z as int == fmul(self.z as int, rhs.z as int),
    {
        Self { x: fx_mul(self.x, rhs.x), y: fx_mul(self.y, rhs.y), z: fx_mul(self.z, rhs.z) }
    }

    /// Component-wise fixed-point quotient.
    pub fn div(&self, rhs: Self) -> (r: Self)
        requires
            rhs.x != 0 && rhs.y != 0 && rhs.z != 0,
            i64::MIN <= fdiv(self.x as int, rhs.x as int) <= i64::MAX,
            i64::MIN <= fdiv(self.y as int, rhs.y as int) <= i64::MAX,
            i64::MIN <= fdiv(self.z as int, rhs.z as int) <= i64::MAX,
        ensures
            r.x as int == fdiv(self.x as int, rhs.x as int),
            r.y as int == fdiv(self.y as int, rhs.y as int),
            r.z as int == fdiv(self.z as int, rhs.z as int),
    {
        Self { x: fx_div(self.x, rhs.x), y: fx_div(self.y, rhs.y), z: fx_div(self.z, rhs.z) }
    }

    /// Product with a fixed-point scalar.
    pub fn scale(&self, t: i64) -> (r: Self)
        requires
            i64::MIN <= fmul(self.x as int, t as int) <= i64::MAX,
            i64::MIN <= fmul(self.y as int, t as int) <= i64::MAX,
            i64::MIN <= fmul(self.z as int, t as int) <= i64::MAX,
        ensures
            r.x as int == fmul(self.x as int, t as int),
            r.y as int == fmul(self.y as int, t as int),
            r.z as int == fmul(self.z as int, t as int),
    {
        Self { x: fx_mul(self.x, t), y: fx_mul(self.y, t), z: fx_mul(self.z, t) }
    }

    /// Quotient by a fixed-point scalar.
    pub fn div_scale(&self, t: i64) -> (r: Self)
        requires
            t != 0,
            i64::MIN <= fdiv(self.x as int, t as int) <= i64::MAX,
            i64::MIN <= fdiv(self.y as int, t as int) <= i64::MAX,
            i64::MIN <= fdiv(self.z as int, t as int) <= i64::MAX,
        ensures
            r.x as int == fdiv(self.x as int, t as int),
            r.y as int == fdiv(self.y as int, t as int),
            r.z as int == fdiv(self.z as int, t as int),
    {
        Self { x: fx_div(self.x, t), y: fx_div(self.y, t), z: fx_div(self.z, t) }
    }

    /// Squared length, exact, at the squared fixed-point scale.
    pub fn len2(&self) -> (r: i128)
        requires
            bounded_by(*self, 0x1000_0000_0000_0000),
        ensures
            r as int == dot3(*self, *self),
    {
        proof {
            crate::fx::lemma_prod_bound(
                self.x as int,
                self.x as int,
                0x1000_0000_0000_0000,
                0x1000_0000_0000_0000,
            );
            crate::fx::lemma_prod_bound(
                self.y as int,
                self.y as int,
                0x1000_0000_0000_0000,
                0x1000_0000_0000_0000,
            );
            crate::fx::lemma_prod_bound(
                self.z as int,
                self.z as int,
                0x1000_0000_0000_0000,
                0x1000_0000_0000_0000,
            );
        }
        let x = self.x as i128;
        let y = self.y as i128;
        let z = self.z as i128;
        x * x + y * y + z * z
    }

    /// Length: the floor square root of the squared length.
    pub fn len(&self) -> (r: i64)
        requires
            bounded_by(*self, 0x1000_0000_0000_0000),
        ensures
            r as int == sqrt_i(dot3(*self, *self)),
            0 <= r,
            (r as int) * (r as int) <= dot3(*self, *self) < (r as int + 1) * (r as int + 1),
    {
        let l2 = self.len2();
        proof {
            assert(dot3(*self, *self) <= (i64::MAX as int) * (i64::MAX as int)) by (nonlinear_arith)
                requires
                    bounded_by(*self, 0x1000_0000_0000_0000),
                    dot3(*self, *self) == (self.x as int) * (self.x as int) + (self.y as int)
                        * (self.y as int) + (self.z as int) * (self.z as int),
            ;
            assert(dot3(*self, *self) >= 0) by (nonlinear_arith);
        }
        let r = isqrt_i128(l2);
        proof {
            lemma_sqrt_i(dot3(*self, *self), r as int);
        }
        r
    }

    /// The unit vector in the direction of `self`: each component divided by
    /// the (floor) length.
    pub fn unit_vector(&self) -> (r: Self)
        requires
            bounded_by(*self, DOT_LIMIT as int),
            dot3(*self, *self) > 0,
        ensures
            ({
                let l = sqrt_i(dot3(*self, *self));
                r.x as int == tdiv(self.x as int * FS, l) && r.y as int == tdiv(
                    self.y as int * FS,
                    l,
                ) && r.z as int == tdiv(self.z as int * FS, l)
            }),
            bounded_by(r, FS as int),
    {
        let l = self.len();
        proof {
            lemma_components_le_len(*self, l as int);
            lemma_unit_fits(self.x as int, l as int);
            lemma_unit_fits(self.y as int, l as int);
            lemma_unit_fits(self.z as int, l as int);
        }
        let r = Self { x: fx_div(self.x, l), y: fx_div(self.y, l), z: fx_div(self.z, l) };
        r
    }

    /// Normalize in place.
    pub fn make_unit_vector(&mut self)
        requires
            bounded_by(*old(self), DOT_LIMIT as int),
            dot3(*old(self), *old(self)) > 0,
        ensures
            *final(self) == old(self).unit_spec(),
    {
        *self = self.unit_vector();
        proof {
            assert(*self == old(self).unit_spec());
        }
    }

    /// What `unit_vector` returns, as a spec-level value.
    pub open spec fn unit_spec(self) -> Vec3 {
        let l = sqrt_i(dot3(self, self));
        Vec3 {
            x: tdiv(self.x as int * FS, l) as i64,
            y: tdiv(self.y as int * FS, l) as i64,
            z: tdiv(self.z as int * FS, l) as i64,
        }
    }

    /// Fixed-point dot product, rounded once.
    pub fn dot(&self, rhs: Self) -> (r: i64)
        requires
            bounded_by(*self, DOT_LIMIT as int),
            bounded_by(rhs, DOT_LIMIT as int),
        ensures
            r as int == tdiv(dot3(*self, rhs), FS as int),
    {
        proof {
            lemma_dot_fits(*self, rhs);
        }
        let x = (self.x as i128) * (rhs.x as i128);
        let y = (self.y as i128) * (rhs.y as i128);
        let z = (self.z as i128) * (rhs.z as i128);
        ((x + y + z) / (FS as i128)) as i64
    }

    /// Fixed-point cross product.
    pub fn cross(&self, rhs: Self) -> (r: Self)
        requires
            bounded_by(*self, DOT_LIMIT as int),
            bounded_by(rhs, DOT_LIMIT as int),
        ensures
            r.x as int == tdiv(
                self.y as int * (rhs.z as int) - self.z as int * (rhs.y as int),
                FS as int,
            ),
            r.y as int == -tdiv(
                self.x as int * (rhs.z as int) - self.z as int * (rhs.x as int),
                FS as int,
            ),
            r.z as int == tdiv(
                self.x as int * (rhs.y as int) - self.y as int * (rhs.x as int),
                FS as int,
            ),
    {
        proof {
            lemma_cross_fits(*self, rhs);
        }
        let cx = ((self.y as i128) * (rhs.z as i128) - (self.z as i128) * (rhs.y as i128)) / (
        FS as i128);
        let cy = ((self.x as i128) * (rhs.z as i128) - (self.z as i128) * (rhs.x as i128)) / (
        FS as i128);
        let cz = ((self.x as i128) * (rhs.y as i128) - (self.y as i128) * (rhs.x as i128)) / (
        FS as i128);
        Self { x: cx as i64, y: -(cy as i64), z: cz as i64 }
    }

    /// Exact equality of all components (the fixed-point analogue of
    /// agreement within one floating-point epsilon).
    pub fn approx_eq(&self, rhs: Self) -> (r: bool)
        ensures
            r == (*self == rhs),
    {
        self.x == rhs.x && self.y == rhs.y && self.z == rhs.z
    }

    /// All components agree within `epsilon` (raw units).
    pub fn approx_eq_epsilon(&self, rhs: Self, epsilon: i64) -> (r: bool)
        requires
            bounded_by(*self, DOT_LIMIT as int),
            bounded_by(rhs, DOT_LIMIT as int),
            0 <= epsilon,
        ensures
            r == (-epsilon < self.x - rhs.x < epsilon && -epsilon < self.y - rhs.y < epsilon
                && -epsilon < self.z - rhs.z < epsilon),
    {
        let dx = self.x - rhs.x;
        let dy = self.y - rhs.y;
        let dz = self.z - rhs.z;
        -epsilon < dx && dx < epsilon && -epsilon < dy && dy < epsilon && -epsilon < dz && dz
            < epsilon
    }

    /// The vector is exactly zero.
    pub fn approx_cero(&self) -> (r: bool)
        ensures
            r == (self.x == 0 && self.y == 0 && self.z == 0),
    {
        self.x == 0 && self.y == 0 && self.z == 0
    }

    /// Mirror `v` about the plane with normal `n`: `v - 2*dot(v,n)*n`.
    pub fn reflect(v: Vec3, n: Vec3) -> (r: Vec3)
        requires
            bounded_by(v, FS as int * 4),
            bounded_by(n, FS as int * 4),
        ensures
            r == reflect_spec(v, n),
            bounded_by(r, 400 * (FS as int)),
    {
        let d = v.dot(n);
        proof {
            lemma_reflect_fits(v, n);
        }
        let twice: i64 = 2 * d;
        v.sub(n.scale(twice))
    }

    /// Refract `uv` about the normal `n` by Snell's law, with `ei_over_et`
    /// the ratio of refractive indices; the caller rules out total internal
    /// reflection.
    pub fn refract(uv: Vec3, n: Vec3, ei_over_et: i64) -> (r: Vec3)
        requires
            bounded_by(uv, FS as int * 2),
            bounded_by(n, FS as int * 2),
            0 < ei_over_et <= FS as int * 16,
        ensures
            r == refract_spec(uv, n, ei_over_et as int),
            bounded_by(r, 186_000_000),
    {
        let nuv = uv.neg();
        proof {
            assert(nuv == vneg(uv));
            assert(-120_000_000_000 <= dot3(n, nuv) <= 120_000_000_000) by (nonlinear_arith)
                requires
                    bounded_by(n, 200_000),
                    bounded_by(nuv, 200_000),
                    dot3(n, nuv) == (n.x as int) * (nuv.x as int) + (n.y as int) * (nuv.y as int)
                        + (n.z as int) * (nuv.z as int),
            ;
            lemma_tdiv_bound(dot3(n, nuv), 120_000_000_000, FS as int);
        }
        let mcos = n.dot(nuv);
        let cos_theta: i64 = if mcos < FS {
            mcos
        } else {
            FS
        };
        proof {
            lemma_fmul_fits(n.x as int, cos_theta as int, 200_000, 1_200_000);
            lemma_fmul_fits(n.y as int, cos_theta as int, 200_000, 1_200_000);
            lemma_fmul_fits(n.z as int, cos_theta as int, 200_000, 1_200_000);
        }
        let base = uv.add(n.scale(cos_theta));
        proof {
            lemma_fmul_fits(base.x as int, ei_over_et as int, 2_600_000, 1_600_000);
            lemma_fmul_fits(base.y as int, ei_over_et as int, 2_600_000, 1_600_000);
            lemma_fmul_fits(base.z as int, ei_over_et as int, 2_600_000, 1_600_000);
        }
        let perpendicular_ray = base.scale(ei_over_et);
        proof {
            crate::fx::lemma_prod_bound(
                perpendicular_ray.x as int,
                perpendicular_ray.x as int,
                41_600_000,
                41_600_000,
            );
            crate::fx::lemma_prod_bound(
                perpendicular_ray.y as int,
                perpendicular_ray.y as int,
                41_600_000,
                41_600_000,
            );
            crate::fx::lemma_prod_bound(
                perpendicular_ray.z as int,
                perpendicular_ray.z as int,
                41_600_000,
                41_600_000,
            );
            lemma_sq_nonneg(perpendicular_ray.x as int);
            lemma_sq_nonneg(perpendicular_ray.y as int);
            lemma_sq_nonneg(perpendicular_ray.z as int);
        }
        let pl2 = perpendicular_ray.len2();
        let fs2: i128 = 10_000_000_000;
        proof {
            assert(fs2 as int == (FS as int) * (FS as int)) by (nonlinear_arith)
                requires
                    fs2 == 10_000_000_000int,
            ;
        }
        let diff: i128 = if fs2 >= pl2 {
            fs2 - pl2
        } else {
            pl2 - fs2
        };
        let par_scale: i64 = isqrt_i128(diff);
        proof {
            lemma_sqrt_i(diff as int, par_scale as int);
            assert(par_scale as int <= 72_200_000) by (nonlinear_arith)
                requires
                    0 <= par_scale as int,
                    (par_scale as int) * (par_scale as int) <= 5_191_690_000_000_000,
            ;
            lemma_fmul_fits(n.x as int, -(par_scale as int), 200_000, 72_200_000);
            lemma_fmul_fits(n.y as int, -(par_scale as int), 200_000, 72_200_000);
            lemma_fmul_fits(n.z as int, -(par_scale as int), 200_000, 72_200_000);
        }
        let parallel_ray = n.scale(-par_scale);
        perpendicular_ray.add(parallel_ray)
    }
}

/// The tone-mapped byte for one channel: gamma-2 via the square root of
/// the averaged radiance, clamped to one, scaled to 255.999 and truncated.
pub open spec fn tone_map(v: int, samples: int) -> int {
    let avg = tdiv(v, samples);
    if avg <= 0 {
        0
    } else {
        let s = sqrt_i(avg * (FS as int));
        let c = if s > FS as int {
            FS as int
        } else {
            s
        };
        tdiv(c * (COLOR_MAX as int), (FS as int) * (FS as int))
    }
}

/// One channel of the pixel byte: average over the samples, gamma-correct
/// by square root, clamp to one, and scale to a byte.
pub fn get_color_value(v: i64, samples: u32) -> (r: u8)
    requires
        1 <= samples,
    ensures
        r as int == tone_map(v as int, samples as int),
{
    let avg: i64 = v / (samples as i64);
    if avg <= 0 {
        return 0;
    }
    proof {
        crate::fx::lemma_prod_bound(avg as int, FS as int, i64::MAX as int, FS as int);
    }
    let arg: i128 = (avg as i128) * (FS as i128);
    let s: i64 = isqrt_i128(arg);
    proof {
        lemma_sqrt_i(arg as int, s as int);
    }
    let c: i64 = if s > FS {
        FS
    } else {
        s
    };
    proof {
        crate::fx::lemma_prod_bound(c as int, COLOR_MAX as int, FS as int, COLOR_MAX as int);
        lemma_tdiv_bound(c as int * (COLOR_MAX as int), 2_559_990_000_000, 10_000_000_000);
        assert(0 <= c as int * (COLOR_MAX as int)) by (nonlinear_arith)
            requires
                0 <= c as int,
        ;
        assert((FS as int) * (FS as int) == 10_000_000_000) by (nonlinear_arith);
    }
    (((c as i128) * (COLOR_MAX as i128)) / 10_000_000_000) as u8
}

impl Vec3 {
    /// The red channel's pixel byte after `samples` samples.
    pub fn r(&self, samples: u32) -> (r: u8)
        requires
            1 <= samples,
        ensures
            r as int == tone_map(self.x as int, samples as int),
    {
        get_color_value(self.x, samples)
    }

    /// The green channel's pixel byte after `samples` samples.
    pub fn g(&self, samples: u32) -> (r: u8)
        requires
            1 <= samples,
        ensures
            r as int == tone_map(self.y as int, samples as int),
    {
        get_color_value(self.y, samples)
    }

    /// The blue channel's pixel byte after `samples` samples.
    pub fn b(&self, samples: u32) -> (r: u8)
        requires
            1 <= samples,
        ensures
            r as int == tone_map(self.z as int, samples as int),
    {
        get_color_value(self.z, samples)
    }

    /// A point drawn from the unit cube: each component in `[0, 1)`.
    pub fn random_in_unit_cube() -> (r: Self)
        ensures
            0 <= r.x < FS && 0 <= r.y < FS && 0 <= r.z < FS,
            bounded_by(r, FS as int),
    {
        Self { x: random_unit_scalar(), y: random_unit_scalar(), z: random_unit_scalar() }
    }

    /// A point with each component drawn from `[min, max)`.
    pub fn random_in_range(min: i64, max: i64) -> (r: Self)
        requires
            min < max,
            -(DOT_LIMIT as int) <= min,
            max <= DOT_LIMIT as int,
        ensures
            min <= r.x < max && min <= r.y < max && min <= r.z < max,
    {
        Self {
            x: random_in_range_scalar(min, max),
            y: random_in_range_scalar(min, max),
            z: random_in_range_scalar(min, max),
        }
    }

    /// A point drawn from the interior of the unit ball, never the origin,
    /// by bounded rejection with a fixed fallback.
    pub fn random_in_unit_sphere() -> (r: Self)
        ensures
            bounded_by(r, FS as int),
            0 < dot3(r, r) < (FS as int) * (FS as int),
    {
        let mut tries: u8 = 0;
        while tries < 64
            invariant
                tries <= 64,
            decreases 64 - tries,
        {
            let v = Vec3::random_in_range(-FS, FS);
            let l2 = v.len2();
            if 0 < l2 && l2 < 10_000_000_000 {
                proof {
                    assert((FS as int) * (FS as int) == 10_000_000_000) by (nonlinear_arith);
                }
                return v;
            }
            tries = tries + 1;
        }
        let f = Self { x: 50_000, y: 0, z: 0 };
        proof {
            assert(dot3(f, f) == 2_500_000_000);
            assert((FS as int) * (FS as int) == 10_000_000_000) by (nonlinear_arith);
        }
        f
    }

    /// A direction drawn from the unit sphere: a ball draw of at least a
    /// tenth of a unit (shorter draws are rejected, as normalizing them
    /// would amplify truncation), normalized; the result's squared length
    /// is within a fraction of a percent of one.
    pub fn random_unit_vector() -> (r: Self)
        ensures
            bounded_by(r, FS as int),
            9_999_400_000 <= dot3(r, r) <= 10_002_600_003,
    {
        let mut tries: u8 = 0;
        while tries < 64
            invariant
                tries <= 64,
            decreases 64 - tries,
        {
            let v = Vec3::random_in_range(-FS, FS);
            let l2 = v.len2();
            if 100_000_000 <= l2 && l2 < 10_000_000_000 {
                return Vec3::unit_of_draw(v);
            }
            tries = tries + 1;
        }
        let f = Self { x: 50_000, y: 0, z: 0 };
        proof {
            assert(dot3(f, f) == 2_500_000_000);
        }
        Vec3::unit_of_draw(f)
    }

    /// Normalize one accepted draw, carrying the length band.
    fn unit_of_draw(v: Vec3) -> (r: Self)
        requires
            bounded_by(v, FS as int),
            100_000_000 <= dot3(v, v) <= 10_000_000_000,
        ensures
            bounded_by(r, FS as int),
            9_999_400_000 <= dot3(r, r) <= 10_002_600_003,
    {
        let r = v.unit_vector();
        proof {
            let l = sqrt_i(dot3(v, v));
            crate::hittables::equivalence::lemma_sqrt_exists(dot3(v, v));
            lemma_unit_band(v, l);
            assert(r == v.unit_spec());
        }
        r
    }

    /// A point drawn from the interior of the unit disk in the xy-plane,
    /// never the origin, by bounded rejection with a fixed fallback.
    pub fn random_in_unit_disk() -> (r: Self)
        ensures
            bounded_by(r, FS as int),
            r.z == 0,
            0 < dot3(r, r) < (FS as int) * (FS as int),
    {
        let mut tries: u8 = 0;
        while tries < 64
            invariant
                tries <= 64,
            decreases 64 - tries,
        {
            let mut v = Vec3::random_in_range(-FS, FS);
            v = Self { x: v.x, y: v.y, z: 0 };
            let l2 = v.len2();
            if 0 < l2 && l2 < 10_000_000_000 {
                proof {
                    assert((FS as int) * (FS as int) == 10_000_000_000) by (nonlinear_arith);
                }
                return v;
            }
            tries = tries + 1;
        }
        let f = Self { x: 50_000, y: 0, z: 0 };
        proof {
            assert(dot3(f, f) == 2_500_000_000);
            assert((FS as int) * (FS as int) == 10_000_000_000) by (nonlinear_arith);
        }
        f
    }
}

/// What `reflect` returns, as a spec-level value.
pub open spec fn reflect_spec(v: Vec3, n: Vec3) -> Vec3 {
    let d = tdiv(dot3(v, n), FS as int);
    Vec3 {
        x: (v.x - fmul(n.x as int, 2 * d)) as i64,
        y: (v.y - fmul(n.y as int, 2 * d)) as i64,
        z: (v.z - fmul(n.z as int, 2 * d)) as i64,
    }
}

/// Component-wise negation, as a spec-level value.
pub open spec fn vneg(v: Vec3) -> Vec3 {
    Vec3 { x: (-(v.x as int)) as i64, y: (-(v.y as int)) as i64, z: (-(v.z as int)) as i64 }
}

/// What `refract` returns, as a spec-level value.
pub open spec fn refract_spec(uv: Vec3, n: Vec3, ei_over_et: int) -> Vec3 {
    let cos_theta = if tdiv(dot3(n, vneg(uv)), FS as int) < FS as int {
        tdiv(dot3(n, vneg(uv)), FS as int)
    } else {
        FS as int
    };
    let perp = Vec3 {
        x: fmul(fmul(n.x as int, cos_theta) + uv.x, ei_over_et) as i64,
        y: fmul(fmul(n.y as int, cos_theta) + uv.y, ei_over_et) as i64,
        z: fmul(fmul(n.z as int, cos_theta) + uv.z, ei_over_et) as i64,
    };
    let diff = if (FS as int) * (FS as int) >= dot3(perp, perp) {
        (FS as int) * (FS as int) - dot3(perp, perp)
    } else {
        dot3(perp, perp) - (FS as int) * (FS as int)
    };
    let par = -sqrt_i(diff);
    Vec3 {
        x: (perp.x + fmul(n.x as int, par)) as i64,
        y: (perp.y + fmul(n.y as int, par)) as i64,
        z: (perp.z + fmul(n.z as int, par)) as i64,
    }
}

/// Each component of a vector is bounded in magnitude by the floor length
/// (since its square is at most the squared length).
proof fn lemma_components_le_len(v: Vec3, l: int)
    requires
        0 <= l,
        l * l <= dot3(v, v) < (l + 1) * (l + 1),
    ensures
        -(l + 1) < v.x < l + 1,
        -(l + 1) < v.y < l + 1,
        -(l + 1) < v.z < l + 1,
{
    assert(-(l + 1) < v.x < l + 1 && -(l + 1) < v.y < l + 1 && -(l + 1) < v.z < l + 1)
        by (nonlinear_arith)
        requires
            0 <= l,
            dot3(v, v) < (l + 1) * (l + 1),
            dot3(v, v) == (v.x as int) * (v.x as int) + (v.y as int) * (v.y as int) + (v.z as int)
                * (v.z as int),
    ;
}

/// The dot product of two `DOT_LIMIT`-bounded vectors fits in the scalar
/// range after scaling down.
proof fn lemma_dot_fits(a: Vec3, b: Vec3)
    requires
        bounded_by(a, DOT_LIMIT as int),
        bounded_by(b, DOT_LIMIT as int),
    ensures
        -(i64::MAX as int) <= tdiv(dot3(a, b), FS as int) <= i64::MAX as int,
        -250_000_000_000_000_000_000_000 <= (a.x as int) * (b.x as int)
            <= 250_000_000_000_000_000_000_000,
        -250_000_000_000_000_000_000_000 <= (a.y as int) * (b.y as int)
            <= 250_000_000_000_000_000_000_000,
        -250_000_000_000_000_000_000_000 <= (a.z as int) * (b.z as int)
            <= 250_000_000_000_000_000_000_000,
        -750_000_000_000_000_000_000_000 <= dot3(a, b) <= 750_000_000_000_000_000_000_000,
{
    crate::fx::lemma_prod_bound(a.x as int, b.x as int, DOT_LIMIT as int, DOT_LIMIT as int);
    crate::fx::lemma_prod_bound(a.y as int, b.y as int, DOT_LIMIT as int, DOT_LIMIT as int);
    crate::fx::lemma_prod_bound(a.z as int, b.z as int, DOT_LIMIT as int, DOT_LIMIT as int);
    assert((DOT_LIMIT as int) * (DOT_LIMIT as int) == 250_000_000_000_000_000_000_000)
        by (nonlinear_arith);
    lemma_tdiv_bound(dot3(a, b), 750_000_000_000_000_000_000_000, FS as int);
}

/// Every product and scaled numerator of `cross` on `DOT_LIMIT`-bounded
/// vectors fits in the widened and scalar ranges.
proof fn lemma_cross_fits(a: Vec3, b: Vec3)
    requires
        bounded_by(a, DOT_LIMIT as int),
        bounded_by(b, DOT_LIMIT as int),
    ensures
        forall|p: int, q: int|
            (-(DOT_LIMIT as int) <= p <= DOT_LIMIT as int && -(DOT_LIMIT as int) <= q
                <= DOT_LIMIT as int) ==> -250_000_000_000_000_000_000_000 <= #[trigger] (p * q)
                <= 250_000_000_000_000_000_000_000,
        cross_fits(a, b),
{
    assert forall|p: int, q: int|
        (-(DOT_LIMIT as int) <= p <= DOT_LIMIT as int && -(DOT_LIMIT as int) <= q <= DOT_LIMIT
            as int) implies -250_000_000_000_000_000_000_000 <= #[trigger] (p * q)
        <= 250_000_000_000_000_000_000_000 by {
        crate::fx::lemma_prod_bound(p, q, DOT_LIMIT as int, DOT_LIMIT as int);
        assert((DOT_LIMIT as int) * (DOT_LIMIT as int) == 250_000_000_000_000_000_000_000)
            by (nonlinear_arith);
    }
    lemma_tdiv_bound(
        a.y as int * (b.z as int) - a.z as int * (b.y as int),
        500_000_000_000_000_000_000_000,
        FS as int,
    );
    lemma_tdiv_bound(
        a.x as int * (b.z as int) - a.z as int * (b.x as int),
        500_000_000_000_000_000_000_000,
        FS as int,
    );
    lemma_tdiv_bound(
        a.x as int * (b.y as int) - a.y as int * (b.x as int),
        500_000_000_000_000_000_000_000,
        FS as int,
    );
}

/// `cross`'s three scaled numerators fit in the scalar range.
pub open spec fn cross_fits(a: Vec3, b: Vec3) -> bool {
    &&& -(i64::MAX as int) <= tdiv(a.y as int * (b.z as int) - a.z as int * (b.y as int), FS as int)
        <= i64::MAX as int
    &&& -(i64::MAX as int) <= tdiv(a.x as int * (b.z as int) - a.z as int * (b.x as int), FS as int)
        <= i64::MAX as int
    &&& -(i64::MAX as int) <= tdiv(a.x as int * (b.y as int) - a.y as int * (b.x as int), FS as int)
        <= i64::MAX as int
}

/// Magnitude bounds survive truncated division by a positive divisor.
pub proof fn lemma_tdiv_bound(a: int, m: int, d: int)
    requires
        0 <= m,
        0 < d,
        -m <= a <= m,
    ensures
        -m <= tdiv(a, d) * d <= m,
        -m <= tdiv(a, d) <= m,
        -(m / d) <= tdiv(a, d) <= m / d,
        tdiv(a, d) * d <= a < tdiv(a, d) * d + d || tdiv(a, d) * d - d < a <= tdiv(a, d) * d,
{
    assert(-m <= tdiv(a, d) * d <= m && -m <= tdiv(a, d) <= m && -(m / d) <= tdiv(a, d) <= m / d
        && (tdiv(a, d) * d <= a < tdiv(a, d) * d + d || tdiv(a, d) * d - d < a <= tdiv(a, d) * d))
        by (nonlinear_arith)
        requires
            0 <= m,
            0 < d,
            -m <= a <= m,
            tdiv(a, d) == if a >= 0 {
                a / d
            } else {
                -((-a) / d)
            },
    ;
}

/// The intermediates of `reflect` stay inside the scalar range, and the
/// result within four hundred units.
proof fn lemma_reflect_fits(v: Vec3, n: Vec3)
    requires
        bounded_by(v, FS as int * 4),
        bounded_by(n, FS as int * 4),
    ensures
        ({
            let d = tdiv(dot3(v, n), FS as int);
            &&& -48 * (FS as int) <= d <= 48 * (FS as int)
            &&& -400 * (FS as int) <= fmul(n.x as int, 2 * d) <= 400 * (FS as int)
            &&& -400 * (FS as int) <= fmul(n.y as int, 2 * d) <= 400 * (FS as int)
            &&& -400 * (FS as int) <= fmul(n.z as int, 2 * d) <= 400 * (FS as int)
            &&& -400 * (FS as int) <= v.x - fmul(n.x as int, 2 * d) <= 400 * (FS as int)
            &&& -400 * (FS as int) <= v.y - fmul(n.y as int, 2 * d) <= 400 * (FS as int)
            &&& -400 * (FS as int) <= v.z - fmul(n.z as int, 2 * d) <= 400 * (FS as int)
        }),
{
    let s = FS as int;
    assert(-48 * s * s <= dot3(v, n) <= 48 * s * s) by (nonlinear_arith)
        requires
            bounded_by(v, s * 4),
            bounded_by(n, s * 4),
            s == FS as int,
            dot3(v, n) == (v.x as int) * (n.x as int) + (v.y as int) * (n.y as int) + (v.z as int)
                * (n.z as int),
    ;
    lemma_tdiv_bound(dot3(v, n), 48 * s * s, s);
    assert(48 * s * s / s == 48 * s) by (nonlinear_arith)
        requires
            s == 100_000,
    ;
    let d = tdiv(dot3(v, n), s);
    lemma_fmul_fits(n.x as int, 2 * d, 4 * s, 96 * s);
    lemma_fmul_fits(n.y as int, 2 * d, 4 * s, 96 * s);
    lemma_fmul_fits(n.z as int, 2 * d, 4 * s, 96 * s);
    assert(4 * s * (96 * s) / s == 384 * s) by (nonlinear_arith)
        requires
            s == 100_000,
    ;
}

/// A scaled product of bounded factors keeps a product bound.
pub proof fn lemma_fmul_fits(a: int, b: int, ma: int, mb: int)
    requires
        0 <= ma,
        0 <= mb,
        -ma <= a <= ma,
        -mb <= b <= mb,
    ensures
        -ma * mb <= fmul(a, b) <= ma * mb,
        -(ma * mb / (FS as int)) <= fmul(a, b) <= ma * mb / (FS as int),
{
    crate::fx::lemma_prod_bound(a, b, ma, mb);
    lemma_tdiv_bound(a * b, ma * mb, FS as int);
    assert(fmul(a, b) == tdiv(a * b, FS as int));
    assert(-(ma * mb) <= tdiv(a * b, FS as int) <= ma * mb);
    assert(-ma * mb == -(ma * mb)) by (nonlinear_arith);
}

/// A component no longer than the length divides to at most one unit.
proof fn lemma_unit_fits(x: int, l: int)
    requires
        1 <= l,
        -(l + 1) < x < l + 1,
    ensures
        -(FS as int) <= tdiv(x * (FS as int), l) <= FS as int,
        -(FS as int) <= fdiv(x, l) <= FS as int,
{
    assert(-(FS as int) <= tdiv(x * (FS as int), l) <= FS as int) by (nonlinear_arith)
        requires
            1 <= l,
            -l <= x <= l,
            tdiv(x * (FS as int), l) == if x * (FS as int) >= 0 {
                (x * (FS as int)) / l
            } else {
                -((-(x * (FS as int))) / l)
            },
    ;
}

/// Reflection in the exact (unscaled) model: each application carries the
/// homogeneous factor `|n|^2`, so no division is needed.
pub open spec fn reflect_exact(v: (int, int, int), n: (int, int, int)) -> (int, int, int) {
    let k = n.0 * n.0 + n.1 * n.1 + n.2 * n.2;
    let d = v.0 * n.0 + v.1 * n.1 + v.2 * n.2;
    (v.0 * k - 2 * d * n.0, v.1 * k - 2 * d * n.1, v.2 * k - 2 * d * n.2)
}

/// Reflection is self-inverse: applying the exact reflection twice gives
/// back the original vector, up to the homogeneous factor `|n|^2` carried
/// by each application (exactly one per application when `n` is a unit
/// vector).
pub proof fn lemma_reflect_self_inverse(v: (int, int, int), n: (int, int, int))
    ensures
        ({
            let k = n.0 * n.0 + n.1 * n.1 + n.2 * n.2;
            reflect_exact(reflect_exact(v, n), n) == (v.0 * k * k, v.1 * k * k, v.2 * k * k)
        }),
{
    let k = n.0 * n.0 + n.1 * n.1 + n.2 * n.2;
    let d = v.0 * n.0 + v.1 * n.1 + v.2 * n.2;
    let w = reflect_exact(v, n);
    lemma_reflect_dot(v.0, v.1, v.2, n.0, n.1, n.2, k, d);
    let d2 = w.0 * n.0 + w.1 * n.1 + w.2 * n.2;
    assert(d2 == -(d * k));
    lemma_reflect_comp(v.0, n.0, k, d);
    lemma_reflect_comp(v.1, n.1, k, d);
    lemma_reflect_comp(v.2, n.2, k, d);
}

/// The reflected vector's alignment with the normal is the original's,
/// negated and carrying one homogeneous factor.
proof fn lemma_reflect_dot(v0: int, v1: int, v2: int, n0: int, n1: int, n2: int, k: int, d: int)
    requires
        k == n0 * n0 + n1 * n1 + n2 * n2,
        d == v0 * n0 + v1 * n1 + v2 * n2,
    ensures
        (v0 * k - 2 * d * n0) * n0 + (v1 * k - 2 * d * n1) * n1 + (v2 * k - 2 * d * n2) * n2 == -(
        d * k),
{
    lemma_reflect_dot_term(v0, n0, k, d);
    lemma_reflect_dot_term(v1, n1, k, d);
    lemma_reflect_dot_term(v2, n2, k, d);
    assert((v0 * n0) * k + (v1 * n1) * k + (v2 * n2) * k == d * k) by (nonlinear_arith)
        requires
            d == v0 * n0 + v1 * n1 + v2 * n2,
    ;
    assert((2 * d) * (n0 * n0) + (2 * d) * (n1 * n1) + (2 * d) * (n2 * n2) == 2 * (d * k))
        by (nonlinear_arith)
        requires
            k == n0 * n0 + n1 * n1 + n2 * n2,
    ;
}

/// One term of the reflected dot product, expanded.
proof fn lemma_reflect_dot_term(vi: int, ni: int, k: int, d: int)
    ensures
        (vi * k - 2 * d * ni) * ni == (vi * ni) * k - (2 * d) * (ni * ni),
{
    assert((vi * k - 2 * d * ni) * ni == (vi * ni) * k - (2 * d) * (ni * ni)) by (nonlinear_arith);
}

/// One component of the double reflection, expanded.
proof fn lemma_reflect_comp(vi: int, ni: int, k: int, d: int)
    ensures
        (vi * k - 2 * d * ni) * k - 2 * (-(d * k)) * ni == vi * k * k,
{
    assert((vi * k - 2 * d * ni) * k - 2 * (-(d * k)) * ni == vi * k * k) by (nonlinear_arith);
}

/// A truncated quotient times its divisor squares to within the error
/// band of the exact numerator's square.
proof fn lemma_sq_err(q: int, d: int, a: int, m: int)
    requires
        0 < d,
        -d < q * d - a < d,
        -m <= a <= m,
        0 <= m,
    ensures
        a * a - 2 * m * d <= (q * d) * (q * d) <= a * a + 2 * m * d + d * d,
{
    assert(a * a - 2 * m * d <= (q * d) * (q * d) <= a * a + 2 * m * d + d * d)
        by (nonlinear_arith)
        requires
            0 < d,
            -d < q * d - a < d,
            -m <= a <= m,
            0 <= m,
    ;
}

/// Normalizing a draw whose squared length is between a hundredth and one
/// gives a vector within a fraction of a percent of unit length.
proof fn lemma_unit_band(v: Vec3, l: int)
    requires
        bounded_by(v, FS as int),
        100_000_000 <= dot3(v, v) <= 10_000_000_000,
        0 <= l,
        l * l <= dot3(v, v) < (l + 1) * (l + 1),
    ensures
        9_999_400_000 <= dot3(v.unit_spec(), v.unit_spec()) <= 10_002_600_003,
{
    let l2 = dot3(v, v);
    assert(10_000 <= l && l <= 100_000) by (nonlinear_arith)
        requires
            0 <= l,
            l * l <= l2,
            l2 < (l + 1) * (l + 1),
            100_000_000 <= l2 <= 10_000_000_000,
    ;
    lemma_components_le_len(v, l);
    lemma_sqrt_i(l2, l);
    let s = FS as int;
    let u = v.unit_spec();
    let qx = tdiv(v.x as int * s, l);
    let qy = tdiv(v.y as int * s, l);
    let qz = tdiv(v.z as int * s, l);
    crate::fx::lemma_prod_bound(v.x as int, s, l, s);
    crate::fx::lemma_prod_bound(v.y as int, s, l, s);
    crate::fx::lemma_prod_bound(v.z as int, s, l, s);
    lemma_tdiv_bound(v.x as int * s, l * s, l);
    lemma_tdiv_bound(v.y as int * s, l * s, l);
    lemma_tdiv_bound(v.z as int * s, l * s, l);
    lemma_sq_err(qx, l, v.x as int * s, l * s);
    lemma_sq_err(qy, l, v.y as int * s, l * s);
    lemma_sq_err(qz, l, v.z as int * s, l * s);
    assert(u.x as int == qx && u.y as int == qy && u.z as int == qz);
    assert(dot3(u, u) == qx * qx + qy * qy + qz * qz);
    // the squared numerators sum to the squared length, scaled
    assert((v.x as int * s) * (v.x as int * s) == s * s * ((v.x as int) * (v.x as int)))
        by (nonlinear_arith);
    assert((v.y as int * s) * (v.y as int * s) == s * s * ((v.y as int) * (v.y as int)))
        by (nonlinear_arith);
    assert((v.z as int * s) * (v.z as int * s) == s * s * ((v.z as int) * (v.z as int)))
        by (nonlinear_arith);
    vstd::arithmetic::mul::lemma_mul_is_distributive_add(
        s * s,
        (v.x as int) * (v.x as int) + (v.y as int) * (v.y as int),
        (v.z as int) * (v.z as int),
    );
    vstd::arithmetic::mul::lemma_mul_is_distributive_add(
        s * s,
        (v.x as int) * (v.x as int),
        (v.y as int) * (v.y as int),
    );
    assert((v.x as int * s) * (v.x as int * s) + (v.y as int * s) * (v.y as int * s) + (v.z as int
        * s) * (v.z as int * s) == s * s * l2);
    // the truncated quotients sum to the unit vector's squared length, scaled
    assert((qx * l) * (qx * l) == l * l * (qx * qx)) by (nonlinear_arith);
    assert((qy * l) * (qy * l) == l * l * (qy * qy)) by (nonlinear_arith);
    assert((qz * l) * (qz * l) == l * l * (qz * qz)) by (nonlinear_arith);
    vstd::arithmetic::mul::lemma_mul_is_distributive_add(l * l, qx * qx + qy * qy, qz * qz);
    vstd::arithmetic::mul::lemma_mul_is_distributive_add(l * l, qx * qx, qy * qy);
    assert((qx * l) * (qx * l) + (qy * l) * (qy * l) + (qz * l) * (qz * l) == l * l * dot3(u, u));
    // assemble the band at scale l*l, then cancel
    assert(l * l * dot3(u, u) >= s * s * l2 - 6 * (l * s) * l) by (nonlinear_arith)
        requires
            (qx * l) * (qx * l) + (qy * l) * (qy * l) + (qz * l) * (qz * l) == l * l * dot3(u, u),
            (qx * l) * (qx * l) >= (v.x as int * s) * (v.x as int * s) - 2 * (l * s) * l,
            (qy * l) * (qy * l) >= (v.y as int * s) * (v.y as int * s) - 2 * (l * s) * l,
            (qz * l) * (qz * l) >= (v.z as int * s) * (v.z as int * s) - 2 * (l * s) * l,
            (v.x as int * s) * (v.x as int * s) + (v.y as int * s) * (v.y as int * s) + (v.z as int
                * s) * (v.z as int * s) == s * s * l2,
    ;
    assert(l * l * dot3(u, u) <= s * s * l2 + 6 * (l * s) * l + 3 * (l * l)) by (nonlinear_arith)
        requires
            (qx * l) * (qx * l) + (qy * l) * (qy * l) + (qz * l) * (qz * l) == l * l * dot3(u, u),
            (qx * l) * (qx * l) <= (v.x as int * s) * (v.x as int * s) + 2 * (l * s) * l + l * l,
            (qy * l) * (qy * l) <= (v.y as int * s) * (v.y as int * s) + 2 * (l * s) * l + l * l,
            (qz * l) * (qz * l) <= (v.z as int * s) * (v.z as int * s) + 2 * (l * s) * l + l * l,
            (v.x as int * s) * (v.x as int * s) + (v.y as int * s) * (v.y as int * s) + (v.z as int
                * s) * (v.z as int * s) == s * s * l2,
    ;
    // lower: s*s*l2 >= s*s*l*l, so dot3(u,u) >= s*s - 6*s
    assert(dot3(u, u) >= 9_999_400_000) by (nonlinear_arith)
        requires
            l * l * dot3(u, u) >= s * s * l2 - 6 * (l * s) * l,
            l2 >= l * l,
            l >= 10_000,
            s == 100_000,
    ;
    // upper: l2 <= l*l + 2*l and 2*s*s <= 2_000_000*l
    assert(l2 <= l * l + 2 * l) by (nonlinear_arith)
        requires
            l2 < (l + 1) * (l + 1),
    ;
    assert(dot3(u, u) <= 10_002_600_003) by (nonlinear_arith)
        requires
            l * l * dot3(u, u) <= s * s * l2 + 6 * (l * s) * l + 3 * (l * l),
            l2 <= l * l + 2 * l,
            10_000 <= l <= 100_000,
            s == 100_000,
    ;
}

/// A square is never negative.
pub proof fn lemma_sq_nonneg(a: int)
    ensures
        0 <= a * a,
{
    assert(0 <= a * a) by (nonlinear_arith);
}

} // verus!
