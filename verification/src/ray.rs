use vstd::prelude::*;

use crate::fx::{fmul, COORD_LIMIT, FS};
use crate::vec3::{bounded_by, Point, Vec3};

verus! {

/// A ray: origin plus direction, both fixed-point vectors.
#[derive(Clone, Copy, PartialEq, Eq, Structural, Debug)]
pub struct Ray {
    pub origin: Point,
    pub direction: Vec3,
}

/// The point reached after travelling `t` (fixed-point) along the ray.
pub open spec fn at_spec(ray: Ray, t: int) -> Vec3 {
    Vec3 {
        x: (ray.origin.x + fmul(ray.direction.x as int, t)) as i64,
        y: (ray.origin.y + fmul(ray.direction.y as int, t)) as i64,
        z: (ray.origin.z + fmul(ray.direction.z as int, t)) as i64,
    }
}

/// Both members of the ray stay within the coordinate limit.
pub open spec fn ray_in_range(ray: Ray) -> bool {
    &&& bounded_by(ray.origin, COORD_LIMIT as int)
    &&& bounded_by(ray.direction, COORD_LIMIT as int)
}

impl Ray {
    pub fn new(origin: Point, direction: Vec3) -> (r: Self)
        ensures
            r.origin == origin && r.direction == direction,
    {
        Self { origin, direction }
    }

    pub fn origin(&self) -> (r: Vec3)
        ensures
            r == self.origin,
    {
        self.origin
    }

    pub fn direction(&self) -> (r: Vec3)
        ensures
            r == self.direction,
    {
        self.direction
    }

    /// `origin + direction * t`.
    pub fn at(&self, t: i64) -> (r: Vec3)
        requires
            ray_in_range(*self),
            -(COORD_LIMIT as int) <= t <= COORD_LIMIT as int,
        ensures
            r == at_spec(*self, t as int),
            bounded_by(r, crate::fx::POINT_LIMIT as int),
    {
        proof {
            lemma_at_fits(*self, t as int);
        }
        self.origin.add(self.direction.scale(t))
    }
}

/// The step along a bounded ray keeps every component in the wide range.
proof fn lemma_at_fits(ray: Ray, t: int)
    requires
        ray_in_range(ray),
        -(COORD_LIMIT as int) <= t <= COORD_LIMIT as int,
    ensures
        -1_677_721_600_000 <= fmul(ray.direction.x as int, t) <= 1_677_721_600_000,
        -1_677_721_600_000 <= fmul(ray.direction.y as int, t) <= 1_677_721_600_000,
        -1_677_721_600_000 <= fmul(ray.direction.z as int, t) <= 1_677_721_600_000,
{
    crate::vec3::lemma_fmul_fits(ray.direction.x as int, t, COORD_LIMIT as int, COORD_LIMIT as int);
    crate::vec3::lemma_fmul_fits(ray.direction.y as int, t, COORD_LIMIT as int, COORD_LIMIT as int);
    crate::vec3::lemma_fmul_fits(ray.direction.z as int, t, COORD_LIMIT as int, COORD_LIMIT as int);
    assert((COORD_LIMIT as int) * (COORD_LIMIT as int) / (FS as int) == 1_677_721_600_000)
        by (nonlinear_arith);
}

} // verus!
