use vstd::prelude::*;

use crate::fx::{tdiv, COORD_LIMIT, FS};
use crate::ray::{ray_in_range, Ray};
use crate::vec3::{bounded_by, Point};

verus! {

/// An axis-aligned bounding box, given by its two corners.
#[derive(Clone, Copy, PartialEq, Eq, Structural, Debug)]
pub struct AABB {
    pub max: Point,
    pub min: Point,
}

/// Both corners stay within twice the coordinate limit (a sphere's box
/// can reach one limit past its center).
pub open spec fn box_in_range(b: AABB) -> bool {
    &&& bounded_by(b.min, 2 * (COORD_LIMIT as int))
    &&& bounded_by(b.max, 2 * (COORD_LIMIT as int))
}

/// The point lies inside the box (componentwise between the corners).
pub open spec fn inside_box(b: AABB, p: Point) -> bool {
    &&& b.min.x <= p.x <= b.max.x
    &&& b.min.y <= p.y <= b.max.y
    &&& b.min.z <= p.z <= b.max.z
}

/// The componentwise union of two boxes.
pub open spec fn sbox_spec(b0: AABB, b1: AABB) -> AABB {
    AABB {
        min: Point {
            x: if b0.min.x < b1.min.x {
                b0.min.x
            } else {
                b1.min.x
            },
            y: if b0.min.y < b1.min.y {
                b0.min.y
            } else {
                b1.min.y
            },
            z: if b0.min.z < b1.min.z {
                b0.min.z
            } else {
                b1.min.z
            },
        },
        max: Point {
            x: if b0.max.x > b1.max.x {
                b0.max.x
            } else {
                b1.max.x
            },
            y: if b0.max.y > b1.max.y {
                b0.max.y
            } else {
                b1.max.y
            },
            z: if b0.max.z > b1.max.z {
                b0.max.z
            } else {
                b1.max.z
            },
        },
    }
}

/// One slab crossing: the ray parameter at which `origin + t*d` reaches
/// `delta` away, truncated; computed against a positive divisor.
pub open spec fn slab_t(delta: int, d: int) -> int {
    if d >= 0 {
        tdiv(delta * (FS as int), d)
    } else {
        tdiv(-(delta * (FS as int)), -d)
    }
}

/// Clip the search window `[tmin, tmax]` by one axis of the slab test;
/// `None` means the ray runs parallel to the slab and outside it.
pub open spec fn clip_axis_spec(lo: int, hi: int, o: int, d: int, tmin: int, tmax: int) -> Option<
    (int, int),
> {
    if d == 0 {
        if o < lo || o > hi {
            None
        } else {
            Some((tmin, tmax))
        }
    } else {
        let t0 = slab_t(lo - o, d);
        let t1 = slab_t(hi - o, d);
        let a = if t0 > t1 {
            t1
        } else {
            t0
        };
        let b = if t0 > t1 {
            t0
        } else {
            t1
        };
        let nmin = if tmin > a {
            tmin
        } else {
            a
        };
        let nmax = if tmax < b {
            tmax
        } else {
            b
        };
        Some((nmin, nmax))
    }
}

/// The slab test over all three axes.
pub open spec fn aabb_hit_spec(b: AABB, ray: Ray, t_min: int, t_max: int) -> bool {
    match clip_axis_spec(
        b.min.x as int,
        b.max.x as int,
        ray.origin.x as int,
        ray.direction.x as int,
        t_min,
        t_max,
    ) {
        None => false,
        Some((mn_x, mx_x)) => if mx_x <= mn_x {
            false
        } else {
            match clip_axis_spec(
                b.min.y as int,
                b.max.y as int,
                ray.origin.y as int,
                ray.direction.y as int,
                mn_x,
                mx_x,
            ) {
                None => false,
                Some((mn_y, mx_y)) => if mx_y <= mn_y {
                    false
                } else {
                    match clip_axis_spec(
                        b.min.z as int,
                        b.max.z as int,
                        ray.origin.z as int,
                        ray.direction.z as int,
                        mn_y,
                        mx_y,
                    ) {
                        None => false,
                        Some((mn_z, mx_z)) => mx_z > mn_z,
                    }
                },
            }
        },
    }
}

/// One axis of the slab test, executable.
fn clip_axis(lo: i64, hi: i64, o: i64, d: i64, tmin: i64, tmax: i64) -> (r: (i64, i64, bool))
    requires
        -2 * (COORD_LIMIT as int) <= lo <= 2 * (COORD_LIMIT as int),
        -2 * (COORD_LIMIT as int) <= hi <= 2 * (COORD_LIMIT as int),
        -(COORD_LIMIT as int) <= o <= COORD_LIMIT as int,
        -(COORD_LIMIT as int) <= d <= COORD_LIMIT as int,
    ensures
        r.2 == clip_axis_spec(lo as int, hi as int, o as int, d as int, tmin as int, tmax as int)
            is Some,
        r.2 ==> Some((r.0 as int, r.1 as int)) == clip_axis_spec(
            lo as int,
            hi as int,
            o as int,
            d as int,
            tmin as int,
            tmax as int,
        ),
{
    if d == 0 {
        if o < lo || o > hi {
            (tmin, tmax, false)
        } else {
            (tmin, tmax, true)
        }
    } else {
        let t0 = slab_div(lo - o, d);
        let t1 = slab_div(hi - o, d);
        let a = if t0 > t1 {
            t1
        } else {
            t0
        };
        let b = if t0 > t1 {
            t0
        } else {
            t1
        };
        let nmin = if tmin > a {
            tmin
        } else {
            a
        };
        let nmax = if tmax < b {
            tmax
        } else {
            b
        };
        (nmin, nmax, true)
    }
}

/// The scaled quotient of one slab crossing, via a positive divisor.
fn slab_div(delta: i64, d: i64) -> (r: i64)
    requires
        d != 0,
        -3 * (COORD_LIMIT as int) <= delta <= 3 * (COORD_LIMIT as int),
        -(COORD_LIMIT as int) <= d <= COORD_LIMIT as int,
    ensures
        r as int == slab_t(delta as int, d as int),
{
    let num: i128 = (delta as i128) * (FS as i128);
    proof {
        crate::fx::lemma_prod_bound(delta as int, FS as int, 1_228_800_000, FS as int);
        if d >= 0 {
            crate::vec3::lemma_tdiv_bound(
                delta as int * (FS as int),
                122_880_000_000_000,
                d as int,
            );
        } else {
            crate::vec3::lemma_tdiv_bound(
                -(delta as int * (FS as int)),
                122_880_000_000_000,
                -(d as int),
            );
        }
    }
    if d >= 0 {
        (num / (d as i128)) as i64
    } else {
        ((-num) / ((-d) as i128)) as i64
    }
}

impl AABB {
    pub fn new(min: Point, max: Point) -> (r: Self)
        ensures
            r.min == min && r.max == max,
    {
        Self { max, min }
    }

    /// The slab test: does the ray cross this box anywhere in the open
    /// window `(t_min, t_max)`?
    pub fn hit(&self, ray: &Ray, t_min: i64, t_max: i64) -> (r: bool)
        requires
            box_in_range(*self),
            ray_in_range(*ray),
        ensures
            r == aabb_hit_spec(*self, *ray, t_min as int, t_max as int),
    {
        let (mn_x, mx_x, ok_x) = clip_axis(
            self.min.x,
            self.max.x,
            ray.origin.x,
            ray.direction.x,
            t_min,
            t_max,
        );
        if !ok_x || mx_x <= mn_x {
            return false;
        }
        let (mn_y, mx_y, ok_y) = clip_axis(
            self.min.y,
            self.max.y,
            ray.origin.y,
            ray.direction.y,
            mn_x,
            mx_x,
        );
        if !ok_y || mx_y <= mn_y {
            return false;
        }
        let (mn_z, mx_z, ok_z) = clip_axis(
            self.min.z,
            self.max.z,
            ray.origin.z,
            ray.direction.z,
            mn_y,
            mx_y,
        );
        if !ok_z || mx_z <= mn_z {
            return false;
        }
        true
    }

    /// The smallest box containing both arguments.
    pub fn surrounding_box(b0: &AABB, b1: &AABB) -> (r: AABB)
        ensures
            r == sbox_spec(*b0, *b1),
    {
        let small = Point::new(
            if b0.min.x < b1.min.x {
                b0.min.x
            } else {
                b1.min.x
            },
            if b0.min.y < b1.min.y {
                b0.min.y
            } else {
                b1.min.y
            },
            if b0.min.z < b1.min.z {
                b0.min.z
            } else {
                b1.min.z
            },
        );
        let big = Point::new(
            if b0.max.x > b1.max.x {
                b0.max.x
            } else {
                b1.max.x
            },
            if b0.max.y > b1.max.y {
                b0.max.y
            } else {
                b1.max.y
            },
            if b0.max.z > b1.max.z {
                b0.max.z
            } else {
                b1.max.z
            },
        );
        AABB::new(small, big)
    }
}

/// The union of two boxes does not depend on their order.
pub proof fn lemma_surrounding_box_commutes(b0: AABB, b1: AABB)
    ensures
        sbox_spec(b0, b1) == sbox_spec(b1, b0),
{
}

/// Any point inside either argument lies inside the union.
pub proof fn lemma_surrounding_box_contains(b0: AABB, b1: AABB, p: Point)
    requires
        inside_box(b0, p) || inside_box(b1, p),
    ensures
        inside_box(sbox_spec(b0, b1), p),
{
}

/// The union contains both of its arguments.
pub proof fn lemma_surrounding_box_covers(b0: AABB, b1: AABB)
    ensures
        inside_box(sbox_spec(b0, b1), b0.min) || !(b0.min.x <= b0.max.x && b0.min.y <= b0.max.y
            && b0.min.z <= b0.max.z),
        sbox_spec(b0, b1).min.x <= b0.min.x && sbox_spec(b0, b1).min.x <= b1.min.x,
        sbox_spec(b0, b1).max.x >= b0.max.x && sbox_spec(b0, b1).max.x >= b1.max.x,
        sbox_spec(b0, b1).min.y <= b0.min.y && sbox_spec(b0, b1).min.y <= b1.min.y,
        sbox_spec(b0, b1).max.y >= b0.max.y && sbox_spec(b0, b1).max.y >= b1.max.y,
        sbox_spec(b0, b1).min.z <= b0.min.z && sbox_spec(b0, b1).min.z <= b1.min.z,
        sbox_spec(b0, b1).max.z >= b0.max.z && sbox_spec(b0, b1).max.z >= b1.max.z,
{
}

} // verus!
