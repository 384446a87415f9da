use vstd::prelude::*;

use crate::fx::{fdiv, fmul, tdiv, FS};
use crate::ray::{ray_in_range, Ray};
use crate::vec3::{bounded_by, dot3, lemma_fmul_fits, Point, Vec3};

verus! {

/// A pinhole camera: an origin and the viewport basis derived from the
/// look direction, the up vector, the field of view and the aspect ratio.
#[derive(Clone, Copy, PartialEq, Eq, Structural, Debug)]
pub struct Camera {
    pub origin: Point,
    pub lower_left: Point,
    pub horizontal: Vec3,
    pub vertical: Vec3,
}

/// The camera's members are small enough that every generated ray stays
/// within the integrator's domain.
pub open spec fn cam_wf(c: Camera) -> bool {
    &&& bounded_by(c.origin, 150_000_000)
    &&& bounded_by(c.lower_left, 160_000_000)
    &&& bounded_by(c.horizontal, 3_200_000)
    &&& bounded_by(c.vertical, 1_600_000)
}

/// Each component scaled by a fixed-point factor, as a spec-level value.
pub open spec fn vscale_spec(v: Vec3, t: int) -> Vec3 {
    Vec3 {
        x: fmul(v.x as int, t) as i64,
        y: fmul(v.y as int, t) as i64,
        z: fmul(v.z as int, t) as i64,
    }
}

/// The camera `Camera::new` builds: the viewport height is twice the
/// half-field tangent, the width is that times the aspect ratio; the
/// basis comes from the look direction and the up vector; the lower-left
/// corner backs the origin off by half of each and the look direction.
pub open spec fn camera_spec(
    lookfrom: Point,
    lookat: Point,
    vup: Vec3,
    half_fov_tan: int,
    aspect_ratio: int,
) -> Camera {
    let vh = 2 * half_fov_tan;
    let vw = fmul(aspect_ratio, vh);
    let w = vsub(lookfrom, lookat).unit_spec();
    let u = cross_spec(vup, w).unit_spec();
    let v = cross_spec(w, u);
    let horizontal = vscale_spec(u, vw);
    let vertical = vscale_spec(v, vh);
    let lower_left = Vec3 {
        x: (lookfrom.x - fdiv(horizontal.x as int, 2 * (FS as int)) - fdiv(
            vertical.x as int,
            2 * (FS as int),
        ) - w.x) as i64,
        y: (lookfrom.y - fdiv(horizontal.y as int, 2 * (FS as int)) - fdiv(
            vertical.y as int,
            2 * (FS as int),
        ) - w.y) as i64,
        z: (lookfrom.z - fdiv(horizontal.z as int, 2 * (FS as int)) - fdiv(
            vertical.z as int,
            2 * (FS as int),
        ) - w.z) as i64,
    };
    Camera { origin: lookfrom, lower_left, horizontal, vertical }
}

/// What `get_ray` aims at: the viewport point `lower_left + u*horizontal
/// + v*vertical`, relative to the origin.
pub open spec fn get_ray_spec(c: Camera, u: int, v: int) -> Ray {
    Ray {
        origin: c.origin,
        direction: Vec3 {
            x: (c.lower_left.x + fmul(c.horizontal.x as int, u) + fmul(c.vertical.x as int, v)
                - c.origin.x) as i64,
            y: (c.lower_left.y + fmul(c.horizontal.y as int, u) + fmul(c.vertical.y as int, v)
                - c.origin.y) as i64,
            z: (c.lower_left.z + fmul(c.horizontal.z as int, u) + fmul(c.vertical.z as int, v)
                - c.origin.z) as i64,
        },
    }
}

impl Camera {
    /// Derive the viewport basis. `half_fov_tan` is the tangent of half
    /// the vertical field of view, at the fixed-point scale (trigonometry
    /// stays with the caller).
    pub fn new(lookfrom: Point, lookat: Point, vup: Vec3, half_fov_tan: i64, aspect_ratio: i64) -> (
        r: Camera)
        requires
            bounded_by(lookfrom, 150_000_000),
            bounded_by(lookat, 150_000_000),
            bounded_by(vup, 2 * (FS as int)),
            0 < half_fov_tan <= 4 * (FS as int),
            0 < aspect_ratio <= 4 * (FS as int),
            dot3(vsub(lookfrom, lookat), vsub(lookfrom, lookat)) > 0,
            ({
                let w = vsub(lookfrom, lookat).unit_spec();
                dot3(cross_spec(vup, w), cross_spec(vup, w)) > 0
            }),
        ensures
            cam_wf(r),
            r.origin == lookfrom,
            r == camera_spec(lookfrom, lookat, vup, half_fov_tan as int, aspect_ratio as int),
    {
        let viewport_height: i64 = 2 * half_fov_tan;
        proof {
            lemma_fmul_fits(aspect_ratio as int, viewport_height as int, 400_000, 800_000);
        }
        let viewport_width: i64 = crate::fx::fx_mul(aspect_ratio, viewport_height);
        let diff = lookfrom.sub(lookat);
        proof {
            assert(diff == vsub(lookfrom, lookat));
        }
        let w = diff.unit_vector();
        proof {
            assert(w == vsub(lookfrom, lookat).unit_spec());
            lemma_cross_range(vup, w, 200_000, 100_000);
        }
        let cu = vup.cross(w);
        proof {
            assert(cu == cross_spec(vup, w));
        }
        let u = cu.unit_vector();
        proof {
            assert(u == cross_spec(vup, w).unit_spec());
            lemma_cross_range(w, u, 100_000, 100_000);
        }
        let v = w.cross(u);
        proof {
            assert(v == cross_spec(w, u));
            lemma_fmul_fits(u.x as int, viewport_width as int, FS as int, 3_200_000);
            lemma_fmul_fits(u.y as int, viewport_width as int, FS as int, 3_200_000);
            lemma_fmul_fits(u.z as int, viewport_width as int, FS as int, 3_200_000);
            lemma_fmul_fits(v.x as int, viewport_height as int, 200_000, 800_000);
            lemma_fmul_fits(v.y as int, viewport_height as int, 200_000, 800_000);
            lemma_fmul_fits(v.z as int, viewport_height as int, 200_000, 800_000);
        }
        let horizontal = u.scale(viewport_width);
        let vertical = v.scale(viewport_height);
        proof {
            lemma_half_range(horizontal.x as int, 3_200_000);
            lemma_half_range(horizontal.y as int, 3_200_000);
            lemma_half_range(horizontal.z as int, 3_200_000);
            lemma_half_range(vertical.x as int, 1_600_000);
            lemma_half_range(vertical.y as int, 1_600_000);
            lemma_half_range(vertical.z as int, 1_600_000);
        }
        let lower_left = lookfrom.sub(horizontal.div_scale(2 * FS)).sub(
            vertical.div_scale(2 * FS),
        ).sub(w);
        Camera { origin: lookfrom, lower_left, horizontal, vertical }
    }

    /// The ray through the viewport at fractions `(u, v)` of its width
    /// and height.
    pub fn get_ray(&self, u: i64, v: i64) -> (r: Ray)
        requires
            cam_wf(*self),
            0 <= u <= 2 * (FS as int),
            0 <= v <= 2 * (FS as int),
        ensures
            r == get_ray_spec(*self, u as int, v as int),
            ray_in_range(r),
    {
        proof {
            lemma_fmul_fits(self.horizontal.x as int, u as int, 3_200_000, 200_000);
            lemma_fmul_fits(self.horizontal.y as int, u as int, 3_200_000, 200_000);
            lemma_fmul_fits(self.horizontal.z as int, u as int, 3_200_000, 200_000);
            lemma_fmul_fits(self.vertical.x as int, v as int, 1_600_000, 200_000);
            lemma_fmul_fits(self.vertical.y as int, v as int, 1_600_000, 200_000);
            lemma_fmul_fits(self.vertical.z as int, v as int, 1_600_000, 200_000);
        }
        Ray::new(
            self.origin,
            self.lower_left.add(self.horizontal.scale(u)).add(self.vertical.scale(v)).sub(
                self.origin,
            ),
        )
    }
}

/// The components of a cross product of bounded vectors are bounded by
/// twice the product of the bounds, scaled down.
proof fn lemma_cross_range(a: Vec3, b: Vec3, ma: int, mb: int)
    requires
        0 <= ma,
        0 <= mb,
        bounded_by(a, ma),
        bounded_by(b, mb),
    ensures
        bounded_by(cross_spec(a, b), 2 * ma * mb / (FS as int)),
{
    crate::fx::lemma_prod_bound(a.y as int, b.z as int, ma, mb);
    crate::fx::lemma_prod_bound(a.z as int, b.y as int, ma, mb);
    crate::fx::lemma_prod_bound(a.x as int, b.z as int, ma, mb);
    crate::fx::lemma_prod_bound(a.z as int, b.x as int, ma, mb);
    crate::fx::lemma_prod_bound(a.x as int, b.y as int, ma, mb);
    crate::fx::lemma_prod_bound(a.y as int, b.x as int, ma, mb);
    assert(2 * ma * mb == 2 * (ma * mb)) by (nonlinear_arith);
    crate::vec3::lemma_tdiv_bound(
        a.y as int * (b.z as int) - a.z as int * (b.y as int),
        2 * ma * mb,
        FS as int,
    );
    crate::vec3::lemma_tdiv_bound(
        a.x as int * (b.z as int) - a.z as int * (b.x as int),
        2 * ma * mb,
        FS as int,
    );
    crate::vec3::lemma_tdiv_bound(
        a.x as int * (b.y as int) - a.y as int * (b.x as int),
        2 * ma * mb,
        FS as int,
    );
}

/// Halving a bounded scalar (dividing by two units) keeps half the bound.
proof fn lemma_half_range(x: int, m: int)
    requires
        0 <= m,
        -m <= x <= m,
    ensures
        -m <= crate::fx::fdiv(x, 2 * (FS as int)) <= m,
{
    crate::fx::lemma_prod_bound(x, FS as int, m, FS as int);
    crate::vec3::lemma_tdiv_bound(x * (FS as int), m * (FS as int), 2 * (FS as int));
    assert(m * (FS as int) / (2 * (FS as int)) <= m) by (nonlinear_arith)
        requires
            0 <= m,
    ;
}

/// Component-wise difference, as a spec-level value.
pub open spec fn vsub(a: Vec3, b: Vec3) -> Vec3 {
    Vec3 { x: (a.x - b.x) as i64, y: (a.y - b.y) as i64, z: (a.z - b.z) as i64 }
}

/// What `cross` returns, as a spec-level value.
pub open spec fn cross_spec(a: Vec3, b: Vec3) -> Vec3 {
    Vec3 {
        x: tdiv(a.y as int * (b.z as int) - a.z as int * (b.y as int), FS as int) as i64,
        y: (-tdiv(a.x as int * (b.z as int) - a.z as int * (b.x as int), FS as int)) as i64,
        z: tdiv(a.x as int * (b.y as int) - a.y as int * (b.x as int), FS as int) as i64,
    }
}

} // verus!
