use vstd::prelude::*;

use crate::hittables::aabb::aabb_hit_spec;
use crate::hittables::bvh::{bvh_hit_spec, bvh_spheres, bvh_wf, BVH};
use crate::hittables::hittable_list::scan_hit;
use crate::hittables::sphere::{
    sph_a, sph_disc, sph_root1, sph_root2, sphere_hit_t, Sphere,
};
use crate::ray::Ray;
use crate::vec3::{lemma_sqrt_i, sqrt_i};

verus! {

/// Some member has an admissible intersection in the window.
pub open spec fn any_hit(s: Seq<Sphere>, ray: Ray, t_min: int, t_max: int) -> bool {
    exists|i: int|
        0 <= i < s.len() && #[trigger] sphere_hit_t(s[i], ray, t_min, t_max) is Some
}

/// `res` is the nearest hit among `s` over the window: a member reports
/// exactly it, and no member reports anything nearer.
pub open spec fn is_nearest(
    s: Seq<Sphere>,
    ray: Ray,
    t_min: int,
    t_max: int,
    res: Option<(Sphere, int)>,
) -> bool {
    match res {
        None => forall|i: int|
            0 <= i < s.len() ==> #[trigger] sphere_hit_t(s[i], ray, t_min, t_max) is None,
        Some(pr) => {
            &&& t_min <= pr.1 <= t_max
            &&& exists|i: int|
                0 <= i < s.len() && s[i] == pr.0 && #[trigger] sphere_hit_t(s[i], ray, t_min, t_max)
                    == Some(pr.1)
            &&& forall|i: int|
                0 <= i < s.len() ==> (#[trigger] sphere_hit_t(s[i], ray, t_min, t_max) matches Some(
                    t,
                ) ==> t >= pr.1)
        },
    }
}

/// Every cached box reports a crossing whenever some sphere below it has
/// an admissible intersection: the numeric premise the acceleration
/// structure rests on, threatened only by the slab test's rounding.
pub open spec fn box_conservative(b: BVH, ray: Ray) -> bool
    decreases b,
{
    match b {
        BVH::Leaf(_) => true,
        BVH::Node { left, right, bbox } => {
            &&& forall|a: int, c: int|
                any_hit(bvh_spheres(b), ray, a, c) ==> #[trigger] aabb_hit_spec(bbox, ray, a, c)
            &&& box_conservative(*left, ray)
            &&& box_conservative(*right, ray)
        },
    }
}

/// The floor square root exists for every nonnegative argument, so
/// `sqrt_i` satisfies its characterization there.
pub proof fn lemma_sqrt_exists(x: int)
    requires
        0 <= x,
    ensures
        0 <= sqrt_i(x),
        sqrt_i(x) * sqrt_i(x) <= x,
        x < (sqrt_i(x) + 1) * (sqrt_i(x) + 1),
    decreases x,
{
    if x == 0 {
        lemma_sqrt_i(0, 0);
    } else {
        lemma_sqrt_exists(x - 1);
        let r = sqrt_i(x - 1);
        if x < (r + 1) * (r + 1) {
            lemma_sqrt_i(x, r);
        } else {
            assert(x == (r + 1) * (r + 1));
            assert((r + 1) * (r + 1) < (r + 2) * (r + 2)) by (nonlinear_arith)
                requires
                    0 <= r,
            ;
            lemma_sqrt_i(x, r + 1);
        }
    }
}

/// Truncated division is monotone in the numerator.
proof fn lemma_tdiv_mono(n1: int, n2: int, d: int)
    requires
        n1 <= n2,
        0 < d,
    ensures
        crate::fx::tdiv(n1, d) <= crate::fx::tdiv(n2, d),
{
    assert(crate::fx::tdiv(n1, d) <= crate::fx::tdiv(n2, d)) by (nonlinear_arith)
        requires
            n1 <= n2,
            0 < d,
            crate::fx::tdiv(n1, d) == if n1 >= 0 {
                n1 / d
            } else {
                -((-n1) / d)
            },
            crate::fx::tdiv(n2, d) == if n2 >= 0 {
                n2 / d
            } else {
                -((-n2) / d)
            },
    ;
}

/// The nearer root never exceeds the farther one.
proof fn lemma_roots_ordered(s: Sphere, ray: Ray)
    requires
        sph_a(ray) > 0,
        sph_disc(s, ray) >= 0,
    ensures
        sph_root1(s, ray) <= sph_root2(s, ray),
{
    lemma_sqrt_exists(sph_disc(s, ray));
    let hb = crate::hittables::sphere::sph_half_b(s, ray);
    let sq = sqrt_i(sph_disc(s, ray));
    assert((-hb - sq) * (crate::fx::FS as int) <= (-hb + sq) * (crate::fx::FS as int))
        by (nonlinear_arith)
        requires
            0 <= sq,
    ;
    lemma_tdiv_mono(
        (-hb - sq) * (crate::fx::FS as int),
        (-hb + sq) * (crate::fx::FS as int),
        sph_a(ray),
    );
}

/// Shrinking the window to (at least) the reported parameter keeps the
/// report; a miss stays a miss on any smaller window.
proof fn lemma_sphere_hit_narrow(s: Sphere, ray: Ray, t_min: int, t_max: int, t_max2: int)
    requires
        t_max2 <= t_max,
    ensures
        sphere_hit_t(s, ray, t_min, t_max) matches Some(t) ==> (t <= t_max2 ==> sphere_hit_t(
            s,
            ray,
            t_min,
            t_max2,
        ) == Some(t)),
        sphere_hit_t(s, ray, t_min, t_max) is None ==> sphere_hit_t(s, ray, t_min, t_max2)
            is None,
{
    if sph_a(ray) != 0 && sph_disc(s, ray) >= 0 {
        crate::vec3::lemma_sq_nonneg(ray.direction.x as int);
        crate::vec3::lemma_sq_nonneg(ray.direction.y as int);
        crate::vec3::lemma_sq_nonneg(ray.direction.z as int);
        lemma_roots_ordered(s, ray);
    }
}

/// Widening the window keeps a report made on the smaller one.
proof fn lemma_sphere_hit_widen(s: Sphere, ray: Ray, t_min: int, t_max2: int, t_max: int)
    requires
        t_max2 <= t_max,
    ensures
        sphere_hit_t(s, ray, t_min, t_max2) matches Some(t) ==> sphere_hit_t(
            s,
            ray,
            t_min,
            t_max,
        ) == Some(t),
{
    if sph_a(ray) != 0 && sph_disc(s, ray) >= 0 {
        crate::vec3::lemma_sq_nonneg(ray.direction.x as int);
        crate::vec3::lemma_sq_nonneg(ray.direction.y as int);
        crate::vec3::lemma_sq_nonneg(ray.direction.z as int);
        lemma_roots_ordered(s, ray);
    }
}

/// The ordered scan reports exactly the nearest hit over the full window.
pub proof fn lemma_scan_is_nearest(s: Seq<Sphere>, ray: Ray, t_min: int, t_max: int)
    ensures
        is_nearest(s, ray, t_min, t_max, scan_hit(s, ray, t_min, t_max)),
    decreases s.len(),
{
    if s.len() > 0 {
        let front = scan_hit(s.drop_last(), ray, t_min, t_max);
        lemma_scan_is_nearest(s.drop_last(), ray, t_min, t_max);
        crate::hittables::hittable_list::lemma_scan_hit_in_window(
            s.drop_last(),
            ray,
            t_min,
            t_max,
        );
        let w = match front {
            Some(pr) => pr.1,
            None => t_max,
        };
        assert(forall|i: int| 0 <= i < s.len() - 1 ==> s.drop_last()[i] == s[i]);
        match sphere_hit_t(s.last(), ray, t_min, w) {
            Some(t) => {
                lemma_sphere_hit_widen(s.last(), ray, t_min, w, t_max);
                assert(sphere_hit_t(s[s.len() - 1], ray, t_min, t_max) == Some(t));
                assert forall|i: int|
                    0 <= i < s.len() implies (#[trigger] sphere_hit_t(s[i], ray, t_min, t_max)
                    matches Some(t2) ==> t2 >= t) by {
                    if i < s.len() - 1 {
                        match front {
                            Some(pr) => {
                                assert(sphere_hit_t(s.drop_last()[i], ray, t_min, t_max)
                                    matches Some(t2) ==> t2 >= pr.1);
                            },
                            None => {
                                assert(sphere_hit_t(s.drop_last()[i], ray, t_min, t_max) is None);
                            },
                        }
                    }
                }
            },
            None => {
                match front {
                    Some(pr) => {
                        assert forall|i: int|
                            0 <= i < s.len() implies (#[trigger] sphere_hit_t(
                            s[i],
                            ray,
                            t_min,
                            t_max,
                        ) matches Some(t2) ==> t2 >= pr.1) by {
                            if i == s.len() - 1 {
                                lemma_sphere_hit_narrow(s.last(), ray, t_min, t_max, pr.1);
                            }
                        }
                    },
                    None => {
                        assert forall|i: int|
                            0 <= i < s.len() implies #[trigger] sphere_hit_t(
                            s[i],
                            ray,
                            t_min,
                            t_max,
                        ) is None by {
                            if i == s.len() - 1 {
                                lemma_sphere_hit_narrow(s.last(), ray, t_min, t_max, t_max);
                            }
                        }
                    },
                }
            },
        }
    }
}

/// The tree traversal reports exactly the nearest hit among its spheres,
/// as long as every cached box is conservative for this ray.
pub proof fn lemma_bvh_is_nearest(b: BVH, ray: Ray, t_min: int, t_max: int)
    requires
        bvh_wf(b),
        box_conservative(b, ray),
    ensures
        is_nearest(bvh_spheres(b), ray, t_min, t_max, bvh_hit_spec(b, ray, t_min, t_max)),
    decreases b,
{
    match b {
        BVH::Leaf(s) => {
            assert(bvh_spheres(b) == seq![s]);
            assert(bvh_spheres(b)[0] == s);
        },
        BVH::Node { left, right, bbox } => {
            let ls = bvh_spheres(*left);
            let rs = bvh_spheres(*right);
            let all = bvh_spheres(b);
            assert(all == ls + rs);
            assert(forall|i: int| 0 <= i < ls.len() ==> all[i] == ls[i]);
            assert(forall|i: int| ls.len() <= i < all.len() ==> all[i] == rs[i - ls.len()]);
            if !aabb_hit_spec(bbox, ray, t_min, t_max) {
                assert(!any_hit(all, ray, t_min, t_max));
                assert(forall|i: int|
                    0 <= i < all.len() ==> #[trigger] sphere_hit_t(all[i], ray, t_min, t_max)
                        is None);
            } else {
                lemma_bvh_is_nearest(*left, ray, t_min, t_max);
                crate::hittables::bvh::lemma_bvh_hit_in_window(*left, ray, t_min, t_max);
                let lh = bvh_hit_spec(*left, ray, t_min, t_max);
                let w = match lh {
                    Some(pr) => pr.1,
                    None => t_max,
                };
                lemma_bvh_is_nearest(*right, ray, t_min, w);
                crate::hittables::bvh::lemma_bvh_hit_in_window(*right, ray, t_min, w);
                let rh = bvh_hit_spec(*right, ray, t_min, w);
                match rh {
                    Some(pr) => {
                        let j = choose|j: int|
                            0 <= j < rs.len() && rs[j] == pr.0 && #[trigger] sphere_hit_t(
                                rs[j],
                                ray,
                                t_min,
                                w,
                            ) == Some(pr.1);
                        lemma_sphere_hit_widen(rs[j], ray, t_min, w, t_max);
                        assert(sphere_hit_t(all[ls.len() + j], ray, t_min, t_max) == Some(pr.1));
                        assert forall|i: int|
                            0 <= i < all.len() implies (#[trigger] sphere_hit_t(
                            all[i],
                            ray,
                            t_min,
                            t_max,
                        ) matches Some(t2) ==> t2 >= pr.1) by {
                            if i < ls.len() {
                                match lh {
                                    Some(lpr) => {
                                        assert(sphere_hit_t(ls[i], ray, t_min, t_max)
                                            matches Some(t2) ==> t2 >= lpr.1);
                                    },
                                    None => {
                                        assert(sphere_hit_t(ls[i], ray, t_min, t_max) is None);
                                    },
                                }
                            } else {
                                lemma_sphere_hit_narrow(all[i], ray, t_min, t_max, w);
                                assert(sphere_hit_t(rs[i - ls.len()], ray, t_min, w)
                                    matches Some(t2) ==> t2 >= pr.1);
                            }
                        }
                    },
                    None => {
                        match lh {
                            Some(lpr) => {
                                let j = choose|j: int|
                                    0 <= j < ls.len() && ls[j] == lpr.0 && #[trigger] sphere_hit_t(
                                        ls[j],
                                        ray,
                                        t_min,
                                        t_max,
                                    ) == Some(lpr.1);
                                assert(sphere_hit_t(all[j], ray, t_min, t_max) == Some(lpr.1));
                                assert forall|i: int|
                                    0 <= i < all.len() implies (#[trigger] sphere_hit_t(
                                    all[i],
                                    ray,
                                    t_min,
                                    t_max,
                                ) matches Some(t2) ==> t2 >= lpr.1) by {
                                    if i >= ls.len() {
                                        lemma_sphere_hit_narrow(all[i], ray, t_min, t_max, lpr.1);
                                        assert(sphere_hit_t(rs[i - ls.len()], ray, t_min, w)
                                            is None);
                                    }
                                }
                            },
                            None => {
                                assert forall|i: int|
                                    0 <= i < all.len() implies #[trigger] sphere_hit_t(
                                    all[i],
                                    ray,
                                    t_min,
                                    t_max,
                                ) is None by {
                                    if i >= ls.len() {
                                        lemma_sphere_hit_narrow(all[i], ray, t_min, t_max, w);
                                        assert(sphere_hit_t(rs[i - ls.len()], ray, t_min, w)
                                            is None);
                                    }
                                }
                            },
                        }
                    },
                }
            }
        },
    }
}

/// Two nearest-hit reports over the same spheres, in any order, agree on
/// whether anything was hit and on the reported parameter.
proof fn lemma_nearest_agree(
    s1: Seq<Sphere>,
    s2: Seq<Sphere>,
    ray: Ray,
    t_min: int,
    t_max: int,
    r1: Option<(Sphere, int)>,
    r2: Option<(Sphere, int)>,
)
    requires
        s1.to_multiset() == s2.to_multiset(),
        is_nearest(s1, ray, t_min, t_max, r1),
        is_nearest(s2, ray, t_min, t_max, r2),
    ensures
        (r1 is Some) == (r2 is Some),
        r1 matches Some(p1) ==> (r2 matches Some(p2) && p1.1 == p2.1),
{
    broadcast use vstd::seq_lib::group_to_multiset_ensures;

    match r1 {
        Some(p1) => {
            let i = choose|i: int|
                0 <= i < s1.len() && s1[i] == p1.0 && #[trigger] sphere_hit_t(
                    s1[i],
                    ray,
                    t_min,
                    t_max,
                ) == Some(p1.1);
            assert(s1.contains(s1[i]));
            s1.to_multiset_ensures();
            s2.to_multiset_ensures();
            assert(s1.to_multiset().count(s1[i]) > 0);
            assert(s2.contains(s1[i]));
            let j = choose|j: int| 0 <= j < s2.len() && s2[j] == s1[i];
            assert(sphere_hit_t(s2[j], ray, t_min, t_max) == Some(p1.1));
            match r2 {
                Some(p2) => {
                    let i2 = choose|i2: int|
                        0 <= i2 < s2.len() && s2[i2] == p2.0 && #[trigger] sphere_hit_t(
                            s2[i2],
                            ray,
                            t_min,
                            t_max,
                        ) == Some(p2.1);
                    assert(s2.contains(s2[i2]));
                    s1.to_multiset_ensures();
                    s2.to_multiset_ensures();
                    assert(s2.to_multiset().count(s2[i2]) > 0);
                    assert(s1.contains(s2[i2]));
                    let j2 = choose|j2: int| 0 <= j2 < s1.len() && s1[j2] == s2[i2];
                    assert(sphere_hit_t(s1[j2], ray, t_min, t_max) == Some(p2.1));
                    assert(p1.1 <= p2.1 && p2.1 <= p1.1);
                },
                None => {
                    assert(sphere_hit_t(s2[j], ray, t_min, t_max) is None);
                },
            }
        },
        None => {
            match r2 {
                Some(p2) => {
                    let i2 = choose|i2: int|
                        0 <= i2 < s2.len() && s2[i2] == p2.0 && #[trigger] sphere_hit_t(
                            s2[i2],
                            ray,
                            t_min,
                            t_max,
                        ) == Some(p2.1);
                    assert(s2.contains(s2[i2]));
                    s1.to_multiset_ensures();
                    s2.to_multiset_ensures();
                    assert(s2.to_multiset().count(s2[i2]) > 0);
                    assert(s1.contains(s2[i2]));
                    let j2 = choose|j2: int| 0 <= j2 < s1.len() && s1[j2] == s2[i2];
                    assert(sphere_hit_t(s1[j2], ray, t_min, t_max) is None);
                },
                None => {},
            }
        },
    }
}

/// A flat list and a tree built over the same spheres report the same
/// nearest intersection: the same hit-or-miss answer and the same
/// parameter, over any window, for every ray whose cached boxes are
/// conservative. (On an exact tie in the parameter the two orders may
/// name different spheres of equal distance.)
pub proof fn lemma_bvh_matches_list(s: Seq<Sphere>, b: BVH, ray: Ray, t_min: int, t_max: int)
    requires
        bvh_wf(b),
        bvh_spheres(b).to_multiset() == s.to_multiset(),
        box_conservative(b, ray),
    ensures
        (scan_hit(s, ray, t_min, t_max) is Some) == (bvh_hit_spec(b, ray, t_min, t_max) is Some),
        scan_hit(s, ray, t_min, t_max) matches Some(p1) ==> (bvh_hit_spec(b, ray, t_min, t_max)
            matches Some(p2) && p1.1 == p2.1),
{
    lemma_scan_is_nearest(s, ray, t_min, t_max);
    lemma_bvh_is_nearest(b, ray, t_min, t_max);
    lemma_nearest_agree(
        s,
        bvh_spheres(b),
        ray,
        t_min,
        t_max,
        scan_hit(s, ray, t_min, t_max),
        bvh_hit_spec(b, ray, t_min, t_max),
    );
}

} // verus!
