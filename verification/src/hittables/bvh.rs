use vstd::prelude::*;

use crate::fx::COORD_LIMIT;
use crate::hittables::aabb::{aabb_hit_spec, box_in_range, sbox_spec, AABB};
use crate::hittables::hit_record::{rec_in_range, HitRecord};
use crate::hittables::hittable_list::{spheres_in_range, HittableList};
use crate::hittables::sphere::{
    sphere_bbox_spec, sphere_hit_record, sphere_hit_t, sphere_in_range, Sphere,
};
use crate::ray::{ray_in_range, Ray};
use crate::rng::random_axis;
use crate::vec3::Point;
use vstd::multiset::Multiset;
use vstd::seq_lib::lemma_multiset_commutative;

verus! {

/// A bounding-volume hierarchy: a binary tree over spheres, each node
/// caching the box around everything below it.
#[derive(Debug)]
pub enum BVH {
    Leaf(Sphere),
    Node { left: Box<BVH>, right: Box<BVH>, bbox: AABB },
}

/// The spheres under a tree, in traversal order.
pub open spec fn bvh_spheres(b: BVH) -> Seq<Sphere>
    decreases b,
{
    match b {
        BVH::Leaf(s) => seq![s],
        BVH::Node { left, right, .. } => bvh_spheres(*left) + bvh_spheres(*right),
    }
}

/// The box a tree reports: a leaf computes its sphere's, a node returns
/// its cached one.
pub open spec fn bvh_bbox_spec(b: BVH) -> AABB {
    match b {
        BVH::Leaf(s) => sphere_bbox_spec(s),
        BVH::Node { bbox, .. } => bbox,
    }
}

/// Well-formed tree: spheres in range, and every cached box is exactly
/// the union of its children's.
pub open spec fn bvh_wf(b: BVH) -> bool
    decreases b,
{
    match b {
        BVH::Leaf(s) => sphere_in_range(s),
        BVH::Node { left, right, bbox } => bvh_wf(*left) && bvh_wf(*right) && bbox == sbox_spec(
            bvh_bbox_spec(*left),
            bvh_bbox_spec(*right),
        ),
    }
}

/// What the traversal reports: reject on the node's box, search left over
/// the full window, then right over the window shrunk to the left's best.
pub open spec fn bvh_hit_spec(b: BVH, ray: Ray, t_min: int, t_max: int) -> Option<(Sphere, int)>
    decreases b,
{
    match b {
        BVH::Leaf(s) => match sphere_hit_t(s, ray, t_min, t_max) {
            Some(t) => Some((s, t)),
            None => None,
        },
        BVH::Node { left, right, bbox } => if !aabb_hit_spec(bbox, ray, t_min, t_max) {
            None
        } else {
            let lh = bvh_hit_spec(*left, ray, t_min, t_max);
            let window = match lh {
                Some(pr) => pr.1,
                None => t_max,
            };
            match bvh_hit_spec(*right, ray, t_min, window) {
                Some(pr) => Some(pr),
                None => lh,
            }
        },
    }
}

/// A traversal result stays within the window it was asked about.
pub proof fn lemma_bvh_hit_in_window(b: BVH, ray: Ray, t_min: int, t_max: int)
    ensures
        bvh_hit_spec(b, ray, t_min, t_max) matches Some(pr) ==> t_min <= pr.1 <= t_max,
    decreases b,
{
    match b {
        BVH::Leaf(_) => {},
        BVH::Node { left, right, bbox } => {
            lemma_bvh_hit_in_window(*left, ray, t_min, t_max);
            let lh = bvh_hit_spec(*left, ray, t_min, t_max);
            let window = match lh {
                Some(pr) => pr.1,
                None => t_max,
            };
            lemma_bvh_hit_in_window(*right, ray, t_min, window);
        },
    }
}

/// A well-formed tree's box stays within the doubled coordinate limit.
pub proof fn lemma_bvh_bbox_in_range(b: BVH)
    requires
        bvh_wf(b),
    ensures
        box_in_range(bvh_bbox_spec(b)),
    decreases b,
{
    match b {
        BVH::Leaf(_) => {},
        BVH::Node { left, right, .. } => {
            lemma_bvh_bbox_in_range(*left);
            lemma_bvh_bbox_in_range(*right);
        },
    }
}

/// The sort key along one axis: the low corner of the sphere's box.
pub open spec fn sph_key(s: Sphere, axis: int) -> int {
    if axis == 0 {
        s.center.x - s.radius
    } else if axis == 1 {
        s.center.y - s.radius
    } else {
        s.center.z - s.radius
    }
}

/// The sequence is ordered by the key along `axis`.
pub open spec fn sorted_by_key(s: Seq<Sphere>, axis: int) -> bool {
    forall|p: int, q: int| 0 <= p < q < s.len() ==> sph_key(#[trigger] s[p], axis) <= sph_key(
        #[trigger] s[q],
        axis,
    )
}

/// The sort key of one sphere.
fn key_of(s: &Sphere, axis: u8) -> (k: i64)
    requires
        sphere_in_range(*s),
        axis < 3,
    ensures
        k as int == sph_key(*s, axis as int),
{
    if axis == 0 {
        s.center.x - s.radius
    } else if axis == 1 {
        s.center.y - s.radius
    } else {
        s.center.z - s.radius
    }
}

/// Inserting an element anywhere adds exactly it to the multiset.
proof fn lemma_insert_to_multiset(s: Seq<Sphere>, j: int, x: Sphere)
    requires
        0 <= j <= s.len(),
    ensures
        s.insert(j, x).to_multiset() =~= s.to_multiset().insert(x),
{
    broadcast use vstd::seq_lib::group_to_multiset_ensures;

    let a = s.subrange(0, j);
    let b = s.subrange(j, s.len() as int);
    assert(s.insert(j, x) =~= a.push(x) + b);
    assert(s =~= a + b);
    lemma_multiset_commutative(a.push(x), b);
    lemma_multiset_commutative(a, b);
    assert(a.push(x).to_multiset() =~= a.to_multiset().insert(x));
}

/// Sort the spheres by their box's low corner along one axis
/// (insertion sort): a permutation, ordered by the key.
fn sort_by_axis(v: &mut Vec<Sphere>, axis: u8)
    requires
        axis < 3,
        spheres_in_range(old(v)@),
    ensures
        final(v)@.to_multiset() == old(v)@.to_multiset(),
        final(v)@.len() == old(v)@.len(),
        sorted_by_key(final(v)@, axis as int),
        spheres_in_range(final(v)@),
{
    broadcast use vstd::seq_lib::group_to_multiset_ensures;

    let n = v.len();
    if n <= 1 {
        return ;
    }
    let mut i: usize = 1;
    while i < n
        invariant
            1 <= i <= n,
            n == v@.len(),
            v@.to_multiset() == old(v)@.to_multiset(),
            spheres_in_range(v@),
            sorted_by_key(v@.subrange(0, i as int), axis as int),
            axis < 3,
        decreases n - i,
    {
        let ghost before = v@;
        let x = v.remove(i);
        proof {
            before.to_multiset_ensures();
            assert(before.remove(i as int).to_multiset() =~= before.to_multiset().remove(
                before[i as int],
            ));
            assert(before.contains(before[i as int]));
            assert(before.to_multiset().contains(before[i as int]));
        }
        let kx = key_of(&x, axis);
        let mut j: usize = 0;
        while j < i && key_of(&v[j], axis) <= kx
            invariant
                j <= i,
                i < n,
                n == v@.len() + 1,
                v@ == before.remove(i as int),
                sphere_in_range(x),
                spheres_in_range(v@),
                axis < 3,
                kx as int == sph_key(x, axis as int),
                forall|p: int| 0 <= p < j ==> sph_key(#[trigger] v@[p], axis as int) <= sph_key(
                    x,
                    axis as int,
                ),
            decreases i - j,
        {
            proof {
                assert(sph_key(v@[j as int], axis as int) <= sph_key(x, axis as int));
            }
            j = j + 1;
        }
        v.insert(j, x);
        proof {
            lemma_insert_to_multiset(before.remove(i as int), j as int, x);
            assert(v@.to_multiset() =~= before.to_multiset());
            assert(v@.to_multiset() == old(v)@.to_multiset());
            assert forall|p: int, q: int| 0 <= p < q < i + 1 implies sph_key(
                #[trigger] v@[p],
                axis as int,
            ) <= sph_key(#[trigger] v@[q], axis as int) by {
                let w = before.remove(i as int);
                assert(forall|p2: int| 0 <= p2 < i ==> w[p2] == before[p2]);
                assert(forall|p2: int| 0 <= p2 < j ==> v@[p2] == w[p2]);
                assert(v@[j as int] == x);
                assert(forall|p2: int| j < p2 <= i ==> v@[p2] == w[p2 - 1]);
                if j < i {
                    assert(sph_key(w[j as int], axis as int) > sph_key(x, axis as int));
                }
            }
            assert(sorted_by_key(v@.subrange(0, i + 1 as int), axis as int)) by {
                assert(forall|p: int| 0 <= p < i + 1 ==> v@.subrange(0, i + 1 as int)[p] == v@[p]);
            }
        }
        i = i + 1;
    }
    proof {
        assert(v@.subrange(0, n as int) =~= v@);
    }
}

impl BVH {
    /// Build a tree from a non-empty set of spheres: pick an axis at
    /// random, order the spheres along it, split in the middle, and cache
    /// the union box at each node.
    pub fn new(objects: Vec<Sphere>) -> (r: BVH)
        requires
            objects@.len() >= 1,
            spheres_in_range(objects@),
        ensures
            bvh_wf(r),
            bvh_spheres(r).to_multiset() == objects@.to_multiset(),
        decreases objects@.len(),
    {
        broadcast use vstd::seq_lib::group_to_multiset_ensures;

        let ghost input = objects@;
        let axis = random_axis();
        if objects.len() == 1 {
            proof {
                assert(objects@ =~= seq![objects@[0]]);
            }
            BVH::Leaf(objects[0])
        } else if objects.len() == 2 {
            let first = objects[0];
            let second = objects[1];
            let (lo, hi) = if key_of(&first, axis) < key_of(&second, axis) {
                (first, second)
            } else {
                (second, first)
            };
            let node = BVH::make_node(BVH::Leaf(lo), BVH::Leaf(hi));
            proof {
                assert(objects@ =~= seq![first].push(second));
                assert(seq![first].to_multiset() =~= Multiset::<Sphere>::empty().insert(first));
                assert(bvh_spheres(node) =~= seq![lo].push(hi));
                assert(seq![lo].to_multiset() =~= Multiset::<Sphere>::empty().insert(lo));
            }
            node
        } else {
            let mut objects = objects;
            sort_by_axis(&mut objects, axis);
            let ghost sorted = objects@;
            let mid = objects.len() / 2;
            let right_half = objects.split_off(mid);
            proof {
                lemma_multiset_commutative(objects@, right_half@);
                assert(objects@ + right_half@ =~= sorted);
            }
            let ghost left_seq = objects@;
            let ghost right_seq = right_half@;
            let left = BVH::new(objects);
            let right = BVH::new(right_half);
            let ghost gl = bvh_spheres(left);
            let ghost gr = bvh_spheres(right);
            let node = BVH::make_node(left, right);
            proof {
                lemma_multiset_commutative(gl, gr);
                lemma_multiset_commutative(left_seq, right_seq);
            }
            node
        }
    }

    /// One node over two subtrees, caching the union of their boxes.
    fn make_node(left: BVH, right: BVH) -> (r: BVH)
        requires
            bvh_wf(left),
            bvh_wf(right),
        ensures
            bvh_wf(r),
            bvh_spheres(r) == bvh_spheres(left) + bvh_spheres(right),
            r matches BVH::Node { .. },
    {
        let mut left_box = AABB::new(Point::ceros(), Point::ceros());
        let mut right_box = AABB::new(Point::ceros(), Point::ceros());
        let _got_left = left.bounding_box(&mut left_box);
        let _got_right = right.bounding_box(&mut right_box);
        let bbox = AABB::surrounding_box(&left_box, &right_box);
        BVH::Node { left: Box::new(left), right: Box::new(right), bbox }
    }

    /// Build from a flat list, leaving the list as it is.
    pub fn from_hittable_list(list: &HittableList) -> (r: BVH)
        requires
            list.objects@.len() >= 1,
            spheres_in_range(list.objects@),
        ensures
            bvh_wf(r),
            bvh_spheres(r).to_multiset() == list.objects@.to_multiset(),
    {
        let mut copy: Vec<Sphere> = Vec::new();
        let mut i: usize = 0;
        while i < list.objects.len()
            invariant
                i <= list.objects@.len(),
                copy@ =~= list.objects@.subrange(0, i as int),
                spheres_in_range(list.objects@),
            decreases list.objects@.len() - i,
        {
            copy.push(list.objects[i]);
            proof {
                assert(copy@ =~= list.objects@.subrange(0, i + 1 as int));
            }
            i = i + 1;
        }
        proof {
            assert(copy@ =~= list.objects@);
        }
        BVH::new(copy)
    }

    /// Traverse for the nearest hit: reject on the cached box, search the
    /// left subtree, then the right over the window shrunk to the left's
    /// best parameter.
    pub fn hit(&self, ray: &Ray, t_min: i64, t_max: i64, rec: &mut HitRecord) -> (r: bool)
        requires
            bvh_wf(*self),
            ray_in_range(*ray),
            -(COORD_LIMIT as int) <= t_min,
            t_max <= COORD_LIMIT as int,
        ensures
            r == (bvh_hit_spec(*self, *ray, t_min as int, t_max as int) is Some),
            r ==> (bvh_hit_spec(*self, *ray, t_min as int, t_max as int) matches Some(pr)
                && *final(rec) == sphere_hit_record(pr.0, *ray, pr.1)),
            r ==> rec_in_range(*final(rec)),
            !r ==> *final(rec) == *old(rec),
        decreases *self,
    {
        match self {
            BVH::Leaf(s) => s.hit(ray, t_min, t_max, rec),
            BVH::Node { left, right, bbox } => {
                proof {
                    lemma_bvh_bbox_in_range(*self);
                }
                if !bbox.hit(ray, t_min, t_max) {
                    return false;
                }
                let hit_left = left.hit(ray, t_min, t_max, rec);
                proof {
                    lemma_bvh_hit_in_window(**left, *ray, t_min as int, t_max as int);
                }
                let window = if hit_left {
                    rec.t
                } else {
                    t_max
                };
                let hit_right = right.hit(ray, t_min, window, rec);
                hit_left || hit_right
            },
        }
    }

    /// Report the cached box (a leaf computes its sphere's).
    pub fn bounding_box(&self, output_box: &mut AABB) -> (r: bool)
        requires
            bvh_wf(*self),
        ensures
            r,
            *final(output_box) == bvh_bbox_spec(*self),
    {
        match self {
            BVH::Leaf(s) => s.bounding_box(output_box),
            BVH::Node { bbox, .. } => {
                *output_box = *bbox;
                true
            },
        }
    }
}

} // verus!
