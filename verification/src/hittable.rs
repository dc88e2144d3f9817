use vstd::prelude::*;
use crate::aabb::AABB;
use crate::material::Material;
use crate::ray::Ray;
use crate::scalar::Scalar;
use crate::vec3::Vec3;

verus! {

/// Where a ray met a surface: the point, the unit normal there, the ray
/// parameter of the meeting and the material of what was hit.
#[derive(Clone, Copy, Debug, PartialEq, Eq, Structural)]
pub struct HitRecord {
    pub point: Vec3,
    pub normal: Vec3,
    pub t: Scalar,
    pub material: Material,
}

/// What a primitive offers: a test against a ray, and a box around itself.
///
/// The library asks nothing of an implementation here. Its functions say what
/// they return whatever the primitives answer, over `hit_returns` and
/// `box_returns`; what a law needs of the primitives, it states as its own
/// premise.
pub trait Hittable {
    /// The nearest meeting of `ray` with the primitive whose parameter lies in
    /// `[t_min, t_max]`, if there is one.
    fn hit(&self, ray: &Ray, t_min: Scalar, t_max: Scalar) -> Option<HitRecord>;

    /// A box that holds the primitive.
    fn bounding_box(&self) -> AABB;
}

/// `hit` may return `r` on these arguments.
pub open spec fn hit_returns<P: Hittable>(
    p: P,
    ray: Ray,
    t_min: Scalar,
    t_max: Scalar,
    r: Option<HitRecord>,
) -> bool {
    call_ensures(P::hit, (&p, &ray, t_min, t_max), r)
}

/// `bounding_box` may return `b`.
pub open spec fn box_returns<P: Hittable>(p: P, b: AABB) -> bool {
    call_ensures(P::bounding_box, (&p,), b)
}

/// `boxes` holds, for each primitive in turn, a box that its `bounding_box`
/// may return.
pub open spec fn boxes_of<P: Hittable>(objects: Seq<P>, boxes: Seq<AABB>) -> bool {
    &&& boxes.len() == objects.len()
    &&& forall|i: int| 0 <= i < objects.len() ==> box_returns(objects[i], #[trigger] boxes[i])
}

/// Every entry of `order` is an index into a sequence of length `n`.
pub open spec fn in_range(order: Seq<usize>, n: nat) -> bool {
    forall|i: int| 0 <= i < order.len() ==> (#[trigger] order[i]) < n
}

/// `r` may be what the linear scan returns.
///
/// The scan tests the primitives that `order` names one after another, each
/// against the window that the hits so far have left, and keeps the last hit
/// found. `best` is the hit kept so far and `t_max` the end of the window that
/// is left: a primitive that is hit moves the end to the parameter of its hit.
pub open spec fn scan_returns<P: Hittable>(
    objects: Seq<P>,
    order: Seq<usize>,
    ray: Ray,
    t_min: Scalar,
    t_max: Scalar,
    best: Option<HitRecord>,
    r: Option<HitRecord>,
) -> bool
    decreases order.len(),
{
    if order.len() == 0 {
        r == best
    } else {
        exists|found: Option<HitRecord>|
            #![trigger hit_returns(objects[order[0] as int], ray, t_min, t_max, found)]
            hit_returns(objects[order[0] as int], ray, t_min, t_max, found) && match found {
                Some(h) => scan_returns(objects, order.drop_first(), ray, t_min, h.t, found, r),
                None => scan_returns(objects, order.drop_first(), ray, t_min, t_max, best, r),
            }
    }
}

/// Tests the primitives that `order` names one after another and returns the
/// last hit found, each primitive being tested against the window that the
/// hits before it have left: the linear scan over those primitives.
pub fn scan<P: Hittable>(
    objects: &Vec<P>,
    order: &Vec<usize>,
    ray: &Ray,
    t_min: Scalar,
    t_max: Scalar,
) -> (r: Option<HitRecord>)
    requires
        in_range(order@, objects@.len()),
    ensures
        scan_returns(objects@, order@, *ray, t_min, t_max, None, r),
{
    let mut closest: Option<HitRecord> = None;
    let mut closest_t = t_max;
    let mut i: usize = 0;
    assert(order@.skip(0) == order@);
    while i < order.len()
        invariant
            i <= order.len(),
            in_range(order@, objects@.len()),
            forall|out: Option<HitRecord>| #[trigger]
                scan_returns(objects@, order@.skip(i as int), *ray, t_min, closest_t, closest, out)
                    ==> scan_returns(objects@, order@, *ray, t_min, t_max, None, out),
        decreases order.len() - i,
    {
        let ghost rest = order@.skip(i as int);
        let ghost before = closest;
        let ghost before_t = closest_t;
        assert(rest.drop_first() == order@.skip(i + 1));
        assert(rest[0] == order@[i as int]);
        let idx = order[i];
        let found = objects[idx].hit(ray, t_min, closest_t);
        assert(hit_returns(objects@[rest[0] as int], *ray, t_min, before_t, found));
        if let Some(hit) = found {
            closest = Some(hit);
            closest_t = hit.t;
        }
        proof {
            assert forall|out: Option<HitRecord>| #[trigger]
                scan_returns(objects@, order@.skip(i + 1), *ray, t_min, closest_t, closest, out)
                implies scan_returns(objects@, order@, *ray, t_min, t_max, None, out) by {
                assert(scan_returns(objects@, rest, *ray, t_min, before_t, before, out));
            }
        }
        i += 1;
    }
    assert(scan_returns(objects@, order@.skip(i as int), *ray, t_min, closest_t, closest, closest));
    closest
}

} // verus!
