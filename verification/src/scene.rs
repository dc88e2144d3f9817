use vstd::prelude::*;
use crate::aabb::AABB;
use crate::bvh::{is_probe, BVHNode};
use crate::construct::{builds, list_order, reports_boxes};
use crate::hittable::{boxes_of, hit_returns, scan_returns, HitRecord, Hittable};
use crate::ray::Ray;
use crate::scalar::Scalar;
use crate::split::is_cost;

verus! {

/// The most primitives that a leaf of a scene's hierarchy holds.
pub const MAX_OBJECTS_PER_BVH_LEAF: usize = 5;

/// The primitives to render, and the hierarchy over them once it is built.
pub struct Scene<P: Hittable> {
    pub objects: Vec<P>,
    pub bvh: Option<BVHNode>,
}

impl<P: Hittable> Scene<P> {
    /// The scene's invariant: a hierarchy that is there is one over the scene's
    /// primitives, all of them, with boxes that enclose theirs.
    pub open spec fn wf(&self) -> bool {
        self.bvh matches Some(root) ==> {
            &&& root@.within(self.objects@.len())
            &&& root@.indices().to_multiset() == list_order(self.objects@.len()).to_multiset()
            &&& root@.leaves_hold(MAX_OBJECTS_PER_BVH_LEAF as nat)
            &&& exists|boxes: Seq<AABB>|
                #![trigger boxes_of(self.objects@, boxes)]
                boxes_of(self.objects@, boxes) && root@.encloses(boxes)
        }
    }

    /// Whether the hierarchy is built, as a query needs it to be.
    pub open spec fn is_built(&self) -> bool {
        self.bvh is Some
    }

    /// `r` may be what `hit` returns: what a traversal of the hierarchy may.
    pub open spec fn hit_returns<F: Fn(AABB, Ray) -> bool>(
        &self,
        ray: Ray,
        t_min: Scalar,
        t_max: Scalar,
        box_hit: F,
        r: Option<HitRecord>,
    ) -> bool {
        self.bvh matches Some(root) && root@.hit_returns(
            self.objects@,
            ray,
            t_min,
            t_max,
            box_hit,
            r,
        )
    }

    /// The empty scene.
    pub fn new() -> (scene: Scene<P>)
        ensures
            scene.objects@.len() == 0,
            scene.bvh is None,
            scene.wf(),
    {
        Scene { objects: Vec::new(), bvh: None }
    }

    /// Adds a primitive. The hierarchy, if there was one, no longer fits and is
    /// dropped.
    pub fn add(&mut self, object: P)
        ensures
            final(self).objects@ == old(self).objects@.push(object),
            final(self).bvh is None,
            final(self).wf(),
    {
        self.objects.push(object);
        self.bvh = None;
    }

    /// Builds the hierarchy over the scene's primitives.
    pub fn build_bvh<C: Fn(AABB, usize, AABB, usize) -> Scalar>(&mut self, cost: &C)
        requires
            old(self).objects@.len() >= 1,
            reports_boxes(old(self).objects@),
            is_cost(*cost),
        ensures
            final(self).objects@ == old(self).objects@,
            final(self).wf(),
            final(self).bvh matches Some(root) && exists|boxes: Seq<AABB>|
                #![trigger boxes_of(old(self).objects@, boxes)]
                boxes_of(old(self).objects@, boxes) && builds(
                    *cost,
                    boxes,
                    list_order(old(self).objects@.len()),
                    MAX_OBJECTS_PER_BVH_LEAF as nat,
                    root@,
                ),
    {
        let root = BVHNode::build(&self.objects, MAX_OBJECTS_PER_BVH_LEAF, cost);
        self.bvh = Some(root);
    }

    /// The nearest hit of `ray` in the scene with a parameter in
    /// `[t_min, t_max]`, found through the hierarchy.
    pub fn hit<F: Fn(AABB, Ray) -> bool>(
        &self,
        ray: &Ray,
        t_min: Scalar,
        t_max: Scalar,
        box_hit: &F,
    ) -> (r: Option<HitRecord>)
        requires
            self.is_built(),
            self.wf(),
            is_probe(*box_hit),
        ensures
            self.hit_returns(*ray, t_min, t_max, *box_hit, r),
    {
        let root = self.bvh.as_ref().unwrap();
        root.hit(&self.objects, ray, t_min, t_max, box_hit)
    }

    /// The nearest hit of `ray` in the scene with a parameter in
    /// `[t_min, t_max]`, found by testing every primitive in turn.
    pub fn hit_linear(&self, ray: &Ray, t_min: Scalar, t_max: Scalar) -> (r: Option<HitRecord>)
        ensures
            scan_returns(
                self.objects@,
                list_order(self.objects@.len()),
                *ray,
                t_min,
                t_max,
                None,
                r,
            ),
    {
        let n = self.objects.len();
        let ghost order = list_order(n as nat);
        let mut earliest_hit: Option<HitRecord> = None;
        let mut t = t_max;
        let mut i: usize = 0;
        assert(order.skip(0) == order);
        while i < n
            invariant
                i <= n,
                n == self.objects@.len(),
                order == list_order(n as nat),
                forall|out: Option<HitRecord>| #[trigger]
                    scan_returns(self.objects@, order.skip(i as int), *ray, t_min, t, earliest_hit, out)
                        ==> scan_returns(self.objects@, order, *ray, t_min, t_max, None, out),
            decreases n - i,
        {
            let ghost rest = order.skip(i as int);
            let ghost before = earliest_hit;
            let ghost before_t = t;
            assert(rest.drop_first() == order.skip(i + 1));
            assert(rest[0] == i);
            let found = self.objects[i].hit(ray, t_min, t);
            assert(hit_returns(self.objects@[rest[0] as int], *ray, t_min, before_t, found));
            if let Some(hit) = found {
                earliest_hit = Some(hit);
                t = hit.t;
            }
            proof {
                assert forall|out: Option<HitRecord>| #[trigger]
                    scan_returns(self.objects@, order.skip(i + 1), *ray, t_min, t, earliest_hit, out)
                    implies scan_returns(self.objects@, order, *ray, t_min, t_max, None, out) by {
                    assert(scan_returns(self.objects@, rest, *ray, t_min, before_t, before, out));
                }
            }
            i += 1;
        }
        assert(scan_returns(
            self.objects@,
            order.skip(i as int),
            *ray,
            t_min,
            t,
            earliest_hit,
            earliest_hit,
        ));
        earliest_hit
    }
}

} // verus!
