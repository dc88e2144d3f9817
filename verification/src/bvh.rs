use vstd::prelude::*;
use crate::aabb::AABB;
use crate::hittable::{in_range, scan, scan_returns, HitRecord, Hittable};
use crate::ray::Ray;
use crate::scalar::Scalar;

verus! {

/// A node of the bounding-volume hierarchy. A leaf names its primitives by
/// their index in the list that the hierarchy was built for; an internal node
/// owns its two children.
pub enum BVHNode {
    Internal { left: Box<BVHNode>, right: Box<BVHNode>, bbox: AABB },
    Leaf { objects: Vec<usize>, bbox: AABB },
}

/// The hierarchy as a mathematical tree: what a `BVHNode` is in contracts.
pub ghost enum Tree {
    Internal { left: Box<Tree>, right: Box<Tree>, bbox: AABB },
    Leaf { objects: Seq<usize>, bbox: AABB },
}

impl BVHNode {
    /// The tree that the node stands for.
    pub open spec fn model(&self) -> Tree
        decreases self,
    {
        match self {
            BVHNode::Internal { left, right, bbox } => Tree::Internal {
                left: Box::new(left.model()),
                right: Box::new(right.model()),
                bbox: *bbox,
            },
            BVHNode::Leaf { objects, bbox } => Tree::Leaf { objects: objects@, bbox: *bbox },
        }
    }
}

impl View for BVHNode {
    type V = Tree;

    open spec fn view(&self) -> Tree {
        self.model()
    }
}

/// The box test `f` may answer `r` for this box and ray.
pub open spec fn probe_returns<F: Fn(AABB, Ray) -> bool>(f: F, b: AABB, ray: Ray, r: bool) -> bool {
    call_ensures(f, (b, ray), r)
}

/// `f` can serve as a box test: it may be called on every box and ray.
pub open spec fn is_probe<F: Fn(AABB, Ray) -> bool>(f: F) -> bool {
    forall|b: AABB, ray: Ray| call_requires(f, (b, ray))
}

/// The end of the window that a hit leaves: the parameter of the hit, and
/// `t_max` as it was where nothing was hit.
pub open spec fn cut_to(near: Option<HitRecord>, t_max: Scalar) -> Scalar {
    match near {
        Some(h) => h.t,
        None => t_max,
    }
}

/// The later of two answers where there is one, else the earlier.
pub open spec fn prefer(far: Option<HitRecord>, near: Option<HitRecord>) -> Option<HitRecord> {
    if far is Some {
        far
    } else {
        near
    }
}

impl Tree {
    /// The box of the node.
    pub open spec fn bbox(self) -> AABB {
        match self {
            Tree::Internal { bbox, .. } => bbox,
            Tree::Leaf { bbox, .. } => bbox,
        }
    }

    /// The primitives under the node, leaf by leaf from left to right.
    pub open spec fn indices(self) -> Seq<usize>
        decreases self,
    {
        match self {
            Tree::Internal { left, right, .. } => left.indices() + right.indices(),
            Tree::Leaf { objects, .. } => objects,
        }
    }

    /// Every primitive that a leaf names is an index into a list of length `n`.
    pub open spec fn within(self, n: nat) -> bool
        decreases self,
    {
        match self {
            Tree::Internal { left, right, .. } => left.within(n) && right.within(n),
            Tree::Leaf { objects, .. } => in_range(objects, n),
        }
    }

    /// `r` may be what a traversal returns once the box test has answered
    /// `met`. A node whose box the ray misses reports nothing. A leaf scans its
    /// primitives. An internal node asks its left child, then its right child
    /// with the window cut to the left child's hit, and prefers the right
    /// child's answer.
    pub open spec fn answers_after<P: Hittable, F: Fn(AABB, Ray) -> bool>(
        self,
        objects: Seq<P>,
        ray: Ray,
        t_min: Scalar,
        t_max: Scalar,
        f: F,
        met: bool,
        r: Option<HitRecord>,
    ) -> bool
        decreases self, 0nat,
    {
        if !met {
            r is None
        } else {
            match self {
                Tree::Internal { left, right, .. } => exists|
                    near: Option<HitRecord>,
                    far: Option<HitRecord>,
                |
                    #![trigger prefer(far, near)]
                    left.hit_returns(objects, ray, t_min, t_max, f, near) && right.hit_returns(
                        objects,
                        ray,
                        t_min,
                        cut_to(near, t_max),
                        f,
                        far,
                    ) && r == prefer(far, near),
                Tree::Leaf { objects: members, .. } => scan_returns(
                    objects,
                    members,
                    ray,
                    t_min,
                    t_max,
                    None,
                    r,
                ),
            }
        }
    }

    /// `r` may be what a traversal returns: what it may return once the box
    /// test `f` has answered for the box of the node.
    pub open spec fn hit_returns<P: Hittable, F: Fn(AABB, Ray) -> bool>(
        self,
        objects: Seq<P>,
        ray: Ray,
        t_min: Scalar,
        t_max: Scalar,
        f: F,
        r: Option<HitRecord>,
    ) -> bool
        decreases self, 1nat,
    {
        exists|met: bool|
            #![trigger probe_returns(f, self.bbox(), ray, met)]
            probe_returns(f, self.bbox(), ray, met) && self.answers_after(
                objects,
                ray,
                t_min,
                t_max,
                f,
                met,
                r,
            )
    }
}

impl BVHNode {
    /// The box of the node.
    pub fn bbox(&self) -> (b: AABB)
        ensures
            b == self@.bbox(),
    {
        match self {
            BVHNode::Internal { bbox, .. } => *bbox,
            BVHNode::Leaf { bbox, .. } => *bbox,
        }
    }

    /// The nearest hit of `ray` among the primitives under this node, found by
    /// descending only into nodes whose box `box_hit` says the ray meets.
    pub fn hit<P: Hittable, F: Fn(AABB, Ray) -> bool>(
        &self,
        objects: &Vec<P>,
        ray: &Ray,
        t_min: Scalar,
        t_max: Scalar,
        box_hit: &F,
    ) -> (r: Option<HitRecord>)
        requires
            self@.within(objects@.len()),
            is_probe(*box_hit),
        ensures
            self@.hit_returns(objects@, *ray, t_min, t_max, *box_hit, r),
        decreases self,
    {
        let met = box_hit(self.bbox(), *ray);
        assert(probe_returns(*box_hit, self@.bbox(), *ray, met));
        if !met {
            return None;
        }
        match self {
            BVHNode::Internal { left, right, .. } => {
                let mut closest_hit: Option<HitRecord> = None;
                let mut closest_t = t_max;
                let near = left.hit(objects, ray, t_min, closest_t, box_hit);
                if let Some(hit) = near {
                    closest_hit = Some(hit);
                    closest_t = hit.t;
                }
                let far = right.hit(objects, ray, t_min, closest_t, box_hit);
                if let Some(hit) = far {
                    closest_hit = Some(hit);
                }
                assert(closest_hit == prefer(far, near));
                closest_hit
            },
            BVHNode::Leaf { objects: members, .. } => scan(objects, members, ray, t_min, t_max),
        }
    }
}

} // verus!
