use vstd::prelude::*;
use crate::aabb::AABB;
use crate::bvh::{cut_to, prefer, probe_returns, Tree};
use crate::hittable::{in_range, HitRecord, Hittable};
use crate::nearest::{all_answer_as, clip, is_nearest, lemma_scan_is_nearest};
use crate::ray::Ray;
use crate::scalar::Scalar;

verus! {

/// The box test lets through every ray that hits a primitive inside the box:
/// it passes on every box that contains the box of a primitive that the ray
/// hits within the window. `firsts` holds the first meeting of every primitive
/// with the ray and `boxes` the box of every primitive.
pub open spec fn probe_admits<F: Fn(AABB, Ray) -> bool>(
    firsts: Seq<Option<HitRecord>>,
    boxes: Seq<AABB>,
    ray: Ray,
    t_max: Scalar,
    f: F,
) -> bool {
    forall|i: int, outer: AABB, met: bool|
        #![trigger probe_returns(f, outer, ray, met), firsts[i]]
        0 <= i < firsts.len() && clip(firsts[i], t_max) is Some && outer.contains(boxes[i])
            && probe_returns(f, outer, ray, met) ==> met
}

impl Tree {
    /// The box of every node contains the box of every primitive under it,
    /// where `boxes` gives the box of each primitive.
    pub open spec fn encloses(self, boxes: Seq<AABB>) -> bool
        decreases self,
    {
        &&& forall|k: int|
            0 <= k < self.indices().len() ==> self.bbox().contains(
                boxes[(#[trigger] self.indices()[k]) as int],
            )
        &&& match self {
            Tree::Internal { left, right, .. } => left.encloses(boxes) && right.encloses(boxes),
            Tree::Leaf { .. } => true,
        }
    }

    /// `within` says of `indices` what it says of the leaves.
    pub proof fn lemma_indices_within(self, n: nat)
        requires
            self.within(n),
        ensures
            in_range(self.indices(), n),
        decreases self,
    {
        match self {
            Tree::Internal { left, right, .. } => {
                left.lemma_indices_within(n);
                right.lemma_indices_within(n);
            },
            Tree::Leaf { .. } => {},
        }
    }

    /// The traversal returns a nearest hit among the primitives under the
    /// node, where the box of every node contains the boxes of the primitives
    /// under it and the box test lets through every ray that hits a primitive
    /// inside the box.
    pub proof fn lemma_hit_is_nearest<P: Hittable, F: Fn(AABB, Ray) -> bool>(
        self,
        objects: Seq<P>,
        firsts: Seq<Option<HitRecord>>,
        boxes: Seq<AABB>,
        ray: Ray,
        t_min: Scalar,
        t_max: Scalar,
        f: F,
        r: Option<HitRecord>,
    )
        requires
            self.within(objects.len()),
            boxes.len() == objects.len(),
            all_answer_as(objects, ray, t_min, firsts),
            self.encloses(boxes),
            probe_admits(firsts, boxes, ray, t_max, f),
            !t_max.is_nan(),
            self.hit_returns(objects, ray, t_min, t_max, f, r),
        ensures
            is_nearest(firsts, self.indices(), t_max, r),
        decreases self,
    {
        let all = self.indices();
        self.lemma_indices_within(objects.len());
        let met = choose|met: bool|
            #![trigger probe_returns(f, self.bbox(), ray, met)]
            probe_returns(f, self.bbox(), ray, met) && self.answers_after(
                objects,
                ray,
                t_min,
                t_max,
                f,
                met,
                r,
            );
        if !met {
            assert forall|k: int| 0 <= k < all.len() implies clip(
                firsts[(#[trigger] all[k]) as int],
                t_max,
            ) is None by {
                let i = all[k] as int;
                if clip(firsts[i], t_max) is Some {
                    assert(self.bbox().contains(boxes[i]));
                    assert(probe_returns(f, self.bbox(), ray, met));
                    assert(false);
                }
            }
        } else {
            match self {
                Tree::Internal { left, right, .. } => {
                    let l = left.indices();
                    let rr = right.indices();
                    left.lemma_indices_within(objects.len());
                    right.lemma_indices_within(objects.len());
                    let (near, far) = choose|near: Option<HitRecord>, far: Option<HitRecord>|
                        #![trigger prefer(far, near)]
                        left.hit_returns(objects, ray, t_min, t_max, f, near) && right.hit_returns(
                            objects,
                            ray,
                            t_min,
                            cut_to(near, t_max),
                            f,
                            far,
                        ) && r == prefer(far, near);
                    left.lemma_hit_is_nearest(objects, firsts, boxes, ray, t_min, t_max, f, near);
                    let cut = cut_to(near, t_max);
                    if near is Some {
                        let hn = near->0;
                        let kn = choose|k: int|
                            0 <= k < l.len() && clip(firsts[(#[trigger] l[k]) as int], t_max)
                                == Some(hn);
                        assert(all[kn] == l[kn]);
                        assert(hn.t.le_spec(t_max));
                    }
                    assert(cut.le_spec(t_max));
                    assert(probe_admits(firsts, boxes, ray, cut, f)) by {
                        assert forall|i: int, outer: AABB, m: bool|
                            #![trigger probe_returns(f, outer, ray, m), firsts[i]]
                            0 <= i < firsts.len() && clip(firsts[i], cut) is Some && outer.contains(
                                boxes[i],
                            ) && probe_returns(f, outer, ray, m) implies m by {
                            assert(clip(firsts[i], t_max) is Some);
                        }
                    }
                    right.lemma_hit_is_nearest(objects, firsts, boxes, ray, t_min, cut, f, far);
                    match r {
                        None => {
                            assert(near is None && far is None);
                            assert forall|k: int| 0 <= k < all.len() implies clip(
                                firsts[(#[trigger] all[k]) as int],
                                t_max,
                            ) is None by {
                                if k < l.len() {
                                    assert(all[k] == l[k]);
                                } else {
                                    assert(all[k] == rr[k - l.len()]);
                                }
                            }
                        },
                        Some(h) => {
                            if far is Some {
                                let kf = choose|k: int|
                                    0 <= k < rr.len() && clip(
                                        firsts[(#[trigger] rr[k]) as int],
                                        cut,
                                    ) == Some(h);
                                assert(all[l.len() + kf] == rr[kf]);
                                assert(clip(firsts[all[l.len() + kf] as int], t_max) == Some(h));
                                assert(h.t.le_spec(cut));
                            }
                            assert forall|k: int| 0 <= k < all.len() implies (clip(
                                firsts[(#[trigger] all[k]) as int],
                                t_max,
                            ) matches Some(g) ==> h.t.le_spec(g.t)) by {
                                if k < l.len() {
                                    assert(all[k] == l[k]);
                                } else {
                                    assert(all[k] == rr[k - l.len()]);
                                }
                            }
                        },
                    }
                },
                Tree::Leaf { objects: members, .. } => {
                    lemma_scan_is_nearest(objects, firsts, members, ray, t_min, t_max, r);
                },
            }
        }
    }
}

} // verus!
