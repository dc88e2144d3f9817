use vstd::prelude::*;
use crate::aabb::AABB;
use crate::bvh::{probe_returns, Tree};
use crate::construct::{all_wf, builds, lemma_builds_sound, list_order};
use crate::hittable::{in_range, scan_returns, HitRecord, Hittable};
use crate::nearest::{
    all_answer_as, answers_as, clip, is_nearest, lemma_nearest_agree, lemma_relabel_nearest,
    lemma_scan_is_nearest, no_ties, same_members,
};
use crate::ray::Ray;
use crate::scalar::Scalar;
use crate::traversal::probe_admits;

verus! {

/// Two answers to one query agree: both are a hit or neither is, the two hits
/// have the same parameter, and `same` says whether they must be the same
/// record.
pub open spec fn agree(a: Option<HitRecord>, b: Option<HitRecord>, same: bool) -> bool {
    &&& a is Some <==> b is Some
    &&& a matches Some(h) ==> (b matches Some(g) ==> h.t.rank() == g.t.rank() && !h.t.is_nan()
        && !g.t.is_nan())
    &&& same ==> a == b
}

/// The ray and the box test go together with the primitives of a scene.
/// Every primitive answers all windows alike, `firsts` holding its first
/// meeting with the ray; and the box test passes on every box that contains
/// the box of a primitive that the ray hits within the window, `boxes`
/// holding the box of every primitive.
pub open spec fn well_behaved<P: Hittable, F: Fn(AABB, Ray) -> bool>(
    objects: Seq<P>,
    firsts: Seq<Option<HitRecord>>,
    boxes: Seq<AABB>,
    ray: Ray,
    t_min: Scalar,
    t_max: Scalar,
    f: F,
) -> bool {
    &&& all_answer_as(objects, ray, t_min, firsts)
    &&& boxes.len() == objects.len()
    &&& !t_max.is_nan()
    &&& probe_admits(firsts, boxes, ray, t_max, f)
}

/// `tree` is a hierarchy over all primitives of a scene, of which `boxes`
/// holds the boxes: its leaves name every primitive, and nothing else, and the
/// box of every node contains the boxes of the primitives under it.
pub open spec fn spans(tree: Tree, boxes: Seq<AABB>) -> bool {
    &&& tree.within(boxes.len())
    &&& same_members(tree.indices(), list_order(boxes.len()))
    &&& tree.encloses(boxes)
}

/// Sequences that hold the same elements name the same primitives.
pub proof fn lemma_permutation_same_members(a: Seq<usize>, b: Seq<usize>)
    requires
        a.to_multiset() == b.to_multiset(),
    ensures
        same_members(a, b),
{
    a.to_multiset_ensures();
    b.to_multiset_ensures();
    assert forall|i: int| 0 <= i < a.len() implies b.contains(#[trigger] a[i]) by {
        assert(a.contains(a[i]));
        assert(a.to_multiset().count(a[i]) > 0);
        assert(b.to_multiset().count(a[i]) > 0);
    }
    assert forall|j: int| 0 <= j < b.len() implies a.contains(#[trigger] b[j]) by {
        assert(b.contains(b[j]));
        assert(b.to_multiset().count(b[j]) > 0);
        assert(a.to_multiset().count(b[j]) > 0);
    }
}

/// A traversal of a hierarchy over all primitives of a scene returns a nearest
/// hit among all of them.
pub proof fn lemma_traversal_is_nearest<P: Hittable, F: Fn(AABB, Ray) -> bool>(
    objects: Seq<P>,
    firsts: Seq<Option<HitRecord>>,
    boxes: Seq<AABB>,
    tree: Tree,
    ray: Ray,
    t_min: Scalar,
    t_max: Scalar,
    f: F,
    r: Option<HitRecord>,
)
    requires
        spans(tree, boxes),
        well_behaved(objects, firsts, boxes, ray, t_min, t_max, f),
        tree.hit_returns(objects, ray, t_min, t_max, f, r),
    ensures
        is_nearest(firsts, list_order(objects.len()), t_max, r),
{
    tree.lemma_hit_is_nearest(objects, firsts, boxes, ray, t_min, t_max, f, r);
    lemma_relabel_nearest(firsts, tree.indices(), list_order(objects.len()), t_max, r);
}

/// The traversal of a hierarchy finds what the linear scan over all
/// primitives finds: a hit exactly when the scan finds one, at the same
/// parameter, and the same record where no two primitives are hit at the same
/// parameter. This holds of every hierarchy over the primitives, however its
/// nodes were cut.
pub proof fn lemma_traversal_matches_scan<P: Hittable, F: Fn(AABB, Ray) -> bool>(
    objects: Seq<P>,
    firsts: Seq<Option<HitRecord>>,
    boxes: Seq<AABB>,
    tree: Tree,
    ray: Ray,
    t_min: Scalar,
    t_max: Scalar,
    f: F,
    by_tree: Option<HitRecord>,
    by_scan: Option<HitRecord>,
)
    requires
        objects.len() <= usize::MAX,
        spans(tree, boxes),
        well_behaved(objects, firsts, boxes, ray, t_min, t_max, f),
        tree.hit_returns(objects, ray, t_min, t_max, f, by_tree),
        scan_returns(objects, list_order(objects.len()), ray, t_min, t_max, None, by_scan),
    ensures
        agree(by_tree, by_scan, no_ties(firsts, list_order(objects.len()), t_max)),
{
    let all = list_order(objects.len());
    lemma_traversal_is_nearest(objects, firsts, boxes, tree, ray, t_min, t_max, f, by_tree);
    assert(in_range(all, objects.len()));
    lemma_scan_is_nearest(objects, firsts, all, ray, t_min, t_max, by_scan);
    lemma_nearest_agree(firsts, all, t_max, by_tree, by_scan);
}

/// What the build returns is a hierarchy over all primitives, whatever the
/// cost function and the leaf size.
pub proof fn lemma_built_tree_spans<C: Fn(AABB, usize, AABB, usize) -> Scalar>(
    c: C,
    boxes: Seq<AABB>,
    max: nat,
    tree: Tree,
)
    requires
        1 <= boxes.len() <= usize::MAX,
        max >= 1,
        all_wf(boxes),
        builds(c, boxes, list_order(boxes.len()), max, tree),
    ensures
        spans(tree, boxes),
{
    let all = list_order(boxes.len());
    lemma_builds_sound(c, boxes, all, max, tree);
    lemma_permutation_same_members(tree.indices(), all);
}

/// The hierarchy that the build returns finds what the linear scan finds,
/// whatever cost function chose its cuts and whatever its leaf size.
pub proof fn lemma_built_tree_matches_scan<
    P: Hittable,
    C: Fn(AABB, usize, AABB, usize) -> Scalar,
    F: Fn(AABB, Ray) -> bool,
>(
    objects: Seq<P>,
    firsts: Seq<Option<HitRecord>>,
    boxes: Seq<AABB>,
    c: C,
    max: nat,
    tree: Tree,
    ray: Ray,
    t_min: Scalar,
    t_max: Scalar,
    f: F,
    by_tree: Option<HitRecord>,
    by_scan: Option<HitRecord>,
)
    requires
        1 <= objects.len() <= usize::MAX,
        max >= 1,
        all_wf(boxes),
        well_behaved(objects, firsts, boxes, ray, t_min, t_max, f),
        builds(c, boxes, list_order(boxes.len()), max, tree),
        tree.hit_returns(objects, ray, t_min, t_max, f, by_tree),
        scan_returns(objects, list_order(objects.len()), ray, t_min, t_max, None, by_scan),
    ensures
        agree(by_tree, by_scan, no_ties(firsts, list_order(objects.len()), t_max)),
{
    lemma_built_tree_spans(c, boxes, max, tree);
    lemma_traversal_matches_scan(
        objects,
        firsts,
        boxes,
        tree,
        ray,
        t_min,
        t_max,
        f,
        by_tree,
        by_scan,
    );
}

/// `second` holds the elements of `first` in another order: `place[k]` is
/// where the `k`-th element of `second` stands in `first`, and every place of
/// `first` is taken.
pub open spec fn reordered<T>(first: Seq<T>, second: Seq<T>, place: Seq<usize>) -> bool {
    &&& second.len() == first.len()
    &&& place.len() == first.len()
    &&& in_range(place, first.len())
    &&& forall|k: int| 0 <= k < second.len() ==> #[trigger] second[k] == first[place[k] as int]
    &&& forall|i: usize| i < first.len() ==> #[trigger] place.contains(i)
}

/// Building over the same primitives in another order changes no answer: the
/// traversals of two hierarchies, one over a list of primitives and one over
/// the same primitives reordered, find a hit for the same rays, at the same
/// parameter, and the same record where no two primitives are hit at the same
/// parameter.
pub proof fn lemma_rebuild_agrees<P: Hittable, F: Fn(AABB, Ray) -> bool>(
    first: Seq<P>,
    second: Seq<P>,
    place: Seq<usize>,
    firsts: Seq<Option<HitRecord>>,
    boxes_one: Seq<AABB>,
    boxes_two: Seq<AABB>,
    tree_one: Tree,
    tree_two: Tree,
    ray: Ray,
    t_min: Scalar,
    t_max: Scalar,
    f: F,
    by_one: Option<HitRecord>,
    by_two: Option<HitRecord>,
)
    requires
        first.len() <= usize::MAX,
        reordered(first, second, place),
        reordered(boxes_one, boxes_two, place),
        spans(tree_one, boxes_one),
        spans(tree_two, boxes_two),
        well_behaved(first, firsts, boxes_one, ray, t_min, t_max, f),
        tree_one.hit_returns(first, ray, t_min, t_max, f, by_one),
        tree_two.hit_returns(second, ray, t_min, t_max, f, by_two),
    ensures
        agree(by_one, by_two, no_ties(firsts, list_order(first.len()), t_max)),
{
    let n = first.len();
    let all = list_order(n);
    let moved = Seq::new(n, |k: int| firsts[place[k] as int]);
    // what holds of the primitives holds of them in the other order
    assert(well_behaved(second, moved, boxes_two, ray, t_min, t_max, f)) by {
        assert forall|k: int| 0 <= k < second.len() implies answers_as(
            second[k],
            ray,
            t_min,
            #[trigger] moved[k],
        ) by {
            assert(second[k] == first[place[k] as int]);
            assert(answers_as(first[place[k] as int], ray, t_min, firsts[place[k] as int]));
        }
        assert forall|i: int, outer: AABB, met: bool|
            #![trigger probe_returns(f, outer, ray, met), moved[i]]
            0 <= i < moved.len() && clip(moved[i], t_max) is Some && outer.contains(boxes_two[i])
                && probe_returns(f, outer, ray, met) implies met by {
            let j = place[i] as int;
            assert(boxes_two[i] == boxes_one[j]);
            assert(clip(firsts[j], t_max) is Some);
        }
    }
    lemma_traversal_is_nearest(first, firsts, boxes_one, tree_one, ray, t_min, t_max, f, by_one);
    lemma_traversal_is_nearest(second, moved, boxes_two, tree_two, ray, t_min, t_max, f, by_two);
    // the second answer, told over the first list
    assert(is_nearest(firsts, place, t_max, by_two)) by {
        assert forall|k: int| 0 <= k < n implies clip(moved[(#[trigger] all[k]) as int], t_max)
            == clip(firsts[place[k] as int], t_max) by {}
        match by_two {
            None => {
                assert forall|k: int| 0 <= k < place.len() implies clip(
                    firsts[(#[trigger] place[k]) as int],
                    t_max,
                ) is None by {
                    assert(clip(moved[all[k] as int], t_max) is None);
                }
            },
            Some(h) => {
                let k = choose|k: int|
                    0 <= k < all.len() && clip(moved[(#[trigger] all[k]) as int], t_max)
                        == Some(h);
                assert(clip(firsts[place[k] as int], t_max) == Some(h));
                assert forall|k: int| 0 <= k < place.len() implies (clip(
                    firsts[(#[trigger] place[k]) as int],
                    t_max,
                ) matches Some(g) ==> h.t.le_spec(g.t)) by {
                    assert(clip(moved[all[k] as int], t_max) == clip(
                        firsts[place[k] as int],
                        t_max,
                    ));
                }
            },
        }
    }
    assert(same_members(place, all)) by {
        assert forall|i: int| 0 <= i < place.len() implies all.contains(#[trigger] place[i]) by {
            assert(all[place[i] as int] == place[i]);
        }
        assert forall|j: int| 0 <= j < all.len() implies place.contains(#[trigger] all[j]) by {
            assert(place.contains(j as usize));
        }
    }
    lemma_relabel_nearest(firsts, place, all, t_max, by_two);
    lemma_nearest_agree(firsts, all, t_max, by_one, by_two);
}

/// Building over the same primitives in another order, with whatever cost
/// function and leaf size, changes no answer.
pub proof fn lemma_rebuilt_tree_agrees<
    P: Hittable,
    C: Fn(AABB, usize, AABB, usize) -> Scalar,
    D: Fn(AABB, usize, AABB, usize) -> Scalar,
    F: Fn(AABB, Ray) -> bool,
>(
    first: Seq<P>,
    second: Seq<P>,
    place: Seq<usize>,
    firsts: Seq<Option<HitRecord>>,
    boxes_one: Seq<AABB>,
    boxes_two: Seq<AABB>,
    cost_one: C,
    cost_two: D,
    max_one: nat,
    max_two: nat,
    tree_one: Tree,
    tree_two: Tree,
    ray: Ray,
    t_min: Scalar,
    t_max: Scalar,
    f: F,
    by_one: Option<HitRecord>,
    by_two: Option<HitRecord>,
)
    requires
        1 <= first.len() <= usize::MAX,
        max_one >= 1,
        max_two >= 1,
        reordered(first, second, place),
        reordered(boxes_one, boxes_two, place),
        all_wf(boxes_one),
        well_behaved(first, firsts, boxes_one, ray, t_min, t_max, f),
        builds(cost_one, boxes_one, list_order(boxes_one.len()), max_one, tree_one),
        builds(cost_two, boxes_two, list_order(boxes_two.len()), max_two, tree_two),
        tree_one.hit_returns(first, ray, t_min, t_max, f, by_one),
        tree_two.hit_returns(second, ray, t_min, t_max, f, by_two),
    ensures
        agree(by_one, by_two, no_ties(firsts, list_order(first.len()), t_max)),
{
    assert forall|k: int| 0 <= k < boxes_two.len() implies (#[trigger] boxes_two[k]).wf() by {
        assert(boxes_two[k] == boxes_one[place[k] as int]);
    }
    lemma_built_tree_spans(cost_one, boxes_one, max_one, tree_one);
    lemma_built_tree_spans(cost_two, boxes_two, max_two, tree_two);
    lemma_rebuild_agrees(
        first,
        second,
        place,
        firsts,
        boxes_one,
        boxes_two,
        tree_one,
        tree_two,
        ray,
        t_min,
        t_max,
        f,
        by_one,
        by_two,
    );
}

} // verus!
