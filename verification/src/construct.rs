use vstd::prelude::*;
use vstd::seq_lib::lemma_multiset_commutative;
use crate::aabb::{lemma_contains_transitive, lemma_merge_contains, AABB};
use crate::bvh::{BVHNode, Tree};
use crate::hittable::{box_returns, boxes_of, in_range, Hittable};
use crate::ordering::{lemma_permutation_in_range, lemma_sorted_order_permutes, sorted_order};
use crate::scalar::Scalar;
use crate::split::{
    bounding_box_of, chooses, cut_order, find_split, is_cost, lemma_prefix_box_contains,
    prefix_box, Split,
};

verus! {

/// The indices `0` to `n - 1` in ascending order: the primitives of a list in
/// the order of the list.
pub open spec fn list_order(n: nat) -> Seq<usize> {
    Seq::new(n, |i: int| i as usize)
}

/// Every box of the sequence meets the invariant of a box.
pub open spec fn all_wf(boxes: Seq<AABB>) -> bool {
    forall|j: int| 0 <= j < boxes.len() ==> (#[trigger] boxes[j]).wf()
}

/// The internal node over two children: its box is the merge of theirs.
pub open spec fn joined(left: Tree, right: Tree) -> Tree {
    Tree::Internal {
        left: Box::new(left),
        right: Box::new(right),
        bbox: left.bbox().merge_spec(right.bbox()),
    }
}

/// `tree` may be the hierarchy that the build returns for the primitives that
/// `order` names.
///
/// Up to `max` primitives make a leaf, whose box is the merge of theirs. More
/// are sorted and cut in two at a cut that the build `chooses`: the primitives
/// up to the cut make the left child and the others the right child, and the
/// box of the node is the merge of the children's boxes.
pub open spec fn builds<C: Fn(AABB, usize, AABB, usize) -> Scalar>(
    c: C,
    boxes: Seq<AABB>,
    order: Seq<usize>,
    max: nat,
    tree: Tree,
) -> bool
    decreases order.len(),
{
    if order.len() <= max || order.len() < 2 {
        tree == (Tree::Leaf { objects: order, bbox: prefix_box(boxes, order, order.len() - 1) })
    } else {
        exists|s: Split, left: Tree, right: Tree|
            #![trigger chooses(c, boxes, order, s), joined(left, right)]
            chooses(c, boxes, order, s) && s.index < order.len() - 1 && tree == joined(left, right)
                && builds(
                c,
                boxes,
                cut_order(boxes, order, s.axis as int).subrange(0, s.index + 1),
                max,
                left,
            ) && builds(
                c,
                boxes,
                cut_order(boxes, order, s.axis as int).subrange(
                    s.index + 1,
                    order.len() as int,
                ),
                max,
                right,
            )
    }
}

impl Tree {
    /// Every leaf holds at least one primitive and at most `max`.
    pub open spec fn leaves_hold(self, max: nat) -> bool
        decreases self,
    {
        match self {
            Tree::Internal { left, right, .. } => left.leaves_hold(max) && right.leaves_hold(max),
            Tree::Leaf { objects, .. } => 1 <= objects.len() <= max,
        }
    }
}

/// A run of at most `max` primitives becomes one leaf that names them in
/// their order, with the merge of their boxes as its box.
pub proof fn lemma_short_run_is_a_leaf<C: Fn(AABB, usize, AABB, usize) -> Scalar>(
    c: C,
    boxes: Seq<AABB>,
    order: Seq<usize>,
    max: nat,
    tree: Tree,
)
    requires
        order.len() <= max,
        builds(c, boxes, order, max, tree),
    ensures
        tree == (Tree::Leaf { objects: order, bbox: prefix_box(boxes, order, order.len() - 1) }),
{
}

/// A run of more than `max` primitives is cut in two parts, neither of them
/// empty, which become the children of an internal node.
pub proof fn lemma_long_run_is_cut<C: Fn(AABB, usize, AABB, usize) -> Scalar>(
    c: C,
    boxes: Seq<AABB>,
    order: Seq<usize>,
    max: nat,
    tree: Tree,
)
    requires
        max >= 1,
        max < order.len() <= usize::MAX,
        in_range(order, boxes.len()),
        builds(c, boxes, order, max, tree),
    ensures
        tree is Internal,
        tree->left.indices().len() >= 1,
        tree->right.indices().len() >= 1,
        tree->left.indices().len() + tree->right.indices().len() == order.len(),
        tree.bbox() == tree->left.bbox().merge_spec(tree->right.bbox()),
{
    let (s, left, right) = choose|s: Split, left: Tree, right: Tree|
        #![trigger chooses(c, boxes, order, s), joined(left, right)]
        chooses(c, boxes, order, s) && s.index < order.len() - 1 && tree == joined(left, right)
            && builds(
            c,
            boxes,
            cut_order(boxes, order, s.axis as int).subrange(0, s.index + 1),
            max,
            left,
        ) && builds(
            c,
            boxes,
            cut_order(boxes, order, s.axis as int).subrange(s.index + 1, order.len() as int),
            max,
            right,
        );
    let sorted = cut_order(boxes, order, s.axis as int);
    lemma_cut_order_permutes(boxes, order, s.axis as int);
    lemma_permutation_in_range(order, sorted, boxes.len());
    let first = sorted.subrange(0, s.index + 1);
    let second = sorted.subrange(s.index + 1, order.len() as int);
    lemma_builds_sound(c, boxes, first, max, left);
    lemma_builds_sound(c, boxes, second, max, right);
    first.to_multiset_ensures();
    second.to_multiset_ensures();
    left.indices().to_multiset_ensures();
    right.indices().to_multiset_ensures();
}

/// The order in which a node's primitives are cut holds the primitives that
/// the node was given, each as often.
pub proof fn lemma_cut_order_permutes(boxes: Seq<AABB>, order: Seq<usize>, axis: int)
    requires
        order.len() <= usize::MAX,
    ensures
        cut_order(boxes, order, axis).len() == order.len(),
        cut_order(boxes, order, axis).to_multiset() == order.to_multiset(),
{
    let by_x = sorted_order(boxes, order, 0);
    let by_y = sorted_order(boxes, by_x, 1);
    let by_z = sorted_order(boxes, by_y, 2);
    lemma_sorted_order_permutes(boxes, order, 0);
    lemma_sorted_order_permutes(boxes, by_x, 1);
    lemma_sorted_order_permutes(boxes, by_y, 2);
    lemma_sorted_order_permutes(boxes, by_z, axis);
}

/// What the build returns is a hierarchy over exactly the primitives it was
/// given: the leaves hold each of them once, at most `max` to a leaf, and the
/// box of every node contains the boxes of the primitives under it.
pub proof fn lemma_builds_sound<C: Fn(AABB, usize, AABB, usize) -> Scalar>(
    c: C,
    boxes: Seq<AABB>,
    order: Seq<usize>,
    max: nat,
    tree: Tree,
)
    requires
        1 <= order.len() <= usize::MAX,
        max >= 1,
        in_range(order, boxes.len()),
        builds(c, boxes, order, max, tree),
    ensures
        tree.indices().to_multiset() == order.to_multiset(),
        tree.within(boxes.len()),
        tree.leaves_hold(max),
        all_wf(boxes) ==> tree.encloses(boxes) && tree.bbox().wf(),
    decreases order.len(),
{
    if order.len() <= max || order.len() < 2 {
        if all_wf(boxes) {
            lemma_prefix_box_contains(boxes, order, order.len() - 1);
        }
    } else {
        let (s, left, right) = choose|s: Split, left: Tree, right: Tree|
            #![trigger chooses(c, boxes, order, s), joined(left, right)]
            chooses(c, boxes, order, s) && s.index < order.len() - 1 && tree == joined(left, right)
                && builds(
                c,
                boxes,
                cut_order(boxes, order, s.axis as int).subrange(0, s.index + 1),
                max,
                left,
            ) && builds(
                c,
                boxes,
                cut_order(boxes, order, s.axis as int).subrange(
                    s.index + 1,
                    order.len() as int,
                ),
                max,
                right,
            );
        let sorted = cut_order(boxes, order, s.axis as int);
        let k = s.index + 1;
        lemma_cut_order_permutes(boxes, order, s.axis as int);
        lemma_permutation_in_range(order, sorted, boxes.len());
        let first = sorted.subrange(0, k);
        let second = sorted.subrange(k, order.len() as int);
        lemma_builds_sound(c, boxes, first, max, left);
        lemma_builds_sound(c, boxes, second, max, right);
        assert(sorted =~= first + second);
        lemma_multiset_commutative(first, second);
        lemma_multiset_commutative(left.indices(), right.indices());
        assert(tree.indices() == left.indices() + right.indices());
        if all_wf(boxes) {
            lemma_merge_contains(left.bbox(), right.bbox());
            assert forall|j: int| 0 <= j < tree.indices().len() implies tree.bbox().contains(
                boxes[(#[trigger] tree.indices()[j]) as int],
            ) by {
                if j < left.indices().len() {
                    assert(tree.indices()[j] == left.indices()[j]);
                    lemma_contains_transitive(
                        tree.bbox(),
                        left.bbox(),
                        boxes[left.indices()[j] as int],
                    );
                } else {
                    let j2 = j - left.indices().len();
                    assert(tree.indices()[j] == right.indices()[j2]);
                    lemma_contains_transitive(
                        tree.bbox(),
                        right.bbox(),
                        boxes[right.indices()[j2] as int],
                    );
                }
            }
        }
    }
}

/// Builds the hierarchy over the primitives that `order` names, where `boxes`
/// holds the box of every primitive.
pub fn build_range<C: Fn(AABB, usize, AABB, usize) -> Scalar>(
    order: Vec<usize>,
    boxes: &Vec<AABB>,
    max_objects_per_leaf: usize,
    cost: &C,
) -> (node: BVHNode)
    requires
        order@.len() >= 1,
        max_objects_per_leaf >= 1,
        in_range(order@, boxes@.len()),
        is_cost(*cost),
    ensures
        builds(*cost, boxes@, order@, max_objects_per_leaf as nat, node@),
    decreases order@.len(),
{
    let mut order = order;
    let ghost given = order@;
    let n = order.len();
    if n <= max_objects_per_leaf {
        let bbox = bounding_box_of(&order, boxes);
        return BVHNode::Leaf { objects: order, bbox };
    }
    let s = find_split(&mut order, boxes, cost);
    proof {
        lemma_cut_order_permutes(boxes@, given, s.axis as int);
        lemma_permutation_in_range(given, order@, boxes@.len());
    }
    let ghost sorted = order@;
    let second = order.split_off(s.index + 1);
    assert(order@ == sorted.subrange(0, s.index + 1));
    assert(second@ == sorted.subrange(s.index + 1, n as int));
    let left = build_range(order, boxes, max_objects_per_leaf, cost);
    let right = build_range(second, boxes, max_objects_per_leaf, cost);
    let bbox = left.bbox().merge(&right.bbox());
    let node = BVHNode::Internal { left: Box::new(left), right: Box::new(right), bbox };
    proof {
        assert(node@ == joined(left@, right@));
        assert(chooses(*cost, boxes@, given, s));
    }
    node
}

/// Every box that a primitive may report meets the invariant of a box.
pub open spec fn reports_boxes<P: Hittable>(objects: Seq<P>) -> bool {
    forall|i: int, b: AABB|
        0 <= i < objects.len() && #[trigger] box_returns(objects[i], b) ==> b.wf()
}

impl BVHNode {
    /// Builds the hierarchy over all primitives of `objects`, with at most
    /// `max_objects_per_leaf` primitives to a leaf. `cost` prices a cut: it is
    /// given the box and the number of the primitives on either side.
    pub fn build<P: Hittable, C: Fn(AABB, usize, AABB, usize) -> Scalar>(
        objects: &Vec<P>,
        max_objects_per_leaf: usize,
        cost: &C,
    ) -> (node: BVHNode)
        requires
            objects@.len() >= 1,
            max_objects_per_leaf >= 1,
            reports_boxes(objects@),
            is_cost(*cost),
        ensures
            exists|boxes: Seq<AABB>|
                #![trigger boxes_of(objects@, boxes)]
                boxes_of(objects@, boxes) && builds(
                    *cost,
                    boxes,
                    list_order(objects@.len()),
                    max_objects_per_leaf as nat,
                    node@,
                ) && node@.encloses(boxes),
            node@.indices().to_multiset() == list_order(objects@.len()).to_multiset(),
            node@.within(objects@.len()),
            node@.leaves_hold(max_objects_per_leaf as nat),
    {
        let n = objects.len();
        let mut boxes: Vec<AABB> = Vec::with_capacity(n);
        let mut order: Vec<usize> = Vec::with_capacity(n);
        let mut i: usize = 0;
        while i < n
            invariant
                i <= n,
                n == objects@.len(),
                reports_boxes(objects@),
                boxes@.len() == i,
                forall|k: int| 0 <= k < i ==> box_returns(objects@[k], #[trigger] boxes@[k]),
                order@ == list_order(n as nat).take(i as int),
            decreases n - i,
        {
            let b = objects[i].bounding_box();
            assert(box_returns(objects@[i as int], b));
            boxes.push(b);
            order.push(i);
            assert(order@ == list_order(n as nat).take(i + 1));
            i += 1;
        }
        assert(order@ == list_order(n as nat));
        assert(boxes_of(objects@, boxes@));
        assert(all_wf(boxes@));
        let node = build_range(order, &boxes, max_objects_per_leaf, cost);
        proof {
            lemma_builds_sound(
                *cost,
                boxes@,
                list_order(n as nat),
                max_objects_per_leaf as nat,
                node@,
            );
        }
        node
    }
}

} // verus!
