use vstd::prelude::*;
use crate::aabb::{
    lemma_box_contains_itself, lemma_contains_transitive, lemma_merge_contains, AABB,
};
use crate::hittable::in_range;
use crate::ordering::{
    lemma_permutation_in_range, lemma_sorted_order_permutes, sort_by_axis, sorted_order,
};
use crate::scalar::{Scalar, MAX_FINITE_BITS};

verus! {

/// A place to cut a sorted run of primitives in two: the axis it was sorted
/// along, the index of the last primitive of the left part, and what the cut
/// costs.
#[derive(Clone, Copy, Debug, PartialEq, Eq, Structural)]
pub struct Split {
    pub axis: usize,
    pub index: usize,
    pub cost: Scalar,
}

/// The cost function `c` may return `r` on these arguments.
pub open spec fn cost_returns<C: Fn(AABB, usize, AABB, usize) -> Scalar>(
    c: C,
    left: AABB,
    n_left: usize,
    right: AABB,
    n_right: usize,
    r: Scalar,
) -> bool {
    call_ensures(c, (left, n_left, right, n_right), r)
}

/// `c` can serve as a cost function: it may be called on every two boxes and
/// counts.
pub open spec fn is_cost<C: Fn(AABB, usize, AABB, usize) -> Scalar>(c: C) -> bool {
    forall|left: AABB, n_left: usize, right: AABB, n_right: usize|
        call_requires(c, (left, n_left, right, n_right))
}

/// The box around the primitives `order[0]` to `order[i]`: their boxes merged
/// from left to right.
pub open spec fn prefix_box(boxes: Seq<AABB>, order: Seq<usize>, i: int) -> AABB
    decreases i,
{
    if i <= 0 {
        boxes[order[0] as int]
    } else {
        prefix_box(boxes, order, i - 1).merge_spec(boxes[order[i] as int])
    }
}

/// The box around the primitives `order[i]` to the last: their boxes merged
/// from right to left.
pub open spec fn suffix_box(boxes: Seq<AABB>, order: Seq<usize>, i: int) -> AABB
    decreases order.len() - i,
{
    if i >= order.len() - 1 {
        boxes[order[order.len() - 1] as int]
    } else {
        suffix_box(boxes, order, i + 1).merge_spec(boxes[order[i] as int])
    }
}

/// `price` may be what it costs to cut `order` after its `i`-th primitive:
/// what the cost function returns on the box and the number of the primitives
/// up to `i`, and the box and the number of those after it.
pub open spec fn prices_cut<C: Fn(AABB, usize, AABB, usize) -> Scalar>(
    c: C,
    boxes: Seq<AABB>,
    order: Seq<usize>,
    i: int,
    price: Scalar,
) -> bool {
    cost_returns(
        c,
        prefix_box(boxes, order, i),
        (i + 1) as usize,
        suffix_box(boxes, order, i + 1),
        (order.len() - i - 1) as usize,
        price,
    )
}

/// `costs` may be the prices of all cuts of `order`, by the index of the cut.
pub open spec fn prices<C: Fn(AABB, usize, AABB, usize) -> Scalar>(
    c: C,
    boxes: Seq<AABB>,
    order: Seq<usize>,
    costs: Seq<Scalar>,
) -> bool {
    &&& costs.len() == order.len() - 1
    &&& forall|i: int| 0 <= i < costs.len() ==> prices_cut(c, boxes, order, i, #[trigger] costs[i])
}

/// The best cut after the first `upto` cuts of one axis have been looked at,
/// where `best` was the best before: a cut replaces the best so far only if
/// it costs strictly less.
pub open spec fn pick(costs: Seq<Scalar>, axis: usize, upto: int, best: Split) -> Split
    decreases upto,
{
    if upto <= 0 {
        best
    } else {
        let before = pick(costs, axis, upto - 1, best);
        if costs[upto - 1].lt_spec(before.cost) {
            Split { axis, index: (upto - 1) as usize, cost: costs[upto - 1] }
        } else {
            before
        }
    }
}

/// The cut to start from: it costs the largest finite number, so that any
/// cut of a lower cost replaces it.
pub open spec fn no_split() -> Split {
    Split { axis: 0, index: 0, cost: Scalar { bits: MAX_FINITE_BITS } }
}

/// The cheapest cut over the three axes, where the cuts of the axes cost
/// `along_x`, `along_y` and `along_z`: the earliest of the cheapest, x before y
/// before z and a lower index before a higher one.
pub open spec fn best_of(along_x: Seq<Scalar>, along_y: Seq<Scalar>, along_z: Seq<Scalar>) -> Split {
    let best_x = pick(along_x, 0, along_x.len() as int, no_split());
    let best_y = pick(along_y, 1, along_y.len() as int, best_x);
    pick(along_z, 2, along_z.len() as int, best_y)
}

/// `s` may be the cut that the build chooses for `order`: the cheapest over
/// the three axes and all indices. The primitives are sorted along x, from
/// that order along y, from that order along z, and each time every cut is
/// priced.
pub open spec fn chooses<C: Fn(AABB, usize, AABB, usize) -> Scalar>(
    c: C,
    boxes: Seq<AABB>,
    order: Seq<usize>,
    s: Split,
) -> bool {
    exists|along_x: Seq<Scalar>, along_y: Seq<Scalar>, along_z: Seq<Scalar>|
        #![trigger best_of(along_x, along_y, along_z)]
        prices(c, boxes, search_order(boxes, order, 0), along_x) && prices(
            c,
            boxes,
            search_order(boxes, order, 1),
            along_y,
        ) && prices(c, boxes, search_order(boxes, order, 2), along_z) && s == best_of(
            along_x,
            along_y,
            along_z,
        )
}

/// The order in which the primitives are cut: sorted along x, y and z in
/// turn as the search for the cut left them, and then along `axis`.
pub open spec fn cut_order(boxes: Seq<AABB>, order: Seq<usize>, axis: int) -> Seq<usize> {
    let by_x = sorted_order(boxes, order, 0);
    let by_y = sorted_order(boxes, by_x, 1);
    let by_z = sorted_order(boxes, by_y, 2);
    sorted_order(boxes, by_z, axis)
}

/// The best cut names an axis and an index that the best so far or the axis
/// in hand allow.
pub proof fn lemma_pick_bounds(costs: Seq<Scalar>, axis: usize, upto: int, best: Split)
    requires
        upto <= costs.len(),
    ensures
        pick(costs, axis, upto, best) == best || (pick(costs, axis, upto, best).axis == axis
            && pick(costs, axis, upto, best).index < upto),
        !best.cost.is_nan() ==> !pick(costs, axis, upto, best).cost.is_nan(),
    decreases upto,
{
    if upto > 0 {
        lemma_pick_bounds(costs, axis, upto - 1, best);
    }
}

/// No cut that was looked at costs less than the best one, nor does the best
/// so far.
pub proof fn lemma_pick_is_cheapest(costs: Seq<Scalar>, axis: usize, upto: int, best: Split)
    requires
        0 <= upto <= costs.len(),
    ensures
        !best.cost.lt_spec(pick(costs, axis, upto, best).cost),
        forall|i: int| 0 <= i < upto ==> !(#[trigger] costs[i]).lt_spec(pick(costs, axis, upto, best).cost),
    decreases upto,
{
    if upto > 0 {
        lemma_pick_is_cheapest(costs, axis, upto - 1, best);
    }
}

/// The order in which the cuts of `axis` are priced: the primitives sorted
/// along x, from that order along y, from that order along z, up to `axis`.
pub open spec fn search_order(boxes: Seq<AABB>, order: Seq<usize>, axis: int) -> Seq<usize> {
    let by_x = sorted_order(boxes, order, 0);
    let by_y = sorted_order(boxes, by_x, 1);
    if axis == 0 {
        by_x
    } else if axis == 1 {
        by_y
    } else {
        sorted_order(boxes, by_y, 2)
    }
}

/// The cheapest cut is the cheapest: no cut of any axis, at any index, costs
/// less, and its cost is a number.
pub proof fn lemma_best_of_is_cheapest(
    along_x: Seq<Scalar>,
    along_y: Seq<Scalar>,
    along_z: Seq<Scalar>,
)
    ensures
        !best_of(along_x, along_y, along_z).cost.is_nan(),
        forall|i: int|
            0 <= i < along_x.len() ==> !(#[trigger] along_x[i]).lt_spec(
                best_of(along_x, along_y, along_z).cost,
            ),
        forall|i: int|
            0 <= i < along_y.len() ==> !(#[trigger] along_y[i]).lt_spec(
                best_of(along_x, along_y, along_z).cost,
            ),
        forall|i: int|
            0 <= i < along_z.len() ==> !(#[trigger] along_z[i]).lt_spec(
                best_of(along_x, along_y, along_z).cost,
            ),
{
    let best_x = pick(along_x, 0, along_x.len() as int, no_split());
    let best_y = pick(along_y, 1, along_y.len() as int, best_x);
    lemma_pick_bounds(along_x, 0, along_x.len() as int, no_split());
    lemma_pick_bounds(along_y, 1, along_y.len() as int, best_x);
    lemma_pick_bounds(along_z, 2, along_z.len() as int, best_y);
    lemma_pick_is_cheapest(along_x, 0, along_x.len() as int, no_split());
    lemma_pick_is_cheapest(along_y, 1, along_y.len() as int, best_x);
    lemma_pick_is_cheapest(along_z, 2, along_z.len() as int, best_y);
}

/// The cheapest cut lies inside a run of `n` primitives whose cuts were
/// priced: its axis is one of three and both parts are non-empty.
pub proof fn lemma_best_of_bounds(
    along_x: Seq<Scalar>,
    along_y: Seq<Scalar>,
    along_z: Seq<Scalar>,
    n: int,
)
    requires
        n >= 2,
        along_x.len() == n - 1,
        along_y.len() == n - 1,
        along_z.len() == n - 1,
    ensures
        best_of(along_x, along_y, along_z).axis < 3,
        best_of(along_x, along_y, along_z).index < n - 1,
{
    let best_x = pick(along_x, 0, along_x.len() as int, no_split());
    let best_y = pick(along_y, 1, along_y.len() as int, best_x);
    lemma_pick_bounds(along_x, 0, along_x.len() as int, no_split());
    lemma_pick_bounds(along_y, 1, along_y.len() as int, best_x);
    lemma_pick_bounds(along_z, 2, along_z.len() as int, best_y);
}

/// A chosen cut lies inside `order`.
pub proof fn lemma_chooses_bounds<C: Fn(AABB, usize, AABB, usize) -> Scalar>(
    c: C,
    boxes: Seq<AABB>,
    order: Seq<usize>,
    s: Split,
)
    requires
        order.len() >= 2,
        chooses(c, boxes, order, s),
    ensures
        s.axis < 3,
        s.index < order.len() - 1,
{
    let (along_x, along_y, along_z) = choose|
        along_x: Seq<Scalar>,
        along_y: Seq<Scalar>,
        along_z: Seq<Scalar>,
    |
        #![trigger best_of(along_x, along_y, along_z)]
        prices(c, boxes, search_order(boxes, order, 0), along_x) && prices(
            c,
            boxes,
            search_order(boxes, order, 1),
            along_y,
        ) && prices(c, boxes, search_order(boxes, order, 2), along_z) && s == best_of(
            along_x,
            along_y,
            along_z,
        );
    lemma_best_of_bounds(along_x, along_y, along_z, order.len() as int);
}

/// The box around a run of primitives is a box and contains the box of each
/// of them.
pub proof fn lemma_prefix_box_contains(boxes: Seq<AABB>, order: Seq<usize>, i: int)
    requires
        0 <= i < order.len(),
        in_range(order, boxes.len()),
        forall|j: int| 0 <= j < boxes.len() ==> (#[trigger] boxes[j]).wf(),
    ensures
        prefix_box(boxes, order, i).wf(),
        forall|k: int|
            0 <= k <= i ==> prefix_box(boxes, order, i).contains(boxes[(#[trigger] order[k]) as int]),
    decreases i,
{
    let whole = prefix_box(boxes, order, i);
    if i == 0 {
        assert(boxes[order[0] as int].wf());
        lemma_merge_contains(boxes[order[0] as int], boxes[order[0] as int]);
        assert(whole.contains(boxes[order[0] as int])) by {
            lemma_box_contains_itself(whole);
        }
    } else {
        let head = prefix_box(boxes, order, i - 1);
        lemma_prefix_box_contains(boxes, order, i - 1);
        assert(boxes[order[i] as int].wf());
        lemma_merge_contains(head, boxes[order[i] as int]);
        assert forall|k: int| 0 <= k <= i implies whole.contains(
            boxes[(#[trigger] order[k]) as int],
        ) by {
            if k < i {
                lemma_contains_transitive(whole, head, boxes[order[k] as int]);
            }
        }
    }
}

/// The box around the primitives that `order` names.
pub fn bounding_box_of(order: &Vec<usize>, boxes: &Vec<AABB>) -> (b: AABB)
    requires
        order@.len() >= 1,
        in_range(order@, boxes@.len()),
    ensures
        b == prefix_box(boxes@, order@, order@.len() - 1),
{
    let mut bbox = boxes[order[0]];
    let mut i: usize = 1;
    while i < order.len()
        invariant
            1 <= i <= order@.len(),
            in_range(order@, boxes@.len()),
            bbox == prefix_box(boxes@, order@, i - 1),
        decreases order@.len() - i,
    {
        bbox = bbox.merge(&boxes[order[i]]);
        i += 1;
    }
    bbox
}

/// Prices every cut of `order`.
pub fn split_costs<C: Fn(AABB, usize, AABB, usize) -> Scalar>(
    order: &Vec<usize>,
    boxes: &Vec<AABB>,
    cost: &C,
) -> (costs: Vec<Scalar>)
    requires
        order@.len() >= 2,
        in_range(order@, boxes@.len()),
        is_cost(*cost),
    ensures
        prices(*cost, boxes@, order@, costs@),
{
    let n = order.len();
    // the boxes of the right parts, last first
    let mut right: Vec<AABB> = Vec::with_capacity(n);
    let mut bbox = boxes[order[n - 1]];
    right.push(bbox);
    let mut j: usize = n - 1;
    while j > 1
        invariant
            1 <= j <= n - 1,
            n == order@.len(),
            in_range(order@, boxes@.len()),
            right@.len() == n - j,
            bbox == suffix_box(boxes@, order@, j as int),
            forall|k: int|
                0 <= k < right@.len() ==> #[trigger] right@[k] == suffix_box(
                    boxes@,
                    order@,
                    n - 1 - k,
                ),
        decreases j,
    {
        j -= 1;
        bbox = bbox.merge(&boxes[order[j]]);
        right.push(bbox);
    }
    let mut costs: Vec<Scalar> = Vec::with_capacity(n - 1);
    let mut left = boxes[order[0]];
    let mut i: usize = 0;
    while i < n - 1
        invariant
            i <= n - 1,
            n == order@.len(),
            n >= 2,
            in_range(order@, boxes@.len()),
            is_cost(*cost),
            right@.len() == n - 1,
            forall|k: int|
                0 <= k < right@.len() ==> #[trigger] right@[k] == suffix_box(
                    boxes@,
                    order@,
                    n - 1 - k,
                ),
            left == prefix_box(boxes@, order@, i as int),
            costs@.len() == i,
            forall|k: int|
                0 <= k < i ==> prices_cut(*cost, boxes@, order@, k, #[trigger] costs@[k]),
        decreases n - 1 - i,
    {
        let rest = right[n - 2 - i];
        assert(rest == suffix_box(boxes@, order@, i + 1));
        let price = cost(left, i + 1, rest, n - i - 1);
        assert(prices_cut(*cost, boxes@, order@, i as int, price));
        costs.push(price);
        i += 1;
        left = left.merge(&boxes[order[i]]);
    }
    costs
}

/// Looks at every cut of one axis and keeps the cheapest, `best` included.
pub fn pick_split(best: Split, axis: usize, costs: &Vec<Scalar>) -> (r: Split)
    ensures
        r == pick(costs@, axis, costs@.len() as int, best),
{
    let mut chosen = best;
    let mut i: usize = 0;
    while i < costs.len()
        invariant
            i <= costs@.len(),
            chosen == pick(costs@, axis, i as int, best),
        decreases costs@.len() - i,
    {
        if costs[i].lt(chosen.cost) {
            chosen = Split { axis, index: i, cost: costs[i] };
        }
        i += 1;
    }
    chosen
}

/// Finds the cut for `order` and leaves `order` in the order in which it is
/// to be cut.
pub fn find_split<C: Fn(AABB, usize, AABB, usize) -> Scalar>(
    order: &mut Vec<usize>,
    boxes: &Vec<AABB>,
    cost: &C,
) -> (s: Split)
    requires
        old(order)@.len() >= 2,
        in_range(old(order)@, boxes@.len()),
        is_cost(*cost),
    ensures
        chooses(*cost, boxes@, old(order)@, s),
        final(order)@ == cut_order(boxes@, old(order)@, s.axis as int),
        s.axis < 3,
        s.index < old(order)@.len() - 1,
{
    let ghost start = order@;
    let n = order.len();
    let mut best = Split { axis: 0, index: 0, cost: Scalar::max_finite() };
    proof {
        assert(start.len() == n);
        lemma_sorted_order_permutes(boxes@, start, 0);
        lemma_permutation_in_range(start, sorted_order(boxes@, start, 0), boxes@.len());
        lemma_sorted_order_permutes(boxes@, sorted_order(boxes@, start, 0), 1);
        lemma_permutation_in_range(
            sorted_order(boxes@, start, 0),
            sorted_order(boxes@, sorted_order(boxes@, start, 0), 1),
            boxes@.len(),
        );
        lemma_sorted_order_permutes(
            boxes@,
            sorted_order(boxes@, sorted_order(boxes@, start, 0), 1),
            2,
        );
        lemma_permutation_in_range(
            sorted_order(boxes@, sorted_order(boxes@, start, 0), 1),
            sorted_order(boxes@, sorted_order(boxes@, sorted_order(boxes@, start, 0), 1), 2),
            boxes@.len(),
        );
    }
    sort_by_axis(order, boxes, 0);
    let along_x = split_costs(order, boxes, cost);
    best = pick_split(best, 0, &along_x);
    sort_by_axis(order, boxes, 1);
    let along_y = split_costs(order, boxes, cost);
    best = pick_split(best, 1, &along_y);
    sort_by_axis(order, boxes, 2);
    let along_z = split_costs(order, boxes, cost);
    best = pick_split(best, 2, &along_z);
    proof {
        assert(best == best_of(along_x@, along_y@, along_z@));
        lemma_best_of_bounds(along_x@, along_y@, along_z@, n as int);
    }
    sort_by_axis(order, boxes, best.axis);
    best
}

} // verus!
