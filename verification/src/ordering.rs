use vstd::prelude::*;
use vstd::relations::{sorted_by, total_ordering};
use vstd::seq_lib::lemma_sorted_unique;
use crate::aabb::AABB;
use crate::hittable::in_range;

verus! {

/// The order of the pairs that a sort works on: by the first entry, and among
/// equal first entries by the second.
pub open spec fn pair_leq() -> spec_fn((i64, usize), (i64, usize)) -> bool {
    |a: (i64, usize), b: (i64, usize)| a.0 < b.0 || (a.0 == b.0 && a.1 <= b.1)
}

/// The key by which a primitive is sorted along `axis`: the rank of the lower
/// bound of its box on that axis.
pub open spec fn axis_key(b: AABB, axis: int) -> int {
    b.min.axis_spec(axis).rank()
}

/// The primitives of `order`, each as the pair of its key along `axis` and its
/// place in `order`.
pub open spec fn keyed(boxes: Seq<AABB>, order: Seq<usize>, axis: int) -> Seq<(i64, usize)> {
    Seq::new(
        order.len(),
        |q: int| (axis_key(boxes[order[q] as int], axis) as i64, q as usize),
    )
}

/// `order` sorted by the primitives' keys along `axis`, primitives of equal key
/// staying in the order they had: the stable sort.
pub open spec fn sorted_order(boxes: Seq<AABB>, order: Seq<usize>, axis: int) -> Seq<usize> {
    let pairs = keyed(boxes, order, axis).sort_by(pair_leq());
    Seq::new(order.len(), |i: int| order[pairs[i].1 as int])
}

/// `pair_leq` is a total order.
pub proof fn lemma_pair_leq_total()
    ensures
        total_ordering(pair_leq()),
{
    let leq = pair_leq();
    assert(vstd::relations::reflexive(leq)) by {
        assert forall|x: (i64, usize)| #[trigger] leq(x, x) by {}
    }
    assert(vstd::relations::antisymmetric(leq)) by {
        assert forall|x: (i64, usize), y: (i64, usize)| #[trigger]
            leq(x, y) && #[trigger] leq(y, x) implies x == y by {}
    }
    assert(vstd::relations::transitive(leq)) by {
        assert forall|x: (i64, usize), y: (i64, usize), z: (i64, usize)| #[trigger]
            leq(x, y) && #[trigger] leq(y, z) implies leq(x, z) by {}
    }
    assert(vstd::relations::strongly_connected(leq)) by {
        assert forall|x: (i64, usize), y: (i64, usize)| #[trigger] leq(x, y) || #[trigger] leq(y, x) by {}
    }
}

/// Two sequences that hold the same elements still do after every element
/// has been replaced by its image under `f`.
pub proof fn lemma_images_permute<A, B>(s: Seq<A>, t: Seq<A>, f: spec_fn(A) -> B)
    requires
        s.to_multiset() == t.to_multiset(),
    ensures
        s.map_values(f).to_multiset() == t.map_values(f).to_multiset(),
    decreases s.len(),
{
    broadcast use vstd::seq_lib::group_to_multiset_ensures;

    s.to_multiset_ensures();
    t.to_multiset_ensures();
    if s.len() == 0 {
        assert(t.len() == 0);
        assert(s.map_values(f) =~= t.map_values(f));
    } else {
        let a = s.last();
        let head = s.drop_last();
        assert(s.contains(a));
        assert(s.to_multiset().count(a) > 0);
        assert(t.to_multiset().count(a) > 0);
        assert(t.contains(a));
        let j = choose|j: int| 0 <= j < t.len() && t[j] == a;
        let rest = t.remove(j);
        assert(head =~= s.remove(s.len() - 1));
        assert(head.to_multiset() =~= s.to_multiset().remove(a));
        assert(rest.to_multiset() =~= t.to_multiset().remove(a));
        lemma_images_permute(head, rest, f);
        assert(s.map_values(f) =~= head.map_values(f).push(f(a)));
        assert(rest.map_values(f) =~= t.map_values(f).remove(j));
        assert(rest.map_values(f).to_multiset() =~= t.map_values(f).to_multiset().remove(f(a)));
        t.map_values(f).to_multiset_ensures();
        assert(t.map_values(f)[j] == f(a));
        assert(t.map_values(f).contains(f(a)));
        assert(t.map_values(f).to_multiset().count(f(a)) > 0);
        assert(s.map_values(f).to_multiset() =~= head.map_values(f).to_multiset().insert(f(a)));
        assert(s.map_values(f).to_multiset() =~= t.map_values(f).to_multiset());
    }
}

/// Sorting along an axis reorders the primitives and does no more: the sorted
/// sequence holds each primitive as often as `order` does.
pub proof fn lemma_sorted_order_permutes(boxes: Seq<AABB>, order: Seq<usize>, axis: int)
    requires
        order.len() <= usize::MAX,
    ensures
        sorted_order(boxes, order, axis).len() == order.len(),
        sorted_order(boxes, order, axis).to_multiset() == order.to_multiset(),
{
    let before = keyed(boxes, order, axis);
    let after = before.sort_by(pair_leq());
    lemma_pair_leq_total();
    before.lemma_sort_by_ensures(pair_leq());
    after.to_multiset_ensures();
    before.to_multiset_ensures();
    let f = |p: (i64, usize)| order[p.1 as int];
    lemma_images_permute(after, before, f);
    assert(before.map_values(f) =~= order);
    assert(after.map_values(f) =~= sorted_order(boxes, order, axis));
}

/// A sequence that holds the same elements as one of indices below `n` is one
/// of indices below `n`.
pub proof fn lemma_permutation_in_range(a: Seq<usize>, b: Seq<usize>, n: nat)
    requires
        a.to_multiset() == b.to_multiset(),
        in_range(a, n),
    ensures
        in_range(b, n),
{
    a.to_multiset_ensures();
    b.to_multiset_ensures();
    assert forall|i: int| 0 <= i < b.len() implies (#[trigger] b[i]) < n by {
        assert(b.contains(b[i]));
        assert(b.to_multiset().count(b[i]) > 0);
        assert(a.to_multiset().count(b[i]) > 0);
        assert(a.contains(b[i]));
    }
}

/// Sorts the pairs in ascending order.
///
/// This is `slice::sort` of the standard library on pairs of integers, which
/// the library orders by the first entry and then by the second. The contract
/// claims what the documentation of `sort` says: afterwards the slice holds
/// the elements it held, in ascending order.
#[verifier::external_body]
fn sort_pairs(v: &mut Vec<(i64, usize)>)
    ensures
        final(v)@.to_multiset() == old(v)@.to_multiset(),
        sorted_by(final(v)@, pair_leq()),
{
    v.sort();
}

/// Sorts `order` by the primitives' keys along `axis`, keeping primitives of
/// equal key in the order they had.
pub fn sort_by_axis(order: &mut Vec<usize>, boxes: &Vec<AABB>, axis: usize)
    requires
        axis < 3,
        in_range(old(order)@, boxes@.len()),
    ensures
        final(order)@ == sorted_order(boxes@, old(order)@, axis as int),
{
    let n = order.len();
    let mut pairs: Vec<(i64, usize)> = Vec::with_capacity(n);
    let mut q: usize = 0;
    while q < n
        invariant
            q <= n,
            n == order@.len(),
            axis < 3,
            in_range(order@, boxes@.len()),
            pairs@ == keyed(boxes@, order@, axis as int).take(q as int),
        decreases n - q,
    {
        let key = boxes[order[q]].min.axis(axis).rank_value();
        pairs.push((key, q));
        assert(pairs@ == keyed(boxes@, order@, axis as int).take(q + 1));
        q += 1;
    }
    let ghost before = keyed(boxes@, order@, axis as int);
    assert(pairs@ == before);
    sort_pairs(&mut pairs);
    proof {
        lemma_pair_leq_total();
        before.lemma_sort_by_ensures(pair_leq());
        lemma_sorted_unique(pairs@, before.sort_by(pair_leq()), pair_leq());
        assert(pairs@ == before.sort_by(pair_leq()));
        pairs@.to_multiset_ensures();
        before.to_multiset_ensures();
    }
    let mut sorted: Vec<usize> = Vec::with_capacity(n);
    let mut i: usize = 0;
    while i < n
        invariant
            i <= n,
            n == order@.len(),
            n == pairs@.len(),
            before == keyed(boxes@, order@, axis as int),
            pairs@.to_multiset() == before.to_multiset(),
            pairs@ == before.sort_by(pair_leq()),
            sorted@ == sorted_order(boxes@, order@, axis as int).take(i as int),
        decreases n - i,
    {
        let p = pairs[i];
        proof {
            pairs@.to_multiset_ensures();
            before.to_multiset_ensures();
            assert(pairs@[i as int] == p);
            assert(pairs@.contains(p));
            assert(pairs@.to_multiset().count(p) > 0);
            assert(before.to_multiset().count(p) > 0);
            assert(before.contains(p));
            let w = choose|w: int| 0 <= w < before.len() && before[w] == p;
            assert(p.1 == w);
        }
        sorted.push(order[p.1]);
        assert(sorted@ == sorted_order(boxes@, order@, axis as int).take(i + 1));
        i += 1;
    }
    assert(sorted@ == sorted_order(boxes@, order@, axis as int));
    *order = sorted;
}

} // verus!
