use vstd::prelude::*;
use crate::hittable::{hit_returns, in_range, scan_returns, HitRecord, Hittable};
use crate::ray::Ray;
use crate::scalar::Scalar;

verus! {

/// A hit as seen through a window that ends at `t_max`: kept where its
/// parameter is at most `t_max`, dropped otherwise.
pub open spec fn clip(first: Option<HitRecord>, t_max: Scalar) -> Option<HitRecord> {
    match first {
        Some(h) => if h.t.le_spec(t_max) {
            first
        } else {
            None
        },
        None => None,
    }
}

/// The primitive answers every window alike, and `first` is its first meeting
/// with the ray at or after `t_min`: whatever the window's end, it reports
/// `first` if that lies in the window and nothing otherwise. The parameter
/// of `first` is a number.
pub open spec fn answers_as<P: Hittable>(
    p: P,
    ray: Ray,
    t_min: Scalar,
    first: Option<HitRecord>,
) -> bool {
    &&& first matches Some(h) ==> !h.t.is_nan()
    &&& forall|t_max: Scalar, r: Option<HitRecord>|
        !t_max.is_nan() && #[trigger] hit_returns(p, ray, t_min, t_max, r) ==> r == clip(
            first,
            t_max,
        )
}

/// Every primitive answers every window alike, and `firsts` holds the first
/// meeting of each with the ray.
pub open spec fn all_answer_as<P: Hittable>(
    objects: Seq<P>,
    ray: Ray,
    t_min: Scalar,
    firsts: Seq<Option<HitRecord>>,
) -> bool {
    &&& firsts.len() == objects.len()
    &&& forall|i: int|
        0 <= i < objects.len() ==> answers_as(objects[i], ray, t_min, #[trigger] firsts[i])
}

/// `r` is a nearest hit among the primitives that `order` names, seen through
/// a window that ends at `t_max`, where `firsts` holds the first meeting of
/// every primitive with the ray: nothing, where none of them is hit within the
/// window; else the hit of one of them, with a parameter that none of the
/// others undercuts.
pub open spec fn is_nearest(
    firsts: Seq<Option<HitRecord>>,
    order: Seq<usize>,
    t_max: Scalar,
    r: Option<HitRecord>,
) -> bool {
    match r {
        None => forall|k: int|
            0 <= k < order.len() ==> clip(firsts[(#[trigger] order[k]) as int], t_max) is None,
        Some(h) => {
            &&& exists|k: int|
                0 <= k < order.len() && clip(firsts[(#[trigger] order[k]) as int], t_max) == Some(
                    h,
                )
            &&& forall|k: int|
                0 <= k < order.len() ==> (clip(
                    firsts[(#[trigger] order[k]) as int],
                    t_max,
                ) matches Some(g) ==> h.t.le_spec(g.t))
        },
    }
}

/// The two sequences name the same primitives, in whatever order and however
/// often.
pub open spec fn same_members(a: Seq<usize>, b: Seq<usize>) -> bool {
    &&& forall|i: int| 0 <= i < a.len() ==> b.contains(#[trigger] a[i])
    &&& forall|j: int| 0 <= j < b.len() ==> a.contains(#[trigger] b[j])
}

/// No two different primitives among those that `order` names are hit at the
/// same parameter within the window.
pub open spec fn no_ties(firsts: Seq<Option<HitRecord>>, order: Seq<usize>, t_max: Scalar) -> bool {
    forall|i: int, j: int|
        0 <= i < order.len() && 0 <= j < order.len() && (#[trigger] order[i]) != (
        #[trigger] order[j]) ==> (clip(firsts[order[i] as int], t_max) matches Some(g) ==> (clip(
            firsts[order[j] as int],
            t_max,
        ) matches Some(h) ==> g.t.rank() != h.t.rank()))
}

/// A scan that starts with a hit in hand: a step of the induction behind
/// `lemma_scan_is_nearest`. The scan either keeps `best`, where no primitive
/// of `order` is hit within `t_cur`, or returns a nearest hit among them.
pub proof fn lemma_scan_from<P: Hittable>(
    objects: Seq<P>,
    firsts: Seq<Option<HitRecord>>,
    order: Seq<usize>,
    ray: Ray,
    t_min: Scalar,
    t_cur: Scalar,
    best: Option<HitRecord>,
    r: Option<HitRecord>,
)
    requires
        in_range(order, objects.len()),
        all_answer_as(objects, ray, t_min, firsts),
        !t_cur.is_nan(),
        scan_returns(objects, order, ray, t_min, t_cur, best, r),
    ensures
        if is_nearest(firsts, order, t_cur, None) {
            r == best
        } else {
            r is Some && is_nearest(firsts, order, t_cur, r)
        },
    decreases order.len(),
{
    if order.len() == 0 {
    } else {
        let rest = order.drop_first();
        let x = objects[order[0] as int];
        assert(answers_as(x, ray, t_min, firsts[order[0] as int]));
        assert forall|k: int| 0 <= k < rest.len() implies (#[trigger] rest[k]) < objects.len() by {
            assert(rest[k] == order[k + 1]);
        }
        let found = choose|found: Option<HitRecord>|
            #![trigger hit_returns(x, ray, t_min, t_cur, found)]
            hit_returns(x, ray, t_min, t_cur, found) && match found {
                Some(h) => scan_returns(objects, rest, ray, t_min, h.t, found, r),
                None => scan_returns(objects, rest, ray, t_min, t_cur, best, r),
            };
        assert(found == clip(firsts[order[0] as int], t_cur));
        match found {
            Some(h) => {
                lemma_scan_from(objects, firsts, rest, ray, t_min, h.t, found, r);
                let hr = r->0;
                assert(hr.t.le_spec(h.t));
                if is_nearest(firsts, rest, h.t, None) {
                    assert(clip(firsts[order[0] as int], t_cur) == Some(hr));
                } else {
                    let k = choose|k: int|
                        0 <= k < rest.len() && clip(firsts[(#[trigger] rest[k]) as int], h.t)
                            == Some(hr);
                    assert(rest[k] == order[k + 1]);
                    assert(clip(firsts[order[k + 1] as int], t_cur) == Some(hr));
                }
                assert forall|k: int| 0 <= k < order.len() implies (clip(
                    firsts[(#[trigger] order[k]) as int],
                    t_cur,
                ) matches Some(g) ==> hr.t.le_spec(g.t)) by {
                    if k > 0 {
                        assert(order[k] == rest[k - 1]);
                        assert(answers_as(
                            objects[rest[k - 1] as int],
                            ray,
                            t_min,
                            firsts[rest[k - 1] as int],
                        ));
                    }
                }
            },
            None => {
                lemma_scan_from(objects, firsts, rest, ray, t_min, t_cur, best, r);
                if is_nearest(firsts, rest, t_cur, None) {
                    assert forall|k: int| 0 <= k < order.len() implies clip(
                        firsts[(#[trigger] order[k]) as int],
                        t_cur,
                    ) is None by {
                        if k > 0 {
                            assert(order[k] == rest[k - 1]);
                        }
                    }
                } else {
                    let hr = r->0;
                    let k = choose|k: int|
                        0 <= k < rest.len() && clip(firsts[(#[trigger] rest[k]) as int], t_cur)
                            == Some(hr);
                    assert(rest[k] == order[k + 1]);
                    assert(clip(firsts[order[k + 1] as int], t_cur) == Some(hr));
                    assert forall|k: int| 0 <= k < order.len() implies (clip(
                        firsts[(#[trigger] order[k]) as int],
                        t_cur,
                    ) matches Some(g) ==> hr.t.le_spec(g.t)) by {
                        if k > 0 {
                            assert(order[k] == rest[k - 1]);
                        }
                    }
                }
            },
        }
    }
}

/// The linear scan returns a nearest hit among the primitives it is given.
pub proof fn lemma_scan_is_nearest<P: Hittable>(
    objects: Seq<P>,
    firsts: Seq<Option<HitRecord>>,
    order: Seq<usize>,
    ray: Ray,
    t_min: Scalar,
    t_max: Scalar,
    r: Option<HitRecord>,
)
    requires
        in_range(order, objects.len()),
        all_answer_as(objects, ray, t_min, firsts),
        !t_max.is_nan(),
        scan_returns(objects, order, ray, t_min, t_max, None, r),
    ensures
        is_nearest(firsts, order, t_max, r),
{
    lemma_scan_from(objects, firsts, order, ray, t_min, t_max, None, r);
}

/// A nearest hit among some primitives is one under every other way of naming
/// the same primitives.
pub proof fn lemma_relabel_nearest(
    firsts: Seq<Option<HitRecord>>,
    order: Seq<usize>,
    other: Seq<usize>,
    t_max: Scalar,
    r: Option<HitRecord>,
)
    requires
        same_members(order, other),
        is_nearest(firsts, order, t_max, r),
    ensures
        is_nearest(firsts, other, t_max, r),
{
    match r {
        None => {
            assert forall|k: int| 0 <= k < other.len() implies clip(
                firsts[(#[trigger] other[k]) as int],
                t_max,
            ) is None by {
                assert(order.contains(other[k]));
                let j = choose|j: int| 0 <= j < order.len() && order[j] == other[k];
                assert(clip(firsts[order[j] as int], t_max) is None);
            }
        },
        Some(h) => {
            let k = choose|k: int|
                0 <= k < order.len() && clip(firsts[(#[trigger] order[k]) as int], t_max) == Some(
                    h,
                );
            assert(other.contains(order[k]));
            let j = choose|j: int| 0 <= j < other.len() && other[j] == order[k];
            assert(clip(firsts[other[j] as int], t_max) == Some(h));
            assert forall|k: int| 0 <= k < other.len() implies (clip(
                firsts[(#[trigger] other[k]) as int],
                t_max,
            ) matches Some(g) ==> h.t.le_spec(g.t)) by {
                assert(order.contains(other[k]));
                let j = choose|j: int| 0 <= j < order.len() && order[j] == other[k];
                assert(clip(firsts[order[j] as int], t_max) == clip(
                    firsts[other[k] as int],
                    t_max,
                ));
            }
        },
    }
}

/// Two nearest hits among the same primitives agree: both are there or neither
/// is, their parameters are the same number, and where no two primitives tie
/// they are the same record.
pub proof fn lemma_nearest_agree(
    firsts: Seq<Option<HitRecord>>,
    order: Seq<usize>,
    t_max: Scalar,
    a: Option<HitRecord>,
    b: Option<HitRecord>,
)
    requires
        is_nearest(firsts, order, t_max, a),
        is_nearest(firsts, order, t_max, b),
    ensures
        a is Some <==> b is Some,
        a matches Some(h) ==> (b matches Some(g) ==> h.t.rank() == g.t.rank() && !h.t.is_nan()
            && !g.t.is_nan()),
        no_ties(firsts, order, t_max) ==> a == b,
{
    if a is Some {
        let h = a->0;
        let k = choose|k: int|
            0 <= k < order.len() && clip(firsts[(#[trigger] order[k]) as int], t_max) == Some(h);
        assert(b is Some);
        let g = b->0;
        let j = choose|j: int|
            0 <= j < order.len() && clip(firsts[(#[trigger] order[j]) as int], t_max) == Some(g);
        assert(h.t.le_spec(g.t));
        assert(g.t.le_spec(h.t));
        if no_ties(firsts, order, t_max) {
            if order[k] != order[j] {
                assert(false);
            }
        }
    } else if b is Some {
        let g = b->0;
        let j = choose|j: int|
            0 <= j < order.len() && clip(firsts[(#[trigger] order[j]) as int], t_max) == Some(g);
        assert(false);
    }
}

} // verus!
