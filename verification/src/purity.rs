use vstd::prelude::*;
use crate::aabb::AABB;
use crate::bvh::{cut_to, prefer, probe_returns, Tree};
use crate::construct::{builds, joined};
use crate::hittable::{hit_returns, scan_returns, HitRecord, Hittable};
use crate::ray::Ray;
use crate::scalar::Scalar;
use crate::split::{
    best_of, chooses, cost_returns, cut_order, lemma_best_of_is_cheapest, prices, prices_cut,
    search_order, Split,
};

verus! {

/// The primitive's test against a ray is a function of its arguments: the
/// same call never has two answers.
pub open spec fn hit_is_function<P: Hittable>(p: P) -> bool {
    forall|ray: Ray, t_min: Scalar, t_max: Scalar, r1: Option<HitRecord>, r2: Option<HitRecord>|
        hit_returns(p, ray, t_min, t_max, r1) && hit_returns(p, ray, t_min, t_max, r2) ==> r1
            == r2
}

/// The test of every primitive of the sequence is a function of its
/// arguments.
pub open spec fn hits_are_functions<P: Hittable>(objects: Seq<P>) -> bool {
    forall|i: int| 0 <= i < objects.len() ==> hit_is_function(#[trigger] objects[i])
}

/// The box test is a function of the box and the ray.
pub open spec fn probe_is_function<F: Fn(AABB, Ray) -> bool>(f: F) -> bool {
    forall|b: AABB, ray: Ray, r1: bool, r2: bool|
        probe_returns(f, b, ray, r1) && probe_returns(f, b, ray, r2) ==> r1 == r2
}

/// The cost of a cut is a function of the boxes and counts.
pub open spec fn cost_is_function<C: Fn(AABB, usize, AABB, usize) -> Scalar>(c: C) -> bool {
    forall|left: AABB, n_left: usize, right: AABB, n_right: usize, r1: Scalar, r2: Scalar|
        cost_returns(c, left, n_left, right, n_right, r1) && cost_returns(
            c,
            left,
            n_left,
            right,
            n_right,
            r2,
        ) ==> r1 == r2
}

/// The linear scan adds no chance of its own: over primitives whose tests are
/// functions, it has one answer.
pub proof fn lemma_scan_is_function<P: Hittable>(
    objects: Seq<P>,
    order: Seq<usize>,
    ray: Ray,
    t_min: Scalar,
    t_max: Scalar,
    best: Option<HitRecord>,
    r1: Option<HitRecord>,
    r2: Option<HitRecord>,
)
    requires
        forall|k: int| 0 <= k < order.len() ==> 0 <= (#[trigger] order[k]) < objects.len(),
        hits_are_functions(objects),
        scan_returns(objects, order, ray, t_min, t_max, best, r1),
        scan_returns(objects, order, ray, t_min, t_max, best, r2),
    ensures
        r1 == r2,
    decreases order.len(),
{
    if order.len() > 0 {
        let x = objects[order[0] as int];
        let rest = order.drop_first();
        let one = choose|found: Option<HitRecord>|
            #![trigger hit_returns(x, ray, t_min, t_max, found)]
            hit_returns(x, ray, t_min, t_max, found) && match found {
                Some(h) => scan_returns(objects, rest, ray, t_min, h.t, found, r1),
                None => scan_returns(objects, rest, ray, t_min, t_max, best, r1),
            };
        let two = choose|found: Option<HitRecord>|
            #![trigger hit_returns(x, ray, t_min, t_max, found)]
            hit_returns(x, ray, t_min, t_max, found) && match found {
                Some(h) => scan_returns(objects, rest, ray, t_min, h.t, found, r2),
                None => scan_returns(objects, rest, ray, t_min, t_max, best, r2),
            };
        assert(hit_is_function(x));
        assert(one == two);
        assert forall|k: int| 0 <= k < rest.len() implies 0 <= (#[trigger] rest[k])
            < objects.len() by {
            assert(rest[k] == order[k + 1]);
        }
        match one {
            Some(h) => lemma_scan_is_function(objects, rest, ray, t_min, h.t, one, r1, r2),
            None => lemma_scan_is_function(objects, rest, ray, t_min, t_max, best, r1, r2),
        }
    }
}

impl Tree {
    /// The traversal adds no chance of its own: over primitives whose tests
    /// are functions, and with a box test that is one, it has one answer.
    pub proof fn lemma_hit_is_function<P: Hittable, F: Fn(AABB, Ray) -> bool>(
        self,
        objects: Seq<P>,
        ray: Ray,
        t_min: Scalar,
        t_max: Scalar,
        f: F,
        r1: Option<HitRecord>,
        r2: Option<HitRecord>,
    )
        requires
            self.within(objects.len()),
            hits_are_functions(objects),
            probe_is_function(f),
            self.hit_returns(objects, ray, t_min, t_max, f, r1),
            self.hit_returns(objects, ray, t_min, t_max, f, r2),
        ensures
            r1 == r2,
        decreases self,
    {
        let met1 = choose|met: bool|
            #![trigger probe_returns(f, self.bbox(), ray, met)]
            probe_returns(f, self.bbox(), ray, met) && self.answers_after(
                objects,
                ray,
                t_min,
                t_max,
                f,
                met,
                r1,
            );
        let met2 = choose|met: bool|
            #![trigger probe_returns(f, self.bbox(), ray, met)]
            probe_returns(f, self.bbox(), ray, met) && self.answers_after(
                objects,
                ray,
                t_min,
                t_max,
                f,
                met,
                r2,
            );
        assert(met1 == met2);
        if met1 {
            match self {
                Tree::Internal { left, right, .. } => {
                    let (near1, far1) = choose|near: Option<HitRecord>, far: Option<HitRecord>|
                        #![trigger prefer(far, near)]
                        left.hit_returns(objects, ray, t_min, t_max, f, near) && right.hit_returns(
                            objects,
                            ray,
                            t_min,
                            cut_to(near, t_max),
                            f,
                            far,
                        ) && r1 == prefer(far, near);
                    let (near2, far2) = choose|near: Option<HitRecord>, far: Option<HitRecord>|
                        #![trigger prefer(far, near)]
                        left.hit_returns(objects, ray, t_min, t_max, f, near) && right.hit_returns(
                            objects,
                            ray,
                            t_min,
                            cut_to(near, t_max),
                            f,
                            far,
                        ) && r2 == prefer(far, near);
                    left.lemma_hit_is_function(objects, ray, t_min, t_max, f, near1, near2);
                    right.lemma_hit_is_function(
                        objects,
                        ray,
                        t_min,
                        cut_to(near1, t_max),
                        f,
                        far1,
                        far2,
                    );
                },
                Tree::Leaf { objects: members, .. } => {
                    lemma_scan_is_function(objects, members, ray, t_min, t_max, None, r1, r2);
                },
            }
        }
    }
}

/// Pricing adds no chance of its own: with a cost that is a function, the
/// cuts of a run have one sequence of prices.
pub proof fn lemma_prices_is_function<C: Fn(AABB, usize, AABB, usize) -> Scalar>(
    c: C,
    boxes: Seq<AABB>,
    order: Seq<usize>,
    one: Seq<Scalar>,
    two: Seq<Scalar>,
)
    requires
        cost_is_function(c),
        prices(c, boxes, order, one),
        prices(c, boxes, order, two),
    ensures
        one == two,
{
    assert forall|i: int| 0 <= i < one.len() implies one[i] == two[i] by {
        assert(prices_cut(c, boxes, order, i, one[i]));
        assert(prices_cut(c, boxes, order, i, two[i]));
    }
    assert(one =~= two);
}

/// The build adds no chance of its own: with a cost that is a function, the
/// same primitives in the same order give the same hierarchy.
pub proof fn lemma_builds_is_function<C: Fn(AABB, usize, AABB, usize) -> Scalar>(
    c: C,
    boxes: Seq<AABB>,
    order: Seq<usize>,
    max: nat,
    one: Tree,
    two: Tree,
)
    requires
        cost_is_function(c),
        builds(c, boxes, order, max, one),
        builds(c, boxes, order, max, two),
    ensures
        one == two,
    decreases order.len(),
{
    if order.len() <= max || order.len() < 2 {
    } else {
        let (s1, l1, r1) = choose|s: Split, left: Tree, right: Tree|
            #![trigger chooses(c, boxes, order, s), joined(left, right)]
            chooses(c, boxes, order, s) && s.index < order.len() - 1 && one == joined(left, right)
                && builds(
                c,
                boxes,
                cut_order(boxes, order, s.axis as int).subrange(0, s.index + 1),
                max,
                left,
            ) && builds(
                c,
                boxes,
                cut_order(boxes, order, s.axis as int).subrange(
                    s.index + 1,
                    order.len() as int,
                ),
                max,
                right,
            );
        let (s2, l2, r2) = choose|s: Split, left: Tree, right: Tree|
            #![trigger chooses(c, boxes, order, s), joined(left, right)]
            chooses(c, boxes, order, s) && s.index < order.len() - 1 && two == joined(left, right)
                && builds(
                c,
                boxes,
                cut_order(boxes, order, s.axis as int).subrange(0, s.index + 1),
                max,
                left,
            ) && builds(
                c,
                boxes,
                cut_order(boxes, order, s.axis as int).subrange(
                    s.index + 1,
                    order.len() as int,
                ),
                max,
                right,
            );
        lemma_chooses_is_function(c, boxes, order, s1, s2);
        let sorted = cut_order(boxes, order, s1.axis as int);
        lemma_builds_is_function(c, boxes, sorted.subrange(0, s1.index + 1), max, l1, l2);
        lemma_builds_is_function(
            c,
            boxes,
            sorted.subrange(s1.index + 1, order.len() as int),
            max,
            r1,
            r2,
        );
    }
}

/// The choice of a cut adds no chance of its own: with a cost that is a
/// function, a run has one cut.
pub proof fn lemma_chooses_is_function<C: Fn(AABB, usize, AABB, usize) -> Scalar>(
    c: C,
    boxes: Seq<AABB>,
    order: Seq<usize>,
    one: Split,
    two: Split,
)
    requires
        cost_is_function(c),
        chooses(c, boxes, order, one),
        chooses(c, boxes, order, two),
    ensures
        one == two,
{
    let (x1, y1, z1) = choose|along_x: Seq<Scalar>, along_y: Seq<Scalar>, along_z: Seq<Scalar>|
        #![trigger best_of(along_x, along_y, along_z)]
        prices(c, boxes, search_order(boxes, order, 0), along_x) && prices(
            c,
            boxes,
            search_order(boxes, order, 1),
            along_y,
        ) && prices(c, boxes, search_order(boxes, order, 2), along_z) && one == best_of(
            along_x,
            along_y,
            along_z,
        );
    let (x2, y2, z2) = choose|along_x: Seq<Scalar>, along_y: Seq<Scalar>, along_z: Seq<Scalar>|
        #![trigger best_of(along_x, along_y, along_z)]
        prices(c, boxes, search_order(boxes, order, 0), along_x) && prices(
            c,
            boxes,
            search_order(boxes, order, 1),
            along_y,
        ) && prices(c, boxes, search_order(boxes, order, 2), along_z) && two == best_of(
            along_x,
            along_y,
            along_z,
        );
    lemma_prices_is_function(c, boxes, search_order(boxes, order, 0), x1, x2);
    lemma_prices_is_function(c, boxes, search_order(boxes, order, 1), y1, y2);
    lemma_prices_is_function(c, boxes, search_order(boxes, order, 2), z1, z2);
}

/// The chosen cut is the cheapest: with a cost that is a function, no cut of
/// any axis, at any index, costs less than the one chosen.
pub proof fn lemma_chosen_cut_is_cheapest<C: Fn(AABB, usize, AABB, usize) -> Scalar>(
    c: C,
    boxes: Seq<AABB>,
    order: Seq<usize>,
    chosen: Split,
    axis: int,
    i: int,
    price: Scalar,
)
    requires
        cost_is_function(c),
        chooses(c, boxes, order, chosen),
        0 <= axis < 3,
        0 <= i < order.len() - 1,
        prices_cut(c, boxes, search_order(boxes, order, axis), i, price),
    ensures
        !price.lt_spec(chosen.cost),
{
    let (x, y, z) = choose|along_x: Seq<Scalar>, along_y: Seq<Scalar>, along_z: Seq<Scalar>|
        #![trigger best_of(along_x, along_y, along_z)]
        prices(c, boxes, search_order(boxes, order, 0), along_x) && prices(
            c,
            boxes,
            search_order(boxes, order, 1),
            along_y,
        ) && prices(c, boxes, search_order(boxes, order, 2), along_z) && chosen == best_of(
            along_x,
            along_y,
            along_z,
        );
    lemma_best_of_is_cheapest(x, y, z);
    if axis == 0 {
        assert(prices_cut(c, boxes, search_order(boxes, order, 0), i, x[i]));
    } else if axis == 1 {
        assert(prices_cut(c, boxes, search_order(boxes, order, 1), i, y[i]));
    } else {
        assert(prices_cut(c, boxes, search_order(boxes, order, 2), i, z[i]));
    }
}

} // verus!
