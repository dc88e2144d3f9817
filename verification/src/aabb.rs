use vstd::prelude::*;
use crate::ray::Ray;
use crate::scalar::{Scalar, EPSILON_BITS, MAX_FINITE_BITS, MIN_FINITE_BITS};
use crate::vec3::Vec3;

verus! {

/// An axis-aligned bounding box, given by its two extreme corners.
#[derive(Clone, Copy, Debug, PartialEq, Eq, Structural)]
pub struct AABB {
    pub min: Vec3,
    pub max: Vec3,
}

impl AABB {
    /// The box's invariant: on every axis the lower bound is at most the upper
    /// bound. No bound of such a box is a NaN.
    pub open spec fn wf(self) -> bool {
        forall|axis: int|
            0 <= axis < 3 ==> (#[trigger] self.min.axis_spec(axis)).le_spec(
                self.max.axis_spec(axis),
            )
    }

    /// What `merge` returns: the componentwise minimum of the lower corners and
    /// the componentwise maximum of the upper corners.
    pub open spec fn merge_spec(self, rhs: AABB) -> AABB {
        AABB { min: self.min.min_spec(rhs.min), max: self.max.max_spec(rhs.max) }
    }

    /// `inner` lies inside `self`: on every axis the bounds of `self` enclose
    /// those of `inner`.
    pub open spec fn contains(self, inner: AABB) -> bool {
        forall|axis: int|
            0 <= axis < 3 ==> (#[trigger] self.min.axis_spec(axis)).le_spec(
                inner.min.axis_spec(axis),
            ) && inner.max.axis_spec(axis).le_spec(self.max.axis_spec(axis))
    }

    /// The two boxes bound the same region: every bound of one has the rank of
    /// the matching bound of the other. Two such boxes can differ only in the
    /// sign of a zero.
    pub open spec fn same_extent(self, other: AABB) -> bool {
        forall|axis: int|
            0 <= axis < 3 ==> (#[trigger] self.min.axis_spec(axis)).rank()
                == other.min.axis_spec(axis).rank() && self.max.axis_spec(axis).rank()
                == other.max.axis_spec(axis).rank()
    }

    /// The box between two corners, taken as they are.
    pub fn new(min: Vec3, max: Vec3) -> (b: AABB)
        ensures
            b == (AABB { min, max }),
    {
        AABB { min, max }
    }

    /// The smallest box that holds both `self` and `rhs`.
    pub fn merge(&self, rhs: &AABB) -> (b: AABB)
        ensures
            b == self.merge_spec(*rhs),
            self.wf() && rhs.wf() ==> b.wf() && b.contains(*self) && b.contains(*rhs),
    {
        proof {
            if self.wf() && rhs.wf() {
                lemma_merge_contains(*self, *rhs);
            }
        }
        AABB { min: self.min.min(rhs.min), max: self.max.max(rhs.max) }
    }

    /// Whether the box meets its invariant.
    pub fn is_wf(&self) -> (r: bool)
        ensures
            r == self.wf(),
    {
        let r = self.min.x.le(self.max.x) && self.min.y.le(self.max.y) && self.min.z.le(
            self.max.z,
        );
        proof {
            assert(self.min.axis_spec(0) == self.min.x);
            assert(self.min.axis_spec(1) == self.min.y);
            assert(self.min.axis_spec(2) == self.min.z);
        }
        r
    }
}

/// The merge of two boxes is a box and contains both of them.
pub proof fn lemma_merge_contains(a: AABB, b: AABB)
    requires
        a.wf(),
        b.wf(),
    ensures
        a.merge_spec(b).wf(),
        a.merge_spec(b).contains(a),
        a.merge_spec(b).contains(b),
{
    let m = a.merge_spec(b);
    assert forall|axis: int| 0 <= axis < 3 implies (#[trigger] m.min.axis_spec(axis)).le_spec(
        m.max.axis_spec(axis),
    ) && m.min.axis_spec(axis).le_spec(a.min.axis_spec(axis)) && a.max.axis_spec(axis).le_spec(
        m.max.axis_spec(axis),
    ) && m.min.axis_spec(axis).le_spec(b.min.axis_spec(axis)) && b.max.axis_spec(axis).le_spec(
        m.max.axis_spec(axis),
    ) by {
        assert(a.min.axis_spec(axis).le_spec(a.max.axis_spec(axis)));
        assert(b.min.axis_spec(axis).le_spec(b.max.axis_spec(axis)));
    }
}

/// Merging is commutative: the two orders give boxes of the same extent.
pub proof fn lemma_merge_commutative(a: AABB, b: AABB)
    requires
        a.wf(),
        b.wf(),
    ensures
        a.merge_spec(b).same_extent(b.merge_spec(a)),
{
    assert forall|axis: int| 0 <= axis < 3 implies (#[trigger] a.merge_spec(b).min.axis_spec(
        axis,
    )).rank() == b.merge_spec(a).min.axis_spec(axis).rank() && a.merge_spec(b).max.axis_spec(
        axis,
    ).rank() == b.merge_spec(a).max.axis_spec(axis).rank() by {
        assert(a.min.axis_spec(axis).le_spec(a.max.axis_spec(axis)));
        assert(b.min.axis_spec(axis).le_spec(b.max.axis_spec(axis)));
    }
}

/// Merging is associative: the two groupings give boxes of the same extent.
pub proof fn lemma_merge_associative(a: AABB, b: AABB, c: AABB)
    requires
        a.wf(),
        b.wf(),
        c.wf(),
    ensures
        a.merge_spec(b).merge_spec(c).same_extent(a.merge_spec(b.merge_spec(c))),
{
    let l = a.merge_spec(b).merge_spec(c);
    let r = a.merge_spec(b.merge_spec(c));
    assert forall|axis: int| 0 <= axis < 3 implies (#[trigger] l.min.axis_spec(axis)).rank()
        == r.min.axis_spec(axis).rank() && l.max.axis_spec(axis).rank() == r.max.axis_spec(
        axis,
    ).rank() by {
        assert(a.min.axis_spec(axis).le_spec(a.max.axis_spec(axis)));
        assert(b.min.axis_spec(axis).le_spec(b.max.axis_spec(axis)));
        assert(c.min.axis_spec(axis).le_spec(c.max.axis_spec(axis)));
    }
}

/// A box contains itself.
pub proof fn lemma_box_contains_itself(b: AABB)
    requires
        b.wf(),
    ensures
        b.contains(b),
{
    assert forall|axis: int| 0 <= axis < 3 implies (#[trigger] b.min.axis_spec(axis)).le_spec(
        b.min.axis_spec(axis),
    ) && b.max.axis_spec(axis).le_spec(b.max.axis_spec(axis)) by {
        assert(b.min.axis_spec(axis).le_spec(b.max.axis_spec(axis)));
    }
}

/// Containment is transitive.
pub proof fn lemma_contains_transitive(a: AABB, b: AABB, c: AABB)
    requires
        a.contains(b),
        b.contains(c),
    ensures
        a.contains(c),
{
    assert forall|axis: int| 0 <= axis < 3 implies (#[trigger] a.min.axis_spec(axis)).le_spec(
        c.min.axis_spec(axis),
    ) && c.max.axis_spec(axis).le_spec(a.max.axis_spec(axis)) by {
        assert(a.min.axis_spec(axis).le_spec(b.min.axis_spec(axis)));
        assert(b.min.axis_spec(axis).le_spec(c.min.axis_spec(axis)));
    }
}

/// A stretch of ray parameters, from `lo` to `hi`.
#[derive(Clone, Copy, Debug, PartialEq, Eq, Structural)]
pub struct Span {
    pub lo: Scalar,
    pub hi: Scalar,
}

/// The stretch that the slab test starts from: all finite parameters.
pub open spec fn whole_span() -> Span {
    Span { lo: Scalar { bits: MIN_FINITE_BITS }, hi: Scalar { bits: MAX_FINITE_BITS } }
}

impl AABB {
    /// The ray runs along the slab of `axis`: its direction has next to no
    /// component on that axis.
    pub open spec fn runs_along(ray: Ray, axis: int) -> bool {
        ray.direction.axis_spec(axis).abs_spec().lt_spec(Scalar { bits: EPSILON_BITS })
    }

    /// One step of the slab test: what is left of `span` after the slab of
    /// `axis`, or nothing where the ray misses the box.
    ///
    /// A ray that runs along the slab keeps its whole span if it starts
    /// strictly between the two planes, and misses otherwise. Any other ray
    /// crosses the planes at `entry` and `exit`, in whichever order; the span
    /// is cut to the stretch between the two, and the ray misses if nothing is
    /// left of it or if what is left ends at or before the origin.
    pub open spec fn narrow_spec(
        self,
        ray: Ray,
        axis: int,
        entry: Scalar,
        exit: Scalar,
        span: Span,
    ) -> Option<Span> {
        if Self::runs_along(ray, axis) {
            if self.min.axis_spec(axis).lt_spec(ray.origin.axis_spec(axis))
                && ray.origin.axis_spec(axis).lt_spec(self.max.axis_spec(axis)) {
                Some(span)
            } else {
                None
            }
        } else {
            let first = if exit.lt_spec(entry) {
                exit
            } else {
                entry
            };
            let last = if exit.lt_spec(entry) {
                entry
            } else {
                exit
            };
            let lo = span.lo.max_num_spec(first);
            let hi = span.hi.min_num_spec(last);
            if hi.lt_spec(lo) || hi.le_spec(Scalar { bits: 0 }) {
                None
            } else {
                Some(Span { lo, hi })
            }
        }
    }

    /// What `hit` returns: the slab test over the three axes in turn, starting
    /// from all finite parameters. `entries` and `exits` hold, for each axis,
    /// the parameters at which the ray crosses the lower and the upper plane
    /// of the slab.
    pub open spec fn hit_spec(self, ray: Ray, entries: Vec3, exits: Vec3) -> bool {
        match self.narrow_spec(ray, 0, entries.x, exits.x, whole_span()) {
            Some(after_x) => match self.narrow_spec(ray, 1, entries.y, exits.y, after_x) {
                Some(after_y) => self.narrow_spec(ray, 2, entries.z, exits.z, after_y) is Some,
                None => false,
            },
            None => false,
        }
    }

    /// One step of the slab test.
    pub fn narrow(&self, ray: &Ray, axis: usize, entry: Scalar, exit: Scalar, span: Span) -> (r:
        Option<Span>)
        requires
            axis < 3,
        ensures
            r == self.narrow_spec(*ray, axis as int, entry, exit, span),
    {
        if ray.direction.axis(axis).abs().lt(Scalar::epsilon()) {
            if self.min.axis(axis).lt(ray.origin.axis(axis)) && ray.origin.axis(axis).lt(
                self.max.axis(axis),
            ) {
                Some(span)
            } else {
                None
            }
        } else {
            let mut t0 = entry;
            let mut t1 = exit;
            if t1.lt(t0) {
                t0 = exit;
                t1 = entry;
            }
            let lo = span.lo.max_num(t0);
            let hi = span.hi.min_num(t1);
            if hi.lt(lo) || hi.le(Scalar::zero()) {
                None
            } else {
                Some(Span { lo, hi })
            }
        }
    }

    /// Whether the ray meets the box, by the slab test. `entries` and `exits`
    /// hold, for each axis, the ray parameters at which the ray crosses the
    /// lower and the upper plane of the box: the plane's coordinate less the
    /// origin's, divided by the direction's.
    pub fn hit(&self, ray: &Ray, entries: Vec3, exits: Vec3) -> (r: bool)
        ensures
            r == self.hit_spec(*ray, entries, exits),
    {
        let start = Span { lo: Scalar::min_finite(), hi: Scalar::max_finite() };
        match self.narrow(ray, 0, entries.x, exits.x, start) {
            Some(after_x) => match self.narrow(ray, 1, entries.y, exits.y, after_x) {
                Some(after_y) => self.narrow(ray, 2, entries.z, exits.z, after_y).is_some(),
                None => false,
            },
            None => false,
        }
    }
}

} // verus!
