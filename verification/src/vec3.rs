use vstd::prelude::*;
use crate::scalar::Scalar;

verus! {

/// A point or direction in space: three `Scalar`s.
#[derive(Clone, Copy, Debug, PartialEq, Eq, Structural)]
pub struct Vec3 {
    pub x: Scalar,
    pub y: Scalar,
    pub z: Scalar,
}

impl Vec3 {
    /// The component on `axis`: 0 is x, 1 is y, anything else is z.
    pub open spec fn axis_spec(self, axis: int) -> Scalar {
        if axis == 0 {
            self.x
        } else if axis == 1 {
            self.y
        } else {
            self.z
        }
    }

    /// No component is a NaN.
    pub open spec fn no_nan(self) -> bool {
        !self.x.is_nan() && !self.y.is_nan() && !self.z.is_nan()
    }

    /// The componentwise minimum.
    pub open spec fn min_spec(self, rhs: Vec3) -> Vec3 {
        Vec3 { x: self.x.min_spec(rhs.x), y: self.y.min_spec(rhs.y), z: self.z.min_spec(rhs.z) }
    }

    /// The componentwise maximum.
    pub open spec fn max_spec(self, rhs: Vec3) -> Vec3 {
        Vec3 { x: self.x.max_spec(rhs.x), y: self.y.max_spec(rhs.y), z: self.z.max_spec(rhs.z) }
    }

    /// The largest component, taken as `max(x, max(y, z))`.
    pub open spec fn max_element_spec(self) -> Scalar {
        self.x.max_spec(self.y.max_spec(self.z))
    }

    /// The vector with the given components.
    pub fn new(x: Scalar, y: Scalar, z: Scalar) -> (v: Vec3)
        ensures
            v == (Vec3 { x, y, z }),
    {
        Vec3 { x, y, z }
    }

    /// The vector whose three components are positive zero.
    pub fn zero() -> (v: Vec3)
        ensures
            v.x.bits == 0 && v.y.bits == 0 && v.z.bits == 0,
    {
        Vec3 { x: Scalar::zero(), y: Scalar::zero(), z: Scalar::zero() }
    }

    /// The component on `axis`: 0 is x, 1 is y and 2 is z.
    pub fn axis(&self, axis: usize) -> (s: Scalar)
        requires
            axis < 3,
        ensures
            s == self.axis_spec(axis as int),
    {
        if axis == 0 {
            self.x
        } else if axis == 1 {
            self.y
        } else {
            self.z
        }
    }

    /// Componentwise minimum.
    pub fn min(self, rhs: Vec3) -> (v: Vec3)
        ensures
            v == self.min_spec(rhs),
    {
        Vec3 { x: self.x.min(rhs.x), y: self.y.min(rhs.y), z: self.z.min(rhs.z) }
    }

    /// Componentwise maximum.
    pub fn max(self, rhs: Vec3) -> (v: Vec3)
        ensures
            v == self.max_spec(rhs),
    {
        Vec3 { x: self.x.max(rhs.x), y: self.y.max(rhs.y), z: self.z.max(rhs.z) }
    }

    /// Every component brought into the range from `min` to `max`: raised to
    /// the bound below where it is under it, then lowered to the bound above
    /// where it is over it. Where nothing is a NaN and the bounds are in
    /// order, every component of the result lies between its bounds.
    pub fn clamp(self, min: Vec3, max: Vec3) -> (v: Vec3)
        ensures
            v == self.max_spec(min).min_spec(max),
            forall|axis: int|
                0 <= axis < 3 && !self.axis_spec(axis).is_nan() && min.axis_spec(axis).le_spec(
                    max.axis_spec(axis),
                ) ==> min.axis_spec(axis).le_spec(#[trigger] v.axis_spec(axis)) && v.axis_spec(
                    axis,
                ).le_spec(max.axis_spec(axis)),
    {
        self.max(min).min(max)
    }

    /// The largest component.
    pub fn max_element(self) -> (s: Scalar)
        ensures
            s == self.max_element_spec(),
    {
        self.x.max(self.y.max(self.z))
    }
}

} // verus!
