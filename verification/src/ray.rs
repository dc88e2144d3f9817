use vstd::prelude::*;
use crate::vec3::Vec3;

verus! {

/// A half-line: where it starts and which way it points. The direction is of
/// unit length; whoever makes a ray normalises it.
#[derive(Clone, Copy, Debug, PartialEq, Eq, Structural)]
pub struct Ray {
    pub origin: Vec3,
    pub direction: Vec3,
}

} // verus!
