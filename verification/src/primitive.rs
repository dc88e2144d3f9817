use vstd::prelude::*;
use crate::aabb::AABB;
use crate::material::Material;
use crate::scalar::{Scalar, EPSILON_BITS, INFINITY_BITS, ONE_BITS};
use crate::vec3::Vec3;

verus! {

/// A sphere: its centre, its radius and what it is made of.
#[derive(Clone, Copy, Debug, PartialEq, Eq, Structural)]
pub struct Sphere {
    pub center: Vec3,
    pub radius: Scalar,
    pub material: Material,
}

/// A ray parameter as seen through a window that ends at `t_max`: kept where
/// it is at most `t_max`, dropped otherwise.
pub open spec fn clip_root(root: Option<Scalar>, t_max: Scalar) -> Option<Scalar> {
    match root {
        Some(t) => if t.le_spec(t_max) {
            root
        } else {
            None
        },
        None => None,
    }
}

impl Sphere {
    /// What `choose_root` returns.
    pub open spec fn root_spec(
        discriminant: Scalar,
        near: Scalar,
        far: Scalar,
        t_min: Scalar,
        t_max: Scalar,
    ) -> Option<Scalar> {
        if !(Scalar { bits: 0 }).lt_spec(discriminant) {
            None
        } else if near.in_window_spec(t_min, t_max) {
            Some(near)
        } else if far.in_window_spec(t_min, t_max) {
            Some(far)
        } else {
            None
        }
    }

    /// The ray parameter at which a ray is taken to hit the sphere, where the
    /// equation of the two has the given discriminant and the roots `near` and
    /// `far`, the smaller one first. A discriminant that is not above zero means
    /// a miss. Otherwise the smaller root counts if it lies in the window, else
    /// the larger one if that does, else the ray misses.
    pub fn choose_root(
        discriminant: Scalar,
        near: Scalar,
        far: Scalar,
        t_min: Scalar,
        t_max: Scalar,
    ) -> (r: Option<Scalar>)
        ensures
            r == Self::root_spec(discriminant, near, far, t_min, t_max),
            r matches Some(t) ==> t.in_window_spec(t_min, t_max) && (t == near || t == far),
    {
        if !Scalar::zero().lt(discriminant) {
            None
        } else if near.in_window(t_min, t_max) {
            Some(near)
        } else if far.in_window(t_min, t_max) {
            Some(far)
        } else {
            None
        }
    }

    /// The root chosen answers every window alike: through a window that ends
    /// at `t_max` it is the root chosen without an end, where that is at most
    /// `t_max`, and nothing otherwise.
    pub proof fn lemma_root_window_consistent(
        discriminant: Scalar,
        near: Scalar,
        far: Scalar,
        t_min: Scalar,
        t_max: Scalar,
    )
        requires
            near.le_spec(far),
            !t_max.is_nan(),
        ensures
            Self::root_spec(discriminant, near, far, t_min, t_max) == clip_root(
                Self::root_spec(discriminant, near, far, t_min, Scalar { bits: INFINITY_BITS }),
                t_max,
            ),
    {
    }

    /// The sphere about `center`.
    pub fn new(center: Vec3, radius: Scalar, material: Material) -> (sphere: Sphere)
        ensures
            sphere == (Sphere { center, radius, material }),
    {
        Sphere { center, radius, material }
    }
}

/// A triangle: its three vertices, a normal at each of them, and what it is
/// made of.
#[derive(Clone, Copy, Debug, PartialEq, Eq, Structural)]
pub struct Triangle {
    pub v0: Vec3,
    pub v1: Vec3,
    pub v2: Vec3,
    pub n0: Vec3,
    pub n1: Vec3,
    pub n2: Vec3,
    pub material: Material,
}

impl Triangle {
    /// What `accepts` returns.
    pub open spec fn accepts_spec(
        a: Scalar,
        v: Scalar,
        w: Scalar,
        v_plus_w: Scalar,
        t: Scalar,
        t_min: Scalar,
        t_max: Scalar,
    ) -> bool {
        &&& !a.abs_spec().lt_spec(Scalar { bits: EPSILON_BITS })
        &&& !(v.lt_spec(Scalar { bits: 0 }) || (Scalar { bits: ONE_BITS }).lt_spec(v))
        &&& !(w.lt_spec(Scalar { bits: 0 }) || (Scalar { bits: ONE_BITS }).lt_spec(v_plus_w))
        &&& t.in_window_spec(t_min, t_max)
    }

    /// Whether a ray hits the triangle, given what the intersection of the ray
    /// with the triangle's plane comes to: the determinant `a`, the weights `v`
    /// and `w` of the second and third vertex and their sum, and the ray
    /// parameter `t`. A determinant within the machine epsilon of zero means
    /// that the ray runs along the plane: a miss. The ray also misses where a
    /// weight is below zero, `v` or the sum is above one, or `t` lies outside
    /// the window.
    pub fn accepts(
        a: Scalar,
        v: Scalar,
        w: Scalar,
        v_plus_w: Scalar,
        t: Scalar,
        t_min: Scalar,
        t_max: Scalar,
    ) -> (r: bool)
        ensures
            r == Self::accepts_spec(a, v, w, v_plus_w, t, t_min, t_max),
    {
        if a.abs().lt(Scalar::epsilon()) {
            return false;
        }
        if v.lt(Scalar::zero()) || Scalar::one().lt(v) {
            return false;
        }
        if w.lt(Scalar::zero()) || Scalar::one().lt(v_plus_w) {
            return false;
        }
        t.in_window(t_min, t_max)
    }

    /// At a hit the weights are those of a point of the triangle: `v` and `w`
    /// are at least zero and their sum is at most one, so that the weight of
    /// the first vertex, one less the sum, is at least zero too; and the ray
    /// parameter lies in the window.
    pub proof fn lemma_accepted_weights(
        a: Scalar,
        v: Scalar,
        w: Scalar,
        v_plus_w: Scalar,
        t: Scalar,
        t_min: Scalar,
        t_max: Scalar,
    )
        requires
            Self::accepts_spec(a, v, w, v_plus_w, t, t_min, t_max),
            !v.is_nan() && !w.is_nan() && !v_plus_w.is_nan(),
        ensures
            (Scalar { bits: 0 }).le_spec(v),
            (Scalar { bits: 0 }).le_spec(w),
            v.le_spec(Scalar { bits: ONE_BITS }),
            v_plus_w.le_spec(Scalar { bits: ONE_BITS }),
            !t.is_nan() && !t_min.is_nan() && !t_max.is_nan() ==> t_min.le_spec(t) && t.le_spec(
                t_max,
            ),
    {
    }

    /// A triangle answers every window alike: it is hit through a window that
    /// ends at `t_max` exactly if it is hit through a window without an end,
    /// at a parameter of at most `t_max`.
    pub proof fn lemma_accepts_window_consistent(
        a: Scalar,
        v: Scalar,
        w: Scalar,
        v_plus_w: Scalar,
        t: Scalar,
        t_min: Scalar,
        t_max: Scalar,
    )
        requires
            !t.is_nan(),
            !t_max.is_nan(),
        ensures
            Self::accepts_spec(a, v, w, v_plus_w, t, t_min, t_max) <==> Self::accepts_spec(
                a,
                v,
                w,
                v_plus_w,
                t,
                t_min,
                Scalar { bits: INFINITY_BITS },
            ) && t.le_spec(t_max),
    {
    }

    /// The box around the triangle: the componentwise minimum and maximum of
    /// its vertices.
    pub open spec fn bounding_box_spec(self) -> AABB {
        AABB {
            min: self.v0.min_spec(self.v1).min_spec(self.v2),
            max: self.v0.max_spec(self.v1).max_spec(self.v2),
        }
    }

    /// The point lies in the box: on every axis between its bounds.
    pub open spec fn holds(b: AABB, p: Vec3) -> bool {
        forall|axis: int|
            0 <= axis < 3 ==> (#[trigger] b.min.axis_spec(axis)).le_spec(p.axis_spec(axis))
                && p.axis_spec(axis).le_spec(b.max.axis_spec(axis))
    }

    /// The triangle over the three `vertices`. `normals` holds the normal at
    /// each vertex, or nothing: then the triangle is flat, and `face_normal`,
    /// the unit normal of its plane, is the normal at all three.
    pub fn new(vertices: Vec<Vec3>, normals: Vec<Vec3>, face_normal: Vec3, material: Material) -> (triangle: Triangle)
        requires
            vertices@.len() == 3,
            normals@.len() == 0 || normals@.len() == 3,
        ensures
            triangle.v0 == vertices@[0] && triangle.v1 == vertices@[1] && triangle.v2
                == vertices@[2],
            triangle.material == material,
            normals@.len() == 0 ==> triangle.n0 == face_normal && triangle.n1 == face_normal
                && triangle.n2 == face_normal,
            normals@.len() == 3 ==> triangle.n0 == normals@[0] && triangle.n1 == normals@[1]
                && triangle.n2 == normals@[2],
    {
        let (v0, v1, v2) = (vertices[0], vertices[1], vertices[2]);
        if normals.len() == 0 {
            Triangle { v0, v1, v2, n0: face_normal, n1: face_normal, n2: face_normal, material }
        } else {
            let (n0, n1, n2) = (normals[0], normals[1], normals[2]);
            Triangle { v0, v1, v2, n0, n1, n2, material }
        }
    }

    /// The box around the triangle. Where no coordinate of a vertex is a NaN,
    /// it is a box and holds the three vertices.
    pub fn bounding_box(&self) -> (b: AABB)
        ensures
            b == self.bounding_box_spec(),
            self.v0.no_nan() && self.v1.no_nan() && self.v2.no_nan() ==> b.wf() && Self::holds(
                b,
                self.v0,
            ) && Self::holds(b, self.v1) && Self::holds(b, self.v2),
    {
        let max = self.v0.max(self.v1).max(self.v2);
        let min = self.v0.min(self.v1).min(self.v2);
        let b = AABB::new(min, max);
        proof {
            if self.v0.no_nan() && self.v1.no_nan() && self.v2.no_nan() {
                assert forall|axis: int| 0 <= axis < 3 implies (#[trigger] b.min.axis_spec(
                    axis,
                )).le_spec(b.max.axis_spec(axis)) && b.min.axis_spec(axis).le_spec(
                    self.v0.axis_spec(axis),
                ) && self.v0.axis_spec(axis).le_spec(b.max.axis_spec(axis)) && b.min.axis_spec(
                    axis,
                ).le_spec(self.v1.axis_spec(axis)) && self.v1.axis_spec(axis).le_spec(
                    b.max.axis_spec(axis),
                ) && b.min.axis_spec(axis).le_spec(self.v2.axis_spec(axis)) && self.v2.axis_spec(
                    axis,
                ).le_spec(b.max.axis_spec(axis)) by {}
            }
        }
        b
    }
}

} // verus!
