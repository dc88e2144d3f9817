use vstd::prelude::*;
use crate::scalar::Scalar;
use crate::vec3::Vec3;

verus! {

/// The vector that a flat list of coordinates holds for vertex `index`: the
/// three values from place `3 * index` on.
pub open spec fn point_spec(values: Seq<Scalar>, index: int) -> Vec3 {
    Vec3 { x: values[3 * index], y: values[3 * index + 1], z: values[3 * index + 2] }
}

/// The list holds three coordinates for vertex `index`.
pub open spec fn has_point(values: Seq<Scalar>, index: int) -> bool {
    0 <= index && 3 * index + 2 < values.len()
}

/// The three vertices of face `face` of an indexed mesh: the vectors that
/// `values` holds for the three indices from place `3 * face` on.
pub open spec fn face_spec(indices: Seq<u32>, values: Seq<Scalar>, face: int) -> (Vec3, Vec3, Vec3) {
    (
        point_spec(values, indices[3 * face] as int),
        point_spec(values, indices[3 * face + 1] as int),
        point_spec(values, indices[3 * face + 2] as int),
    )
}

/// The mesh is sound: its indices come in threes, and `values` holds three
/// coordinates for each of them.
pub open spec fn well_indexed(indices: Seq<u32>, values: Seq<Scalar>) -> bool {
    &&& indices.len() % 3 == 0
    &&& forall|k: int| 0 <= k < indices.len() ==> has_point(values, (#[trigger] indices[k]) as int)
}

/// The vector that a flat list of coordinates holds for vertex `index`, or
/// nothing where the list is too short for it.
pub fn point_at(values: &Vec<Scalar>, index: u32) -> (r: Option<Vec3>)
    ensures
        r == if has_point(values@, index as int) {
            Some(point_spec(values@, index as int))
        } else {
            None
        },
{
    let index = index as usize;
    if values.len() < 3 || index > (values.len() - 3) / 3 {
        return None;
    }
    let at = 3 * index;
    Some(Vec3 { x: values[at], y: values[at + 1], z: values[at + 2] })
}

/// The vertices of every face of an indexed mesh, face by face, or nothing
/// where the mesh is not sound.
pub fn gather_faces(indices: &Vec<u32>, values: &Vec<Scalar>) -> (r: Option<Vec<(Vec3, Vec3, Vec3)>>)
    ensures
        r is Some <==> well_indexed(indices@, values@),
        r matches Some(faces) ==> faces@.len() == indices@.len() / 3 && forall|f: int|
            0 <= f < faces@.len() ==> #[trigger] faces@[f] == face_spec(indices@, values@, f),
{
    if indices.len() % 3 != 0 {
        return None;
    }
    let n = indices.len();
    let count = n / 3;
    let mut faces: Vec<(Vec3, Vec3, Vec3)> = Vec::with_capacity(count);
    let mut face: usize = 0;
    while face < count
        invariant
            face <= count,
            n == indices@.len(),
            count == indices@.len() / 3,
            indices@.len() % 3 == 0,
            faces@.len() == face,
            forall|k: int| 0 <= k < 3 * face ==> has_point(values@, (#[trigger] indices@[k]) as int),
            forall|f: int|
                0 <= f < face ==> #[trigger] faces@[f] == face_spec(indices@, values@, f),
        decreases count - face,
    {
        assert(3 * face + 2 < indices@.len());
        let first = point_at(values, indices[3 * face]);
        let second = point_at(values, indices[3 * face + 1]);
        let third = point_at(values, indices[3 * face + 2]);
        match (first, second, third) {
            (Some(a), Some(b), Some(c)) => {
                faces.push((a, b, c));
                assert forall|k: int| 0 <= k < 3 * (face + 1) implies has_point(
                    values@,
                    (#[trigger] indices@[k]) as int,
                ) by {
                    if k >= 3 * face {
                        assert(k == 3 * face || k == 3 * face + 1 || k == 3 * face + 2);
                    }
                }
            },
            _ => {
                return None;
            },
        }
        face += 1;
    }
    Some(faces)
}

} // verus!
