use vstd::prelude::*;

verus! {

/// Vertex `v` of a mesh whose positions hold `positions_len` coordinates,
/// three to a vertex, has all three.
pub open spec fn vertex_in_range(v: u32, positions_len: usize) -> bool {
    3 * v + 2 < positions_len
}

/// The number of whole triangles that a face index list of length `n` holds.
pub open spec fn face_count(n: nat) -> nat {
    n / 3
}

/// For each whole triangle of a mesh's face index list (three vertex indices
/// to a face), the offsets in the position list of the x coordinates of its
/// three corners. `None` when a face refers to a vertex the positions do not
/// hold. Indices left over after the last whole triangle are ignored.
pub fn face_corners(indices: &Vec<u32>, positions_len: usize) -> (r: Option<Vec<(usize, usize, usize)>>)
    ensures
        r.is_some() <==> forall|j: int|
            0 <= j < 3 * face_count(indices@.len()) ==> vertex_in_range(#[trigger] indices@[j], positions_len),
        r matches Some(corners) ==> {
            &&& corners@.len() == face_count(indices@.len())
            &&& forall|f: int|
                0 <= f < corners@.len() ==> {
                    &&& (#[trigger] corners@[f]).0 == 3 * indices@[3 * f]
                    &&& corners@[f].1 == 3 * indices@[3 * f + 1]
                    &&& corners@[f].2 == 3 * indices@[3 * f + 2]
                }
        },
{
    let n = indices.len();
    let faces = n / 3;
    let vertices = positions_len / 3;
    let mut corners: Vec<(usize, usize, usize)> = Vec::new();
    let mut f: usize = 0;
    while f < faces
        invariant
            faces == face_count(indices@.len()),
            3 * faces <= n,
            n == indices@.len(),
            vertices == positions_len / 3,
            f <= faces,
            corners@.len() == f,
            forall|j: int| 0 <= j < 3 * f ==> vertex_in_range(#[trigger] indices@[j], positions_len),
            forall|g: int|
                0 <= g < f ==> {
                    &&& (#[trigger] corners@[g]).0 == 3 * indices@[3 * g]
                    &&& corners@[g].1 == 3 * indices@[3 * g + 1]
                    &&& corners@[g].2 == 3 * indices@[3 * g + 2]
                },
        decreases faces - f,
    {
        let i0 = indices[3 * f] as usize;
        let i1 = indices[3 * f + 1] as usize;
        let i2 = indices[3 * f + 2] as usize;
        if i0 >= vertices || i1 >= vertices || i2 >= vertices {
            proof {
                let bad = if i0 >= vertices { 3 * f } else if i1 >= vertices { 3 * f + 1 } else { 3 * f + 2 };
                assert(!vertex_in_range(indices@[bad as int], positions_len));
            }
            return None;
        }
        corners.push((3 * i0, 3 * i1, 3 * i2));
        proof {
            assert forall|j: int| 0 <= j < 3 * (f + 1) implies vertex_in_range(#[trigger] indices@[j], positions_len) by {
                if j >= 3 * f {
                    assert(j == 3 * f || j == 3 * f + 1 || j == 3 * f + 2);
                }
            }
        }
        f = f + 1;
    }
    Some(corners)
}

} // verus!
