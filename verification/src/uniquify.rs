//! Vertex deduplication: give every triangle its own three vertex slots.
//!
//! Later passes must be able to move one occurrence of a shared vertex
//! without disturbing the other triangles, so the shared-vertex topology of
//! the base solid is expanded into per-triangle private copies, each tagged
//! with a barycentric corner id assigned 0, 1, 2 in rotation.

use vstd::prelude::*;

use crate::vertex::Vertex;
use crate::vertex::corners_wf;
use crate::vertex::triangle_corners_wf;

verus! {

/// What `transform_to_unique_vertices` returns: slot `i` copies the
/// vertex the old index buffer referenced at position `i`, tagged with
/// corner id `i % 3`, and the new index buffer is sequential.  Both parts
/// are functions of the inputs alone.
pub open spec fn uniquified_matches<P>(
    original: Seq<P>,
    indices: Seq<u16>,
    vertices: Seq<Vertex<P>>,
    new_indices: Seq<u16>,
) -> bool {
    &&& vertices.len() == indices.len()
    &&& new_indices.len() == indices.len()
    &&& forall|i: int|
        0 <= i < indices.len() ==> (#[trigger] vertices[i]).data == original[indices[i] as int]
            && vertices[i].corner == (i % 3) as u8
    &&& forall|i: int| 0 <= i < indices.len() ==> #[trigger] new_indices[i] == i as u16
}

/// The pass is deterministic: two results matching the same inputs hold
/// the same vertices and the same indices.
pub proof fn lemma_uniquify_deterministic<P>(
    original: Seq<P>,
    indices: Seq<u16>,
    v1: Seq<Vertex<P>>,
    i1: Seq<u16>,
    v2: Seq<Vertex<P>>,
    i2: Seq<u16>,
)
    requires
        uniquified_matches(original, indices, v1, i1),
        uniquified_matches(original, indices, v2, i2),
    ensures
        v1 == v2,
        i1 == i2,
{
    assert(i1 =~= i2);
    assert(v1 =~= v2) by {
        assert forall|i: int| 0 <= i < v1.len() implies v1[i] == v2[i] by {
            assert(v1[i] =~= v2[i]);
        }
    }
}

/// Expands shared vertices into per-triangle-unique copies.
///
/// The result pairs a vertex array in which slot `i` is a copy of the
/// vertex the old index buffer referenced at position `i`, tagged with
/// corner id `i % 3`, with the new sequential index buffer `0, 1, 2, ...`.
/// Afterwards every triangle owns its three slots and carries the corner
/// ids 0, 1, 2.
pub fn transform_to_unique_vertices<P: Copy>(
    original_vertices: &Vec<P>,
    indices: &Vec<u16>,
) -> (r: (Vec<Vertex<P>>, Vec<u16>))
    requires
        indices@.len() % 3 == 0,
        indices@.len() <= 0x10000,
        forall|i: int|
            0 <= i < indices@.len() ==> (#[trigger] indices@[i] as int)
                < original_vertices@.len(),
    ensures
        uniquified_matches(original_vertices@, indices@, r.0@, r.1@),
        corners_wf(r.0@, r.1@),
{
    let mut new_vertices: Vec<Vertex<P>> = Vec::new();
    let mut new_indices: Vec<u16> = Vec::new();
    let mut i: usize = 0;
    while i < indices.len()
        invariant
            i <= indices@.len(),
            indices@.len() <= 0x10000,
            forall|j: int|
                0 <= j < indices@.len() ==> (#[trigger] indices@[j] as int)
                    < original_vertices@.len(),
            new_vertices@.len() == i,
            new_indices@.len() == i,
            forall|j: int|
                0 <= j < i ==> (#[trigger] new_vertices@[j]).data == original_vertices@[indices@[j]
                    as int] && new_vertices@[j].corner == (j % 3) as u8,
            forall|j: int| 0 <= j < i ==> #[trigger] new_indices@[j] == j as u16,
        decreases indices@.len() - i,
    {
        let idx = indices[i] as usize;
        let corner = (i % 3) as u8;
        new_vertices.push(Vertex { data: original_vertices[idx], corner });
        new_indices.push(i as u16);
        i = i + 1;
    }
    proof {
        assert forall|t: int|
            0 <= t < new_indices@.len() / 3 implies #[trigger] triangle_corners_wf(
            new_vertices@,
            new_indices@,
            t,
        ) by {
            assert(new_indices@[3 * t] == (3 * t) as u16);
            assert(new_indices@[3 * t + 1] == (3 * t + 1) as u16);
            assert(new_indices@[3 * t + 2] == (3 * t + 2) as u16);
            assert((3 * t) % 3 == 0 && (3 * t + 1) % 3 == 1 && (3 * t + 2) % 3 == 2);
        }
    }
    (new_vertices, new_indices)
}

} // verus!
