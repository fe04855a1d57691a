//! The vertex model shared by the pipeline passes.
//!
//! A vertex couples an opaque attribute payload (position, texture
//! coordinates, and later the normal — evaluated by the caller) with the
//! barycentric corner id that this crate computes and tracks.

use vstd::prelude::*;

verus! {

/// One mesh vertex: an opaque attribute record plus its barycentric corner
/// id (0, 1 or 2), the tag used for wireframe and edge effects.
#[verifier::ext_equal]
#[derive(Clone, Copy, Debug, PartialEq)]
pub struct Vertex<P> {
    pub data: P,
    pub corner: u8,
}

/// An index buffer is well formed for a vertex array of length
/// `n_vertices`: its length is a multiple of 3 (runs of 3 form triangles)
/// and every index refers to an existing vertex.
pub open spec fn indices_wf(n_vertices: int, indices: Seq<u16>) -> bool {
    &&& indices.len() % 3 == 0
    &&& forall|i: int| 0 <= i < indices.len() ==> (#[trigger] indices[i] as int) < n_vertices
}

/// The corner ids of triangle `t` are 0, 1 and 2 in some order.
pub open spec fn triangle_corners_wf<P>(
    vertices: Seq<Vertex<P>>,
    indices: Seq<u16>,
    t: int,
) -> bool {
    let c0 = vertices[indices[3 * t] as int].corner;
    let c1 = vertices[indices[3 * t + 1] as int].corner;
    let c2 = vertices[indices[3 * t + 2] as int].corner;
    c0 < 3 && c1 < 3 && c2 < 3 && c0 != c1 && c1 != c2 && c0 != c2
}

/// Every triangle of the index buffer carries the three distinct corner
/// ids.  Established by the uniquifier and preserved by subdivision.
pub open spec fn corners_wf<P>(vertices: Seq<Vertex<P>>, indices: Seq<u16>) -> bool {
    forall|t: int| 0 <= t < indices.len() / 3 ==> #[trigger] triangle_corners_wf(vertices, indices, t)
}

} // verus!
