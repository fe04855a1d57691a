//! Construction of a texture-mapped geodesic sphere mesh from a subdivided
//! icosahedron.
//!
//! The crate owns the structural side of the mesh pipeline: the base face
//! list, per-triangle vertex duplication with barycentric corner ids, the
//! edge-midpoint subdivision plan with its shared-edge cache, and the
//! texture seam repair pass with its per-vertex correction cache.  Vertex
//! attribute records (positions, texture coordinates, normals) are carried
//! as an opaque payload type, so the caller evaluates the geometric
//! formulas while this crate fixes every index, every cache decision and
//! every copy.
//!
//! The pipeline runs Generate -> Uniquify -> Subdivide (repeated) ->
//! Repair seams; the caller then accumulates normals per triangle and
//! merges them across the recorded seam corrections.

pub mod dedup;
pub mod icosahedron;
pub mod seam;
pub mod subdivide;
pub mod uniquify;
pub mod vertex;

pub use crate::icosahedron::get_indices;
pub use crate::icosahedron::icosa_indices;
pub use crate::seam::SeamRepair;
pub use crate::seam::repair_texture_wrap_seam;
pub use crate::subdivide::EdgeMidpoint;
pub use crate::subdivide::SubdivisionPlan;
pub use crate::subdivide::apply_midpoints;
pub use crate::subdivide::subdivision_plan;
pub use crate::uniquify::transform_to_unique_vertices;
pub use crate::vertex::Vertex;
