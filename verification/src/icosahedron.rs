//! The base solid: the fixed face list of a regular icosahedron.

use vstd::prelude::*;

verus! {

/// The 20 hand-enumerated faces of the regular icosahedron, as index
/// triples into its 12 golden-ratio-derived vertices.
pub open spec fn icosa_indices() -> Seq<u16> {
    seq![
        11u16, 5, 0, 5, 1, 0, 1, 7, 0, 7, 10, 0, 10, 11, 0, 5, 9, 1, 11, 4, 5, 10, 2, 11, 7, 6, 10,
        1, 8, 7, 9, 4, 3, 4, 2, 3, 2, 6, 3, 6, 8, 3, 8, 9, 3, 9, 5, 4, 4, 11, 2, 2, 10, 6, 6, 7, 8,
        1, 9, 8,
    ]
}

/// The base face list is well formed: 20 triangles over the 12 vertices
/// of the solid, every index below 12.
pub proof fn lemma_icosa_indices_wf()
    ensures
        icosa_indices().len() == 60,
        forall|i: int| 0 <= i < 60 ==> #[trigger] icosa_indices()[i] < 12,
{
    let s = icosa_indices();
    assert(forall|i: int| 0 <= i < 60 ==> #[trigger] s[i] < 12);
}

/// The index buffer of the base icosahedron: 20 triangles over 12 shared
/// vertices, every index below 12.
pub fn get_indices() -> (r: Vec<u16>)
    ensures
        r@ == icosa_indices(),
        r@.len() == 60,
{
    let r: Vec<u16> = vec![
        11, 5, 0, 5, 1, 0, 1, 7, 0, 7, 10, 0, 10, 11, 0, 5, 9, 1, 11, 4, 5, 10, 2, 11, 7, 6, 10, 1,
        8, 7, 9, 4, 3, 4, 2, 3, 2, 6, 3, 6, 8, 3, 8, 9, 3, 9, 5, 4, 4, 11, 2, 2, 10, 6, 6, 7, 8, 1,
        9, 8,
    ];
    proof {
        assert(r@ =~= icosa_indices());
    }
    r
}

} // verus!
