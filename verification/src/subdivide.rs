//! The recursive subdivider: one pass replaces every triangle by four.
//!
//! For each triangle the pass names a midpoint vertex on each of its three
//! edges.  An edge shared by two triangles must yield exactly one midpoint,
//! so midpoints are cached per pass under the unordered pair of endpoint
//! indices.  The pass is split in two: `subdivision_plan` fixes the
//! structure (which midpoints exist, their endpoints, their corner ids, and
//! the new index buffer), and `apply_midpoints` extends the vertex array
//! once the caller has evaluated the midpoint attribute records from the
//! endpoints the plan names.

use std::collections::HashMap;
use vstd::prelude::*;

use crate::dedup::first_index_by;
use crate::dedup::firsts_by;
use crate::dedup::has_key_of;
use crate::dedup::lemma_first_index_by;
use crate::dedup::lemma_first_index_stable;
use crate::dedup::lemma_firsts_by_count;
use crate::dedup::lemma_firsts_by_distinct;
use crate::dedup::lemma_firsts_by_elems;
use crate::dedup::lemma_firsts_by_extend;
use crate::dedup::lemma_firsts_by_push;
use crate::vertex::Vertex;

verus! {

broadcast use vstd::std_specs::hash::group_hash_axioms;

/// The unordered key of an edge: its endpoint indices in ascending order.
pub open spec fn edge_key(e: (u16, u16)) -> (u16, u16) {
    if e.0 <= e.1 {
        e
    } else {
        (e.1, e.0)
    }
}

/// `edge_key` as a key function for the first-occurrence machinery.
pub open spec fn edge_key_fn() -> spec_fn((u16, u16)) -> (u16, u16) {
    |e: (u16, u16)| edge_key(e)
}

/// The unordered key of an edge packed into one cache word.
pub open spec fn edge_code(e: (u16, u16)) -> u64 {
    ((edge_key(e).0 as u64) * 0x10000 + (edge_key(e).1 as u64)) as u64
}

/// Edge `k` (0, 1 or 2) of triangle `t`, in the traversal order of the
/// pass: (v1, v2), then (v2, v0), then (v0, v1).
pub open spec fn tri_edge(indices: Seq<u16>, t: int, k: int) -> (u16, u16) {
    if k == 0 {
        (indices[3 * t + 1], indices[3 * t + 2])
    } else if k == 1 {
        (indices[3 * t + 2], indices[3 * t])
    } else {
        (indices[3 * t], indices[3 * t + 1])
    }
}

/// All triangle edges of the index buffer in traversal order, three per
/// triangle.
pub open spec fn edge_list(indices: Seq<u16>) -> Seq<(u16, u16)> {
    Seq::new(indices.len(), |e: int| tri_edge(indices, e / 3, e % 3))
}

/// The edges that receive a midpoint: the first occurrence of each
/// unordered edge, in traversal order.
pub open spec fn unique_edges(indices: Seq<u16>) -> Seq<(u16, u16)> {
    firsts_by(edge_list(indices), edge_key_fn())
}

/// The position among the new midpoints of the one created for edge `e`.
pub open spec fn edge_slot(indices: Seq<u16>, e: (u16, u16)) -> int {
    first_index_by(edge_list(indices), edge_key_fn(), edge_key(e))
}

/// One planned midpoint vertex: the endpoint indices of its edge (in first
/// encounter order) and its barycentric corner id.
#[verifier::ext_equal]
#[derive(Clone, Copy, Debug, PartialEq)]
pub struct EdgeMidpoint {
    pub a: u16,
    pub b: u16,
    pub corner: u8,
}

/// The structural result of one subdivision pass: the quadrupled index
/// buffer and the list of new midpoint vertices, in creation order.
/// Midpoint `j` becomes vertex `n + j` of the subdivided mesh, where `n`
/// is the vertex count before the pass.
#[verifier::ext_equal]
#[derive(Clone, Debug, PartialEq)]
pub struct SubdivisionPlan {
    pub triangles: Vec<u16>,
    pub midpoints: Vec<EdgeMidpoint>,
}

/// The planned midpoint for edge `e`: its corner id is 3 minus the two
/// endpoint corner ids, the id of the corner the edge does not touch.
pub open spec fn midpoint_of<P>(vertices: Seq<Vertex<P>>, e: (u16, u16)) -> EdgeMidpoint {
    EdgeMidpoint {
        a: e.0,
        b: e.1,
        corner: (3 - vertices[e.0 as int].corner - vertices[e.1 as int].corner) as u8,
    }
}

/// The midpoint list of one pass: one per unique undirected edge, in order
/// of first encounter.
pub open spec fn subdivision_midpoints<P>(
    vertices: Seq<Vertex<P>>,
    indices: Seq<u16>,
) -> Seq<EdgeMidpoint> {
    unique_edges(indices).map_values(|e: (u16, u16)| midpoint_of(vertices, e))
}

/// The four children of triangle `t`, preserving its winding: three corner
/// triangles and the centre triangle of the three midpoints.
pub open spec fn child_triangles(n0: int, indices: Seq<u16>, t: int) -> Seq<u16> {
    let v0 = indices[3 * t];
    let v1 = indices[3 * t + 1];
    let v2 = indices[3 * t + 2];
    let m12 = (n0 + edge_slot(indices, (v1, v2))) as u16;
    let m20 = (n0 + edge_slot(indices, (v2, v0))) as u16;
    let m01 = (n0 + edge_slot(indices, (v0, v1))) as u16;
    seq![v0, m01, m20, m01, v1, m12, m20, m12, v2, m01, m12, m20]
}

/// The subdivided index buffer restricted to the first `t` triangles.
pub open spec fn subdivided_upto(n0: int, indices: Seq<u16>, t: int) -> Seq<u16>
    decreases t,
{
    if t <= 0 {
        Seq::empty()
    } else {
        subdivided_upto(n0, indices, t - 1) + child_triangles(n0, indices, t - 1)
    }
}

/// The full subdivided index buffer: the four children of every triangle,
/// in the original triangle order.
pub open spec fn subdivided_indices(n0: int, indices: Seq<u16>) -> Seq<u16> {
    subdivided_upto(n0, indices, indices.len() as int / 3)
}

/// What `subdivision_plan` returns on success: both parts are functions of
/// the inputs alone.
pub open spec fn subdivision_plan_matches<P>(
    vertices: Seq<Vertex<P>>,
    indices: Seq<u16>,
    plan: SubdivisionPlan,
) -> bool {
    &&& plan.midpoints@ == subdivision_midpoints(vertices, indices)
    &&& plan.triangles@ == subdivided_indices(vertices.len() as int, indices)
}

/// Two edges with the same cache word have the same unordered key.
proof fn lemma_edge_code_injective(e1: (u16, u16), e2: (u16, u16))
    requires
        edge_code(e1) == edge_code(e2),
    ensures
        edge_key(e1) == edge_key(e2),
{
    let k1 = edge_key(e1);
    let k2 = edge_key(e2);
    assert(k1.0 == k2.0 && k1.1 == k2.1) by {
        assert((k1.0 as int) * 0x10000 + (k1.1 as int) == (k2.0 as int) * 0x10000 + (k2.1 as int));
    }
}

/// The midpoint cache relates the midpoints made so far to the edges seen
/// so far: one midpoint per unordered key, in first-encounter order, the
/// cache mapping each key's word to its midpoint's final vertex index.
pub open spec fn midpoint_state_wf<P>(
    vertices: Seq<Vertex<P>>,
    mids: Seq<EdgeMidpoint>,
    cache: Map<u64, u16>,
    seen: Seq<(u16, u16)>,
) -> bool {
    let n0 = vertices.len() as int;
    let fs = firsts_by(seen, edge_key_fn());
    &&& mids.len() == fs.len()
    &&& n0 + mids.len() <= 0x10000
    &&& forall|j: int|
        0 <= j < mids.len() ==> (#[trigger] mids[j]).a == fs[j].0 && mids[j].b == fs[j].1
    &&& forall|j: int|
        0 <= j < mids.len() ==> ((#[trigger] mids[j]).a as int) < n0 && ((mids[j]).b as int) < n0
    &&& forall|j: int|
        0 <= j < mids.len() ==> (#[trigger] mids[j]).corner as int == 3 - vertices[mids[j].a
            as int].corner - vertices[mids[j].b as int].corner
    &&& forall|j: int|
        0 <= j < mids.len() ==> cache.contains_key(#[trigger] edge_code(fs[j])) && cache[edge_code(
            fs[j],
        )] as int == n0 + j
    &&& forall|c: u64|
        #[trigger] cache.contains_key(c) ==> exists|j: int|
            0 <= j < mids.len() && edge_code(#[trigger] fs[j]) == c
}

/// The midpoint vertex index for edge (v1, v2): the cached index when the
/// unordered key was seen before in this pass, else a fresh index past the
/// existing vertices and midpoints.  `None` only when a fresh index would
/// not fit in 16 bits.
fn vertex_for_edge<P: Copy>(
    v1: u16,
    v2: u16,
    vertices: &Vec<Vertex<P>>,
    mids: &mut Vec<EdgeMidpoint>,
    cache: &mut HashMap<u64, u16>,
    Ghost(seen): Ghost<Seq<(u16, u16)>>,
) -> (r: Option<u16>)
    requires
        (v1 as int) < vertices@.len(),
        (v2 as int) < vertices@.len(),
        vertices@[v1 as int].corner + vertices@[v2 as int].corner <= 3,
        midpoint_state_wf(vertices@, old(mids)@, old(cache)@, seen),
    ensures
        r is Some <==> vertices@.len() + firsts_by(seen.push((v1, v2)), edge_key_fn()).len()
            <= 0x10000,
        r matches Some(m) ==> {
            &&& midpoint_state_wf(vertices@, final(mids)@, final(cache)@, seen.push((v1, v2)))
            &&& m as int == vertices@.len() + first_index_by(
                seen.push((v1, v2)),
                edge_key_fn(),
                edge_key((v1, v2)),
            )
        },
{
    let n0 = vertices.len();
    let ghost e = (v1, v2);
    let ghost fs = firsts_by(seen, edge_key_fn());
    let (ka, kb) = if v1 <= v2 {
        (v1, v2)
    } else {
        (v2, v1)
    };
    let code: u64 = (ka as u64) * 0x10000 + (kb as u64);
    proof {
        assert(edge_key_fn()(e) == edge_key(e));
        assert(code == edge_code(e));
        lemma_firsts_by_push(seen, edge_key_fn(), e);
    }
    let cached = cache.get(&code);
    match cached {
        Some(cached_index) => {
            let m: u16 = *cached_index;
            proof {
                let j = choose|j: int| 0 <= j < old(mids)@.len() && edge_code(fs[j]) == code;
                lemma_edge_code_injective(fs[j], e);
                assert(edge_key_fn()(fs[j]) == edge_key(e));
                assert(has_key_of(fs, edge_key_fn(), edge_key(e)));
                crate::dedup::lemma_firsts_by_has(seen, edge_key_fn(), edge_key(e));
                assert(firsts_by(seen.push(e), edge_key_fn()) == fs);
                lemma_first_index_by(seen.push(e), edge_key_fn(), edge_key(e));
                assert(first_index_by(seen.push(e), edge_key_fn(), edge_key(e)) == j);
                assert(m as int == n0 + j);
            }
            Some(m)
        },
        None => {
            proof {
                // the key is new: every cached code belongs to an earlier
                // first occurrence, and none carries this code
                assert(!has_key_of(fs, edge_key_fn(), edge_key(e))) by {
                    if has_key_of(fs, edge_key_fn(), edge_key(e)) {
                        let j = choose|j: int|
                            0 <= j < fs.len() && edge_key_fn()(fs[j]) == edge_key(e);
                        assert(old(cache)@.contains_key(edge_code(fs[j])));
                        assert(edge_code(fs[j]) == code) by {
                            assert(edge_key(fs[j]) == edge_key(e));
                        }
                    }
                }
                crate::dedup::lemma_firsts_by_has(seen, edge_key_fn(), edge_key(e));
                assert(firsts_by(seen.push(e), edge_key_fn()) == fs.push(e));
            }
            if n0 + mids.len() >= 0x10000 {
                return None;
            }
            let c1 = vertices[v1 as usize].corner;
            let c2 = vertices[v2 as usize].corner;
            let corner: u8 = 3 - c1 - c2;
            let m: u16 = (n0 + mids.len()) as u16;
            mids.push(EdgeMidpoint { a: v1, b: v2, corner });
            cache.insert(code, m);
            proof {
                let fs2 = firsts_by(seen.push(e), edge_key_fn());
                lemma_first_index_by(seen.push(e), edge_key_fn(), edge_key(e));
                crate::dedup::lemma_firsts_by_distinct(seen.push(e), edge_key_fn());
                assert(edge_key_fn()(fs2[fs2.len() - 1]) == edge_key(e));
                assert(first_index_by(seen.push(e), edge_key_fn(), edge_key(e)) == fs2.len() - 1);
                assert forall|c: u64| #[trigger] cache@.contains_key(c) implies exists|j: int|
                    0 <= j < mids@.len() && edge_code(#[trigger] fs2[j]) == c by {
                    if c == code {
                        assert(edge_code(fs2[fs2.len() - 1]) == c);
                    } else {
                        assert(old(cache)@.contains_key(c));
                        let j = choose|j: int| 0 <= j < old(mids)@.len() && edge_code(fs[j]) == c;
                        assert(edge_code(fs2[j]) == c);
                    }
                }
            }
            Some(m)
        },
    }
}

/// The subdivided buffer grows by the four children of each triangle: its
/// length is 12 per triangle and each block of 12 is `child_triangles`.
pub proof fn lemma_subdivided_upto_props(n0: int, indices: Seq<u16>, t: int)
    requires
        0 <= t,
    ensures
        subdivided_upto(n0, indices, t).len() == 12 * t,
        forall|t2: int|
            0 <= t2 < t ==> subdivided_upto(n0, indices, t).subrange(12 * t2, 12 * t2 + 12)
                == #[trigger] child_triangles(n0, indices, t2),
    decreases t,
{
    if t > 0 {
        lemma_subdivided_upto_props(n0, indices, t - 1);
        let prev = subdivided_upto(n0, indices, t - 1);
        let cur = subdivided_upto(n0, indices, t);
        assert(cur == prev + child_triangles(n0, indices, t - 1));
        assert forall|t2: int|
            0 <= t2 < t implies cur.subrange(12 * t2, 12 * t2 + 12) == #[trigger] child_triangles(
            n0,
            indices,
            t2,
        ) by {
            if t2 < t - 1 {
                assert(cur.subrange(12 * t2, 12 * t2 + 12) =~= prev.subrange(
                    12 * t2,
                    12 * t2 + 12,
                ));
            } else {
                assert(cur.subrange(12 * t2, 12 * t2 + 12) =~= child_triangles(n0, indices, t2));
            }
        }
    }
}

/// One subdivision pass over the index buffer: the quadrupled index buffer
/// and one midpoint per unique undirected edge, or `None` when the new
/// vertex indices would not all fit in 16 bits.
#[verifier::loop_isolation(false)]
pub fn subdivision_plan<P: Copy>(vertices: &Vec<Vertex<P>>, indices: &Vec<u16>) -> (r: Option<
    SubdivisionPlan,
>)
    requires
        vertices@.len() <= 0x10000,
        crate::vertex::indices_wf(vertices@.len() as int, indices@),
        crate::vertex::corners_wf(vertices@, indices@),
    ensures
        r is Some <==> vertices@.len() + unique_edges(indices@).len() <= 0x10000,
        r matches Some(plan) ==> subdivision_plan_matches(vertices@, indices@, plan),
{
    let ghost el = edge_list(indices@);
    let n0 = vertices.len();
    let t_total = indices.len() / 3;
    let mut mids: Vec<EdgeMidpoint> = Vec::new();
    let mut cache: HashMap<u64, u16> = HashMap::new();
    let mut triangles: Vec<u16> = Vec::new();
    proof {
        assert(el.take(0) =~= Seq::<(u16, u16)>::empty());
        assert(firsts_by(el.take(0), edge_key_fn()) =~= Seq::<(u16, u16)>::empty());
    }
    let mut t: usize = 0;
    while t < t_total
        invariant
            t <= t_total,
            t_total == indices@.len() / 3,
            n0 == vertices@.len(),
            vertices@.len() <= 0x10000,
            crate::vertex::indices_wf(vertices@.len() as int, indices@),
            crate::vertex::corners_wf(vertices@, indices@),
            el == edge_list(indices@),
            midpoint_state_wf(vertices@, mids@, cache@, el.take(3 * (t as int))),
            triangles@ == subdivided_upto(n0 as int, indices@, t as int),
        decreases t_total - t,
    {
        proof {
            assert(3 * (t_total as int) <= indices@.len());
            assert(crate::vertex::triangle_corners_wf(vertices@, indices@, t as int));
        }
        let v0 = indices[3 * t];
        let v1 = indices[3 * t + 1];
        let v2 = indices[3 * t + 2];
        let ghost p = 3 * (t as int);
        proof {
            assert(el[p] == tri_edge(indices@, p / 3, p % 3));
            assert(el[p + 1] == tri_edge(indices@, (p + 1) / 3, (p + 1) % 3));
            assert(el[p + 2] == tri_edge(indices@, (p + 2) / 3, (p + 2) % 3));
            assert(el[p] == (v1, v2) && el[p + 1] == (v2, v0) && el[p + 2] == (v0, v1));
        }
        let r12 = vertex_for_edge(v1, v2, vertices, &mut mids, &mut cache, Ghost(el.take(p)));
        proof {
            assert(el.take(p).push((v1, v2)) =~= el.take(p + 1));
        }
        let m12 = match r12 {
            Some(m) => m,
            None => {
                proof {
                    subdivision_overflow(el, p, n0 as int);
                }
                return None;
            },
        };
        let r20 = vertex_for_edge(v2, v0, vertices, &mut mids, &mut cache, Ghost(el.take(p + 1)));
        proof {
            assert(el.take(p + 1).push((v2, v0)) =~= el.take(p + 2));
        }
        let m20 = match r20 {
            Some(m) => m,
            None => {
                proof {
                    subdivision_overflow(el, p + 1, n0 as int);
                }
                return None;
            },
        };
        let r01 = vertex_for_edge(v0, v1, vertices, &mut mids, &mut cache, Ghost(el.take(p + 2)));
        proof {
            assert(el.take(p + 2).push((v0, v1)) =~= el.take(p + 3));
        }
        let m01 = match r01 {
            Some(m) => m,
            None => {
                proof {
                    subdivision_overflow(el, p + 2, n0 as int);
                }
                return None;
            },
        };
        proof {
            slot_is_edge_slot(el, p, n0 as int, m12 as int);
            slot_is_edge_slot(el, p + 1, n0 as int, m20 as int);
            slot_is_edge_slot(el, p + 2, n0 as int, m01 as int);
        }
        let ghost before = triangles@;
        triangles.push(v0);
        triangles.push(m01);
        triangles.push(m20);
        triangles.push(m01);
        triangles.push(v1);
        triangles.push(m12);
        triangles.push(m20);
        triangles.push(m12);
        triangles.push(v2);
        triangles.push(m01);
        triangles.push(m12);
        triangles.push(m20);
        proof {
            let ch = child_triangles(n0 as int, indices@, t as int);
            assert(m12 as int == n0 + edge_slot(indices@, (v1, v2)));
            assert(ch[0] == v0 && ch[1] == m01 && ch[2] == m20 && ch[3] == m01 && ch[4] == v1
                && ch[5] == m12 && ch[6] == m20 && ch[7] == m12 && ch[8] == v2 && ch[9] == m01
                && ch[10] == m12 && ch[11] == m20);
            assert(triangles@ =~= before + ch);
            assert(subdivided_upto(n0 as int, indices@, t as int + 1) == subdivided_upto(
                n0 as int,
                indices@,
                t as int,
            ) + ch);
        }
        t = t + 1;
    }
    proof {
        assert(el.take(3 * (t_total as int)) =~= el);
        let uq = unique_edges(indices@);
        let sm = subdivision_midpoints(vertices@, indices@);
        assert(mids@ =~= sm) by {
            assert forall|j: int| 0 <= j < mids@.len() implies mids@[j] == sm[j] by {
                assert(sm[j] == midpoint_of(vertices@, uq[j]));
            }
        }
    }
    Some(SubdivisionPlan { triangles, midpoints: mids })
}

/// When a fresh midpoint index would overflow at edge position `p`, the
/// whole pass overflows: the unique edge count only grows from there.
proof fn subdivision_overflow(el: Seq<(u16, u16)>, p: int, n0: int)
    requires
        0 <= p < el.len(),
        n0 + firsts_by(el.take(p + 1), edge_key_fn()).len() > 0x10000,
    ensures
        n0 + firsts_by(el, edge_key_fn()).len() > 0x10000,
{
    lemma_firsts_by_extend(el.take(p + 1), el.skip(p + 1), edge_key_fn());
    assert(el.take(p + 1) + el.skip(p + 1) =~= el);
}

/// Extends the vertex array with the planned midpoint vertices.
///
/// `midpoint_data[j]` is the attribute record the caller evaluated for
/// planned midpoint `j` (positions averaged and rescaled to the sphere,
/// texture coordinates recomputed); the plan supplies its corner id.
/// Midpoint `j` becomes vertex `vertices.len() + j`, as the plan's index
/// buffer expects.
#[verifier::loop_isolation(false)]
pub fn apply_midpoints<P: Copy>(
    vertices: Vec<Vertex<P>>,
    plan: &SubdivisionPlan,
    midpoint_data: Vec<P>,
) -> (r: Vec<Vertex<P>>)
    requires
        midpoint_data@.len() == plan.midpoints@.len(),
    ensures
        r@.len() == vertices@.len() + plan.midpoints@.len(),
        forall|i: int| 0 <= i < vertices@.len() ==> #[trigger] r@[i] == vertices@[i],
        forall|j: int|
            0 <= j < plan.midpoints@.len() ==> (#[trigger] r@[vertices@.len() + j]).data
                == midpoint_data@[j] && r@[vertices@.len() + j].corner
                == plan.midpoints@[j].corner,
{
    let ghost orig = vertices@;
    let mut out = vertices;
    let mut j: usize = 0;
    while j < midpoint_data.len()
        invariant
            j <= midpoint_data@.len(),
            out@.len() == orig.len() + j,
            forall|i: int| 0 <= i < orig.len() ==> #[trigger] out@[i] == orig[i],
            forall|j2: int|
                0 <= j2 < j ==> (#[trigger] out@[orig.len() + j2]).data == midpoint_data@[j2]
                    && out@[orig.len() + j2].corner == plan.midpoints@[j2].corner,
        decreases midpoint_data@.len() - j,
    {
        out.push(Vertex { data: midpoint_data[j], corner: plan.midpoints[j].corner });
        j = j + 1;
    }
    out
}

/// One midpoint per undirected edge: every edge of every triangle has a
/// planned midpoint, at position `edge_slot`, and no other planned
/// midpoint carries its unordered key.
pub proof fn lemma_one_midpoint_per_edge(indices: Seq<u16>, t: int, k: int)
    requires
        0 <= t < indices.len() / 3,
        0 <= k < 3,
        indices.len() % 3 == 0,
    ensures
        0 <= edge_slot(indices, tri_edge(indices, t, k)) < unique_edges(indices).len(),
        edge_key(unique_edges(indices)[edge_slot(indices, tri_edge(indices, t, k))]) == edge_key(
            tri_edge(indices, t, k),
        ),
        forall|j: int|
            0 <= j < unique_edges(indices).len() && edge_key(
                #[trigger] unique_edges(indices)[j],
            ) == edge_key(tri_edge(indices, t, k)) ==> j == edge_slot(
                indices,
                tri_edge(indices, t, k),
            ),
{
    let el = edge_list(indices);
    let e = tri_edge(indices, t, k);
    let p = 3 * t + k;
    assert(el[p] == tri_edge(indices, p / 3, p % 3));
    assert(el[p] == e);
    assert(has_key_of(el, edge_key_fn(), edge_key(e))) by {
        assert(edge_key_fn()(el[p]) == edge_key(e));
    }
    lemma_first_index_by(el, edge_key_fn(), edge_key(e));
    let uq = unique_edges(indices);
    let s = edge_slot(indices, e);
    assert(edge_key_fn()(uq[s]) == edge_key(uq[s]));
    assert forall|j: int|
        0 <= j < uq.len() && edge_key(#[trigger] uq[j]) == edge_key(e) implies j == s by {
        assert(edge_key_fn()(uq[j]) == edge_key(uq[j]));
    }
}

/// The planned midpoint count is the number of distinct unordered edge
/// keys of the index buffer: a shared edge yields one midpoint, never two.
pub proof fn lemma_midpoint_count(indices: Seq<u16>)
    ensures
        unique_edges(indices).len() == edge_list(indices).map_values(
            edge_key_fn(),
        ).to_set().len(),
{
    lemma_firsts_by_count(edge_list(indices), edge_key_fn());
}

/// Each pass quadruples the triangle count: the subdivided index buffer
/// holds four index entries for every entry of the input buffer.
pub proof fn lemma_subdivision_quadruples(n0: int, indices: Seq<u16>)
    requires
        indices.len() % 3 == 0,
    ensures
        subdivided_indices(n0, indices).len() == 4 * indices.len(),
{
    lemma_subdivided_upto_props(n0, indices, indices.len() as int / 3);
}

/// The pass is deterministic: two plans matching the same inputs hold the
/// same index buffer and the same midpoint list.
pub proof fn lemma_subdivision_deterministic<P>(
    vertices: Seq<Vertex<P>>,
    indices: Seq<u16>,
    p1: SubdivisionPlan,
    p2: SubdivisionPlan,
)
    requires
        subdivision_plan_matches(vertices, indices, p1),
        subdivision_plan_matches(vertices, indices, p2),
    ensures
        p1.triangles@ == p2.triangles@,
        p1.midpoints@ == p2.midpoints@,
{
}

/// The vertices named by `new_vertices` carry the corners of `vertices`
/// in the first `vertices.len()` slots and the planned midpoint corners
/// after them — the shape `apply_midpoints` guarantees.
pub open spec fn extends_with_midpoint_corners<P>(
    vertices: Seq<Vertex<P>>,
    plan: SubdivisionPlan,
    new_vertices: Seq<Vertex<P>>,
) -> bool {
    &&& new_vertices.len() == vertices.len() + plan.midpoints@.len()
    &&& forall|i: int|
        0 <= i < vertices.len() ==> (#[trigger] new_vertices[i]).corner == vertices[i].corner
    &&& forall|j: int|
        0 <= j < plan.midpoints@.len() ==> (#[trigger] new_vertices[vertices.len() + j]).corner
            == plan.midpoints@[j].corner
}

/// The corner id of the planned midpoint for edge `k` of triangle `t` is
/// 3 minus the two endpoint corner ids of that edge.
proof fn midpoint_corner_fact<P>(
    vertices: Seq<Vertex<P>>,
    indices: Seq<u16>,
    plan: SubdivisionPlan,
    new_vertices: Seq<Vertex<P>>,
    t: int,
    k: int,
)
    requires
        vertices.len() + plan.midpoints@.len() <= 0x10000,
        crate::vertex::indices_wf(vertices.len() as int, indices),
        crate::vertex::corners_wf(vertices, indices),
        subdivision_plan_matches(vertices, indices, plan),
        extends_with_midpoint_corners(vertices, plan, new_vertices),
        0 <= t < indices.len() / 3,
        0 <= k < 3,
    ensures
        0 <= edge_slot(indices, tri_edge(indices, t, k)) < unique_edges(indices).len(),
        ({
            let e = tri_edge(indices, t, k);
            let s = edge_slot(indices, e);
            new_vertices[vertices.len() + s].corner as int == 3 - vertices[e.0 as int].corner
                - vertices[e.1 as int].corner
        }),
{
    let n0 = vertices.len() as int;
    let el = edge_list(indices);
    let uq = unique_edges(indices);
    let e = tri_edge(indices, t, k);
    lemma_one_midpoint_per_edge(indices, t, k);
    lemma_firsts_by_elems(el, edge_key_fn());
    let s = edge_slot(indices, e);
    let u = uq[s];
    // the endpoints of uq[s] are vertex indices of some triangle edge
    assert(el.contains(u));
    let i = choose|i: int| 0 <= i < el.len() && el[i] == u;
    assert(el[i] == tri_edge(indices, i / 3, i % 3));
    assert(3 * (i / 3) + 2 < indices.len());
    assert((u.0 as int) < n0 && (u.1 as int) < n0);
    assert(plan.midpoints@[s] == midpoint_of(vertices, u)) by {
        assert(plan.midpoints@[s] == subdivision_midpoints(vertices, indices)[s]);
    }
    // an unordered key names the endpoint pair up to order, so the corner
    // sum is the same
    assert(vertices[u.0 as int].corner as int + vertices[u.1 as int].corner as int == vertices[e.0
        as int].corner as int + vertices[e.1 as int].corner as int) by {
        assert(edge_key(u) == edge_key(e));
    }
    assert((e.0 as int) < n0 && (e.1 as int) < n0);
    assert(crate::vertex::triangle_corners_wf(vertices, indices, t));
    assert(vertices[e.0 as int].corner + vertices[e.1 as int].corner <= 3);
    assert(new_vertices[n0 + s].corner == plan.midpoints@[s].corner);
}

/// Facts about one block of four children: all their indices are in
/// bounds, and each child carries the corner ids 0, 1, 2.
proof fn subdivided_block_facts<P>(
    vertices: Seq<Vertex<P>>,
    indices: Seq<u16>,
    plan: SubdivisionPlan,
    new_vertices: Seq<Vertex<P>>,
    t: int,
)
    requires
        vertices.len() + plan.midpoints@.len() <= 0x10000,
        crate::vertex::indices_wf(vertices.len() as int, indices),
        crate::vertex::corners_wf(vertices, indices),
        subdivision_plan_matches(vertices, indices, plan),
        extends_with_midpoint_corners(vertices, plan, new_vertices),
        0 <= t < indices.len() / 3,
    ensures
        forall|q: int|
            0 <= q < 12 ==> (#[trigger] plan.triangles@[12 * t + q] as int) < new_vertices.len(),
        forall|r: int|
            0 <= r < 4 ==> #[trigger] crate::vertex::triangle_corners_wf(
                new_vertices,
                plan.triangles@,
                4 * t + r,
            ),
{
    let n0 = vertices.len() as int;
    let el = edge_list(indices);
    let uq = unique_edges(indices);
    let tri = plan.triangles@;
    let ch = child_triangles(n0, indices, t);
    lemma_subdivided_upto_props(n0, indices, indices.len() as int / 3);
    assert(tri.subrange(12 * t, 12 * t + 12) == ch);
    assert(forall|q: int| 0 <= q < 12 ==> tri[12 * t + q] == #[trigger] ch[q]);
    let v0 = indices[3 * t];
    let v1 = indices[3 * t + 1];
    let v2 = indices[3 * t + 2];
    assert(crate::vertex::triangle_corners_wf(vertices, indices, t));
    let c0 = vertices[v0 as int].corner;
    let c1 = vertices[v1 as int].corner;
    let c2 = vertices[v2 as int].corner;
    assert(c0 as int + c1 as int + c2 as int == 3);
    midpoint_corner_fact(vertices, indices, plan, new_vertices, t, 0);
    midpoint_corner_fact(vertices, indices, plan, new_vertices, t, 1);
    midpoint_corner_fact(vertices, indices, plan, new_vertices, t, 2);
    let s12 = edge_slot(indices, (v1, v2));
    let s20 = edge_slot(indices, (v2, v0));
    let s01 = edge_slot(indices, (v0, v1));
    assert(tri_edge(indices, t, 0) == (v1, v2) && tri_edge(indices, t, 1) == (v2, v0) && tri_edge(
        indices,
        t,
        2,
    ) == (v0, v1));
    assert(new_vertices[n0 + s12].corner as int == 3 - c1 - c2);
    assert(new_vertices[n0 + s20].corner as int == 3 - c2 - c0);
    assert(new_vertices[n0 + s01].corner as int == 3 - c0 - c1);
    assert(ch[0] == v0 && ch[4] == v1 && ch[8] == v2);
    assert(ch[1] == (n0 + s01) as u16 && ch[3] == (n0 + s01) as u16 && ch[9] == (n0 + s01) as u16);
    assert(ch[2] == (n0 + s20) as u16 && ch[6] == (n0 + s20) as u16 && ch[11] == (n0 + s20) as u16);
    assert(ch[5] == (n0 + s12) as u16 && ch[7] == (n0 + s12) as u16 && ch[10] == (n0 + s12) as u16);
    assert(((n0 + s01) as u16) as int == n0 + s01);
    assert(((n0 + s20) as u16) as int == n0 + s20);
    assert(((n0 + s12) as u16) as int == n0 + s12);
    assert(new_vertices[v0 as int].corner == c0 && new_vertices[v1 as int].corner == c1
        && new_vertices[v2 as int].corner == c2);
    assert forall|r: int| 0 <= r < 4 implies #[trigger] crate::vertex::triangle_corners_wf(
        new_vertices,
        tri,
        4 * t + r,
    ) by {
        assert(tri[3 * (4 * t + r)] == ch[3 * r] && tri[3 * (4 * t + r) + 1] == ch[3 * r + 1]
            && tri[3 * (4 * t + r) + 2] == ch[3 * r + 2]);
    }
}

/// Subdivision preserves the corner labeling invariant: when every input
/// triangle carries the corner ids 0, 1, 2, so does every output
/// triangle, the midpoint of an edge taking the id of the corner its edge
/// does not touch.
pub proof fn lemma_subdivision_preserves_corners<P>(
    vertices: Seq<Vertex<P>>,
    indices: Seq<u16>,
    plan: SubdivisionPlan,
    new_vertices: Seq<Vertex<P>>,
)
    requires
        vertices.len() + plan.midpoints@.len() <= 0x10000,
        crate::vertex::indices_wf(vertices.len() as int, indices),
        crate::vertex::corners_wf(vertices, indices),
        subdivision_plan_matches(vertices, indices, plan),
        extends_with_midpoint_corners(vertices, plan, new_vertices),
    ensures
        crate::vertex::indices_wf(new_vertices.len() as int, plan.triangles@),
        crate::vertex::corners_wf(new_vertices, plan.triangles@),
{
    let n0 = vertices.len() as int;
    let tri = plan.triangles@;
    let tcount = indices.len() as int / 3;
    lemma_subdivided_upto_props(n0, indices, tcount);
    assert(tri.len() == 12 * tcount);
    assert(tri.len() % 3 == 0);
    assert forall|q: int| 0 <= q < tri.len() implies (#[trigger] tri[q] as int)
        < new_vertices.len() by {
        let t = q / 12;
        subdivided_block_facts(vertices, indices, plan, new_vertices, t);
        assert((tri[12 * t + q % 12] as int) < new_vertices.len());
        assert(12 * t + q % 12 == q);
    }
    assert forall|t4: int| 0 <= t4 < tri.len() / 3 implies #[trigger]
        crate::vertex::triangle_corners_wf(new_vertices, tri, t4) by {
        let t = t4 / 4;
        subdivided_block_facts(vertices, indices, plan, new_vertices, t);
        assert(crate::vertex::triangle_corners_wf(new_vertices, tri, 4 * t + t4 % 4));
        assert(4 * t + t4 % 4 == t4);
    }
}

/// A midpoint index valid for the edges seen so far keeps its meaning for
/// the whole pass: it is `n0` plus the edge's slot among all unique edges.
proof fn slot_is_edge_slot(el: Seq<(u16, u16)>, p: int, n0: int, m: int)
    requires
        0 <= p < el.len(),
        m == n0 + first_index_by(el.take(p + 1), edge_key_fn(), edge_key(el[p])),
    ensures
        m == n0 + first_index_by(el, edge_key_fn(), edge_key(el[p])),
{
    assert(has_key_of(el.take(p + 1), edge_key_fn(), edge_key(el[p]))) by {
        assert(el.take(p + 1)[p] == el[p]);
        assert(edge_key_fn()(el[p]) == edge_key(el[p]));
    }
    lemma_first_index_stable(el.take(p + 1), el.skip(p + 1), edge_key_fn(), edge_key(el[p]));
    assert(el.take(p + 1) + el.skip(p + 1) =~= el);
}

} // verus!
