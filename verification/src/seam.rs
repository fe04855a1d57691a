//! The texture seam repairer.
//!
//! The equirectangular texture coordinate wraps at u = 0 / u = 1, so a
//! triangle straddling that line shows reversed winding in uv space and
//! smears the texture.  The caller classifies each triangle (reversed uv
//! winding or not) and each vertex (u at or below the correction threshold
//! or not); this pass then duplicates every flagged vertex of every flagged
//! triangle onto the far side of the wrap, reusing one duplicate per
//! original vertex through a per-pass correction cache, and records the
//! (original, duplicate) pairs so the normal pass can merge their normals.
//! Triangles are processed in reverse order, so the repaired index buffer
//! lists them last-to-first.
//!
//! Known limitation, kept on purpose: triangles very close to the poles
//! are not correctly repaired by this winding heuristic.

use std::collections::HashMap;
use vstd::prelude::*;

use crate::dedup::first_index_by;
use crate::dedup::firsts_by;
use crate::dedup::has_key_of;
use crate::dedup::lemma_first_index_by;
use crate::dedup::lemma_first_index_stable;
use crate::dedup::lemma_firsts_by_distinct;
use crate::dedup::lemma_firsts_by_elems;
use crate::dedup::lemma_firsts_by_push;
use crate::vertex::Vertex;

verus! {

broadcast use vstd::std_specs::hash::group_hash_axioms;

/// The identity key: seam corrections are cached per original vertex
/// index.
pub open spec fn id_key_fn() -> spec_fn(u16) -> u16 {
    |x: u16| x
}

/// The duplicate requests of triangle `t`: none when the triangle is not
/// flagged, else its flagged vertex indices in slot order.
pub open spec fn tri_dup_requests(
    indices: Seq<u16>,
    seam: Seq<bool>,
    low_u: Seq<bool>,
    t: int,
) -> Seq<u16> {
    if !seam[t] {
        Seq::empty()
    } else {
        let r0: Seq<u16> = if low_u[indices[3 * t] as int] {
            seq![indices[3 * t]]
        } else {
            Seq::empty()
        };
        let r1: Seq<u16> = if low_u[indices[3 * t + 1] as int] {
            seq![indices[3 * t + 1]]
        } else {
            Seq::empty()
        };
        let r2: Seq<u16> = if low_u[indices[3 * t + 2] as int] {
            seq![indices[3 * t + 2]]
        } else {
            Seq::empty()
        };
        r0 + r1 + r2
    }
}

/// The duplicate requests of the first `k` processed triangles; the pass
/// processes triangles last-to-first.
pub open spec fn dup_requests_upto(
    indices: Seq<u16>,
    seam: Seq<bool>,
    low_u: Seq<bool>,
    k: int,
) -> Seq<u16>
    decreases k,
{
    if k <= 0 {
        Seq::empty()
    } else {
        dup_requests_upto(indices, seam, low_u, k - 1) + tri_dup_requests(
            indices,
            seam,
            low_u,
            indices.len() as int / 3 - k,
        )
    }
}

/// All duplicate requests of the pass, in processing order.
pub open spec fn dup_requests(indices: Seq<u16>, seam: Seq<bool>, low_u: Seq<bool>) -> Seq<u16> {
    dup_requests_upto(indices, seam, low_u, indices.len() as int / 3)
}

/// The original indices that receive a duplicate, in creation order:
/// duplicate `j` becomes vertex `n + j`, where `n` is the vertex count
/// before the pass.
pub open spec fn dup_originals(indices: Seq<u16>, seam: Seq<bool>, low_u: Seq<bool>) -> Seq<u16> {
    firsts_by(dup_requests(indices, seam, low_u), id_key_fn())
}

/// The repaired mesh: the vertex array extended with the duplicates, the
/// rewritten index buffer, and the (original, duplicate) index pairs for
/// the normal pass.
#[verifier::ext_equal]
#[derive(Clone, Debug, PartialEq)]
pub struct SeamRepair<P> {
    pub vertices: Vec<Vertex<P>>,
    pub indices: Vec<u16>,
    pub corrections: Vec<(u16, u16)>,
}

/// The repaired index buffer entry for slot `s` of the `k`-th processed
/// triangle: the duplicate's index when the triangle and the vertex are
/// both flagged, else the vertex's own index.
pub open spec fn corrected_slot(
    indices: Seq<u16>,
    seam: Seq<bool>,
    low_u: Seq<bool>,
    n0: int,
    k: int,
    s: int,
) -> u16 {
    let t = indices.len() as int / 3 - 1 - k;
    let idx = indices[3 * t + s];
    if seam[t] && low_u[idx as int] {
        (n0 + first_index_by(dup_requests(indices, seam, low_u), id_key_fn(), idx)) as u16
    } else {
        idx
    }
}

/// What `repair_texture_wrap_seam` returns on success: every part is a
/// function of the inputs alone.
pub open spec fn seam_repair_matches<P>(
    vertices: Seq<Vertex<P>>,
    indices: Seq<u16>,
    seam: Seq<bool>,
    low_u: Seq<bool>,
    shifted: Seq<P>,
    rep: SeamRepair<P>,
) -> bool {
    let n0 = vertices.len() as int;
    let ds = dup_originals(indices, seam, low_u);
    &&& rep.corrections@.len() == ds.len()
    &&& forall|j: int|
        0 <= j < ds.len() ==> #[trigger] rep.corrections@[j] == (ds[j], (n0 + j) as u16)
    &&& rep.vertices@.len() == n0 + ds.len()
    &&& forall|i: int| 0 <= i < n0 ==> #[trigger] rep.vertices@[i] == vertices[i]
    &&& forall|j: int|
        0 <= j < ds.len() ==> (#[trigger] rep.vertices@[n0 + j]).data == shifted[ds[j] as int]
            && rep.vertices@[n0 + j].corner == vertices[ds[j] as int].corner
    &&& rep.indices@.len() == indices.len()
    &&& forall|k: int, s: int|
        0 <= k < indices.len() as int / 3 && 0 <= s < 3 ==> #[trigger] rep.indices@[3 * k + s]
            == corrected_slot(indices, seam, low_u, n0, k, s)
}

/// The correction cache relates the duplicates made so far to the
/// requests seen so far: one duplicate per original index, in
/// first-request order, the cache mapping each original to its
/// duplicate's index.
pub open spec fn seam_state_wf<P>(
    vertices: Seq<Vertex<P>>,
    shifted: Seq<P>,
    new_vertices: Seq<Vertex<P>>,
    corrections: Seq<(u16, u16)>,
    cache: Map<u16, u16>,
    reqs: Seq<u16>,
) -> bool {
    let n0 = vertices.len() as int;
    let ds = firsts_by(reqs, id_key_fn());
    &&& forall|i: int| 0 <= i < reqs.len() ==> (#[trigger] reqs[i] as int) < n0
    &&& corrections.len() == ds.len()
    &&& n0 + ds.len() <= 0x10000
    &&& new_vertices.len() == n0 + ds.len()
    &&& forall|i: int| 0 <= i < n0 ==> #[trigger] new_vertices[i] == vertices[i]
    &&& forall|j: int|
        0 <= j < ds.len() ==> #[trigger] corrections[j] == (ds[j], (n0 + j) as u16)
    &&& forall|j: int|
        0 <= j < ds.len() ==> (#[trigger] new_vertices[n0 + j]).data == shifted[ds[j] as int]
            && new_vertices[n0 + j].corner == vertices[ds[j] as int].corner
    &&& forall|j: int|
        0 <= j < ds.len() ==> cache.contains_key(#[trigger] ds[j]) && cache[ds[j]] as int == n0 + j
    &&& forall|c: u16|
        #[trigger] cache.contains_key(c) ==> exists|j: int| 0 <= j < ds.len() && ds[j] == c
}

/// The duplicate's index for one flagged slot holding original index
/// `idx`: the cached duplicate when `idx` was corrected before in this
/// pass, else a fresh duplicate of `shifted[idx]`.  `None` only when a
/// fresh index would not fit in 16 bits.
fn correct_seam_slot<P: Copy>(
    idx: u16,
    new_vertices: &mut Vec<Vertex<P>>,
    corrections: &mut Vec<(u16, u16)>,
    cache: &mut HashMap<u16, u16>,
    shifted: &Vec<P>,
    Ghost(vertices0): Ghost<Seq<Vertex<P>>>,
    Ghost(reqs): Ghost<Seq<u16>>,
) -> (r: Option<u16>)
    requires
        (idx as int) < vertices0.len(),
        shifted@.len() == vertices0.len(),
        seam_state_wf(
            vertices0,
            shifted@,
            old(new_vertices)@,
            old(corrections)@,
            old(cache)@,
            reqs,
        ),
    ensures
        r is Some <==> vertices0.len() + firsts_by(reqs.push(idx), id_key_fn()).len() <= 0x10000,
        r matches Some(d) ==> {
            &&& seam_state_wf(
                vertices0,
                shifted@,
                final(new_vertices)@,
                final(corrections)@,
                final(cache)@,
                reqs.push(idx),
            )
            &&& d as int == vertices0.len() + first_index_by(reqs.push(idx), id_key_fn(), idx)
        },
{
    let ghost n0 = vertices0.len() as int;
    let ghost ds = firsts_by(reqs, id_key_fn());
    proof {
        assert(id_key_fn()(idx) == idx);
        lemma_firsts_by_push(reqs, id_key_fn(), idx);
    }
    let cached = cache.get(&idx);
    match cached {
        Some(dup_index) => {
            let d: u16 = *dup_index;
            proof {
                let j = choose|j: int| 0 <= j < ds.len() && ds[j] == idx;
                assert(id_key_fn()(ds[j]) == idx);
                assert(has_key_of(ds, id_key_fn(), idx));
                crate::dedup::lemma_firsts_by_has(reqs, id_key_fn(), idx);
                assert(firsts_by(reqs.push(idx), id_key_fn()) == ds);
                assert(reqs.push(idx)[reqs.len() as int] == idx);
                lemma_first_index_by(reqs.push(idx), id_key_fn(), idx);
                assert(first_index_by(reqs.push(idx), id_key_fn(), idx) == j);
                assert(d as int == n0 + j);
            }
            Some(d)
        },
        None => {
            proof {
                assert(!has_key_of(ds, id_key_fn(), idx)) by {
                    if has_key_of(ds, id_key_fn(), idx) {
                        let j = choose|j: int| 0 <= j < ds.len() && id_key_fn()(ds[j]) == idx;
                        assert(old(cache)@.contains_key(ds[j]));
                    }
                }
                crate::dedup::lemma_firsts_by_has(reqs, id_key_fn(), idx);
                assert(firsts_by(reqs.push(idx), id_key_fn()) == ds.push(idx));
            }
            if new_vertices.len() >= 0x10000 {
                return None;
            }
            let d: u16 = new_vertices.len() as u16;
            let original = new_vertices[idx as usize];
            new_vertices.push(Vertex { data: shifted[idx as usize], corner: original.corner });
            corrections.push((idx, d));
            cache.insert(idx, d);
            proof {
                let ds2 = firsts_by(reqs.push(idx), id_key_fn());
                assert(reqs.push(idx)[reqs.len() as int] == idx);
                lemma_first_index_by(reqs.push(idx), id_key_fn(), idx);
                lemma_firsts_by_distinct(reqs.push(idx), id_key_fn());
                assert(id_key_fn()(ds2[ds2.len() - 1]) == idx);
                assert(first_index_by(reqs.push(idx), id_key_fn(), idx) == ds2.len() - 1);
                assert(vertices0[idx as int].corner == original.corner);
                assert forall|c: u16| #[trigger] cache@.contains_key(c) implies exists|j: int|
                    0 <= j < ds2.len() && ds2[j] == c by {
                    if c == idx {
                        assert(ds2[ds2.len() - 1] == c);
                    } else {
                        assert(old(cache)@.contains_key(c));
                        let j = choose|j: int| 0 <= j < ds.len() && ds[j] == c;
                        assert(ds2[j] == c);
                    }
                }
            }
            Some(d)
        },
    }
}

/// Requests only accumulate: the requests of the first `k1` processed
/// triangles are a prefix of those of the first `k2`.
proof fn lemma_dup_upto_prefix(
    indices: Seq<u16>,
    seam: Seq<bool>,
    low_u: Seq<bool>,
    k1: int,
    k2: int,
)
    requires
        0 <= k1 <= k2,
    ensures
        dup_requests_upto(indices, seam, low_u, k1).len() <= dup_requests_upto(
            indices,
            seam,
            low_u,
            k2,
        ).len(),
        forall|i: int|
            0 <= i < dup_requests_upto(indices, seam, low_u, k1).len() ==> #[trigger]
                dup_requests_upto(indices, seam, low_u, k2)[i] == dup_requests_upto(
                indices,
                seam,
                low_u,
                k1,
            )[i],
    decreases k2 - k1,
{
    if k1 < k2 {
        lemma_dup_upto_prefix(indices, seam, low_u, k1, k2 - 1);
    }
}

/// A duplicate index computed against the requests seen so far keeps its
/// meaning for the whole pass.
proof fn dup_index_in_full(
    indices: Seq<u16>,
    seam: Seq<bool>,
    low_u: Seq<bool>,
    r_incl: Seq<u16>,
    idx: u16,
    kk: int,
    n0: int,
    d: int,
)
    requires
        0 <= kk <= indices.len() as int / 3,
        r_incl.len() <= dup_requests_upto(indices, seam, low_u, kk).len(),
        forall|i: int|
            0 <= i < r_incl.len() ==> #[trigger] dup_requests_upto(indices, seam, low_u, kk)[i]
                == r_incl[i],
        r_incl.len() > 0,
        r_incl.last() == idx,
        d == n0 + first_index_by(r_incl, id_key_fn(), idx),
    ensures
        d == n0 + first_index_by(dup_requests(indices, seam, low_u), id_key_fn(), idx),
{
    let t_total = indices.len() as int / 3;
    let full = dup_requests(indices, seam, low_u);
    lemma_dup_upto_prefix(indices, seam, low_u, kk, t_total);
    assert(r_incl + full.skip(r_incl.len() as int) =~= full) by {
        assert(forall|i: int|
            0 <= i < r_incl.len() ==> #[trigger] full[i] == r_incl[i]);
    }
    assert(has_key_of(r_incl, id_key_fn(), idx)) by {
        assert(id_key_fn()(r_incl[r_incl.len() - 1]) == idx);
    }
    lemma_first_index_stable(r_incl, full.skip(r_incl.len() as int), id_key_fn(), idx);
}

/// When a fresh duplicate index would overflow, the whole pass overflows:
/// the duplicate count only grows from there.
proof fn dup_overflow_in_full(
    indices: Seq<u16>,
    seam: Seq<bool>,
    low_u: Seq<bool>,
    r_incl: Seq<u16>,
    kk: int,
    n0: int,
)
    requires
        0 <= kk <= indices.len() as int / 3,
        r_incl.len() <= dup_requests_upto(indices, seam, low_u, kk).len(),
        forall|i: int|
            0 <= i < r_incl.len() ==> #[trigger] dup_requests_upto(indices, seam, low_u, kk)[i]
                == r_incl[i],
        n0 + firsts_by(r_incl, id_key_fn()).len() > 0x10000,
    ensures
        n0 + dup_originals(indices, seam, low_u).len() > 0x10000,
{
    let full = dup_requests(indices, seam, low_u);
    lemma_dup_upto_prefix(indices, seam, low_u, kk, indices.len() as int / 3);
    assert(r_incl + full.skip(r_incl.len() as int) =~= full) by {
        assert(forall|i: int|
            0 <= i < r_incl.len() ==> #[trigger] full[i] == r_incl[i]);
    }
    crate::dedup::lemma_firsts_by_extend(r_incl, full.skip(r_incl.len() as int), id_key_fn());
}

/// Every duplicate request names a flagged (low-u) vertex.
proof fn lemma_dup_requests_flagged(indices: Seq<u16>, seam: Seq<bool>, low_u: Seq<bool>, k: int)
    requires
        0 <= k,
    ensures
        forall|i: int|
            0 <= i < dup_requests_upto(indices, seam, low_u, k).len() ==> low_u[#[trigger]
                dup_requests_upto(indices, seam, low_u, k)[i] as int],
    decreases k,
{
    if k > 0 {
        lemma_dup_requests_flagged(indices, seam, low_u, k - 1);
        let prev = dup_requests_upto(indices, seam, low_u, k - 1);
        let cur = dup_requests_upto(indices, seam, low_u, k);
        let t = indices.len() as int / 3 - k;
        let tri = tri_dup_requests(indices, seam, low_u, t);
        assert forall|i: int|
            0 <= i < cur.len() implies low_u[#[trigger] cur[i] as int] by {
            if i >= prev.len() {
                assert(cur[i] == tri[i - prev.len()]);
            }
        }
    }
}

/// The recorded corrections are sound: the corrected originals are
/// pairwise distinct (one duplicate per vertex, however many seam
/// triangles share it) and each is a flagged, low-u vertex.
pub proof fn lemma_corrections_sound(indices: Seq<u16>, seam: Seq<bool>, low_u: Seq<bool>)
    ensures
        forall|j1: int, j2: int|
            0 <= j1 < j2 < dup_originals(indices, seam, low_u).len() ==> #[trigger] dup_originals(
                indices,
                seam,
                low_u,
            )[j1] != #[trigger] dup_originals(indices, seam, low_u)[j2],
        forall|j: int|
            0 <= j < dup_originals(indices, seam, low_u).len() ==> low_u[#[trigger] dup_originals(
                indices,
                seam,
                low_u,
            )[j] as int],
{
    let reqs = dup_requests(indices, seam, low_u);
    let ds = dup_originals(indices, seam, low_u);
    lemma_firsts_by_distinct(reqs, id_key_fn());
    lemma_firsts_by_elems(reqs, id_key_fn());
    lemma_dup_requests_flagged(indices, seam, low_u, indices.len() as int / 3);
    assert forall|j1: int, j2: int|
        0 <= j1 < j2 < ds.len() implies #[trigger] ds[j1] != #[trigger] ds[j2] by {
        assert(id_key_fn()(ds[j1]) == ds[j1] && id_key_fn()(ds[j2]) == ds[j2]);
    }
    assert forall|j: int| 0 <= j < ds.len() implies low_u[#[trigger] ds[j] as int] by {
        assert(reqs.contains(ds[j]));
        let i = choose|i: int| 0 <= i < reqs.len() && reqs[i] == ds[j];
        assert(low_u[reqs[i] as int]);
    }
}

/// The pass is deterministic: two repairs matching the same inputs hold
/// the same vertices, the same index buffer and the same corrections.
pub proof fn lemma_seam_deterministic<P>(
    vertices: Seq<Vertex<P>>,
    indices: Seq<u16>,
    seam: Seq<bool>,
    low_u: Seq<bool>,
    shifted: Seq<P>,
    r1: SeamRepair<P>,
    r2: SeamRepair<P>,
)
    requires
        indices.len() % 3 == 0,
        seam_repair_matches(vertices, indices, seam, low_u, shifted, r1),
        seam_repair_matches(vertices, indices, seam, low_u, shifted, r2),
    ensures
        r1.vertices@ == r2.vertices@,
        r1.indices@ == r2.indices@,
        r1.corrections@ == r2.corrections@,
{
    let n0 = vertices.len() as int;
    let ds = dup_originals(indices, seam, low_u);
    assert(r1.vertices@ =~= r2.vertices@) by {
        assert forall|i: int|
            0 <= i < r1.vertices@.len() implies #[trigger] r1.vertices@[i] == r2.vertices@[i] by {
            if i >= n0 {
                let j = i - n0;
                assert(r1.vertices@[n0 + j].data == shifted[ds[j] as int]);
                assert(r2.vertices@[n0 + j].data == shifted[ds[j] as int]);
                assert(r1.vertices@[n0 + j] =~= r2.vertices@[n0 + j]);
            }
        }
    }
    assert(r1.indices@ =~= r2.indices@) by {
        assert forall|q: int|
            0 <= q < r1.indices@.len() implies #[trigger] r1.indices@[q] == r2.indices@[q] by {
            let k = q / 3;
            let s = q % 3;
            assert(r1.indices@[3 * k + s] == corrected_slot(indices, seam, low_u, n0, k, s));
            assert(r2.indices@[3 * k + s] == corrected_slot(indices, seam, low_u, n0, k, s));
            assert(3 * k + s == q);
        }
    }
    assert(r1.corrections@ =~= r2.corrections@);
}

/// Repairs the texture wrap seam.
///
/// `seam_flags[t]` says triangle `t`'s uv winding is reversed (the signed
/// uv cross product is at most zero); `low_u[i]` says vertex `i` lies at
/// or below the correction threshold; `shifted[i]` is vertex `i`'s
/// attribute record with its u coordinate moved to the far side of the
/// wrap.  Every flagged vertex of every flagged triangle is redirected to
/// a duplicate vertex carrying the shifted record, one duplicate per
/// original; triangles are processed and emitted in reverse order.
/// Returns `None` only when the duplicates would not all fit in 16-bit
/// indices.
#[verifier::loop_isolation(false)]
#[verifier::rlimit(100)]
pub fn repair_texture_wrap_seam<P: Copy>(
    vertices: Vec<Vertex<P>>,
    indices: &Vec<u16>,
    seam_flags: &Vec<bool>,
    low_u: &Vec<bool>,
    shifted: &Vec<P>,
) -> (r: Option<SeamRepair<P>>)
    requires
        vertices@.len() <= 0x10000,
        crate::vertex::indices_wf(vertices@.len() as int, indices@),
        seam_flags@.len() == indices@.len() / 3,
        low_u@.len() == vertices@.len(),
        shifted@.len() == vertices@.len(),
    ensures
        r is Some <==> vertices@.len() + dup_originals(indices@, seam_flags@, low_u@).len()
            <= 0x10000,
        r matches Some(rep) ==> seam_repair_matches(
            vertices@,
            indices@,
            seam_flags@,
            low_u@,
            shifted@,
            rep,
        ),
{
    let ghost orig = vertices@;
    let ghost n0_spec = vertices@.len() as int;
    let n0 = vertices.len();
    let t_total = indices.len() / 3;
    let mut new_vertices = vertices;
    let mut out_indices: Vec<u16> = Vec::new();
    let mut corrections: Vec<(u16, u16)> = Vec::new();
    let mut cache: HashMap<u16, u16> = HashMap::new();
    proof {
        assert(firsts_by(dup_requests_upto(indices@, seam_flags@, low_u@, 0), id_key_fn())
            =~= Seq::<u16>::empty());
    }
    let mut k: usize = 0;
    while k < t_total
        invariant
            k <= t_total,
            new_vertices@.len() >= n0,
            seam_state_wf(
                orig,
                shifted@,
                new_vertices@,
                corrections@,
                cache@,
                dup_requests_upto(indices@, seam_flags@, low_u@, k as int),
            ),
            out_indices@.len() == 3 * k,
            forall|k2: int, s: int|
                0 <= k2 < k && 0 <= s < 3 ==> #[trigger] out_indices@[3 * k2 + s]
                    == corrected_slot(indices@, seam_flags@, low_u@, n0_spec, k2, s),
        decreases t_total - k,
    {
        let t = t_total - 1 - k;
        let i0 = indices[3 * t];
        let i1 = indices[3 * t + 1];
        let i2 = indices[3 * t + 2];
        let ghost r0 = dup_requests_upto(indices@, seam_flags@, low_u@, k as int);
        let ghost r_next = dup_requests_upto(indices@, seam_flags@, low_u@, k as int + 1);
        let ghost tri = tri_dup_requests(indices@, seam_flags@, low_u@, t as int);
        proof {
            assert(indices@.len() as int / 3 - (k as int + 1) == t as int);
            assert(r_next == r0 + tri);
        }
        if seam_flags[t] {
            let ghost q0: Seq<u16> = if low_u@[i0 as int] { seq![i0] } else { Seq::empty() };
            let ghost q1: Seq<u16> = if low_u@[i1 as int] { seq![i1] } else { Seq::empty() };
            let ghost q2: Seq<u16> = if low_u@[i2 as int] { seq![i2] } else { Seq::empty() };
            let ghost ra = r0 + q0;
            let ghost rb = ra + q1;
            let ghost rc = rb + q2;
            proof {
                assert(tri == q0 + q1 + q2);
                assert(rc =~= r_next);
                assert(rb =~= r0 + (q0 + q1));
            }
            // slot 0
            if low_u[i0 as usize] {
                let res = correct_seam_slot(
                    i0,
                    &mut new_vertices,
                    &mut corrections,
                    &mut cache,
                    shifted,
                    Ghost(orig),
                    Ghost(r0),
                );
                proof {
                    assert(r0.push(i0) =~= ra);
                }
                match res {
                    Some(d) => {
                        proof {
                            assert(forall|i: int|
                                0 <= i < ra.len() ==> #[trigger] r_next[i] == ra[i]);
                            dup_index_in_full(
                                indices@,
                                seam_flags@,
                                low_u@,
                                ra,
                                i0,
                                k as int + 1,
                                n0_spec,
                                d as int,
                            );
                        }
                        out_indices.push(d);
                    },
                    None => {
                        proof {
                            assert(forall|i: int|
                                0 <= i < ra.len() ==> #[trigger] r_next[i] == ra[i]);
                            dup_overflow_in_full(
                                indices@,
                                seam_flags@,
                                low_u@,
                                ra,
                                k as int + 1,
                                n0_spec,
                            );
                        }
                        return None;
                    },
                }
            } else {
                proof {
                    assert(ra =~= r0);
                }
                out_indices.push(i0);
            }
            // slot 1
            if low_u[i1 as usize] {
                let res = correct_seam_slot(
                    i1,
                    &mut new_vertices,
                    &mut corrections,
                    &mut cache,
                    shifted,
                    Ghost(orig),
                    Ghost(ra),
                );
                proof {
                    assert(ra.push(i1) =~= rb);
                }
                match res {
                    Some(d) => {
                        proof {
                            assert(forall|i: int|
                                0 <= i < rb.len() ==> #[trigger] r_next[i] == rb[i]);
                            dup_index_in_full(
                                indices@,
                                seam_flags@,
                                low_u@,
                                rb,
                                i1,
                                k as int + 1,
                                n0_spec,
                                d as int,
                            );
                        }
                        out_indices.push(d);
                    },
                    None => {
                        proof {
                            assert(forall|i: int|
                                0 <= i < rb.len() ==> #[trigger] r_next[i] == rb[i]);
                            dup_overflow_in_full(
                                indices@,
                                seam_flags@,
                                low_u@,
                                rb,
                                k as int + 1,
                                n0_spec,
                            );
                        }
                        return None;
                    },
                }
            } else {
                proof {
                    assert(rb =~= ra);
                }
                out_indices.push(i1);
            }
            // slot 2
            if low_u[i2 as usize] {
                let res = correct_seam_slot(
                    i2,
                    &mut new_vertices,
                    &mut corrections,
                    &mut cache,
                    shifted,
                    Ghost(orig),
                    Ghost(rb),
                );
                proof {
                    assert(rb.push(i2) =~= rc);
                }
                match res {
                    Some(d) => {
                        proof {
                            assert(forall|i: int|
                                0 <= i < rc.len() ==> #[trigger] r_next[i] == rc[i]);
                            dup_index_in_full(
                                indices@,
                                seam_flags@,
                                low_u@,
                                rc,
                                i2,
                                k as int + 1,
                                n0_spec,
                                d as int,
                            );
                        }
                        out_indices.push(d);
                    },
                    None => {
                        proof {
                            assert(forall|i: int|
                                0 <= i < rc.len() ==> #[trigger] r_next[i] == rc[i]);
                            dup_overflow_in_full(
                                indices@,
                                seam_flags@,
                                low_u@,
                                rc,
                                k as int + 1,
                                n0_spec,
                            );
                        }
                        return None;
                    },
                }
            } else {
                proof {
                    assert(rc =~= rb);
                }
                out_indices.push(i2);
            }
        } else {
            proof {
                assert(tri =~= Seq::<u16>::empty());
                assert(r_next =~= r0);
            }
            out_indices.push(i0);
            out_indices.push(i1);
            out_indices.push(i2);
        }
        k = k + 1;
    }
    proof {
        assert(dup_requests_upto(indices@, seam_flags@, low_u@, t_total as int) == dup_requests(
            indices@,
            seam_flags@,
            low_u@,
        ));
    }
    Some(SeamRepair { vertices: new_vertices, indices: out_indices, corrections })
}

} // verus!
