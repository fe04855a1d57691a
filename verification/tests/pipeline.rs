//! End-to-end tests of the mesh pipeline: the library fixes the structure
//! (indices, corner ids, caches, corrections) and this file evaluates the
//! geometric formulas, as the rendering front end does.

use std::collections::HashSet;

use icosphere::{
    apply_midpoints, get_indices, repair_texture_wrap_seam, subdivision_plan,
    transform_to_unique_vertices, SeamRepair, Vertex,
};

const PHI: f32 = (1.0 + 2.23606) / 2.0;

type Payload = [f32; 5];

fn calculate_uv(x: f32, y: f32, z: f32) -> Payload {
    let length = (x * x + y * y + z * z).sqrt();
    let u = 0.5 + (z.atan2(x) / (2.0 * std::f32::consts::PI));
    let v = 0.5 - (y / length).asin() / std::f32::consts::PI;
    [x, y, z, u, v]
}

fn base_vertices() -> Vec<Payload> {
    vec![
        calculate_uv(-1.0, PHI, 0.0),
        calculate_uv(1.0, PHI, 0.0),
        calculate_uv(-1.0, -PHI, 0.0),
        calculate_uv(1.0, -PHI, 0.0),
        calculate_uv(0.0, -1.0, PHI),
        calculate_uv(0.0, 1.0, PHI),
        calculate_uv(0.0, -1.0, -PHI),
        calculate_uv(0.0, 1.0, -PHI),
        calculate_uv(PHI, 0.0, -1.0),
        calculate_uv(PHI, 0.0, 1.0),
        calculate_uv(-PHI, 0.0, -1.0),
        calculate_uv(-PHI, 0.0, 1.0),
    ]
}

fn uniquified() -> (Vec<Vertex<Payload>>, Vec<u16>) {
    let base = base_vertices();
    let indices = get_indices();
    transform_to_unique_vertices(&base, &indices)
}

/// One subdivision pass: the library plans the structure, this glue
/// evaluates the midpoint attribute records.
fn subdivide(
    vertices: Vec<Vertex<Payload>>,
    indices: Vec<u16>,
) -> (Vec<Vertex<Payload>>, Vec<u16>, usize) {
    let plan = subdivision_plan(&vertices, &indices).expect("vertex indices overflow");
    let mut midpoint_data = Vec::with_capacity(plan.midpoints.len());
    for m in plan.midpoints.iter() {
        let p1 = vertices[m.a as usize].data;
        let p2 = vertices[m.b as usize].data;
        let mut mx = (p1[0] + p2[0]) / 2.0;
        let mut my = (p1[1] + p2[1]) / 2.0;
        let mut mz = (p1[2] + p2[2]) / 2.0;
        let length_p1 = (p1[0] * p1[0] + p1[1] * p1[1] + p1[2] * p1[2]).sqrt();
        let length = (mx * mx + my * my + mz * mz).sqrt();
        mx *= length_p1 / length;
        my *= length_p1 / length;
        mz *= length_p1 / length;
        midpoint_data.push(calculate_uv(mx, my, mz));
    }
    let midpoint_count = plan.midpoints.len();
    let new_vertices = apply_midpoints(vertices, &plan, midpoint_data);
    (new_vertices, plan.triangles, midpoint_count)
}

/// The seam pass: this glue classifies triangles (reversed uv winding)
/// and vertices (u at or below 0.3), the library rewrites the mesh.
fn repair_seam(vertices: Vec<Vertex<Payload>>, indices: Vec<u16>) -> SeamRepair<Payload> {
    let mut seam_flags = Vec::with_capacity(indices.len() / 3);
    for t in 0..indices.len() / 3 {
        let a = vertices[indices[3 * t] as usize].data;
        let b = vertices[indices[3 * t + 1] as usize].data;
        let c = vertices[indices[3 * t + 2] as usize].data;
        let e1 = (b[3] - a[3], b[4] - a[4]);
        let e2 = (c[3] - b[3], c[4] - b[4]);
        let cross_z = e1.0 * e2.1 - e1.1 * e2.0;
        seam_flags.push(cross_z <= 0.0);
    }
    let low_u: Vec<bool> = vertices.iter().map(|v| v.data[3] <= 0.3).collect();
    let shifted: Vec<Payload> = vertices
        .iter()
        .map(|v| {
            let mut d = v.data;
            d[3] += 1.0;
            d
        })
        .collect();
    repair_texture_wrap_seam(vertices, &indices, &seam_flags, &low_u, &shifted)
        .expect("vertex indices overflow")
}

/// The normal pass: accumulate per-face normals, merge across the seam
/// corrections the library recorded, normalize.
fn compute_normals(
    vertices: &[Vertex<Payload>],
    indices: &[u16],
    corrections: &[(u16, u16)],
) -> Vec<[f32; 9]> {
    let mut temp: Vec<[f32; 3]> = vec![[0.0; 3]; vertices.len()];
    for chunk in indices.chunks(3) {
        let v0 = vertices[chunk[0] as usize].data;
        let v1 = vertices[chunk[1] as usize].data;
        let v2 = vertices[chunk[2] as usize].data;
        let u = [v1[0] - v0[0], v1[1] - v0[1], v1[2] - v0[2]];
        let v = [v2[0] - v0[0], v2[1] - v0[1], v2[2] - v0[2]];
        let normal = [
            u[1] * v[2] - u[2] * v[1],
            u[2] * v[0] - u[0] * v[2],
            u[0] * v[1] - u[1] * v[0],
        ];
        let length = (normal[0] * normal[0] + normal[1] * normal[1] + normal[2] * normal[2]).sqrt();
        for &i in &[chunk[0], chunk[1], chunk[2]] {
            temp[i as usize][0] += normal[0] / length;
            temp[i as usize][1] += normal[1] / length;
            temp[i as usize][2] += normal[2] / length;
        }
    }
    for &(original, duplicate) in corrections {
        let a = temp[original as usize];
        let b = temp[duplicate as usize];
        let combined = [a[0] + b[0], a[1] + b[1], a[2] + b[2]];
        temp[original as usize] = combined;
        temp[duplicate as usize] = combined;
    }
    let mut out = Vec::with_capacity(vertices.len());
    for (i, vertex) in vertices.iter().enumerate() {
        let d = vertex.data;
        let len = (temp[i][0] * temp[i][0] + temp[i][1] * temp[i][1] + temp[i][2] * temp[i][2])
            .sqrt();
        out.push([
            d[0],
            d[1],
            d[2],
            temp[i][0] / len,
            temp[i][1] / len,
            temp[i][2] / len,
            d[3],
            d[4],
            vertex.corner as f32,
        ]);
    }
    out
}

fn full_pipeline(subdivisions: usize) -> (Vec<[f32; 9]>, Vec<u16>) {
    let (mut vertices, mut indices) = uniquified();
    for _ in 0..subdivisions {
        let (v, i, _) = subdivide(vertices, indices);
        vertices = v;
        indices = i;
    }
    let repaired = repair_seam(vertices, indices);
    let final_vertices = compute_normals(
        &repaired.vertices,
        &repaired.indices,
        &repaired.corrections,
    );
    (final_vertices, repaired.indices)
}

/// The number of distinct unordered edges of the index buffer, computed
/// independently of the library.
fn unique_edge_count(indices: &[u16]) -> usize {
    let mut edges = HashSet::new();
    for chunk in indices.chunks(3) {
        for &(a, b) in &[(chunk[1], chunk[2]), (chunk[2], chunk[0]), (chunk[0], chunk[1])] {
            edges.insert(if a < b { (a, b) } else { (b, a) });
        }
    }
    edges.len()
}

#[test]
fn uniquifier_only_gives_sixty_private_vertices() {
    let (vertices, indices) = uniquified();
    assert_eq!(vertices.len(), 60);
    assert_eq!(indices.len(), 60);
    // sequential indices: every triangle owns its three slots
    for (i, &idx) in indices.iter().enumerate() {
        assert_eq!(idx as usize, i);
    }
    // corner ids rotate 0, 1, 2
    for (i, v) in vertices.iter().enumerate() {
        assert_eq!(v.corner, (i % 3) as u8);
    }
    // each slot copies the vertex the base face list referenced
    let base = base_vertices();
    let faces = get_indices();
    for (i, v) in vertices.iter().enumerate() {
        assert_eq!(v.data, base[faces[i] as usize]);
    }
}

#[test]
fn triangle_count_quadruples_per_pass() {
    let (mut vertices, mut indices) = uniquified();
    let mut expected_triangles = 20usize;
    for _ in 0..3 {
        let before = indices.len();
        let (v, i, _) = subdivide(vertices, indices);
        vertices = v;
        indices = i;
        assert_eq!(indices.len(), 4 * before);
        expected_triangles *= 4;
        assert_eq!(indices.len(), 3 * expected_triangles);
    }
    assert_eq!(expected_triangles, 1280);
}

#[test]
fn one_midpoint_per_shared_edge() {
    let (mut vertices, mut indices) = uniquified();
    for _ in 0..3 {
        let expected_midpoints = unique_edge_count(&indices);
        let before_vertices = vertices.len();
        let (v, i, midpoint_count) = subdivide(vertices, indices);
        vertices = v;
        indices = i;
        assert_eq!(midpoint_count, expected_midpoints);
        assert_eq!(vertices.len(), before_vertices + expected_midpoints);
    }
}

#[test]
fn vertex_counts_grow_by_unique_edges() {
    // 20 per-triangle-unique triangles have 60 distinct edges, 80 have
    // 180, 320 have 600
    let (mut vertices, mut indices) = uniquified();
    let expected = [(120usize, 240usize), (300, 960), (900, 3840)];
    for &(vcount, icount) in &expected {
        let (v, i, _) = subdivide(vertices, indices);
        vertices = v;
        indices = i;
        assert_eq!(vertices.len(), vcount);
        assert_eq!(indices.len(), icount);
    }
}

#[test]
fn positions_stay_on_the_sphere() {
    let radius = (1.0f32 + PHI * PHI).sqrt();
    let (mut vertices, mut indices) = uniquified();
    for _ in 0..3 {
        let (v, i, _) = subdivide(vertices, indices);
        vertices = v;
        indices = i;
        for vertex in &vertices {
            let d = vertex.data;
            let magnitude = (d[0] * d[0] + d[1] * d[1] + d[2] * d[2]).sqrt();
            assert!(
                (magnitude - radius).abs() < 1e-3,
                "vertex magnitude {} differs from radius {}",
                magnitude,
                radius
            );
        }
    }
}

#[test]
fn corner_ids_stay_complete_per_triangle() {
    let (mut vertices, mut indices) = uniquified();
    for _ in 0..3 {
        let (v, i, _) = subdivide(vertices, indices);
        vertices = v;
        indices = i;
        for chunk in indices.chunks(3) {
            let mut corners = [
                vertices[chunk[0] as usize].corner,
                vertices[chunk[1] as usize].corner,
                vertices[chunk[2] as usize].corner,
            ];
            corners.sort();
            assert_eq!(corners, [0, 1, 2]);
        }
    }
}

#[test]
fn seam_corrections_shift_u_by_one() {
    let (vertices, indices) = {
        let (mut vertices, mut indices) = uniquified();
        for _ in 0..3 {
            let (v, i, _) = subdivide(vertices, indices);
            vertices = v;
            indices = i;
        }
        (vertices, indices)
    };
    let before = vertices.clone();
    let repaired = repair_seam(vertices, indices);
    assert!(!repaired.corrections.is_empty(), "the sphere crosses the wrap");
    for (j, &(original, duplicate)) in repaired.corrections.iter().enumerate() {
        assert_eq!(duplicate as usize, before.len() + j);
        let o = before[original as usize].data;
        let d = repaired.vertices[duplicate as usize].data;
        assert_eq!(d[0], o[0]);
        assert_eq!(d[1], o[1]);
        assert_eq!(d[2], o[2]);
        assert_eq!(d[3], o[3] + 1.0);
        assert_eq!(d[4], o[4]);
        assert_eq!(
            repaired.vertices[duplicate as usize].corner,
            before[original as usize].corner
        );
        assert!(o[3] <= 0.3, "only low-u vertices are corrected");
    }
}

#[test]
fn seam_pair_normals_are_bit_identical() {
    let (mut vertices, mut indices) = uniquified();
    for _ in 0..3 {
        let (v, i, _) = subdivide(vertices, indices);
        vertices = v;
        indices = i;
    }
    let repaired = repair_seam(vertices, indices);
    assert!(!repaired.corrections.is_empty());
    let final_vertices = compute_normals(
        &repaired.vertices,
        &repaired.indices,
        &repaired.corrections,
    );
    for &(original, duplicate) in &repaired.corrections {
        for c in 3..6 {
            assert_eq!(
                final_vertices[original as usize][c].to_bits(),
                final_vertices[duplicate as usize][c].to_bits(),
                "normals of a seam pair must agree exactly"
            );
        }
    }
}

#[test]
fn pipeline_is_deterministic() {
    let (vertices1, indices1) = full_pipeline(3);
    let (vertices2, indices2) = full_pipeline(3);
    assert_eq!(indices1, indices2);
    assert_eq!(vertices1.len(), vertices2.len());
    for (a, b) in vertices1.iter().zip(vertices2.iter()) {
        for c in 0..9 {
            assert_eq!(a[c].to_bits(), b[c].to_bits());
        }
    }
}

#[test]
fn scenario_counts_at_each_depth() {
    // no subdivision: the uniquifier alone gives 60 vertices, 20 triangles
    let (vertices, indices) = uniquified();
    assert_eq!(vertices.len(), 60);
    assert_eq!(indices.len() / 3, 20);
    // one pass: 80 triangles, 60 vertices plus one midpoint per unique
    // edge of the 20 per-triangle-unique triangles
    let edge_count = unique_edge_count(&indices);
    let (vertices, indices, midpoint_count) = subdivide(vertices, indices);
    assert_eq!(indices.len() / 3, 80);
    assert_eq!(midpoint_count, edge_count);
    assert_eq!(vertices.len(), 60 + edge_count);
    // three passes in total: 20 * 4^3 = 1280 triangles
    let (vertices, indices, _) = subdivide(vertices, indices);
    let (_, indices, _) = subdivide(vertices, indices);
    assert_eq!(indices.len() / 3, 1280);
}
