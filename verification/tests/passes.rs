//! Direct tests of the individual passes on small, hand-checked inputs.

use icosphere::{
    apply_midpoints, get_indices, repair_texture_wrap_seam, subdivision_plan,
    transform_to_unique_vertices, Vertex,
};

#[test]
fn base_face_list_is_fixed() {
    let indices = get_indices();
    let expected: Vec<u16> = vec![
        11, 5, 0, 5, 1, 0, 1, 7, 0, 7, 10, 0, 10, 11, 0, 5, 9, 1, 11, 4, 5, 10, 2, 11, 7, 6, 10, 1,
        8, 7, 9, 4, 3, 4, 2, 3, 2, 6, 3, 6, 8, 3, 8, 9, 3, 9, 5, 4, 4, 11, 2, 2, 10, 6, 6, 7, 8, 1,
        9, 8,
    ];
    assert_eq!(indices, expected);
    assert_eq!(indices.len(), 60);
    assert!(indices.iter().all(|&i| i < 12));
}

#[test]
fn uniquifier_copies_and_tags() {
    let payloads: Vec<u32> = vec![100, 200, 300, 400];
    let indices: Vec<u16> = vec![2, 0, 1, 1, 3, 2];
    let (vertices, new_indices) = transform_to_unique_vertices(&payloads, &indices);
    assert_eq!(new_indices, vec![0, 1, 2, 3, 4, 5]);
    let data: Vec<u32> = vertices.iter().map(|v| v.data).collect();
    assert_eq!(data, vec![300, 100, 200, 200, 400, 300]);
    let corners: Vec<u8> = vertices.iter().map(|v| v.corner).collect();
    assert_eq!(corners, vec![0, 1, 2, 0, 1, 2]);
}

fn vertex(data: u32, corner: u8) -> Vertex<u32> {
    Vertex { data, corner }
}

#[test]
fn subdivision_reuses_shared_edge_midpoint() {
    // two triangles sharing the edge {0, 1}: five distinct edges in all
    let vertices = vec![vertex(10, 0), vertex(11, 1), vertex(12, 2), vertex(13, 2)];
    let indices: Vec<u16> = vec![0, 1, 2, 1, 0, 3];
    let plan = subdivision_plan(&vertices, &indices).expect("no overflow here");
    let endpoints: Vec<(u16, u16)> = plan.midpoints.iter().map(|m| (m.a, m.b)).collect();
    assert_eq!(endpoints, vec![(1, 2), (2, 0), (0, 1), (0, 3), (3, 1)]);
    let corners: Vec<u8> = plan.midpoints.iter().map(|m| m.corner).collect();
    assert_eq!(corners, vec![0, 1, 2, 1, 0]);
    // midpoint j becomes vertex 4 + j; the shared edge's midpoint (index
    // 6) appears in the children of both triangles
    let expected: Vec<u16> = vec![
        0, 6, 5, 6, 1, 4, 5, 4, 2, 6, 4, 5, //
        1, 6, 8, 6, 0, 7, 8, 7, 3, 6, 7, 8,
    ];
    assert_eq!(plan.triangles, expected);
    // applying the plan appends the midpoints in creation order
    let new_vertices = apply_midpoints(vertices, &plan, vec![90, 91, 92, 93, 94]);
    assert_eq!(new_vertices.len(), 9);
    assert_eq!(new_vertices[6].data, 92);
    assert_eq!(new_vertices[6].corner, 2);
    assert_eq!(new_vertices[8].data, 94);
    assert_eq!(new_vertices[8].corner, 0);
}

#[test]
fn subdivision_overflow_returns_none() {
    let mut vertices = vec![vertex(0, 0), vertex(1, 1), vertex(2, 2)];
    while vertices.len() < 0x10000 {
        vertices.push(vertex(9, 0));
    }
    let indices: Vec<u16> = vec![0, 1, 2];
    assert!(subdivision_plan(&vertices, &indices).is_none());
}

#[test]
fn subdivision_fills_the_last_indices() {
    // exactly three midpoint slots left below the 16-bit limit
    let mut vertices = vec![vertex(0, 0), vertex(1, 1), vertex(2, 2)];
    while vertices.len() < 0x10000 - 3 {
        vertices.push(vertex(9, 0));
    }
    let indices: Vec<u16> = vec![0, 1, 2];
    let plan = subdivision_plan(&vertices, &indices).expect("exactly fits");
    assert_eq!(plan.midpoints.len(), 3);
    assert_eq!(
        plan.triangles,
        vec![0, 65535, 65534, 65535, 1, 65533, 65534, 65533, 2, 65535, 65533, 65534]
    );
}

#[test]
fn seam_reuses_duplicate_across_triangles() {
    // vertex 0 sits in two flagged triangles: one duplicate, used twice
    let vertices = vec![vertex(10, 0), vertex(11, 1), vertex(12, 2), vertex(13, 1), vertex(14, 2)];
    let indices: Vec<u16> = vec![0, 1, 2, 0, 3, 4];
    let seam_flags = vec![true, true];
    let low_u = vec![true, false, false, false, false];
    let shifted: Vec<u32> = vec![1010, 1011, 1012, 1013, 1014];
    let repaired = repair_texture_wrap_seam(vertices, &indices, &seam_flags, &low_u, &shifted)
        .expect("no overflow here");
    // triangles come out in reverse processing order
    assert_eq!(repaired.indices, vec![5, 3, 4, 5, 1, 2]);
    assert_eq!(repaired.corrections, vec![(0, 5)]);
    assert_eq!(repaired.vertices.len(), 6);
    assert_eq!(repaired.vertices[5].data, 1010);
    assert_eq!(repaired.vertices[5].corner, 0);
}

#[test]
fn seam_leaves_unflagged_triangles_alone() {
    let vertices = vec![vertex(10, 0), vertex(11, 1), vertex(12, 2)];
    let indices: Vec<u16> = vec![0, 1, 2];
    let seam_flags = vec![false];
    let low_u = vec![true, true, true];
    let shifted: Vec<u32> = vec![1010, 1011, 1012];
    let repaired = repair_texture_wrap_seam(vertices, &indices, &seam_flags, &low_u, &shifted)
        .expect("no overflow here");
    assert_eq!(repaired.indices, vec![0, 1, 2]);
    assert!(repaired.corrections.is_empty());
    assert_eq!(repaired.vertices.len(), 3);
}

#[test]
fn seam_overflow_returns_none() {
    let mut vertices = vec![vertex(0, 0)];
    while vertices.len() < 0x10000 {
        vertices.push(vertex(9, 0));
    }
    let indices: Vec<u16> = vec![0, 1, 2];
    let seam_flags = vec![true];
    let low_u: Vec<bool> = (0..vertices.len()).map(|i| i == 0).collect();
    let shifted: Vec<u32> = (0..vertices.len() as u32).collect();
    assert!(repair_texture_wrap_seam(vertices, &indices, &seam_flags, &low_u, &shifted).is_none());
}

/// u values at or below 0.3 are corrected — the boundary value itself
/// included.
#[test]
fn seam_threshold_is_inclusive() {
    // a triangle whose uv winding is reversed (signed uv cross <= 0)
    let uv = [(0.3f32, 0.5f32), (0.8, 0.6), (0.9, 0.4)];
    let e1 = (uv[1].0 - uv[0].0, uv[1].1 - uv[0].1);
    let e2 = (uv[2].0 - uv[1].0, uv[2].1 - uv[1].1);
    let cross_z = e1.0 * e2.1 - e1.1 * e2.0;
    assert!(cross_z <= 0.0);
    let vertices: Vec<Vertex<[f32; 5]>> = uv
        .iter()
        .enumerate()
        .map(|(i, &(u, v))| Vertex { data: [0.0, 0.0, 0.0, u, v], corner: i as u8 })
        .collect();
    let indices: Vec<u16> = vec![0, 1, 2];
    let seam_flags = vec![cross_z <= 0.0];
    let low_u: Vec<bool> = vertices.iter().map(|v| v.data[3] <= 0.3).collect();
    assert_eq!(low_u, vec![true, false, false]);
    let shifted: Vec<[f32; 5]> = vertices
        .iter()
        .map(|v| {
            let mut d = v.data;
            d[3] += 1.0;
            d
        })
        .collect();
    let repaired =
        repair_texture_wrap_seam(vertices, &indices, &seam_flags, &low_u, &shifted).unwrap();
    assert_eq!(repaired.corrections, vec![(0, 3)]);
    assert_eq!(repaired.indices, vec![3, 1, 2]);
    assert_eq!(repaired.vertices[3].data[3], 1.3);
}

/// A u value just above the threshold is not corrected.
#[test]
fn seam_threshold_excludes_just_above() {
    let uv = [(0.300001f32, 0.5f32), (0.8, 0.6), (0.9, 0.4)];
    let vertices: Vec<Vertex<[f32; 5]>> = uv
        .iter()
        .enumerate()
        .map(|(i, &(u, v))| Vertex { data: [0.0, 0.0, 0.0, u, v], corner: i as u8 })
        .collect();
    let indices: Vec<u16> = vec![0, 1, 2];
    let seam_flags = vec![true];
    let low_u: Vec<bool> = vertices.iter().map(|v| v.data[3] <= 0.3).collect();
    assert_eq!(low_u, vec![false, false, false]);
    let shifted: Vec<[f32; 5]> = vertices.iter().map(|v| v.data).collect();
    let repaired =
        repair_texture_wrap_seam(vertices, &indices, &seam_flags, &low_u, &shifted).unwrap();
    assert!(repaired.corrections.is_empty());
    assert_eq!(repaired.indices, vec![0, 1, 2]);
    assert_eq!(repaired.vertices.len(), 3);
}
