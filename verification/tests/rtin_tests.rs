//! End-to-end and scenario tests for the RTIN terrain pipeline.
//!
//! Errors and thresholds are on the pipeline's exact integer scale: twice
//! the linear-interpolation error, in raw `u16` sample units.

use rtin_terrain::addressing::{
    get_index_level_start, get_triangle_children_bin_ids, get_triangle_children_indices,
    get_triangle_coords, index_to_bin_id, pixel_coords_for_triangle_mid_point, Vec2u32,
};
use rtin_terrain::errors::{build_triangle_errors_vec, triangle_errors_vec_index};
use rtin_terrain::heightmap::{
    assert_coordinate_is_within_heightmap, assert_valid_rtin_heightmap, Heightmap,
    sample_heightmap_height_corner_mean,
};
use rtin_terrain::mesh::{rtin_build_terrain_from_heightmap, wireframe_expand_indices, MeshVertex};
use rtin_terrain::powers::{is_power_of_2, log_2};
use rtin_terrain::select::rtin_select_triangles_for_heightmap;

fn example_heightmap() -> Heightmap {
    Heightmap::new(2, 2, vec![0u16, 256u16, 256u16, 1024u16]).unwrap()
}

#[test]
fn test_build_triangle_error_vec() {
    let heightmap = example_heightmap();
    let error_vec = build_triangle_errors_vec(&heightmap);
    // 3 x 3 corner lattice, row-major; each slot holds twice the worst
    // interpolation error of the triangles whose hypotenuse midpoint lands
    // there, derived bottom-up:
    //   leaves (bin 4..8) at (2,1), (1,0), (0,1), (1,2); roots at (1,1).
    assert_eq!(error_vec, vec![0, 256, 0, 256, 1024, 768, 0, 768, 0]);
}

#[test]
fn test_is_power_of_2_boundaries() {
    assert!(!is_power_of_2(0));
    assert!(is_power_of_2(1));
    assert!(is_power_of_2(2));
    assert!(!is_power_of_2(3));
    assert!(is_power_of_2(1024));
    assert!(!is_power_of_2(1023));
    assert!(is_power_of_2(0x8000_0000));
}

#[test]
fn test_log_2_values() {
    assert_eq!(log_2(1), 0);
    assert_eq!(log_2(2), 1);
    assert_eq!(log_2(3), 1);
    assert_eq!(log_2(4), 2);
    assert_eq!(log_2(32768), 15);
}

#[test]
fn test_level_starts() {
    assert_eq!(get_index_level_start(0), 0);
    assert_eq!(get_index_level_start(1), 2);
    assert_eq!(get_index_level_start(2), 6);
    assert_eq!(get_index_level_start(3), 14);
}

#[test]
fn test_addressing_bijection_bands() {
    // Traversal index to bin id is one-to-one, and every index in the band
    // of level l decodes to a bin id of bit length l + 2.
    for l in 0..3u32 {
        let start = get_index_level_start(l);
        let end = get_index_level_start(l + 1);
        for i in start..end {
            let bin = index_to_bin_id(i);
            assert_eq!(bin, i + 2);
            assert!(bin >= (1 << (l + 1)));
            assert!(bin < (1 << (l + 2)));
        }
    }
}

#[test]
fn test_children_indices_and_bin_ids() {
    assert_eq!(index_to_bin_id(0), 2);
    assert_eq!(index_to_bin_id(1), 3);
    assert_eq!(get_triangle_children_bin_ids(2), (4, 5));
    assert_eq!(get_triangle_children_bin_ids(3), (6, 7));
    assert_eq!(get_triangle_children_indices(2), (2, 3));
    assert_eq!(get_triangle_children_indices(3), (4, 5));
}

#[test]
fn test_root_triangle_coords() {
    let t2 = get_triangle_coords(2, 3);
    assert_eq!(t2.0, Vec2u32 { x: 2, y: 0 });
    assert_eq!(t2.1, Vec2u32 { x: 0, y: 0 });
    assert_eq!(t2.2, Vec2u32 { x: 2, y: 2 });
    let t3 = get_triangle_coords(3, 3);
    assert_eq!(t3.0, Vec2u32 { x: 0, y: 2 });
    assert_eq!(t3.1, Vec2u32 { x: 2, y: 2 });
    assert_eq!(t3.2, Vec2u32 { x: 0, y: 0 });
    assert_eq!(pixel_coords_for_triangle_mid_point(2, 3), Vec2u32 { x: 1, y: 1 });
    assert_eq!(pixel_coords_for_triangle_mid_point(3, 3), Vec2u32 { x: 1, y: 1 });
}

#[test]
fn test_children_cover_parent() {
    // Each child corner is one of the parent's corners or the parent's
    // hypotenuse midpoint: the bisection introduces no other point.
    for bin in 2u32..16 {
        let p = get_triangle_coords(bin, 5);
        let m = pixel_coords_for_triangle_mid_point(bin, 5);
        let allowed = [p.0, p.1, p.2, m];
        let (right, left) = get_triangle_children_bin_ids(bin);
        for child in [right, left] {
            let c = get_triangle_coords(child, 5);
            for corner in [c.0, c.1, c.2] {
                assert!(allowed.contains(&corner));
            }
        }
    }
}

#[test]
fn test_error_vector_propagation() {
    // Each root's stored error is no smaller than its children's stored
    // errors and equals the maximum of its own and theirs.
    let heightmap = example_heightmap();
    let error_vec = build_triangle_errors_vec(&heightmap);
    for root in [2u32, 3u32] {
        let this = error_vec[triangle_errors_vec_index(root, 3)];
        let (right, left) = get_triangle_children_bin_ids(root);
        let right_err = error_vec[triangle_errors_vec_index(right, 3)];
        let left_err = error_vec[triangle_errors_vec_index(left, 3)];
        assert!(this >= right_err);
        assert!(this >= left_err);
        // the roots' own midpoint error is |0 + 1024 - 2 * 1024| = 1024
        assert_eq!(this, 1024u32.max(right_err).max(left_err));
    }
}

#[test]
fn test_select_permissive_threshold() {
    // A threshold above every error keeps exactly the two coarsest
    // triangles, in root order.
    let heightmap = example_heightmap();
    let error_vec = build_triangle_errors_vec(&heightmap);
    let bins = rtin_select_triangles_for_heightmap(&heightmap, &error_vec, u32::MAX);
    assert_eq!(bins, vec![2, 3]);
    let bins2 = rtin_select_triangles_for_heightmap(&heightmap, &error_vec, 131070);
    assert_eq!(bins2, vec![2, 3]);
}

#[test]
fn test_select_zero_threshold() {
    // Threshold zero with positive interior errors descends to the finest
    // level: the four leaves, right child before left, root 0 before root 1.
    let heightmap = example_heightmap();
    let error_vec = build_triangle_errors_vec(&heightmap);
    let bins = rtin_select_triangles_for_heightmap(&heightmap, &error_vec, 0);
    assert_eq!(bins, vec![4, 5, 6, 7]);
}

#[test]
fn test_select_deterministic() {
    let heightmap = example_heightmap();
    let error_vec = build_triangle_errors_vec(&heightmap);
    let first = rtin_select_triangles_for_heightmap(&heightmap, &error_vec, 300);
    let second = rtin_select_triangles_for_heightmap(&heightmap, &error_vec, 300);
    assert_eq!(first, second);
}

#[test]
fn test_select_threshold_monotonic() {
    // Raising the threshold never increases the number of emitted triangles.
    let heightmap = example_heightmap();
    let error_vec = build_triangle_errors_vec(&heightmap);
    let mut previous = usize::MAX;
    for threshold in [0u32, 256, 768, 1023, 1024, u32::MAX] {
        let bins = rtin_select_triangles_for_heightmap(&heightmap, &error_vec, threshold);
        assert!(bins.len() <= previous);
        previous = bins.len();
    }
}

#[test]
fn test_select_flat_map_prunes_at_zero() {
    // On a flat heightmap every error is zero, so even threshold zero keeps
    // the two coarsest triangles: the finest partition needs positive
    // interior errors.
    let heightmap = Heightmap::new(4, 4, vec![7u16; 16]).unwrap();
    let error_vec = build_triangle_errors_vec(&heightmap);
    assert!(error_vec.iter().all(|&e| e == 0));
    let bins = rtin_select_triangles_for_heightmap(&heightmap, &error_vec, 0);
    assert_eq!(bins, vec![2, 3]);
}

#[test]
fn test_mesh_zero_threshold() {
    // Four leaves share the centre corner and their hypotenuse ends:
    // five distinct vertices carry twelve indices.
    let heightmap = example_heightmap();
    let mesh = rtin_build_terrain_from_heightmap(&heightmap, 0);
    assert_eq!(mesh.indices, vec![0, 1, 2, 0, 2, 3, 0, 3, 4, 0, 4, 1]);
    assert_eq!(
        mesh.vertices,
        vec![
            MeshVertex { x: 1, height: 1024, z: 1 },
            MeshVertex { x: 2, height: 1024, z: 2 },
            MeshVertex { x: 2, height: 256, z: 0 },
            MeshVertex { x: 0, height: 0, z: 0 },
            MeshVertex { x: 0, height: 256, z: 2 },
        ]
    );
}

#[test]
fn test_mesh_permissive_threshold() {
    // The two coarsest triangles share their hypotenuse corners: four
    // distinct vertices, six indices.
    let heightmap = example_heightmap();
    let mesh = rtin_build_terrain_from_heightmap(&heightmap, u32::MAX);
    assert_eq!(mesh.indices, vec![0, 1, 2, 3, 2, 1]);
    assert_eq!(
        mesh.vertices,
        vec![
            MeshVertex { x: 2, height: 256, z: 0 },
            MeshVertex { x: 0, height: 0, z: 0 },
            MeshVertex { x: 2, height: 1024, z: 2 },
            MeshVertex { x: 0, height: 256, z: 2 },
        ]
    );
}

#[test]
fn test_mesh_vertex_dedup_bounds() {
    // Never more than three vertices per selected triangle, and every
    // vertex identity appears exactly once.
    let heightmap = example_heightmap();
    for threshold in [0u32, 256, 1024, u32::MAX] {
        let mesh = rtin_build_terrain_from_heightmap(&heightmap, threshold);
        assert_eq!(mesh.indices.len() % 3, 0);
        assert!(mesh.vertices.len() <= mesh.indices.len());
        let mut ids: Vec<u32> = mesh.vertices.iter().map(|v| v.z * 3 + v.x).collect();
        let before = ids.len();
        ids.sort();
        ids.dedup();
        assert_eq!(ids.len(), before);
        for &i in &mesh.indices {
            assert!((i as usize) < mesh.vertices.len());
        }
    }
}

#[test]
fn test_wireframe_expansion() {
    // 3k triangle-list entries become 6k line-list entries, tracing each
    // triangle's three edges.
    let indices = vec![0u32, 1, 2, 3, 2, 1];
    let wire = wireframe_expand_indices(&indices);
    assert_eq!(wire.len(), 2 * indices.len());
    assert_eq!(wire, vec![0, 1, 1, 2, 2, 0, 3, 2, 2, 1, 1, 3]);
}

#[test]
fn test_heightmap_constructor_fails_fast() {
    assert!(Heightmap::new(2, 3, vec![0u16; 6]).is_none());
    assert!(Heightmap::new(2, 2, vec![0u16; 3]).is_none());
    assert!(Heightmap::new(2, 2, vec![0u16; 4]).is_some());
}

#[test]
fn test_assert_valid_rtin_heightmap() {
    assert!(assert_valid_rtin_heightmap(&example_heightmap()));
    // side not a power of two
    let h3 = Heightmap::new(3, 3, vec![0u16; 9]).unwrap();
    assert!(!assert_valid_rtin_heightmap(&h3));
    // a single pixel has no triangles to split
    let h1 = Heightmap::new(1, 1, vec![0u16; 1]).unwrap();
    assert!(!assert_valid_rtin_heightmap(&h1));
}

#[test]
fn test_sampling_clamps_far_edges() {
    let heightmap = example_heightmap();
    let inside = Vec2u32 { x: 1, y: 1 };
    assert!(assert_coordinate_is_within_heightmap(&heightmap, inside));
    let far = Vec2u32 { x: 2, y: 2 };
    assert!(!assert_coordinate_is_within_heightmap(&heightmap, far));
    assert_eq!(sample_heightmap_height_corner_mean(&heightmap, far), 1024);
    assert_eq!(
        sample_heightmap_height_corner_mean(&heightmap, Vec2u32 { x: 0, y: 0 }),
        0
    );
    assert_eq!(
        sample_heightmap_height_corner_mean(&heightmap, Vec2u32 { x: 2, y: 0 }),
        256
    );
}

#[test]
fn test_larger_grid_counts() {
    // A 4 x 4 ramp: threshold zero must emit at most the 16 finest
    // triangles, and a permissive threshold exactly the two roots.
    let data: Vec<u16> = (0..16u16).map(|v| v * 512).collect();
    let heightmap = Heightmap::new(4, 4, data).unwrap();
    let error_vec = build_triangle_errors_vec(&heightmap);
    assert_eq!(error_vec.len(), 25);
    let fine = rtin_select_triangles_for_heightmap(&heightmap, &error_vec, 0);
    assert!(fine.len() <= 16);
    assert!(fine.len() >= 2);
    let coarse = rtin_select_triangles_for_heightmap(&heightmap, &error_vec, u32::MAX);
    assert_eq!(coarse, vec![2, 3]);
}
