use bevy_terrain::heightmap::{
    assert_coordinate_is_within_heightmap, assert_valid_rtin_heightmap, is_power_of_2, log_2,
    sample_heightmap_height_corner_mean, HeightMapU16, RtinError,
};
use bevy_terrain::mesh::{
    build_mesh, line_list_indices, rtin_build_terrain_from_heightmap, TerrainVertex, Topology,
};
use bevy_terrain::rtin::{get_triangle_coords, Vec2u32};
use bevy_terrain::terrain_rtin::{
    build_triangle_errors_vec, rtin_select_triangles_for_heightmap, triangle_errors_vec_index,
};

/// Errors are in units of 1 / (2 * u16::MAX) of full scale.
const FULL_SCALE_ERROR: u32 = 2 * u16::MAX as u32;

fn small_heightmap() -> HeightMapU16 {
    HeightMapU16::from_vec(2, 2, vec![0u16, 256u16, 256u16, 1024u16]).unwrap()
}

fn rough_heightmap(side: u32) -> HeightMapU16 {
    let mut data = Vec::new();
    for y in 0..side {
        for x in 0..side {
            data.push(((x * 7919 + y * 104729 + x * y * 31) % 65536) as u16);
        }
    }
    HeightMapU16::from_vec(side, side, data).unwrap()
}

#[test]
fn test_build_triangle_error_vec() {
    let heightmap_data = vec![0u16, 256u16, 256u16, 1024u16];
    let heightmap = HeightMapU16::from_vec(2, 2, heightmap_data).unwrap();
    let error_vec = build_triangle_errors_vec(&heightmap);
    assert_eq!(error_vec, vec![0, 256, 0, 256, 1024, 768, 0, 768, 0]);
}

#[test]
fn error_map_length_for_smallest_heightmap() {
    let error_vec = build_triangle_errors_vec(&small_heightmap());
    assert_eq!(error_vec.len(), 9);
    let error_vec = build_triangle_errors_vec(&rough_heightmap(8));
    assert_eq!(error_vec.len(), 81);
}

#[test]
fn error_slot_of_root_midpoint() {
    assert_eq!(triangle_errors_vec_index(0b10, 3), 4);
    assert_eq!(triangle_errors_vec_index(0b111, 3), 1);
    assert_eq!(triangle_errors_vec_index(0b110, 3), 7);
}

#[test]
fn selection_at_zero_threshold_takes_all_leaves() {
    let heightmap = small_heightmap();
    let errors = build_triangle_errors_vec(&heightmap);
    let selected = rtin_select_triangles_for_heightmap(&heightmap, &errors, 0);
    assert_eq!(selected, vec![14, 10, 12, 8, 15, 11, 13, 9]);
    let grid_size = 3;
    let mut covered: u32 = 0;
    for bin_id in &selected {
        let (a, b, c) = get_triangle_coords(*bin_id, grid_size);
        let area2 = ((b.x as i64 - a.x as i64) * (c.y as i64 - a.y as i64)
            - (b.y as i64 - a.y as i64) * (c.x as i64 - a.x as i64))
            .abs();
        covered += area2 as u32;
        for p in [a, b, c] {
            assert!(p.x <= 2 && p.y <= 2);
        }
    }
    assert_eq!(covered, 2 * 2 * 2);
}

#[test]
fn selection_at_full_threshold_takes_roots() {
    let heightmap = small_heightmap();
    let errors = build_triangle_errors_vec(&heightmap);
    let selected = rtin_select_triangles_for_heightmap(&heightmap, &errors, FULL_SCALE_ERROR);
    assert_eq!(selected, vec![0b10, 0b11]);
    let max_error = *errors.iter().max().unwrap();
    let selected = rtin_select_triangles_for_heightmap(&heightmap, &errors, max_error);
    assert_eq!(selected, vec![0b10, 0b11]);
}

#[test]
fn selection_between_thresholds() {
    let heightmap = small_heightmap();
    let errors = build_triangle_errors_vec(&heightmap);
    let selected = rtin_select_triangles_for_heightmap(&heightmap, &errors, 300);
    assert_eq!(selected, vec![14, 10, 4, 7, 13, 9]);
}

#[test]
fn flat_heightmap_selects_roots_at_zero() {
    let heightmap = HeightMapU16::from_vec(4, 4, vec![500u16; 16]).unwrap();
    let errors = build_triangle_errors_vec(&heightmap);
    assert!(errors.iter().all(|e| *e == 0));
    let selected = rtin_select_triangles_for_heightmap(&heightmap, &errors, 0);
    assert_eq!(selected, vec![0b10, 0b11]);
}

#[test]
fn lower_threshold_never_selects_fewer() {
    let heightmap = rough_heightmap(16);
    let errors = build_triangle_errors_vec(&heightmap);
    let mut previous = usize::MAX;
    for t in [0u32, 100, 1000, 10000, 40000, 80000, FULL_SCALE_ERROR] {
        let n = rtin_select_triangles_for_heightmap(&heightmap, &errors, t).len();
        assert!(n <= previous);
        previous = n;
    }
    assert!(rtin_select_triangles_for_heightmap(&heightmap, &errors, 0).len() <= 2 * 16 * 16);
}

fn strictly_inside(p: Vec2u32, a: Vec2u32, b: Vec2u32) -> bool {
    let cross = (b.x as i64 - a.x as i64) * (p.y as i64 - a.y as i64)
        - (b.y as i64 - a.y as i64) * (p.x as i64 - a.x as i64);
    if cross != 0 || p == a || p == b {
        return false;
    }
    let within = |v: u32, e: u32, f: u32| v >= e.min(f) && v <= e.max(f);
    within(p.x, a.x, b.x) && within(p.y, a.y, b.y)
}

#[test]
fn selection_is_watertight() {
    let side = 16;
    let heightmap = rough_heightmap(side);
    let errors = build_triangle_errors_vec(&heightmap);
    for t in [0u32, 5000, 30000, 60000] {
        let selected = rtin_select_triangles_for_heightmap(&heightmap, &errors, t);
        let triangles: Vec<_> = selected
            .iter()
            .map(|b| get_triangle_coords(*b, side + 1))
            .collect();
        let mut points = Vec::new();
        for (a, b, c) in &triangles {
            points.extend([*a, *b, *c]);
        }
        for (a, b, c) in &triangles {
            for (e, f) in [(a, b), (b, c), (c, a)] {
                for p in &points {
                    assert!(!strictly_inside(*p, *e, *f));
                }
            }
        }
    }
}

#[test]
fn mesh_of_two_roots() {
    let heightmap = small_heightmap();
    let mesh = rtin_build_terrain_from_heightmap(&heightmap, FULL_SCALE_ERROR);
    assert_eq!(
        mesh.vertices,
        vec![
            TerrainVertex { x: 2, height: 1024, z: 2 },
            TerrainVertex { x: 0, height: 0, z: 0 },
            TerrainVertex { x: 0, height: 256, z: 2 },
            TerrainVertex { x: 2, height: 256, z: 0 },
        ]
    );
    assert_eq!(mesh.indices, vec![0, 1, 2, 1, 0, 3]);
}

#[test]
fn mesh_shares_vertices() {
    let heightmap = small_heightmap();
    let mesh = rtin_build_terrain_from_heightmap(&heightmap, 0);
    assert_eq!(mesh.indices.len(), 24);
    assert_eq!(mesh.vertices.len(), 9);
}

#[test]
fn build_mesh_triangle_and_line_lists() {
    let heightmap = small_heightmap();
    let shaded = build_mesh(&heightmap, FULL_SCALE_ERROR, false).unwrap();
    assert_eq!(shaded.topology, Topology::TriangleList);
    assert_eq!(shaded.indices, vec![0, 1, 2, 1, 0, 3]);
    let wire = build_mesh(&heightmap, FULL_SCALE_ERROR, true).unwrap();
    assert_eq!(wire.topology, Topology::LineList);
    assert_eq!(wire.indices, vec![0, 1, 1, 2, 2, 0, 1, 0, 0, 3, 3, 1]);
    assert_eq!(wire.vertices, shaded.vertices);
}

#[test]
fn build_mesh_is_repeatable() {
    let heightmap = rough_heightmap(8);
    let first = build_mesh(&heightmap, 20000, false).unwrap();
    let second = build_mesh(&heightmap, 20000, false).unwrap();
    assert_eq!(first.vertices, second.vertices);
    assert_eq!(first.indices, second.indices);
}

#[test]
fn build_mesh_rejects_bad_heightmaps() {
    let not_square = HeightMapU16::from_vec(2, 4, vec![0u16; 8]).unwrap();
    assert_eq!(build_mesh(&not_square, 0, false).err(), Some(RtinError::NotSquare));
    let not_pow2 = HeightMapU16::from_vec(3, 3, vec![0u16; 9]).unwrap();
    assert_eq!(build_mesh(&not_pow2, 0, false).err(), Some(RtinError::SideNotPowerOfTwo));
    let too_small = HeightMapU16::from_vec(1, 1, vec![0u16; 1]).unwrap();
    assert_eq!(build_mesh(&too_small, 0, false).err(), Some(RtinError::SideTooSmall));
    let empty = HeightMapU16::from_vec(0, 0, vec![]).unwrap();
    assert_eq!(build_mesh(&empty, 0, false).err(), Some(RtinError::SideNotPowerOfTwo));
    let too_large = HeightMapU16 { width: 0x8000, height: 0x8000, data: vec![0u16; 0x8000 * 0x8000] };
    assert_eq!(build_mesh(&too_large, 0, false).err(), Some(RtinError::SideTooLarge));
    let short = HeightMapU16 { width: 2, height: 2, data: vec![0u16; 3] };
    assert_eq!(build_mesh(&short, 0, false).err(), Some(RtinError::SampleCountMismatch));
    assert_eq!(assert_valid_rtin_heightmap(&small_heightmap()), Ok(()));
}

#[test]
fn from_vec_checks_sample_count() {
    assert!(HeightMapU16::from_vec(2, 2, vec![0u16; 3]).is_none());
    assert!(HeightMapU16::from_vec(2, 2, vec![0u16; 5]).is_none());
    let h = HeightMapU16::from_vec(2, 2, vec![1u16, 2, 3, 4]).unwrap();
    assert_eq!(h.get_pixel(1, 0), 2);
    assert_eq!(h.get_pixel(0, 1), 3);
}

#[test]
fn power_of_two_checks() {
    assert!(!is_power_of_2(0));
    assert!(is_power_of_2(1));
    assert!(is_power_of_2(2));
    assert!(!is_power_of_2(3));
    assert!(is_power_of_2(1024));
    assert!(!is_power_of_2(1023));
    assert!(is_power_of_2(1 << 31));
    assert_eq!(log_2(1024), 10);
}

#[test]
fn corner_sampling_clamps_to_edge() {
    let h = small_heightmap();
    assert_eq!(sample_heightmap_height_corner_mean(&h, Vec2u32::new(0, 0)), 0);
    assert_eq!(sample_heightmap_height_corner_mean(&h, Vec2u32::new(2, 0)), 256);
    assert_eq!(sample_heightmap_height_corner_mean(&h, Vec2u32::new(2, 2)), 1024);
    assert_eq!(sample_heightmap_height_corner_mean(&h, Vec2u32::new(0, 2)), 256);
    assert!(assert_coordinate_is_within_heightmap(&h, Vec2u32::new(1, 1)));
    assert!(!assert_coordinate_is_within_heightmap(&h, Vec2u32::new(2, 1)));
}

#[test]
fn line_list_of_two_triangles() {
    let tri = vec![5u32, 6, 7, 8, 9, 10, 11];
    assert_eq!(
        line_list_indices(&tri),
        vec![5, 6, 6, 7, 7, 5, 8, 9, 9, 10, 10, 8]
    );
}

#[test]
fn stored_error_bounds_children() {
    let side: u32 = 16;
    let heightmap = rough_heightmap(side);
    let errors = build_triangle_errors_vec(&heightmap);
    let grid_size = side + 1;
    let levels = 2 * log_2(side);
    for index in 0..(2 * side * side - 2) {
        let bin_id = index + 2;
        if bevy_terrain::rtin::bin_id_to_level(bin_id) + 1 >= levels {
            continue;
        }
        let (right, left) = bevy_terrain::rtin::get_triangle_children_bin_ids(bin_id);
        let own = errors[triangle_errors_vec_index(bin_id, grid_size)];
        assert!(own >= errors[triangle_errors_vec_index(right, grid_size)]);
        assert!(own >= errors[triangle_errors_vec_index(left, grid_size)]);
    }
}

#[test]
fn midpoint_slots_of_levels_are_disjoint() {
    let side: u32 = 16;
    let grid_size = side + 1;
    let mut level_at = vec![u32::MAX; (grid_size * grid_size) as usize];
    for index in 0..(2 * side * side - 2) {
        let bin_id = index + 2;
        let level = bevy_terrain::rtin::bin_id_to_level(bin_id);
        let s = triangle_errors_vec_index(bin_id, grid_size);
        assert!(level_at[s] == u32::MAX || level_at[s] == level);
        level_at[s] = level;
    }
}
