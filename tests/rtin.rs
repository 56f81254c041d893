use bevy_terrain::rtin::{
    bin_id_to_index, bin_id_to_index_in_level, bin_id_to_level, bin_id_to_partition_steps,
    get_index_level_start, get_triangle_children_bin_ids, get_triangle_children_indices,
    get_triangle_coords, index_to_bin_id, pixel_coords_for_triangle_mid_point, MSBScan,
    PartitionStep, Vec2u32,
};

#[test]
fn index_level_start_values() {
    assert_eq!(get_index_level_start(0), 0b0);
    assert_eq!(get_index_level_start(1), 0b10);
    assert_eq!(get_index_level_start(1), 2);
    assert_eq!(get_index_level_start(2), 0b110);
    assert_eq!(get_index_level_start(2), 6);
    assert_eq!(get_index_level_start(3), 0b1110);
    assert_eq!(get_index_level_start(3), 14);
    assert_eq!(get_index_level_start(30), (1u32 << 31) - 2);
}

#[test]
fn index_in_level_values() {
    assert_eq!(bin_id_to_index_in_level(0b10), 0);
    assert_eq!(bin_id_to_index_in_level(0b11), 1);
    assert_eq!(bin_id_to_index_in_level(0b100), 0);
    assert_eq!(bin_id_to_index_in_level(0b101), 1);
    assert_eq!(bin_id_to_index_in_level(0b110), 2);
    assert_eq!(bin_id_to_index_in_level(0b111), 3);
}

#[test]
fn msbscan_values() {
    assert_eq!(0b0000_0000_u32.msbscan(), 0_u32);
    assert_eq!(0b0000_0001_u32.msbscan(), 1_u32);
    assert_eq!(0b0001_1001_u32.msbscan(), 5_u32);
    assert_eq!(u32::MAX.msbscan(), 32_u32);
}

#[test]
fn bin_id_to_index_spot_table() {
    assert_eq!(bin_id_to_index(0b10), 0);
    assert_eq!(bin_id_to_index(0b11), 1);
    assert_eq!(bin_id_to_index(0b100), 2);
    assert_eq!(bin_id_to_index(0b111), 5);
    assert_eq!(bin_id_to_index(0b1011), 9);
}

#[test]
fn index_to_bin_id_values() {
    assert_eq!(index_to_bin_id(0), 0b10);
    assert_eq!(index_to_bin_id(1), 0b11);
    assert_eq!(index_to_bin_id(2), 0b100);
    assert_eq!(index_to_bin_id(5), 0b111);
    assert_eq!(index_to_bin_id(9), 0b1011);
}

#[test]
fn index_round_trip_over_small_tree() {
    let side: u32 = 8;
    for i in 0..(2 * side * side - 2) {
        assert_eq!(bin_id_to_index(index_to_bin_id(i)), i);
    }
    assert_eq!(bin_id_to_index(index_to_bin_id(u32::MAX - 2)), u32::MAX - 2);
}

#[test]
fn levels_of_bin_ids() {
    assert_eq!(bin_id_to_level(0b10), 0);
    assert_eq!(bin_id_to_level(0b11), 0);
    assert_eq!(bin_id_to_level(0b100), 1);
    assert_eq!(bin_id_to_level(0b10110), 3);
}

#[test]
fn children_bin_ids() {
    assert_eq!(get_triangle_children_bin_ids(0b10), (0b100, 0b110));
    assert_eq!(get_triangle_children_bin_ids(0b1010), (0b10010, 0b11010));
}

#[test]
fn children_indices() {
    assert_eq!(get_triangle_children_indices(0b10), (2, 4));
    assert_eq!(get_triangle_children_indices(0b11), (3, 5));
}

#[test]
fn children_split_at_parent_midpoint() {
    let grid_size = 9;
    for bin_id in 2u32..128 {
        let (right, left) = get_triangle_children_bin_ids(bin_id);
        let level = bin_id_to_level(bin_id);
        assert_eq!(bin_id_to_level(right), level + 1);
        assert_eq!(bin_id_to_level(left), level + 1);
        let mid = pixel_coords_for_triangle_mid_point(bin_id, grid_size);
        assert_eq!(get_triangle_coords(right, grid_size).2, mid);
        assert_eq!(get_triangle_coords(left, grid_size).2, mid);
    }
}

#[test]
fn triangle_coords_values() {
    let n_tiles = 4;
    assert_eq!(
        get_triangle_coords(0b11, n_tiles),
        (Vec2u32::new(0, 0), Vec2u32::new(3, 3), Vec2u32::new(3, 0))
    );
    let grid_size = 5;
    assert_eq!(
        get_triangle_coords(0b11, grid_size),
        (Vec2u32::new(0, 0), Vec2u32::new(4, 4), Vec2u32::new(4, 0))
    );
    assert_eq!(
        get_triangle_coords(0b110, grid_size),
        (Vec2u32::new(0, 4), Vec2u32::new(4, 4), Vec2u32::new(2, 2))
    );
    assert_eq!(
        get_triangle_coords(0b1_1110, grid_size),
        (Vec2u32::new(2, 4), Vec2u32::new(2, 2), Vec2u32::new(1, 3))
    );
    assert_eq!(
        get_triangle_coords(0b10, grid_size),
        (Vec2u32::new(4, 4), Vec2u32::new(0, 0), Vec2u32::new(0, 4))
    );
}

#[test]
fn partition_steps_values() {
    assert_eq!(bin_id_to_partition_steps(0b10), [PartitionStep::BottomLeft]);
    assert_eq!(bin_id_to_partition_steps(0b11), [PartitionStep::TopRight]);
    assert_eq!(
        bin_id_to_partition_steps(0b110),
        [PartitionStep::BottomLeft, PartitionStep::Left]
    );
    assert_eq!(
        bin_id_to_partition_steps(0b10110),
        [
            PartitionStep::BottomLeft,
            PartitionStep::Left,
            PartitionStep::Left,
            PartitionStep::Right
        ]
    );
}

#[test]
fn midpoint_values() {
    let grid_size = 5;
    assert_eq!(
        pixel_coords_for_triangle_mid_point(0b10_1110, grid_size),
        Vec2u32::new(1, 2)
    );
    assert_eq!(
        pixel_coords_for_triangle_mid_point(0b11, grid_size),
        Vec2u32::new(2, 2)
    );
}
