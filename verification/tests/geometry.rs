use lethal_empire::coords::{IVec2, UVec2};
use lethal_empire::geometry::{
    can_list_area, can_list_square, can_snap_to_tile, chunk_coord_to_world_pos,
    chunk_coords_around, global_coord_to_chunk_coord, global_coord_to_tile_coord,
    global_coord_to_world_pos, global_has_world_pos, has_global_coord, has_index, has_tile_coord,
    has_world_off, has_world_pos, index_to_tile_coord, snap_to_tile, tile_coord_to_global_coord,
    tile_coord_to_index, tile_coord_to_world_off, world_area_to_chunk_coords,
    world_pos_to_chunk_coord, world_pos_to_global_coord, world_pos_to_tile_coord,
};

#[test]
fn test_chunk_coord_to_world_pos() {
    let chunk_coord = IVec2::new(1, 1);
    let size = UVec2::new(2, 2);
    let tile_size = UVec2::new(4, 4);

    let pos = chunk_coord_to_world_pos(&chunk_coord, &size, &tile_size);

    assert_eq!(pos, IVec2::new(8, 8));
    assert_eq!((pos.x as f32, pos.y as f32), (8.0, 8.0));

    let chunk_coord = IVec2::new(-1, 1);
    let size = UVec2::new(2, 2);
    let tile_size = UVec2::new(4, 4);

    let pos = chunk_coord_to_world_pos(&chunk_coord, &size, &tile_size);

    assert_eq!(pos, IVec2::new(-8, 8));
    assert_eq!((pos.x as f32, pos.y as f32), (-8.0, 8.0));
}

#[test]
fn test_world_pos_to_chunk_coord() {
    let pos = IVec2::new(8, 8);
    let size = UVec2::new(2, 2);
    let tile_size = UVec2::new(4, 4);

    let coord = world_pos_to_chunk_coord(&pos, &size, &tile_size);

    assert_eq!(coord, IVec2::new(1, 1));

    let pos = IVec2::new(-8, 8);
    let size = UVec2::new(2, 2);
    let tile_size = UVec2::new(4, 4);

    let coord = world_pos_to_chunk_coord(&pos, &size, &tile_size);

    assert_eq!(coord, IVec2::new(-1, 1));
}

#[test]
fn test_world_pos_to_global_coord() {
    let pos = IVec2::new(8, 8);
    let size = UVec2::new(2, 2);
    let tile_size = UVec2::new(4, 4);

    let coord = world_pos_to_global_coord(&pos, &size, &tile_size);

    assert_eq!(coord, IVec2::new(2, 2));

    let pos = IVec2::new(-8, 8);
    let size = UVec2::new(2, 2);
    let tile_size = UVec2::new(4, 4);

    let coord = world_pos_to_global_coord(&pos, &size, &tile_size);

    assert_eq!(coord, IVec2::new(-2, 2));
}

#[test]
fn test_world_pos_to_tile_coord() {
    let pos = IVec2::new(8, 8);
    let size = UVec2::new(2, 2);
    let tile_size = UVec2::new(4, 4);

    let coord = world_pos_to_tile_coord(&pos, &size, &tile_size);

    assert_eq!(coord, UVec2::new(1, 1));

    let pos = IVec2::new(-8, 8);
    let size = UVec2::new(2, 2);
    let tile_size = UVec2::new(4, 4);

    let coord = world_pos_to_tile_coord(&pos, &size, &tile_size);

    assert_eq!(coord, UVec2::new(1, 1));
}

#[test]
fn test_index_to_tile_coord() {
    let size = UVec2::new(2, 2);
    let index = 3;

    let coord = index_to_tile_coord(index, &size);

    assert_eq!(coord, UVec2::new(1, 1));
}

#[test]
fn test_global_coord_to_tile_coord() {
    let size = UVec2::new(2, 2);
    let global_coord = IVec2::new(8, 8);

    let coord = global_coord_to_tile_coord(&global_coord, &size);

    assert_eq!(coord, UVec2::new(1, 1));

    let size = UVec2::new(2, 2);
    let global_coord = IVec2::new(-8, 8);

    let coord = global_coord_to_tile_coord(&global_coord, &size);

    assert_eq!(coord, UVec2::new(1, 1));
}

#[test]
fn test_tile_coord_to_world_off() {
    let size = UVec2::new(16, 16);
    let tile_coord = UVec2::new(12, 12);
    let tile_size = UVec2::new(32, 32);

    let offset = tile_coord_to_world_off(&tile_coord, &size, &tile_size);

    assert_eq!(offset, IVec2::new(144, 144));
    assert_eq!((offset.x as f32, offset.y as f32), (144.0, 144.0));
}

#[test]
fn chunk_round_trip_for_many_chunks() {
    let size = UVec2::new(32, 32);
    let tile_size = UVec2::new(16, 16);
    for y in -20..=20 {
        for x in -20..=20 {
            let chunk = IVec2::new(x, y);
            let pos = chunk_coord_to_world_pos(&chunk, &size, &tile_size);
            assert_eq!(pos, IVec2::new(x * 512, y * 512));
            assert_eq!(world_pos_to_chunk_coord(&pos, &size, &tile_size), chunk);
        }
    }
}

#[test]
fn chunk_round_trip_with_odd_extent() {
    let size = UVec2::new(3, 5);
    let tile_size = UVec2::new(1, 7);
    for y in -9..=9 {
        for x in -9..=9 {
            let chunk = IVec2::new(x, y);
            let pos = chunk_coord_to_world_pos(&chunk, &size, &tile_size);
            assert_eq!(world_pos_to_chunk_coord(&pos, &size, &tile_size), chunk);
        }
    }
}

#[test]
fn chunks_cover_the_line_without_gap_or_overlap() {
    let size = UVec2::new(2, 2);
    let tile_size = UVec2::new(4, 4);
    // Chunk 0 covers -4..4, chunk -1 covers -12..-4, chunk 1 covers 4..12.
    let expected = [
        (-13, -2),
        (-12, -1),
        (-5, -1),
        (-4, 0),
        (-1, 0),
        (0, 0),
        (3, 0),
        (4, 1),
        (11, 1),
        (12, 2),
    ];
    for (pos, chunk) in expected {
        let coord = world_pos_to_chunk_coord(&IVec2::new(pos, pos), &size, &tile_size);
        assert_eq!(coord, IVec2::new(chunk, chunk));
    }
}

#[test]
fn negative_positions_round_down_not_toward_zero() {
    let size = UVec2::new(2, 2);
    let tile_size = UVec2::new(4, 4);
    let coord = world_pos_to_chunk_coord(&IVec2::new(-8, 8), &size, &tile_size);
    assert_eq!(coord, IVec2::new(-1, 1));
    assert_ne!(coord, IVec2::new(0, 1));
    let exact = world_pos_to_chunk_coord(&IVec2::new(-12, -20), &size, &tile_size);
    assert_eq!(exact, IVec2::new(-1, -2));
}

#[test]
fn tile_coord_is_always_in_range() {
    let size = UVec2::new(3, 4);
    let tile_size = UVec2::new(5, 2);
    for y in -40..40 {
        for x in -40..40 {
            let tile = world_pos_to_tile_coord(&IVec2::new(x, y), &size, &tile_size);
            assert!(tile.x < size.x && tile.y < size.y);
        }
    }
}

#[test]
fn global_coord_splits_and_joins() {
    for side in 1..6u32 {
        let size = UVec2::new(side, side + 1);
        for y in -15..15 {
            for x in -15..15 {
                let global = IVec2::new(x, y);
                let chunk = global_coord_to_chunk_coord(&global, &size);
                let tile = global_coord_to_tile_coord(&global, &size);
                assert!(tile.x < size.x && tile.y < size.y);
                assert_eq!(tile_coord_to_global_coord(&tile, &chunk, &size), global);
            }
        }
    }
}

#[test]
fn tile_and_chunk_join_and_split() {
    let size = UVec2::new(3, 2);
    for cy in -4..4 {
        for cx in -4..4 {
            for ty in 0..2 {
                for tx in 0..3 {
                    let chunk = IVec2::new(cx, cy);
                    let tile = UVec2::new(tx, ty);
                    let global = tile_coord_to_global_coord(&tile, &chunk, &size);
                    assert_eq!(global_coord_to_chunk_coord(&global, &size), chunk);
                    assert_eq!(global_coord_to_tile_coord(&global, &size), tile);
                }
            }
        }
    }
}

#[test]
fn global_coord_of_tile_uses_the_centred_formula() {
    let size = UVec2::new(32, 32);
    let global = tile_coord_to_global_coord(&UVec2::new(5, 31), &IVec2::new(-2, 3), &size);
    assert_eq!(global, IVec2::new(-2 * 32 + 5 - 16, 3 * 32 + 31 - 16));
    // An odd size is halved toward zero.
    let odd = UVec2::new(5, 5);
    let global = tile_coord_to_global_coord(&UVec2::new(0, 4), &IVec2::new(0, 0), &odd);
    assert_eq!(global, IVec2::new(-2, 2));
}

#[test]
fn tile_offset_examples() {
    let offset = tile_coord_to_world_off(&UVec2::new(9, 9), &UVec2::new(16, 16), &UVec2::new(2, 2));
    assert_eq!(offset, IVec2::new(3, 3));
    let offset = tile_coord_to_world_off(&UVec2::new(0, 15), &UVec2::new(16, 16), &UVec2::new(16, 16));
    assert_eq!(offset, IVec2::new(-120, 120));
    // Odd chunk size: one tile more on the positive side.
    let offset = tile_coord_to_world_off(&UVec2::new(0, 4), &UVec2::new(5, 5), &UVec2::new(4, 4));
    assert_eq!(offset, IVec2::new(-6, 10));
}

#[test]
fn global_coord_to_world_pos_is_the_tile_centre() {
    let size = UVec2::new(2, 2);
    let tile_size = UVec2::new(4, 4);
    let pos = global_coord_to_world_pos(&IVec2::new(2, -3), &size, &tile_size);
    assert_eq!(pos, IVec2::new(10, -10));
    let size = UVec2::new(32, 32);
    let tile_size = UVec2::new(16, 16);
    let pos = global_coord_to_world_pos(&IVec2::new(-17, 16), &size, &tile_size);
    assert_eq!(pos, IVec2::new(-17 * 16 + 8, 16 * 16 + 8));
}

#[test]
fn snap_to_tile_gives_the_centre_of_the_tile() {
    let size = UVec2::new(32, 32);
    let tile_size = UVec2::new(16, 16);
    assert_eq!(snap_to_tile(&IVec2::new(0, 0), &size, &tile_size), IVec2::new(8, 8));
    assert_eq!(snap_to_tile(&IVec2::new(15, 16), &size, &tile_size), IVec2::new(8, 24));
    assert_eq!(snap_to_tile(&IVec2::new(-1, -16), &size, &tile_size), IVec2::new(-8, -8));
    assert_eq!(snap_to_tile(&IVec2::new(-17, 300), &size, &tile_size), IVec2::new(-24, 296));
}

#[test]
fn index_and_tile_coord_answer_each_other() {
    let size = UVec2::new(7, 3);
    for index in 0..21usize {
        let tile = index_to_tile_coord(index, &size);
        assert_eq!(tile, UVec2::new((index % 7) as u32, (index / 7) as u32));
        assert_eq!(tile_coord_to_index(&tile, &size), index);
    }
    assert_eq!(tile_coord_to_index(&UVec2::new(4, 2), &size), 18);
}

#[test]
fn chunk_coords_around_lists_the_square_row_by_row() {
    let coords = chunk_coords_around(&IVec2::new(-1, 1), 1);
    let expected = vec![
        IVec2::new(-2, 0),
        IVec2::new(-1, 0),
        IVec2::new(0, 0),
        IVec2::new(-2, 1),
        IVec2::new(-1, 1),
        IVec2::new(0, 1),
        IVec2::new(-2, 2),
        IVec2::new(-1, 2),
        IVec2::new(0, 2),
    ];
    assert_eq!(coords, expected);
    assert_eq!(chunk_coords_around(&IVec2::new(5, 5), 0), vec![IVec2::new(5, 5)]);
}

#[test]
fn world_area_rounds_the_radius_up() {
    let size = UVec2::new(32, 32);
    let tile_size = UVec2::new(16, 16);
    // 16 tiles reach into one chunk on each side.
    let coords = world_area_to_chunk_coords(&IVec2::new(0, 0), 16, &size, &tile_size);
    assert_eq!(coords.len(), 9);
    assert_eq!(coords[0], IVec2::new(-1, -1));
    assert_eq!(coords[8], IVec2::new(1, 1));
    // 33 tiles reach into two.
    let coords = world_area_to_chunk_coords(&IVec2::new(600, -600), 33, &size, &tile_size);
    assert_eq!(coords.len(), 25);
    assert_eq!(coords[0], IVec2::new(-1, -3));
    assert_eq!(coords[24], IVec2::new(3, 1));
    // No tiles: the chunk alone.
    let coords = world_area_to_chunk_coords(&IVec2::new(0, 0), 0, &size, &tile_size);
    assert_eq!(coords, vec![IVec2::new(0, 0)]);
    // The longer side counts.
    let coords = world_area_to_chunk_coords(&IVec2::new(0, 0), 5, &UVec2::new(2, 5), &tile_size);
    assert_eq!(coords.len(), 9);
}

#[test]
fn chebyshev_distance_is_the_larger_axis_distance() {
    let a = IVec2::new(0, 0);
    assert!(a.within(&IVec2::new(3, -3), 3));
    assert!(!a.within(&IVec2::new(4, 0), 3));
    assert!(!a.within(&IVec2::new(0, -4), 3));
    assert!(IVec2::new(i32::MIN, 0).within(&IVec2::new(i32::MIN, 0), 0));
    assert!(!IVec2::new(i32::MIN, 0).within(&IVec2::new(i32::MAX, 0), i32::MAX));
}

#[test]
fn chunks_at_the_end_of_the_world_have_no_world_position() {
    let size = UVec2::new(32, 32);
    let tile_size = UVec2::new(16, 16);
    // 512 world units to a chunk: i32::MAX / 512 = 4194303.
    assert!(has_world_pos(&IVec2::new(4_194_303, -4_194_304), &size, &tile_size));
    assert!(!has_world_pos(&IVec2::new(4_194_304, 0), &size, &tile_size));
    assert!(!has_world_pos(&IVec2::new(0, -4_194_305), &size, &tile_size));
    assert_eq!(
        chunk_coord_to_world_pos(&IVec2::new(4_194_303, -4_194_304), &size, &tile_size),
        IVec2::new(i32::MAX - 511, i32::MIN)
    );
    assert!(has_world_pos(&IVec2::new(i32::MAX, i32::MIN), &UVec2::new(0, 1), &UVec2::new(9, 1)));
    let huge = UVec2::new(u32::MAX, u32::MAX);
    assert!(has_world_pos(&IVec2::new(0, 0), &huge, &huge));
    assert!(!has_world_pos(&IVec2::new(1, 0), &huge, &huge));
}

#[test]
fn global_coordinates_at_the_end_of_the_range() {
    let size = UVec2::new(32, 32);
    assert!(has_global_coord(&UVec2::new(31, 0), &IVec2::new(67_108_863, 0), &size));
    assert!(!has_global_coord(&UVec2::new(31, 0), &IVec2::new(67_108_864, 0), &size));
    assert!(has_global_coord(&UVec2::new(15, 16), &IVec2::new(67_108_864, -67_108_864), &size));
    assert_eq!(
        tile_coord_to_global_coord(&UVec2::new(15, 16), &IVec2::new(67_108_864, -67_108_864), &size),
        IVec2::new(i32::MAX, i32::MIN)
    );
    assert!(!has_global_coord(&UVec2::new(16, 16), &IVec2::new(67_108_864, -67_108_864), &size));
    assert!(!has_global_coord(&UVec2::new(15, 15), &IVec2::new(67_108_864, -67_108_864), &size));
}

#[test]
fn extreme_positions_convert_without_overflow() {
    let corners = [
        IVec2::new(i32::MIN, i32::MAX),
        IVec2::new(i32::MAX, i32::MIN),
        IVec2::new(0, 0),
    ];
    let sizes = [UVec2::new(1, 1), UVec2::new(2, 3), UVec2::new(u32::MAX, u32::MAX)];
    for pos in corners {
        for size in sizes {
            for tile_size in sizes {
                let chunk = world_pos_to_chunk_coord(&pos, &size, &tile_size);
                let tile = world_pos_to_tile_coord(&pos, &size, &tile_size);
                assert!(tile.x < size.x && tile.y < size.y);
                let global = world_pos_to_global_coord(&pos, &size, &tile_size);
                assert_eq!(global_coord_to_chunk_coord(&global, &size), chunk);
                assert_eq!(global_coord_to_tile_coord(&global, &size), tile);
            }
        }
    }
    let one = UVec2::new(1, 1);
    assert_eq!(world_pos_to_chunk_coord(&corners[0], &one, &one), corners[0]);
    assert_eq!(world_pos_to_global_coord(&corners[1], &one, &one), corners[1]);
}

#[test]
fn tile_offsets_and_centres_that_do_not_fit() {
    let size = UVec2::new(16, 16);
    assert!(has_world_off(&UVec2::new(12, 12), &size, &UVec2::new(32, 32)));
    assert!(!has_world_off(&UVec2::new(u32::MAX, 0), &size, &UVec2::new(32, 32)));
    assert!(global_has_world_pos(&IVec2::new(-17, 16), &size, &UVec2::new(16, 16)));
    assert!(!global_has_world_pos(&IVec2::new(i32::MAX, 0), &size, &UVec2::new(16, 16)));
    assert!(global_has_world_pos(&IVec2::new(i32::MAX, i32::MIN), &size, &UVec2::new(1, 1)));
    assert!(can_snap_to_tile(&IVec2::new(-17, 300), &UVec2::new(32, 32), &UVec2::new(16, 16)));
    // The last position lies in the lower half of its tile of 100 units:
    // the centre of the tile lies beyond it.
    assert!(!can_snap_to_tile(&IVec2::new(i32::MAX, 0), &UVec2::new(32, 32), &UVec2::new(100, 100)));
    assert!(can_snap_to_tile(&IVec2::new(i32::MAX, 0), &UVec2::new(32, 32), &UVec2::new(16, 16)));
    assert_eq!(
        snap_to_tile(&IVec2::new(i32::MAX, i32::MIN), &UVec2::new(32, 32), &UVec2::new(16, 16)),
        IVec2::new(i32::MAX - 7, i32::MIN + 8)
    );
}

#[test]
fn squares_and_areas_that_cannot_be_listed() {
    assert!(can_list_square(&IVec2::new(0, 0), 8));
    assert!(can_list_square(&IVec2::new(i32::MAX - 8, i32::MIN + 8), 8));
    assert!(!can_list_square(&IVec2::new(i32::MAX - 7, 0), 8));
    assert!(!can_list_square(&IVec2::new(0, i32::MIN + 7), 8));
    assert!(!can_list_square(&IVec2::new(0, 0), -1));
    assert!(!can_list_square(&IVec2::new(0, 0), i64::MAX));
    let size = UVec2::new(32, 32);
    let tile_size = UVec2::new(16, 16);
    assert!(can_list_area(&IVec2::new(0, 0), 16, &size, &tile_size));
    assert!(!can_list_area(&IVec2::new(i32::MAX, 0), 16, &UVec2::new(1, 1), &UVec2::new(1, 1)));
    assert!(can_list_area(&IVec2::new(i32::MAX, 0), 0, &UVec2::new(1, 1), &UVec2::new(1, 1)));
}

#[test]
fn indices_and_tile_coordinates_that_do_not_exist() {
    assert!(has_tile_coord(3, &UVec2::new(2, 2)));
    let last = u32::MAX as usize * u32::MAX as usize + (u32::MAX as usize - 1);
    assert!(has_tile_coord(last, &UVec2::new(u32::MAX, 1)));
    assert_eq!(
        index_to_tile_coord(last, &UVec2::new(u32::MAX, 1)),
        UVec2::new(u32::MAX - 1, u32::MAX)
    );
    assert!(!has_tile_coord(usize::MAX, &UVec2::new(u32::MAX, 1)));
    assert!(!has_tile_coord(usize::MAX, &UVec2::new(1, 1)));
    assert!(has_index(&UVec2::new(1, 1), &UVec2::new(2, 2)));
    assert!(has_index(&UVec2::new(u32::MAX, 0), &UVec2::new(1, 1)));
}

/// Where a tile stands in its chunk, in the scene: the lattice has two
/// points to the scene's unit, so that half units can be told.
fn get_tile_coord_translation(tile_coord: &UVec2, size: &UVec2, tile_size: (f32, f32), y: f32) -> (f32, f32, f32) {
    let lattice_tile_size = UVec2::new((tile_size.0 * 2.0) as u32, (tile_size.1 * 2.0) as u32);
    let offset = tile_coord_to_world_off(tile_coord, size, &lattice_tile_size);
    (offset.x as f32 / 2.0, y, offset.y as f32 / 2.0)
}

#[test]
fn test_get_tile_coord_transform_1() {
    let tile_coord = UVec2::new(1, 1);
    let size = UVec2::new(16, 16);
    let tile_size = (1.0, 1.0);

    let translation = get_tile_coord_translation(&tile_coord, &size, tile_size, 0.0);

    assert_eq!(translation, (-6.5, 0.0, -6.5));
}

#[test]
fn test_get_tile_coord_transform_2() {
    let tile_coord = UVec2::new(9, 9);
    let size = UVec2::new(16, 16);
    let tile_size = (2.0, 2.0);

    let translation = get_tile_coord_translation(&tile_coord, &size, tile_size, 0.0);

    assert_eq!(translation, (3.0, 0.0, 3.0));
}
