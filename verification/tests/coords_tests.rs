use viewer::coords::{ChunkPos, WorldPos, CHUNK_LEN, SIZE};

#[test]
fn chunk_constants() {
    assert_eq!(SIZE, 8);
    assert_eq!(CHUNK_LEN, SIZE * SIZE * SIZE);
}

#[test]
fn origin_maps_to_first_cell_of_chunk_zero() {
    let p = WorldPos { x: 0, y: 0, z: 0 };
    assert_eq!(p.to_chunk_pos(), ChunkPos { x: 0, y: 0, z: 0 });
    assert_eq!(p.to_local_pos(), (0, 0, 0));
    assert_eq!(p.to_local_index(), 0);
}

#[test]
fn negative_one_maps_to_chunk_minus_one_local_seven() {
    let p = WorldPos { x: -1, y: -1, z: -1 };
    assert_eq!(p.to_chunk_pos(), ChunkPos { x: -1, y: -1, z: -1 });
    assert_eq!(p.to_local_pos(), (7, 7, 7));
    assert_eq!(p.to_local_index(), 511);
}

#[test]
fn chunk_uses_floor_not_truncation() {
    assert_eq!(WorldPos { x: -8, y: -9, z: -16 }.to_chunk_pos(), ChunkPos { x: -1, y: -2, z: -2 });
    assert_eq!(WorldPos { x: -8, y: -9, z: -16 }.to_local_pos(), (0, 7, 0));
    assert_eq!(WorldPos { x: 7, y: 8, z: 15 }.to_chunk_pos(), ChunkPos { x: 0, y: 1, z: 1 });
    assert_eq!(WorldPos { x: 7, y: 8, z: 15 }.to_local_pos(), (7, 0, 7));
}

#[test]
fn local_index_has_y_as_outermost_stride() {
    assert_eq!(WorldPos { x: 1, y: 0, z: 0 }.to_local_index(), 1);
    assert_eq!(WorldPos { x: 0, y: 0, z: 1 }.to_local_index(), 8);
    assert_eq!(WorldPos { x: 0, y: 1, z: 0 }.to_local_index(), 64);
    assert_eq!(WorldPos { x: 3, y: 5, z: 2 }.to_local_index(), 3 + 2 * 8 + 5 * 64);
    assert_eq!(WorldPos { x: 11, y: -3, z: 18 }.to_local_index(), 3 + 2 * 8 + 5 * 64);
}

#[test]
fn extreme_coordinates_map_without_overflow() {
    let lo = WorldPos { x: i32::MIN, y: i32::MIN, z: i32::MIN };
    assert_eq!(lo.to_chunk_pos(), ChunkPos { x: -268435456, y: -268435456, z: -268435456 });
    assert_eq!(lo.to_local_pos(), (0, 0, 0));
    let hi = WorldPos { x: i32::MAX, y: i32::MAX, z: i32::MAX };
    assert_eq!(hi.to_chunk_pos(), ChunkPos { x: 268435455, y: 268435455, z: 268435455 });
    assert_eq!(hi.to_local_pos(), (7, 7, 7));
    assert_eq!(hi.to_chunk_pos().to_world_pos(7, 7, 7), hi);
    assert_eq!(lo.to_chunk_pos().to_world_pos(0, 0, 0), lo);
}

#[test]
fn to_world_pos_is_chunk_times_size_plus_local() {
    let c = ChunkPos { x: 2, y: -1, z: 0 };
    assert_eq!(c.to_world_pos(3, 4, 5), WorldPos { x: 19, y: -4, z: 5 });
    assert_eq!(c.to_world_pos(0, 0, 0), WorldPos { x: 16, y: -8, z: 0 });
}

#[test]
fn coordinate_round_trip() {
    let samples = [-1000, -65, -64, -63, -9, -8, -7, -1, 0, 1, 7, 8, 9, 63, 64, 65, 1000];
    for &x in samples.iter() {
        for &y in samples.iter() {
            for &z in samples.iter() {
                let p = WorldPos { x, y, z };
                let (lx, ly, lz) = p.to_local_pos();
                assert!(lx < SIZE && ly < SIZE && lz < SIZE);
                assert_eq!(p.to_chunk_pos().to_world_pos(lx, ly, lz), p);
                assert_eq!(p.to_local_index(), lx + lz * SIZE + ly * SIZE * SIZE);
            }
        }
    }
}
