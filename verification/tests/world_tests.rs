use viewer::block::{BlockRegistry, BuiltBlockID};
use viewer::chunk::{
    handle_set_block_events, spawn_chunk, update_dirty_chunks, GetBlockEvent, RegenerateMesh,
    SetBlockEvent, World,
};
use viewer::coords::{ChunkPos, WorldPos};

fn pos(x: i32, y: i32, z: i32) -> WorldPos {
    WorldPos { x, y, z }
}

#[test]
fn empty_world_reads_air_everywhere() {
    let world = World::new();
    assert_eq!(world.get_block(pos(0, 0, 0)), BuiltBlockID::Air);
    assert_eq!(world.get_block(pos(-100, 5, 77)), BuiltBlockID::Air);
    assert_eq!(world.get_block(pos(i32::MAX, i32::MIN, 0)), BuiltBlockID::Air);
    assert_eq!(world.entity_count(), 0);
    assert_eq!(world.entity_of(ChunkPos { x: 0, y: 0, z: 0 }), None);
    assert!(!world.is_loaded(ChunkPos { x: 0, y: 0, z: 0 }));
}

#[test]
fn set_block_creates_the_chunk_and_stores_the_block() {
    let registry = BlockRegistry::from_texture_table();
    let mut world = World::new();
    assert!(world.set_block(pos(3, 4, 5), BuiltBlockID::Brick, &registry));
    assert_eq!(world.get_block(pos(3, 4, 5)), BuiltBlockID::Brick);
    assert_eq!(world.get_block(pos(3, 4, 6)), BuiltBlockID::Air);
    assert_eq!(world.get_block(pos(4, 4, 5)), BuiltBlockID::Air);
    assert_eq!(world.entity_count(), 1);
    let c = ChunkPos { x: 0, y: 0, z: 0 };
    assert_eq!(world.entity_of(c), Some(0));
    assert!(world.is_loaded(c));
    let chunk = world.chunk(0).unwrap();
    assert_eq!(chunk.pos, c);
    assert!(chunk.dirty);
    assert_eq!(chunk.grid[3 + 5 * 8 + 4 * 64], BuiltBlockID::Brick);
    assert_eq!(chunk.grid.iter().filter(|b| **b != BuiltBlockID::Air).count(), 1);
    assert_eq!(chunk.mesh.quad_count(), 0);
    assert!(world.chunk(1).is_none());
}

#[test]
fn get_block_is_idempotent() {
    let registry = BlockRegistry::from_texture_table();
    let mut world = World::new();
    world.set_block(pos(-1, -1, -1), BuiltBlockID::Grass, &registry);
    let first = world.get_block(pos(-1, -1, -1));
    let second = world.get_block(pos(-1, -1, -1));
    assert_eq!(first, BuiltBlockID::Grass);
    assert_eq!(first, second);
    assert_eq!(world.get_block(pos(9, 9, 9)), world.get_block(pos(9, 9, 9)));
    assert_eq!(world.entity_count(), 1);
}

#[test]
fn negative_positions_land_in_negative_chunks() {
    let registry = BlockRegistry::from_texture_table();
    let mut world = World::new();
    world.set_block(pos(-1, 0, -9), BuiltBlockID::Dirt, &registry);
    let c = ChunkPos { x: -1, y: 0, z: -2 };
    let e = world.entity_of(c).unwrap();
    assert_eq!(world.chunk(e).unwrap().pos, c);
    assert_eq!(world.chunk(e).unwrap().grid[7 + 7 * 8], BuiltBlockID::Dirt);
    assert_eq!(world.get_block(pos(-1, 0, -9)), BuiltBlockID::Dirt);
    assert_eq!(world.get_block(pos(7, 0, 7)), BuiltBlockID::Air);
    assert_eq!(world.entity_of(ChunkPos { x: 0, y: 0, z: 0 }), None);
}

#[test]
fn writes_in_different_chunks_do_not_mix() {
    let registry = BlockRegistry::from_texture_table();
    let mut world = World::new();
    world.set_block(pos(0, 0, 0), BuiltBlockID::Brick, &registry);
    world.set_block(pos(8, 0, 0), BuiltBlockID::Dirt, &registry);
    world.set_block(pos(0, 8, 0), BuiltBlockID::Grass, &registry);
    world.set_block(pos(0, 0, 0), BuiltBlockID::PlanksOak, &registry);
    assert_eq!(world.entity_count(), 3);
    assert_eq!(world.get_block(pos(0, 0, 0)), BuiltBlockID::PlanksOak);
    assert_eq!(world.get_block(pos(8, 0, 0)), BuiltBlockID::Dirt);
    assert_eq!(world.get_block(pos(0, 8, 0)), BuiltBlockID::Grass);
    assert_eq!(world.get_block(pos(0, 0, 8)), BuiltBlockID::Air);
}

#[test]
fn set_block_in_chunk_needs_the_chunk() {
    let registry = BlockRegistry::from_texture_table();
    let mut world = World::new();
    assert!(!world.set_block_in_chunk(pos(1, 1, 1), BuiltBlockID::Brick));
    assert_eq!(world.get_block(pos(1, 1, 1)), BuiltBlockID::Air);
    assert_eq!(world.entity_count(), 0);
    world.create_chunk_now(&registry, ChunkPos { x: 0, y: 0, z: 0 });
    assert!(!world.chunk(0).unwrap().dirty);
    assert!(world.set_block_in_chunk(pos(1, 1, 1), BuiltBlockID::Brick));
    assert_eq!(world.get_block(pos(1, 1, 1)), BuiltBlockID::Brick);
    assert!(world.chunk(0).unwrap().dirty);
    assert!(!world.set_block_in_chunk(pos(8, 1, 1), BuiltBlockID::Brick));
}

#[test]
fn spawn_chunk_fills_and_meshes() {
    let registry = BlockRegistry::from_texture_table();
    let mut world = World::new();
    let c = ChunkPos { x: 2, y: -3, z: 4 };
    spawn_chunk(&mut world, &registry, c, Some(BuiltBlockID::Dirt));
    let chunk = world.chunk(world.entity_of(c).unwrap()).unwrap();
    assert_eq!(chunk.pos, c);
    assert!(!chunk.dirty);
    assert_eq!(chunk.grid, vec![BuiltBlockID::Dirt; 512]);
    assert_eq!(chunk.meta.voxels, chunk.grid);
    assert_eq!(chunk.mesh.quad_count(), 384);
    assert_eq!(world.get_block(pos(16, -24, 32)), BuiltBlockID::Dirt);
    assert_eq!(world.get_block(pos(23, -17, 39)), BuiltBlockID::Dirt);
    assert_eq!(world.get_block(pos(24, -17, 39)), BuiltBlockID::Air);
    assert!(world.is_loaded(c));
}

#[test]
fn spawn_chunk_defaults_to_air() {
    let registry = BlockRegistry::from_texture_table();
    let mut world = World::new();
    let c = ChunkPos { x: 0, y: 0, z: 0 };
    spawn_chunk(&mut world, &registry, c, None);
    let chunk = world.chunk(0).unwrap();
    assert_eq!(chunk.grid, vec![BuiltBlockID::Air; 512]);
    assert_eq!(chunk.mesh.quad_count(), 0);
}

#[test]
fn creating_a_chunk_twice_replaces_it() {
    let registry = BlockRegistry::from_texture_table();
    let mut world = World::new();
    let c = ChunkPos { x: 0, y: 0, z: 0 };
    world.create_chunk_now(&registry, c);
    world.set_block(pos(1, 2, 3), BuiltBlockID::Brick, &registry);
    assert_eq!(world.get_block(pos(1, 2, 3)), BuiltBlockID::Brick);
    world.create_chunk_now(&registry, c);
    assert_eq!(world.entity_count(), 2);
    assert_eq!(world.entity_of(c), Some(1));
    assert_eq!(world.get_block(pos(1, 2, 3)), BuiltBlockID::Air);
    assert_eq!(world.chunk(0).unwrap().grid[1 + 3 * 8 + 2 * 64], BuiltBlockID::Brick);
}

#[test]
fn sweep_rebuilds_stale_chunks_once() {
    let registry = BlockRegistry::from_texture_table();
    let mut world = World::new();
    world.create_chunk_now(&registry, ChunkPos { x: 5, y: 5, z: 5 });
    world.set_block(pos(4, 4, 4), BuiltBlockID::Grass, &registry);
    world.set_block(pos(4, 5, 4), BuiltBlockID::Dirt, &registry);
    world.set_block(pos(-4, 4, 4), BuiltBlockID::Brick, &registry);
    assert_eq!(world.entity_count(), 3);
    assert_eq!(update_dirty_chunks(&mut world, &registry), vec![1, 2]);
    for e in 0..3 {
        assert!(!world.chunk(e).unwrap().dirty);
    }
    let first = world.chunk(1).unwrap();
    assert_eq!(first.mesh.quad_count(), 10);
    assert_eq!(first.meta.voxels, first.grid);
    assert_eq!(world.chunk(2).unwrap().mesh.quad_count(), 6);
    assert_eq!(world.chunk(0).unwrap().mesh.quad_count(), 0);
    assert_eq!(world.get_block(pos(4, 4, 4)), BuiltBlockID::Grass);
    assert_eq!(update_dirty_chunks(&mut world, &registry), Vec::<usize>::new());
}

#[test]
fn events_apply_in_order() {
    let registry = BlockRegistry::from_texture_table();
    let mut world = World::new();
    let events = vec![
        SetBlockEvent { world_pos: pos(1, 1, 1), block: BuiltBlockID::Brick },
        SetBlockEvent { world_pos: pos(20, 1, 1), block: BuiltBlockID::Dirt },
        SetBlockEvent { world_pos: pos(1, 1, 1), block: BuiltBlockID::Grass },
        SetBlockEvent { world_pos: pos(2, 1, 1), block: BuiltBlockID::Air },
    ];
    handle_set_block_events(&events, &mut world, &registry);
    assert_eq!(world.get_block(pos(1, 1, 1)), BuiltBlockID::Grass);
    assert_eq!(world.get_block(pos(20, 1, 1)), BuiltBlockID::Dirt);
    assert_eq!(world.get_block(pos(2, 1, 1)), BuiltBlockID::Air);
    assert_eq!(world.entity_count(), 2);
    assert_eq!(update_dirty_chunks(&mut world, &registry), vec![0, 1]);
    assert_eq!(world.chunk(0).unwrap().mesh.quad_count(), 6);
    handle_set_block_events(&Vec::new(), &mut world, &registry);
    assert_eq!(world.get_block(pos(1, 1, 1)), BuiltBlockID::Grass);
    assert_eq!(update_dirty_chunks(&mut world, &registry), Vec::<usize>::new());
}

#[test]
fn event_values() {
    let query = GetBlockEvent { world_pos: pos(1, 2, 3) };
    assert_eq!(query.world_pos, pos(1, 2, 3));
    assert_eq!(RegenerateMesh::default(), RegenerateMesh);
}

#[test]
fn far_apart_chunks_have_their_own_entities() {
    let registry = BlockRegistry::from_texture_table();
    let mut world = World::new();
    world.set_block(pos(i32::MAX, i32::MAX, i32::MAX), BuiltBlockID::Brick, &registry);
    world.set_block(pos(i32::MIN, i32::MIN, i32::MIN), BuiltBlockID::Dirt, &registry);
    world.set_block(pos(i32::MIN, i32::MAX, 0), BuiltBlockID::Grass, &registry);
    assert_eq!(world.entity_count(), 3);
    assert_eq!(world.get_block(pos(i32::MAX, i32::MAX, i32::MAX)), BuiltBlockID::Brick);
    assert_eq!(world.get_block(pos(i32::MIN, i32::MIN, i32::MIN)), BuiltBlockID::Dirt);
    assert_eq!(world.get_block(pos(i32::MIN, i32::MAX, 0)), BuiltBlockID::Grass);
    assert_eq!(world.get_block(pos(i32::MAX, i32::MIN, 0)), BuiltBlockID::Air);
}

#[test]
fn edit_block_patches_the_mesh_at_once() {
    let registry = BlockRegistry::from_texture_table();
    let mut world = World::new();
    world.edit_block(pos(4, 4, 4), BuiltBlockID::Brick, &registry);
    assert_eq!(world.get_block(pos(4, 4, 4)), BuiltBlockID::Brick);
    assert_eq!(world.entity_count(), 1);
    {
        let chunk = world.chunk(0).unwrap();
        assert!(!chunk.dirty);
        assert_eq!(chunk.mesh.quad_count(), 6);
        assert_eq!(chunk.meta.voxels, chunk.grid);
    }
    world.edit_block(pos(5, 4, 4), BuiltBlockID::Dirt, &registry);
    assert_eq!(world.chunk(0).unwrap().mesh.quad_count(), 10);
    world.edit_block(pos(4, 4, 4), BuiltBlockID::Air, &registry);
    assert_eq!(world.chunk(0).unwrap().mesh.quad_count(), 6);
    assert!(world.chunk(0).unwrap().mesh.faces.iter().all(|q| q.cell == 5 + 4 * 8 + 4 * 64));
    assert_eq!(update_dirty_chunks(&mut world, &registry), Vec::<usize>::new());
}

#[test]
fn edit_block_leaves_a_stale_chunk_to_the_sweep() {
    let registry = BlockRegistry::from_texture_table();
    let mut world = World::new();
    world.set_block(pos(1, 1, 1), BuiltBlockID::Brick, &registry);
    world.edit_block(pos(2, 2, 2), BuiltBlockID::Dirt, &registry);
    {
        let chunk = world.chunk(0).unwrap();
        assert!(chunk.dirty);
        assert_eq!(chunk.mesh.quad_count(), 0);
    }
    assert_eq!(world.get_block(pos(2, 2, 2)), BuiltBlockID::Dirt);
    assert_eq!(update_dirty_chunks(&mut world, &registry), vec![0]);
    assert_eq!(world.chunk(0).unwrap().mesh.quad_count(), 12);
}

#[test]
fn patched_and_swept_worlds_show_the_same_faces() {
    let registry = BlockRegistry::from_texture_table();
    let mut patched = World::new();
    let mut swept = World::new();
    let mut state: i32 = 7;
    for _ in 0..500 {
        state = (state.wrapping_mul(1103515245).wrapping_add(12345)) & 0x7fff_ffff;
        let p = pos((state >> 3) % 16 - 8, (state >> 9) % 8, (state >> 15) % 16 - 8);
        let block = BuiltBlockID::from_repr_or_air(((state >> 20) % 6) as usize);
        patched.edit_block(p, block, &registry);
        swept.set_block(p, block, &registry);
    }
    update_dirty_chunks(&mut swept, &registry);
    assert_eq!(patched.entity_count(), swept.entity_count());
    for e in 0..patched.entity_count() {
        let a = patched.chunk(e).unwrap();
        let b = swept.chunk(e).unwrap();
        assert_eq!(a.pos, b.pos);
        assert_eq!(a.grid, b.grid);
        assert!(!a.dirty && !b.dirty);
        let mut left: Vec<(usize, usize, u32)> =
            a.mesh.faces.iter().map(|q| (q.cell, q.face.index(), q.texture)).collect();
        let right: Vec<(usize, usize, u32)> =
            b.mesh.faces.iter().map(|q| (q.cell, q.face.index(), q.texture)).collect();
        left.sort();
        assert_eq!(left, right);
    }
}

#[test]
fn set_block_leaves_other_chunks_and_the_mesh_alone() {
    let registry = BlockRegistry::from_texture_table();
    let mut world = World::new();
    spawn_chunk(&mut world, &registry, ChunkPos { x: 0, y: 0, z: 0 }, Some(BuiltBlockID::Dirt));
    spawn_chunk(&mut world, &registry, ChunkPos { x: 1, y: 0, z: 0 }, Some(BuiltBlockID::Brick));
    let mesh_before = world.chunk(0).unwrap().mesh.clone();
    let meta_before = world.chunk(0).unwrap().meta.clone();
    assert!(world.set_block(pos(3, 3, 3), BuiltBlockID::Air, &registry));
    {
        let written = world.chunk(0).unwrap();
        assert!(written.dirty);
        assert_eq!(written.mesh, mesh_before);
        assert_eq!(written.meta, meta_before);
        assert_eq!(written.grid.iter().filter(|b| **b == BuiltBlockID::Air).count(), 1);
        let other = world.chunk(1).unwrap();
        assert!(!other.dirty);
        assert_eq!(other.grid, vec![BuiltBlockID::Brick; 512]);
        assert_eq!(other.mesh.quad_count(), 384);
    }
    assert_eq!(world.entity_of(ChunkPos { x: 0, y: 0, z: 0 }), Some(0));
    assert_eq!(world.entity_of(ChunkPos { x: 1, y: 0, z: 0 }), Some(1));
    assert!(world.set_block(pos(3, 3, 3), BuiltBlockID::Air, &registry));
    assert!(world.chunk(0).unwrap().dirty);
    assert!(!world.chunk(1).unwrap().dirty);
}

#[test]
fn set_block_in_a_new_chunk_keeps_the_first_mesh() {
    let registry = BlockRegistry::from_texture_table();
    let mut world = World::new();
    assert!(world.set_block(pos(-3, 9, 40), BuiltBlockID::PlanksOak, &registry));
    let chunk = world.chunk(0).unwrap();
    assert_eq!(chunk.pos, ChunkPos { x: -1, y: 1, z: 5 });
    assert!(chunk.dirty);
    assert_eq!(chunk.mesh.quad_count(), 0);
    assert_eq!(chunk.meta.voxels, vec![BuiltBlockID::Air; 512]);
    assert_eq!(chunk.grid[5 + 0 * 8 + 1 * 64], BuiltBlockID::PlanksOak);
}

#[test]
fn queued_writes_leave_every_written_chunk_stale() {
    let registry = BlockRegistry::from_texture_table();
    let mut world = World::new();
    spawn_chunk(&mut world, &registry, ChunkPos { x: 0, y: 0, z: 0 }, None);
    spawn_chunk(&mut world, &registry, ChunkPos { x: 1, y: 0, z: 0 }, Some(BuiltBlockID::Dirt));
    spawn_chunk(&mut world, &registry, ChunkPos { x: 2, y: 0, z: 0 }, Some(BuiltBlockID::Dirt));
    let events = vec![
        SetBlockEvent { world_pos: pos(1, 1, 1), block: BuiltBlockID::Brick },
        SetBlockEvent { world_pos: pos(17, 1, 1), block: BuiltBlockID::Dirt },
        SetBlockEvent { world_pos: pos(1, 2, 1), block: BuiltBlockID::Brick },
        SetBlockEvent { world_pos: pos(0, 0, -1), block: BuiltBlockID::Grass },
    ];
    handle_set_block_events(&events, &mut world, &registry);
    assert_eq!(world.entity_count(), 4);
    assert!(world.chunk(0).unwrap().dirty);
    assert!(!world.chunk(1).unwrap().dirty);
    assert!(world.chunk(2).unwrap().dirty);
    assert!(world.chunk(3).unwrap().dirty);
    assert_eq!(world.chunk(0).unwrap().mesh.quad_count(), 0);
    assert_eq!(world.chunk(1).unwrap().mesh.quad_count(), 384);
    assert_eq!(world.chunk(2).unwrap().mesh.quad_count(), 384);
    assert_eq!(world.chunk(3).unwrap().mesh.quad_count(), 0);
    assert_eq!(world.chunk(1).unwrap().grid, vec![BuiltBlockID::Dirt; 512]);
    assert_eq!(update_dirty_chunks(&mut world, &registry), vec![0, 2, 3]);
    assert_eq!(world.chunk(0).unwrap().mesh.quad_count(), 10);
}

#[test]
fn edit_block_leaves_other_chunks_alone() {
    let registry = BlockRegistry::from_texture_table();
    let mut world = World::new();
    world.set_block(pos(1, 1, 1), BuiltBlockID::Brick, &registry);
    spawn_chunk(&mut world, &registry, ChunkPos { x: 1, y: 0, z: 0 }, Some(BuiltBlockID::Dirt));
    world.edit_block(pos(9, 1, 1), BuiltBlockID::Air, &registry);
    let stale = world.chunk(0).unwrap();
    assert!(stale.dirty);
    assert_eq!(stale.mesh.quad_count(), 0);
    assert_eq!(stale.grid.iter().filter(|b| **b != BuiltBlockID::Air).count(), 1);
    let patched = world.chunk(1).unwrap();
    assert!(!patched.dirty);
    assert_eq!(patched.mesh.quad_count(), 384 + 6);
}
