use viewer::block::{BlockRegistry, BuiltBlockID};
use viewer::coords::CHUNK_LEN;
use viewer::mesher::{
    get_neighbor, is_face_visible, quad_indices, ChunkMesh, ChunkMesher, Face, MeshError, MeshFace,
    MeshMetadata,
};

fn faces() -> [Face; 6] {
    [Face::Top, Face::Bottom, Face::Right, Face::Left, Face::Back, Face::Forward]
}

fn cell(x: usize, y: usize, z: usize) -> usize {
    x + z * 8 + y * 64
}

fn captured(grid: &[BuiltBlockID], index: usize) -> [Option<BuiltBlockID>; 6] {
    let mut ids = [None; 6];
    for (i, face) in faces().iter().enumerate() {
        ids[i] = get_neighbor(index, *face).map(|j| grid[j]);
    }
    ids
}

fn sorted(mesh: &ChunkMesh) -> Vec<(usize, usize, u32)> {
    let mut quads: Vec<(usize, usize, u32)> =
        mesh.faces.iter().map(|q| (q.cell, q.face.index(), q.texture)).collect();
    quads.sort();
    quads
}

fn edit(
    grid: &mut Vec<BuiltBlockID>,
    mesh: &mut ChunkMesh,
    meta: &mut MeshMetadata,
    registry: &BlockRegistry,
    index: usize,
    new_id: BuiltBlockID,
) {
    let old_id = grid[index];
    let ids = captured(grid, index);
    ChunkMesher::apply_edit(mesh, meta, registry, index, old_id, new_id, ids);
    grid[index] = new_id;
}

#[test]
fn face_order_and_opposites() {
    for (i, face) in faces().iter().enumerate() {
        assert_eq!(face.index(), i);
        assert_eq!(Face::from_index(i), *face);
        assert_eq!(face.opposite().opposite(), *face);
    }
    assert_eq!(Face::Top.opposite(), Face::Bottom);
    assert_eq!(Face::Right.opposite(), Face::Left);
    assert_eq!(Face::Back.opposite(), Face::Forward);
}

#[test]
fn neighbors_of_an_interior_cell() {
    let c = cell(3, 4, 5);
    assert_eq!(get_neighbor(c, Face::Top), Some(cell(3, 5, 5)));
    assert_eq!(get_neighbor(c, Face::Bottom), Some(cell(3, 3, 5)));
    assert_eq!(get_neighbor(c, Face::Right), Some(cell(4, 4, 5)));
    assert_eq!(get_neighbor(c, Face::Left), Some(cell(2, 4, 5)));
    assert_eq!(get_neighbor(c, Face::Back), Some(cell(3, 4, 6)));
    assert_eq!(get_neighbor(c, Face::Forward), Some(cell(3, 4, 4)));
}

#[test]
fn neighbors_stop_at_the_chunk_boundary() {
    assert_eq!(get_neighbor(cell(0, 0, 0), Face::Left), None);
    assert_eq!(get_neighbor(cell(0, 0, 0), Face::Bottom), None);
    assert_eq!(get_neighbor(cell(0, 0, 0), Face::Forward), None);
    assert_eq!(get_neighbor(cell(0, 0, 0), Face::Right), Some(1));
    assert_eq!(get_neighbor(cell(7, 7, 7), Face::Right), None);
    assert_eq!(get_neighbor(cell(7, 7, 7), Face::Top), None);
    assert_eq!(get_neighbor(cell(7, 7, 7), Face::Back), None);
    assert_eq!(get_neighbor(cell(7, 0, 0), Face::Right), None);
    assert_eq!(get_neighbor(CHUNK_LEN, Face::Left), None);
    assert_eq!(get_neighbor(usize::MAX, Face::Top), None);
}

#[test]
fn neighbor_relation_is_mutual() {
    for c in 0..CHUNK_LEN {
        for face in faces().iter() {
            if let Some(j) = get_neighbor(c, *face) {
                assert!(j < CHUNK_LEN);
                assert_eq!(get_neighbor(j, face.opposite()), Some(c));
            }
        }
    }
}

#[test]
fn all_air_grid_has_no_faces() {
    let registry = BlockRegistry::from_texture_table();
    let grid = vec![BuiltBlockID::Air; CHUNK_LEN];
    let (mesh, meta) = ChunkMesher::build(&grid, &registry).unwrap();
    assert_eq!(mesh.quad_count(), 0);
    assert!(mesh.faces.is_empty());
    assert_eq!(meta.voxels, grid);
    assert!(meta.slots.iter().all(|s| s.is_none()));
}

#[test]
fn all_solid_grid_shows_only_the_boundary() {
    let registry = BlockRegistry::from_texture_table();
    let grid = vec![BuiltBlockID::Dirt; CHUNK_LEN];
    let (mesh, _meta) = ChunkMesher::build(&grid, &registry).unwrap();
    assert_eq!(mesh.quad_count(), 6 * 8 * 8);
    for quad in mesh.faces.iter() {
        assert_eq!(get_neighbor(quad.cell, quad.face), None);
        assert_eq!(quad.texture, 2);
    }
    for face in faces().iter() {
        assert_eq!(mesh.faces.iter().filter(|q| q.face == *face).count(), 64);
    }
}

#[test]
fn mixed_solid_grid_shows_only_the_boundary() {
    let registry = BlockRegistry::from_texture_table();
    let grid: Vec<BuiltBlockID> =
        (0..CHUNK_LEN).map(|i| BuiltBlockID::from_repr_or_air(1 + i % 5)).collect();
    let (mesh, _meta) = ChunkMesher::build(&grid, &registry).unwrap();
    assert_eq!(mesh.quad_count(), 384);
}

#[test]
fn single_interior_voxel_has_six_faces() {
    let registry = BlockRegistry::from_texture_table();
    let mut grid = vec![BuiltBlockID::Air; CHUNK_LEN];
    let c = cell(3, 4, 5);
    grid[c] = BuiltBlockID::Grass;
    let (mesh, meta) = ChunkMesher::build(&grid, &registry).unwrap();
    assert_eq!(
        mesh.faces,
        vec![
            MeshFace { cell: c, face: Face::Top, texture: 3 },
            MeshFace { cell: c, face: Face::Bottom, texture: 2 },
            MeshFace { cell: c, face: Face::Right, texture: 4 },
            MeshFace { cell: c, face: Face::Left, texture: 4 },
            MeshFace { cell: c, face: Face::Back, texture: 4 },
            MeshFace { cell: c, face: Face::Forward, texture: 4 },
        ]
    );
    for (i, _face) in faces().iter().enumerate() {
        assert_eq!(meta.slots[c * 6 + i], Some(i));
    }
    assert_eq!(meta.slots.iter().filter(|s| s.is_some()).count(), 6);
}

#[test]
fn two_touching_voxels_hide_their_shared_faces() {
    let registry = BlockRegistry::from_texture_table();
    let mut grid = vec![BuiltBlockID::Air; CHUNK_LEN];
    let a = cell(2, 2, 2);
    let b = cell(3, 2, 2);
    grid[a] = BuiltBlockID::Brick;
    grid[b] = BuiltBlockID::PlanksOak;
    let (mesh, _meta) = ChunkMesher::build(&grid, &registry).unwrap();
    assert_eq!(mesh.quad_count(), 10);
    assert!(!mesh.faces.iter().any(|q| q.cell == a && q.face == Face::Right));
    assert!(!mesh.faces.iter().any(|q| q.cell == b && q.face == Face::Left));
    assert!(mesh.faces.iter().any(|q| q.cell == a && q.face == Face::Left && q.texture == 1));
    assert!(mesh.faces.iter().any(|q| q.cell == b && q.face == Face::Right && q.texture == 5));
    assert!(is_face_visible(&grid, a, Face::Top));
    assert!(!is_face_visible(&grid, a, Face::Right));
    assert!(!is_face_visible(&grid, cell(4, 2, 2), Face::Left));
    assert!(!is_face_visible(&grid, CHUNK_LEN, Face::Left));
}

#[test]
fn corner_voxel_shows_all_six_faces() {
    let registry = BlockRegistry::from_texture_table();
    let mut grid = vec![BuiltBlockID::Air; CHUNK_LEN];
    grid[0] = BuiltBlockID::WoolColoredOrange;
    let (mesh, _meta) = ChunkMesher::build(&grid, &registry).unwrap();
    assert_eq!(mesh.quad_count(), 6);
    assert!(mesh.faces.iter().all(|q| q.cell == 0 && q.texture == 6));
}

#[test]
fn quads_come_in_grid_order() {
    let registry = BlockRegistry::from_texture_table();
    let grid: Vec<BuiltBlockID> =
        (0..CHUNK_LEN).map(|i| BuiltBlockID::from_repr_or_air((i * 7 + i / 8) % 6)).collect();
    let (mesh, meta) = ChunkMesher::build(&grid, &registry).unwrap();
    for pair in mesh.faces.windows(2) {
        assert!(pair[0].cell * 6 + pair[0].face.index() < pair[1].cell * 6 + pair[1].face.index());
    }
    for (k, quad) in mesh.faces.iter().enumerate() {
        assert!(is_face_visible(&grid, quad.cell, quad.face));
        assert_eq!(quad.texture, registry.geometry_for(grid[quad.cell]).texture(quad.face));
        assert_eq!(meta.slots[quad.cell * 6 + quad.face.index()], Some(k));
    }
    let mut expected = 0;
    for c in 0..CHUNK_LEN {
        for face in faces().iter() {
            if is_face_visible(&grid, c, *face) {
                expected += 1;
            }
        }
    }
    assert_eq!(mesh.quad_count(), expected);
}

#[test]
fn wrong_grid_length_is_an_error() {
    let registry = BlockRegistry::from_texture_table();
    let short = vec![BuiltBlockID::Dirt; CHUNK_LEN - 1];
    assert_eq!(
        ChunkMesher::build(&short, &registry).unwrap_err(),
        MeshError::GridLength { expected: 512, found: 511 }
    );
    let long = vec![BuiltBlockID::Air; CHUNK_LEN + 1];
    assert_eq!(
        ChunkMesher::build(&long, &registry).unwrap_err(),
        MeshError::GridLength { expected: 512, found: 513 }
    );
    assert_eq!(
        ChunkMesher::build(&[], &registry).unwrap_err(),
        MeshError::GridLength { expected: 512, found: 0 }
    );
}

#[test]
fn placing_one_interior_voxel_adds_six_faces() {
    let registry = BlockRegistry::from_texture_table();
    let mut grid = vec![BuiltBlockID::Air; CHUNK_LEN];
    let (mut mesh, mut meta) = ChunkMesher::build(&grid, &registry).unwrap();
    assert_eq!(mesh.quad_count(), 0);
    let c = cell(4, 4, 4);
    edit(&mut grid, &mut mesh, &mut meta, &registry, c, BuiltBlockID::Brick);
    assert_eq!(mesh.quad_count(), 6);
    assert!(mesh.faces.iter().all(|q| q.cell == c && q.texture == 1));
    assert_eq!(meta.voxels, grid);
}

#[test]
fn breaking_a_voxel_uncovers_its_neighbours() {
    let registry = BlockRegistry::from_texture_table();
    let mut grid = vec![BuiltBlockID::Dirt; CHUNK_LEN];
    let (mut mesh, mut meta) = ChunkMesher::build(&grid, &registry).unwrap();
    let c = cell(4, 4, 4);
    edit(&mut grid, &mut mesh, &mut meta, &registry, c, BuiltBlockID::Air);
    assert_eq!(mesh.quad_count(), 384 + 6);
    assert!(mesh.faces.iter().any(|q| q.cell == cell(5, 4, 4) && q.face == Face::Left));
    assert!(mesh.faces.iter().any(|q| q.cell == cell(4, 3, 4) && q.face == Face::Top));
    assert!(!mesh.faces.iter().any(|q| q.cell == c));
    let (rebuilt, _) = ChunkMesher::build(&grid, &registry).unwrap();
    assert_eq!(sorted(&mesh), sorted(&rebuilt));
}

#[test]
fn replacing_a_solid_voxel_changes_its_textures_only() {
    let registry = BlockRegistry::from_texture_table();
    let mut grid = vec![BuiltBlockID::Air; CHUNK_LEN];
    let c = cell(0, 7, 3);
    grid[c] = BuiltBlockID::Dirt;
    let (mut mesh, mut meta) = ChunkMesher::build(&grid, &registry).unwrap();
    edit(&mut grid, &mut mesh, &mut meta, &registry, c, BuiltBlockID::Grass);
    assert_eq!(mesh.quad_count(), 6);
    assert!(mesh.faces.iter().any(|q| q.face == Face::Top && q.texture == 3));
    assert!(mesh.faces.iter().any(|q| q.face == Face::Bottom && q.texture == 2));
    assert!(mesh.faces.iter().any(|q| q.face == Face::Left && q.texture == 4));
}

#[test]
fn patched_mesh_equals_rebuilt_mesh_after_many_edits() {
    let registry = BlockRegistry::from_texture_table();
    let mut grid = vec![BuiltBlockID::Air; CHUNK_LEN];
    let (mut mesh, mut meta) = ChunkMesher::build(&grid, &registry).unwrap();
    let mut state: usize = 12345;
    for round in 0..2000 {
        state = state.wrapping_mul(1103515245).wrapping_add(12345) % 2147483648;
        let index = (state / 7) % CHUNK_LEN;
        let new_id = BuiltBlockID::from_repr_or_air((state / 4099) % 6);
        edit(&mut grid, &mut mesh, &mut meta, &registry, index, new_id);
        if round % 100 == 0 {
            let (rebuilt, _) = ChunkMesher::build(&grid, &registry).unwrap();
            assert_eq!(sorted(&mesh), sorted(&rebuilt));
        }
    }
    let (rebuilt, rebuilt_meta) = ChunkMesher::build(&grid, &registry).unwrap();
    assert_eq!(sorted(&mesh), sorted(&rebuilt));
    assert_eq!(meta.voxels, rebuilt_meta.voxels);
    for (k, quad) in mesh.faces.iter().enumerate() {
        assert_eq!(meta.slots[quad.cell * 6 + quad.face.index()], Some(k));
    }
    assert_eq!(meta.slots.iter().filter(|s| s.is_some()).count(), mesh.quad_count());
}

#[test]
fn filling_the_last_air_cell_hides_all_inner_faces() {
    let registry = BlockRegistry::from_texture_table();
    let mut grid = vec![BuiltBlockID::Brick; CHUNK_LEN];
    let c = cell(1, 1, 1);
    grid[c] = BuiltBlockID::Air;
    let (mut mesh, mut meta) = ChunkMesher::build(&grid, &registry).unwrap();
    assert_eq!(mesh.quad_count(), 390);
    edit(&mut grid, &mut mesh, &mut meta, &registry, c, BuiltBlockID::Brick);
    assert_eq!(mesh.quad_count(), 384);
}

#[test]
fn quad_corners_of_the_first_cell() {
    let top = MeshFace { cell: 0, face: Face::Top, texture: 0 };
    assert_eq!(top.normal(), (0, 1, 0));
    assert_eq!(top.corners(), [(-1, 1, -1), (-1, 1, 1), (1, 1, 1), (1, 1, -1)]);
    let left = MeshFace { cell: 0, face: Face::Left, texture: 0 };
    assert_eq!(left.normal(), (-1, 0, 0));
    assert_eq!(left.corners(), [(-1, -1, -1), (-1, -1, 1), (-1, 1, 1), (-1, 1, -1)]);
}

#[test]
fn quad_corners_follow_the_cell() {
    let quad = MeshFace { cell: cell(3, 4, 5), face: Face::Back, texture: 0 };
    assert_eq!(quad.normal(), (0, 0, 1));
    assert_eq!(quad.corners(), [(5, 7, 11), (7, 7, 11), (7, 9, 11), (5, 9, 11)]);
}

#[test]
fn quads_wind_counter_clockwise_seen_from_outside() {
    for c in [0, cell(7, 7, 7), cell(2, 5, 3)] {
        let (cx, cy, cz) = ((c % 8) as i32 * 2, (c / 64) as i32 * 2, ((c / 8) % 8) as i32 * 2);
        for face in faces().iter() {
            let quad = MeshFace { cell: c, face: *face, texture: 0 };
            let p = quad.corners();
            let n = quad.normal();
            for triangle in [[0, 1, 2], [0, 2, 3]] {
                let a = p[triangle[0]];
                let b = p[triangle[1]];
                let d = p[triangle[2]];
                let u = (b.0 - a.0, b.1 - a.1, b.2 - a.2);
                let v = (d.0 - a.0, d.1 - a.1, d.2 - a.2);
                let cross =
                    (u.1 * v.2 - u.2 * v.1, u.2 * v.0 - u.0 * v.2, u.0 * v.1 - u.1 * v.0);
                assert_eq!(cross, (4 * n.0, 4 * n.1, 4 * n.2));
            }
            for corner in p.iter() {
                assert_eq!((corner.0 - cx).abs(), 1);
                assert_eq!((corner.1 - cy).abs(), 1);
                assert_eq!((corner.2 - cz).abs(), 1);
                assert_eq!(
                    (corner.0 - cx) * n.0 + (corner.1 - cy) * n.1 + (corner.2 - cz) * n.2,
                    1
                );
            }
        }
    }
}

#[test]
fn triangle_indices_of_a_quad() {
    assert_eq!(quad_indices(0), [0, 1, 2, 0, 2, 3]);
    assert_eq!(quad_indices(5), [20, 21, 22, 20, 22, 23]);
    assert_eq!(quad_indices(3071), [12284, 12285, 12286, 12284, 12286, 12287]);
}

#[test]
fn captured_neighbors_follow_the_face_order() {
    let mut grid = vec![BuiltBlockID::Air; CHUNK_LEN];
    let c = cell(3, 0, 7);
    grid[cell(3, 1, 7)] = BuiltBlockID::Brick;
    grid[cell(4, 0, 7)] = BuiltBlockID::Dirt;
    grid[cell(2, 0, 7)] = BuiltBlockID::Grass;
    grid[cell(3, 0, 6)] = BuiltBlockID::PlanksOak;
    assert_eq!(
        ChunkMesher::capture_neighbors(&grid, c),
        [
            Some(BuiltBlockID::Brick),
            None,
            Some(BuiltBlockID::Dirt),
            Some(BuiltBlockID::Grass),
            None,
            Some(BuiltBlockID::PlanksOak),
        ]
    );
    assert_eq!(ChunkMesher::capture_neighbors(&grid, c), captured(&grid, c));
    assert_eq!(ChunkMesher::capture_neighbors(&grid, CHUNK_LEN), [None; 6]);
}
