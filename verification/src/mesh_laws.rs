//! How many quads a culled mesh has, and what follows for uniform grids and
//! for a single voxel.

use vstd::prelude::*;
use vstd::arithmetic::div_mod::lemma_fundamental_div_mod_converse;
use crate::block::{BlockRegistry, BuiltBlockID};
use crate::coords::{index_x, index_y, index_z};
use crate::mesher::{
    face_visible, lemma_slot_round_trip, neighbor_of, slot_cell, slot_face, slot_of, slot_visible,
    ChunkMesh, Face,
};

verus! {

/// 1 when `face` of `cell` is drawn for `grid`, else 0.
pub open spec fn drawn(grid: Seq<BuiltBlockID>, cell: int, face: Face) -> nat {
    if face_visible(grid, cell, face) {
        1
    } else {
        0
    }
}

/// Number of drawn faces of cell `cell`.
pub open spec fn cell_face_count(grid: Seq<BuiltBlockID>, cell: int) -> nat {
    drawn(grid, cell, Face::Top) + drawn(grid, cell, Face::Bottom) + drawn(grid, cell, Face::Right)
        + drawn(grid, cell, Face::Left) + drawn(grid, cell, Face::Back) + drawn(
        grid,
        cell,
        Face::Forward,
    )
}

/// Number of drawn faces of the first `cells` cells of `grid`.
pub open spec fn face_count_below(grid: Seq<BuiltBlockID>, cells: nat) -> nat
    decreases cells,
{
    if cells == 0 {
        0
    } else {
        face_count_below(grid, (cells - 1) as nat) + cell_face_count(grid, cells - 1)
    }
}

/// Number of drawn faces of `grid`.
pub open spec fn face_count(grid: Seq<BuiltBlockID>) -> nat {
    face_count_below(grid, 512)
}

/// The drawn face slots below `n`.
spec fn drawn_slots(grid: Seq<BuiltBlockID>, n: int) -> Set<int> {
    Set::new(|s: int| 0 <= s < n && slot_visible(grid, s))
}

proof fn lemma_drawn_slots_step(grid: Seq<BuiltBlockID>, n: int)
    requires
        0 <= n,
        drawn_slots(grid, n).finite(),
    ensures
        drawn_slots(grid, n + 1).finite(),
        drawn_slots(grid, n + 1).len() == drawn_slots(grid, n).len() + drawn(
            grid,
            slot_cell(n),
            slot_face(n),
        ),
{
    broadcast use vstd::set::group_set_axioms;

    if slot_visible(grid, n) {
        assert(drawn_slots(grid, n + 1) =~= drawn_slots(grid, n).insert(n));
    } else {
        assert(drawn_slots(grid, n + 1) =~= drawn_slots(grid, n));
    }
}

proof fn lemma_drawn_slots_count(grid: Seq<BuiltBlockID>, cells: nat)
    ensures
        drawn_slots(grid, 6 * (cells as int)).finite(),
        drawn_slots(grid, 6 * (cells as int)).len() == face_count_below(grid, cells),
    decreases cells,
{
    broadcast use vstd::set::group_set_axioms;

    if cells == 0 {
        assert(drawn_slots(grid, 0) =~= Set::<int>::empty());
    } else {
        let c = cells - 1;
        lemma_drawn_slots_count(grid, c as nat);
        lemma_slot_round_trip(c, Face::Top, 0);
        lemma_slot_round_trip(c, Face::Bottom, 0);
        lemma_slot_round_trip(c, Face::Right, 0);
        lemma_slot_round_trip(c, Face::Left, 0);
        lemma_slot_round_trip(c, Face::Back, 0);
        lemma_slot_round_trip(c, Face::Forward, 0);
        lemma_drawn_slots_step(grid, 6 * c);
        lemma_drawn_slots_step(grid, 6 * c + 1);
        lemma_drawn_slots_step(grid, 6 * c + 2);
        lemma_drawn_slots_step(grid, 6 * c + 3);
        lemma_drawn_slots_step(grid, 6 * c + 4);
        lemma_drawn_slots_step(grid, 6 * c + 5);
    }
}

/// A culled mesh has as many quads as its grid has drawn faces, in whatever
/// order the quads stand.
pub proof fn lemma_quad_count(mesh: ChunkMesh, grid: Seq<BuiltBlockID>, registry: BlockRegistry)
    requires
        mesh.renders(grid, registry),
    ensures
        mesh@.len() == face_count(grid),
{
    broadcast use vstd::set::group_set_axioms;

    let slots = Seq::new(mesh@.len(), |k: int| mesh@[k].slot());
    assert(slots.no_duplicates());
    slots.unique_seq_to_set();
    lemma_drawn_slots_count(grid, 512);
    assert forall|s: int| slots.to_set().contains(s) <==> drawn_slots(grid, 3072).contains(s) by {
        if slots.to_set().contains(s) {
            let k = choose|k: int| 0 <= k < slots.len() && slots[k] == s;
            lemma_slot_round_trip(mesh@[k].cell as int, mesh@[k].face, s);
        }
        if drawn_slots(grid, 3072).contains(s) {
            lemma_slot_round_trip(0, Face::Top, s);
            assert(mesh.shows(slot_cell(s), slot_face(s)));
            let k = choose|k: int|
                0 <= k < mesh@.len() && (#[trigger] mesh@[k]).slot() == slot_of(
                    slot_cell(s),
                    slot_face(s),
                );
            assert(slots[k] == s);
        }
    }
    assert(slots.to_set() =~= drawn_slots(grid, 3072));
}

/// The culled mesh of a grid of nothing but air has no quad.
pub proof fn lemma_air_grid_has_no_faces(
    mesh: ChunkMesh,
    grid: Seq<BuiltBlockID>,
    registry: BlockRegistry,
)
    requires
        grid.len() == 512,
        forall|i: int| 0 <= i < 512 ==> grid[i] == BuiltBlockID::Air,
        mesh.renders(grid, registry),
    ensures
        mesh@.len() == 0,
        face_count(grid) == 0,
        forall|cell: int, face: Face| !face_visible(grid, cell, face),
{
    lemma_air_below(grid, 512);
    lemma_quad_count(mesh, grid, registry);
}

proof fn lemma_air_below(grid: Seq<BuiltBlockID>, cells: nat)
    requires
        grid.len() == 512,
        cells <= 512,
        forall|i: int| 0 <= i < 512 ==> grid[i] == BuiltBlockID::Air,
    ensures
        face_count_below(grid, cells) == 0,
    decreases cells,
{
    if cells > 0 {
        lemma_air_below(grid, (cells - 1) as nat);
    }
}

/// Whether `face` of `cell` lies on the chunk boundary.
pub open spec fn on_boundary(cell: int, face: Face) -> bool {
    0 <= cell < 512 && neighbor_of(cell, face).is_none()
}

/// 1 when `t` is the first or the last offset along an axis, else 0.
spec fn at_edge(t: int) -> int {
    if t == 0 || t == 7 {
        1
    } else {
        0
    }
}

/// Cells below `n` whose x is at an edge.
spec fn edge_x_below(n: int) -> int {
    2 * (n / 8) + if n % 8 >= 1 {
        1int
    } else {
        0int
    }
}

/// Cells below `n` whose z is at an edge.
spec fn edge_z_below(n: int) -> int {
    16 * (n / 64) + (if n % 64 < 8 {
        n % 64
    } else {
        8
    }) + (if n % 64 > 56 {
        n % 64 - 56
    } else {
        0
    })
}

/// Cells below `n` whose y is at an edge.
spec fn edge_y_below(n: int) -> int {
    (if n < 64 {
        n
    } else {
        64
    }) + (if n > 448 {
        n - 448
    } else {
        0
    })
}

proof fn lemma_edge_x_step(c: int)
    requires
        0 <= c < 512,
    ensures
        edge_x_below(c + 1) == edge_x_below(c) + at_edge(index_x(c)),
{
}

proof fn lemma_edge_z_step(c: int)
    requires
        0 <= c < 512,
    ensures
        edge_z_below(c + 1) == edge_z_below(c) + at_edge(index_z(c)),
{
    let q = c / 64;
    let r = c % 64;
    lemma_fundamental_div_mod_converse(c, 8, 8 * q + r / 8, r % 8);
    lemma_fundamental_div_mod_converse(c / 8, 8, q, r / 8);
    if r == 63 {
        lemma_fundamental_div_mod_converse(c + 1, 64, q + 1, 0);
    } else {
        lemma_fundamental_div_mod_converse(c + 1, 64, q, r + 1);
    }
}

proof fn lemma_edge_y_step(c: int)
    requires
        0 <= c < 512,
    ensures
        edge_y_below(c + 1) == edge_y_below(c) + at_edge(index_y(c)),
{
}

proof fn lemma_solid_below(grid: Seq<BuiltBlockID>, cells: nat)
    requires
        grid.len() == 512,
        cells <= 512,
        forall|i: int| 0 <= i < 512 ==> (#[trigger] grid[i]).solid(),
    ensures
        face_count_below(grid, cells) == edge_x_below(cells as int) + edge_y_below(cells as int)
            + edge_z_below(cells as int),
    decreases cells,
{
    if cells > 0 {
        let c = cells - 1;
        lemma_solid_below(grid, c as nat);
        lemma_solid_cell(grid, c);
        lemma_edge_x_step(c);
        lemma_edge_y_step(c);
        lemma_edge_z_step(c);
        assert(drawn(grid, c, Face::Right) + drawn(grid, c, Face::Left) == at_edge(index_x(c)));
        assert(drawn(grid, c, Face::Top) + drawn(grid, c, Face::Bottom) == at_edge(index_y(c)));
        assert(drawn(grid, c, Face::Back) + drawn(grid, c, Face::Forward) == at_edge(index_z(c)));
    }
}

proof fn lemma_solid_cell(grid: Seq<BuiltBlockID>, c: int)
    requires
        grid.len() == 512,
        0 <= c < 512,
        forall|i: int| 0 <= i < 512 ==> (#[trigger] grid[i]).solid(),
    ensures
        forall|face: Face| face_visible(grid, c, face) <==> on_boundary(c, face),
        on_boundary(c, Face::Top) <==> index_y(c) == 7,
        on_boundary(c, Face::Bottom) <==> index_y(c) == 0,
        on_boundary(c, Face::Right) <==> index_x(c) == 7,
        on_boundary(c, Face::Left) <==> index_x(c) == 0,
        on_boundary(c, Face::Back) <==> index_z(c) == 7,
        on_boundary(c, Face::Forward) <==> index_z(c) == 0,
{
    assert forall|face: Face| face_visible(grid, c, face) <==> on_boundary(c, face) by {
        if neighbor_of(c, face).is_some() {
            crate::mesher::lemma_neighbor_mutual(c, face);
        }
    }
}

/// The culled mesh of a grid of nothing but solid voxels has quads on the
/// six sides of the chunk and nowhere else: exactly the faces on the chunk
/// boundary are drawn, 6 × `SIZE`² of them.
pub proof fn lemma_solid_grid_shows_boundary(
    mesh: ChunkMesh,
    grid: Seq<BuiltBlockID>,
    registry: BlockRegistry,
)
    requires
        grid.len() == 512,
        forall|i: int| 0 <= i < 512 ==> (#[trigger] grid[i]).solid(),
        mesh.renders(grid, registry),
    ensures
        mesh@.len() == 6 * 8 * 8,
        face_count(grid) == 6 * 8 * 8,
        forall|cell: int, face: Face| face_visible(grid, cell, face) <==> on_boundary(cell, face),
        forall|k: int|
            0 <= k < mesh@.len() ==> on_boundary((#[trigger] mesh@[k]).cell as int, mesh@[k].face),
{
    lemma_solid_below(grid, 512);
    lemma_quad_count(mesh, grid, registry);
    assert forall|cell: int, face: Face| face_visible(grid, cell, face) <==> on_boundary(
        cell,
        face,
    ) by {
        if 0 <= cell < 512 {
            lemma_solid_cell(grid, cell);
        }
    }
}

/// Whether all six faces of `cell` border a cell of the same chunk.
pub open spec fn is_interior(cell: int) -> bool {
    &&& 0 <= cell < 512
    &&& 1 <= index_x(cell) <= 6
    &&& 1 <= index_y(cell) <= 6
    &&& 1 <= index_z(cell) <= 6
}

proof fn lemma_single_below(grid: Seq<BuiltBlockID>, cell: int, cells: nat)
    requires
        grid.len() == 512,
        cells <= 512,
        is_interior(cell),
        grid[cell].solid(),
        forall|i: int| 0 <= i < 512 && i != cell ==> grid[i] == BuiltBlockID::Air,
    ensures
        face_count_below(grid, cells) == if cells > cell {
            6nat
        } else {
            0nat
        },
    decreases cells,
{
    if cells > 0 {
        let c = cells - 1;
        lemma_single_below(grid, cell, c as nat);
        if c == cell {
            lemma_single_cell(grid, cell);
        }
    }
}

proof fn lemma_single_cell(grid: Seq<BuiltBlockID>, cell: int)
    requires
        grid.len() == 512,
        is_interior(cell),
        grid[cell].solid(),
        forall|i: int| 0 <= i < 512 && i != cell ==> grid[i] == BuiltBlockID::Air,
    ensures
        forall|face: Face| face_visible(grid, cell, face),
{
    assert forall|face: Face| face_visible(grid, cell, face) by {
        assert(neighbor_of(cell, face).is_some());
        crate::mesher::lemma_neighbor_mutual(cell, face);
    }
}

/// Setting one voxel in the interior of a chunk of air to a solid kind adds
/// exactly six quads to the culled mesh, all of them faces of that voxel.
pub proof fn lemma_single_voxel_adds_six_faces(
    before: ChunkMesh,
    after: ChunkMesh,
    grid: Seq<BuiltBlockID>,
    cell: int,
    id: BuiltBlockID,
    registry: BlockRegistry,
)
    requires
        grid.len() == 512,
        forall|i: int| 0 <= i < 512 ==> grid[i] == BuiltBlockID::Air,
        is_interior(cell),
        id.solid(),
        before.renders(grid, registry),
        after.renders(grid.update(cell, id), registry),
    ensures
        after@.len() == before@.len() + 6,
        face_count(grid.update(cell, id)) == 6,
        forall|c: int, face: Face| face_visible(grid.update(cell, id), c, face) <==> c == cell,
        forall|k: int| 0 <= k < after@.len() ==> (#[trigger] after@[k]).cell == cell,
{
    let edited = grid.update(cell, id);
    lemma_air_grid_has_no_faces(before, grid, registry);
    lemma_single_below(edited, cell, 512);
    lemma_single_cell(edited, cell);
    lemma_quad_count(after, edited, registry);
}

} // verus!
