//! Face-culling chunk meshes.
//!
//! A chunk's mesh holds one quad for every face of a solid voxel that
//! borders the chunk boundary or a voxel that is not solid. The mesh can be
//! built from a whole grid, or patched after one voxel changed.

use vstd::prelude::*;
use crate::block::{BlockRegistry, BuiltBlockID};
use crate::coords::{grid_index, index_x, index_y, index_z, is_local, CHUNK_LEN, SIZE};

verus! {

/// Number of voxel faces in one chunk: six per cell.
pub const FACE_SLOTS: usize = 3072;

/// One of the six sides of a voxel cube.
#[derive(Debug, Clone, Copy, PartialEq, Eq, Hash, Structural)]
pub enum Face {
    /// Towards +y.
    Top,
    /// Towards -y.
    Bottom,
    /// Towards +x.
    Right,
    /// Towards -x.
    Left,
    /// Towards +z.
    Back,
    /// Towards -z.
    Forward,
}

impl Face {
    /// Position of this face in the declaration order.
    pub open spec fn ordinal(self) -> int {
        match self {
            Face::Top => 0,
            Face::Bottom => 1,
            Face::Right => 2,
            Face::Left => 3,
            Face::Back => 4,
            Face::Forward => 5,
        }
    }

    /// The face at position `n` of the declaration order (`Forward` past the end).
    pub open spec fn from_ordinal(n: int) -> Face {
        if n == 0 {
            Face::Top
        } else if n == 1 {
            Face::Bottom
        } else if n == 2 {
            Face::Right
        } else if n == 3 {
            Face::Left
        } else if n == 4 {
            Face::Back
        } else {
            Face::Forward
        }
    }

    /// The step `(dx, dy, dz)` from a cell to the cell this face borders.
    pub open spec fn offset(self) -> (int, int, int) {
        match self {
            Face::Top => (0, 1, 0),
            Face::Bottom => (0, -1, 0),
            Face::Right => (1, 0, 0),
            Face::Left => (-1, 0, 0),
            Face::Back => (0, 0, 1),
            Face::Forward => (0, 0, -1),
        }
    }

    /// The face on the other side of the cube, as a specification.
    pub open spec fn opposite_of(self) -> Face {
        match self {
            Face::Top => Face::Bottom,
            Face::Bottom => Face::Top,
            Face::Right => Face::Left,
            Face::Left => Face::Right,
            Face::Back => Face::Forward,
            Face::Forward => Face::Back,
        }
    }

    /// The face on the other side of the cube.
    pub fn opposite(self) -> (o: Face)
        ensures
            o == self.opposite_of(),
            o.opposite_of() == self,
    {
        match self {
            Face::Top => Face::Bottom,
            Face::Bottom => Face::Top,
            Face::Right => Face::Left,
            Face::Left => Face::Right,
            Face::Back => Face::Forward,
            Face::Forward => Face::Back,
        }
    }

    /// Position of this face in the declaration order.
    pub fn index(self) -> (n: usize)
        ensures
            n == self.ordinal(),
            n < 6,
    {
        match self {
            Face::Top => 0,
            Face::Bottom => 1,
            Face::Right => 2,
            Face::Left => 3,
            Face::Back => 4,
            Face::Forward => 5,
        }
    }

    /// The face at position `n` of the declaration order.
    pub fn from_index(n: usize) -> (f: Face)
        requires
            n < 6,
        ensures
            f == Face::from_ordinal(n as int),
            f.ordinal() == n,
    {
        if n == 0 {
            Face::Top
        } else if n == 1 {
            Face::Bottom
        } else if n == 2 {
            Face::Right
        } else if n == 3 {
            Face::Left
        } else if n == 4 {
            Face::Back
        } else {
            Face::Forward
        }
    }
}

/// The grid index of the cell that `face` of cell `i` borders, or `None`
/// when `i` is no cell of the grid or the face lies on the chunk boundary.
pub open spec fn neighbor_of(i: int, face: Face) -> Option<int> {
    let x = index_x(i) + face.offset().0;
    let y = index_y(i) + face.offset().1;
    let z = index_z(i) + face.offset().2;
    if 0 <= i < 512 && is_local(x) && is_local(y) && is_local(z) {
        Some(grid_index(x, y, z))
    } else {
        None
    }
}

/// The grid index of the cell that `face` of cell `index` borders, or `None`
/// when `index` is no cell of the grid or the face lies on the chunk boundary.
pub fn get_neighbor(index: usize, face: Face) -> (n: Option<usize>)
    ensures
        match n {
            Some(j) => neighbor_of(index as int, face) == Some(j as int) && j < CHUNK_LEN,
            None => neighbor_of(index as int, face).is_none(),
        },
{
    if index >= CHUNK_LEN {
        return None;
    }
    let x = index % SIZE;
    let y = index / (SIZE * SIZE);
    let z = (index / SIZE) % SIZE;
    match face {
        Face::Top => if y + 1 < SIZE {
            Some(x + z * SIZE + (y + 1) * SIZE * SIZE)
        } else {
            None
        },
        Face::Bottom => if y > 0 {
            Some(x + z * SIZE + (y - 1) * SIZE * SIZE)
        } else {
            None
        },
        Face::Right => if x + 1 < SIZE {
            Some(x + 1 + z * SIZE + y * SIZE * SIZE)
        } else {
            None
        },
        Face::Left => if x > 0 {
            Some(x - 1 + z * SIZE + y * SIZE * SIZE)
        } else {
            None
        },
        Face::Back => if z + 1 < SIZE {
            Some(x + (z + 1) * SIZE + y * SIZE * SIZE)
        } else {
            None
        },
        Face::Forward => if z > 0 {
            Some(x + (z - 1) * SIZE + y * SIZE * SIZE)
        } else {
            None
        },
    }
}

/// Bordering is mutual: if `face` of cell `i` borders cell `j`, the opposite
/// face of `j` borders `i`, `j` differs from `i`, and no other face of `i`
/// borders `j`.
pub proof fn lemma_neighbor_mutual(i: int, face: Face)
    requires
        neighbor_of(i, face).is_some(),
    ensures
        0 <= i < 512,
        0 <= neighbor_of(i, face).unwrap() < 512,
        neighbor_of(i, face).unwrap() != i,
        neighbor_of(neighbor_of(i, face).unwrap(), face.opposite_of()) == Some(i),
        forall|other: Face| neighbor_of(i, other) == neighbor_of(i, face) ==> other == face,
{
    let j = neighbor_of(i, face).unwrap();
    crate::coords::lemma_grid_index_encode(i);
    let x = index_x(i) + face.offset().0;
    let y = index_y(i) + face.offset().1;
    let z = index_z(i) + face.offset().2;
    crate::coords::lemma_grid_index_decode(x, y, z);
    assert forall|other: Face| neighbor_of(i, other) == neighbor_of(i, face) implies other
        == face by {
        let ox = index_x(i) + other.offset().0;
        let oy = index_y(i) + other.offset().1;
        let oz = index_z(i) + other.offset().2;
        crate::coords::lemma_grid_index_decode(ox, oy, oz);
    }
}

/// Whether `face` of cell `cell` is drawn for `grid`: the cell is solid, and
/// the face borders the chunk boundary or a cell that is not solid.
pub open spec fn face_visible(grid: Seq<BuiltBlockID>, cell: int, face: Face) -> bool {
    &&& 0 <= cell < 512
    &&& grid[cell].solid()
    &&& match neighbor_of(cell, face) {
        Some(j) => !grid[j].solid(),
        None => true,
    }
}

/// Whether `face` of cell `cell` is drawn for `grid`.
pub fn is_face_visible(grid: &[BuiltBlockID], cell: usize, face: Face) -> (v: bool)
    requires
        grid@.len() == CHUNK_LEN,
    ensures
        v == face_visible(grid@, cell as int, face),
{
    if cell >= CHUNK_LEN || !grid[cell].is_solid() {
        return false;
    }
    match get_neighbor(cell, face) {
        Some(j) => !grid[j].is_solid(),
        None => true,
    }
}

/// The number of face `face` of cell `cell` among the chunk's face slots.
pub open spec fn slot_of(cell: int, face: Face) -> int {
    cell * 6 + face.ordinal()
}

/// The cell that owns face slot `s`.
pub open spec fn slot_cell(s: int) -> int {
    s / 6
}

/// The side of its cell that face slot `s` stands for.
pub open spec fn slot_face(s: int) -> Face {
    Face::from_ordinal(s % 6)
}

/// Whether the face in slot `s` is drawn for `grid`.
pub open spec fn slot_visible(grid: Seq<BuiltBlockID>, s: int) -> bool {
    face_visible(grid, slot_cell(s), slot_face(s))
}

/// Slots and (cell, face) pairs name each other.
pub proof fn lemma_slot_round_trip(cell: int, face: Face, s: int)
    ensures
        slot_cell(slot_of(cell, face)) == cell,
        slot_face(slot_of(cell, face)) == face,
        0 <= cell < 512 ==> 0 <= slot_of(cell, face) < 3072,
        0 <= s ==> slot_of(slot_cell(s), slot_face(s)) == s,
        0 <= s < 3072 ==> 0 <= slot_cell(s) < 512,
{
}

/// One quad of a chunk mesh: a drawn face of a voxel.
#[derive(Debug, Clone, Copy, PartialEq, Eq, Hash, Structural)]
pub struct MeshFace {
    /// Grid index of the voxel.
    pub cell: usize,
    /// Which side of the voxel the quad covers.
    pub face: Face,
    /// Texture table index drawn on the quad.
    pub texture: u32,
}

impl MeshFace {
    /// The face slot this quad fills.
    pub open spec fn slot(self) -> int {
        slot_of(self.cell as int, self.face)
    }
}

/// The two edge directions of a face, `(u, v)`, chosen so that `u × v` is
/// the outward normal of the face.
pub open spec fn tangents(face: Face) -> ((int, int, int), (int, int, int)) {
    match face {
        Face::Top => ((0, 0, 1), (1, 0, 0)),
        Face::Bottom => ((1, 0, 0), (0, 0, 1)),
        Face::Right => ((0, 1, 0), (0, 0, 1)),
        Face::Left => ((0, 0, 1), (0, 1, 0)),
        Face::Back => ((1, 0, 0), (0, 1, 0)),
        Face::Forward => ((0, 1, 0), (1, 0, 0)),
    }
}

/// The signs with which corner `k` of a quad takes the two edge directions:
/// the corners go round the quad from `(-u, -v)` over `(+u, -v)` and
/// `(+u, +v)` to `(-u, +v)`.
pub open spec fn corner_signs(k: int) -> (int, int) {
    if k == 0 {
        (-1, -1)
    } else if k == 1 {
        (1, -1)
    } else if k == 2 {
        (1, 1)
    } else {
        (-1, 1)
    }
}

/// Corner `k` of the quad on `face` of the cell with grid index `cell`, in
/// half voxels: the cell with offsets `(x, y, z)` is the cube centred at
/// `(2x, 2y, 2z)` that reaches one half voxel to each side.
pub open spec fn quad_corner(cell: int, face: Face, k: int) -> (int, int, int) {
    let n = face.offset();
    let u = towards(corner_signs(k).0, tangents(face).0);
    let v = towards(corner_signs(k).1, tangents(face).1);
    (
        2 * index_x(cell) + n.0 + u.0 + v.0,
        2 * index_y(cell) + n.1 + u.1 + v.1,
        2 * index_z(cell) + n.2 + u.2 + v.2,
    )
}

/// The direction `d`, or its opposite when `sign` is negative.
pub open spec fn towards(sign: int, d: (int, int, int)) -> (int, int, int) {
    if sign >= 0 {
        d
    } else {
        (-d.0, -d.1, -d.2)
    }
}

/// The cross product of two vectors with whole components.
pub open spec fn cross(a: (int, int, int), b: (int, int, int)) -> (int, int, int) {
    (a.1 * b.2 - a.2 * b.1, a.2 * b.0 - a.0 * b.2, a.0 * b.1 - a.1 * b.0)
}

/// The difference `a - b` of two points with whole components.
pub open spec fn minus(a: (int, int, int), b: (int, int, int)) -> (int, int, int) {
    (a.0 - b.0, a.1 - b.1, a.2 - b.2)
}

/// A quad is the side of its cell's cube that looks along the face normal:
/// every corner lies one half voxel from the cell centre on each axis, on the
/// side the normal points to, and the corners run counter-clockwise seen
/// from outside, so both triangles of the quad face outwards.
pub proof fn lemma_quad_geometry(cell: int, face: Face, k: int)
    requires
        0 <= cell < 512,
        0 <= k < 4,
    ensures
        ({
            let centre = (2 * index_x(cell), 2 * index_y(cell), 2 * index_z(cell));
            let d = minus(quad_corner(cell, face, k), centre);
            let n = face.offset();
            &&& d.0 == 1 || d.0 == -1
            &&& d.1 == 1 || d.1 == -1
            &&& d.2 == 1 || d.2 == -1
            &&& d.0 * n.0 + d.1 * n.1 + d.2 * n.2 == 1
        }),
        cross(
            minus(quad_corner(cell, face, 1), quad_corner(cell, face, 0)),
            minus(quad_corner(cell, face, 2), quad_corner(cell, face, 0)),
        ) == (4 * face.offset().0, 4 * face.offset().1, 4 * face.offset().2),
        cross(
            minus(quad_corner(cell, face, 2), quad_corner(cell, face, 0)),
            minus(quad_corner(cell, face, 3), quad_corner(cell, face, 0)),
        ) == (4 * face.offset().0, 4 * face.offset().1, 4 * face.offset().2),
        forall|j: int| 0 <= j < 4 && j != k ==> quad_corner(cell, face, j) != quad_corner(cell, face, k),
{
    let a = minus(quad_corner(cell, face, 1), quad_corner(cell, face, 0));
    let b = minus(quad_corner(cell, face, 2), quad_corner(cell, face, 0));
    let c = minus(quad_corner(cell, face, 3), quad_corner(cell, face, 0));
    match face {
        Face::Top => {
            assert(a == (0int, 0int, 2int) && b == (2int, 0int, 2int) && c == (2int, 0int, 0int));
            assert(cross((0int, 0int, 2int), (2int, 0int, 2int)) == (0int, 4int, 0int)) by (nonlinear_arith);
            assert(cross((2int, 0int, 2int), (2int, 0int, 0int)) == (0int, 4int, 0int)) by (nonlinear_arith);
        },
        Face::Bottom => {
            assert(a == (2int, 0int, 0int) && b == (2int, 0int, 2int) && c == (0int, 0int, 2int));
            assert(cross((2int, 0int, 0int), (2int, 0int, 2int)) == (0int, -4int, 0int)) by (nonlinear_arith);
            assert(cross((2int, 0int, 2int), (0int, 0int, 2int)) == (0int, -4int, 0int)) by (nonlinear_arith);
        },
        Face::Right => {
            assert(a == (0int, 2int, 0int) && b == (0int, 2int, 2int) && c == (0int, 0int, 2int));
            assert(cross((0int, 2int, 0int), (0int, 2int, 2int)) == (4int, 0int, 0int)) by (nonlinear_arith);
            assert(cross((0int, 2int, 2int), (0int, 0int, 2int)) == (4int, 0int, 0int)) by (nonlinear_arith);
        },
        Face::Left => {
            assert(a == (0int, 0int, 2int) && b == (0int, 2int, 2int) && c == (0int, 2int, 0int));
            assert(cross((0int, 0int, 2int), (0int, 2int, 2int)) == (-4int, 0int, 0int)) by (nonlinear_arith);
            assert(cross((0int, 2int, 2int), (0int, 2int, 0int)) == (-4int, 0int, 0int)) by (nonlinear_arith);
        },
        Face::Back => {
            assert(a == (2int, 0int, 0int) && b == (2int, 2int, 0int) && c == (0int, 2int, 0int));
            assert(cross((2int, 0int, 0int), (2int, 2int, 0int)) == (0int, 0int, 4int)) by (nonlinear_arith);
            assert(cross((2int, 2int, 0int), (0int, 2int, 0int)) == (0int, 0int, 4int)) by (nonlinear_arith);
        },
        Face::Forward => {
            assert(a == (0int, 2int, 0int) && b == (2int, 2int, 0int) && c == (2int, 0int, 0int));
            assert(cross((0int, 2int, 0int), (2int, 2int, 0int)) == (0int, 0int, -4int)) by (nonlinear_arith);
            assert(cross((2int, 2int, 0int), (2int, 0int, 0int)) == (0int, 0int, -4int)) by (nonlinear_arith);
        },
    }
}

impl MeshFace {
    /// The outward normal of the quad.
    pub fn normal(&self) -> (n: (i32, i32, i32))
        ensures
            (n.0 as int, n.1 as int, n.2 as int) == self.face.offset(),
    {
        match self.face {
            Face::Top => (0, 1, 0),
            Face::Bottom => (0, -1, 0),
            Face::Right => (1, 0, 0),
            Face::Left => (-1, 0, 0),
            Face::Back => (0, 0, 1),
            Face::Forward => (0, 0, -1),
        }
    }

    /// The four corners of the quad in half voxels, counter-clockwise seen
    /// from outside the cube.
    pub fn corners(&self) -> (c: [(i32, i32, i32); 4])
        requires
            self.cell < CHUNK_LEN,
        ensures
            forall|k: int|
                0 <= k < 4 ==> (c@[k].0 as int, c@[k].1 as int, c@[k].2 as int) == quad_corner(
                    self.cell as int,
                    self.face,
                    k,
                ),
    {
        let x = 2 * ((self.cell % SIZE) as i32);
        let y = 2 * ((self.cell / (SIZE * SIZE)) as i32);
        let z = 2 * (((self.cell / SIZE) % SIZE) as i32);
        match self.face {
            Face::Top => [
                (x - 1, y + 1, z - 1),
                (x - 1, y + 1, z + 1),
                (x + 1, y + 1, z + 1),
                (x + 1, y + 1, z - 1),
            ],
            Face::Bottom => [
                (x - 1, y - 1, z - 1),
                (x + 1, y - 1, z - 1),
                (x + 1, y - 1, z + 1),
                (x - 1, y - 1, z + 1),
            ],
            Face::Right => [
                (x + 1, y - 1, z - 1),
                (x + 1, y + 1, z - 1),
                (x + 1, y + 1, z + 1),
                (x + 1, y - 1, z + 1),
            ],
            Face::Left => [
                (x - 1, y - 1, z - 1),
                (x - 1, y - 1, z + 1),
                (x - 1, y + 1, z + 1),
                (x - 1, y + 1, z - 1),
            ],
            Face::Back => [
                (x - 1, y - 1, z + 1),
                (x + 1, y - 1, z + 1),
                (x + 1, y + 1, z + 1),
                (x - 1, y + 1, z + 1),
            ],
            Face::Forward => [
                (x - 1, y - 1, z - 1),
                (x - 1, y + 1, z - 1),
                (x + 1, y + 1, z - 1),
                (x + 1, y - 1, z - 1),
            ],
        }
    }
}

/// The vertex numbers of the two triangles of quad number `quad`, when every
/// quad puts its four corners in a row: corners 0, 1, 2 and corners 0, 2, 3.
pub fn quad_indices(quad: u32) -> (t: [u32; 6])
    requires
        quad * 4 + 3 <= u32::MAX,
    ensures
        t@ == seq![
            (quad * 4) as u32,
            (quad * 4 + 1) as u32,
            (quad * 4 + 2) as u32,
            (quad * 4) as u32,
            (quad * 4 + 2) as u32,
            (quad * 4 + 3) as u32,
        ],
{
    let base = quad * 4;
    [base, base + 1, base + 2, base, base + 2, base + 3]
}

/// The quads of one chunk.
#[derive(Debug, Clone, PartialEq, Eq)]
pub struct ChunkMesh {
    pub faces: Vec<MeshFace>,
}

impl View for ChunkMesh {
    type V = Seq<MeshFace>;

    open spec fn view(&self) -> Seq<MeshFace> {
        self.faces@
    }
}

impl ChunkMesh {
    /// Whether the mesh holds a quad for `face` of cell `cell`.
    pub open spec fn shows(&self, cell: int, face: Face) -> bool {
        exists|k: int| 0 <= k < self@.len() && (#[trigger] self@[k]).slot() == slot_of(cell, face)
    }

    /// No face has two quads.
    pub open spec fn distinct(&self) -> bool {
        forall|a: int, b: int|
            0 <= a < b < self@.len() ==> (#[trigger] self@[a]).slot() != (#[trigger] self@[b]).slot()
    }

    /// The quads come cell by cell in grid order, and within a cell in the
    /// order of the faces.
    pub open spec fn ascending(&self) -> bool {
        forall|a: int, b: int|
            0 <= a < b < self@.len() ==> (#[trigger] self@[a]).slot() < (#[trigger] self@[b]).slot()
    }

    /// Whether this is the culled mesh of `grid`: every quad is a drawn face
    /// of `grid` with the texture `registry` gives it, every drawn face of
    /// `grid` has a quad, and none has two.
    pub open spec fn renders(&self, grid: Seq<BuiltBlockID>, registry: BlockRegistry) -> bool {
        &&& forall|k: int|
            0 <= k < self@.len() ==> {
                &&& face_visible(grid, (#[trigger] self@[k]).cell as int, self@[k].face)
                &&& self@[k].texture == registry.texture_of(
                    grid[self@[k].cell as int],
                    self@[k].face,
                )
            }
        &&& forall|cell: int, face: Face|
            face_visible(grid, cell, face) ==> #[trigger] self.shows(cell, face)
        &&& self.distinct()
    }

    /// Number of quads.
    pub fn quad_count(&self) -> (n: usize)
        ensures
            n == self@.len(),
    {
        self.faces.len()
    }
}

/// Why a mesh could not be built.
#[derive(Debug, Clone, Copy, PartialEq, Eq, Structural)]
pub enum MeshError {
    /// The grid does not hold exactly one voxel per cell of a chunk.
    GridLength { expected: usize, found: usize },
}

/// Bookkeeping that lets a mesh be patched after a single voxel changed: the
/// voxels the mesh was last brought up to date with, and for every face slot
/// the place of its quad in the mesh, if it is drawn.
#[derive(Debug, Clone, PartialEq, Eq)]
pub struct MeshMetadata {
    pub voxels: Vec<BuiltBlockID>,
    pub slots: Vec<Option<usize>>,
}

/// The place in the mesh that a slot table entry records, or -1 for none.
pub open spec fn place_of(entry: Option<usize>) -> int {
    match entry {
        Some(k) => k as int,
        None => -1,
    }
}

impl MeshMetadata {
    /// Whether the slot table and `mesh` point at each other: every quad is
    /// recorded under its own slot, and every recorded place holds the quad
    /// of that slot.
    pub open spec fn indexes(&self, mesh: Seq<MeshFace>) -> bool {
        &&& self.voxels@.len() == 512
        &&& self.slots@.len() == 3072
        &&& forall|k: int|
            0 <= k < mesh.len() ==> {
                &&& (#[trigger] mesh[k]).cell < 512
                &&& place_of(self.slots@[mesh[k].slot()]) == k
            }
        &&& forall|s: int|
            0 <= s < 3072 ==> match #[trigger] self.slots@[s] {
                Some(k) => k < mesh.len() && mesh[k as int].slot() == s,
                None => true,
            }
    }

    /// Whether this is the bookkeeping of `mesh` as the culled mesh of the
    /// recorded voxels: the tables point at each other, and each slot holds
    /// the quad that culling the recorded voxels gives it.
    pub open spec fn tracks(&self, mesh: Seq<MeshFace>, registry: BlockRegistry) -> bool {
        &&& self.indexes(mesh)
        &&& forall|s: int|
            0 <= s < 3072 ==> #[trigger] slot_quad(self.slots@, mesh, s) == culled_quad(
                self.voxels@,
                registry,
                s,
            )
    }
}

/// The quad that `mesh` holds for face slot `s`, going by the slot table.
pub open spec fn slot_quad(slots: Seq<Option<usize>>, mesh: Seq<MeshFace>, s: int) -> Option<
    MeshFace,
> {
    match slots[s] {
        Some(k) => Some(mesh[k as int]),
        None => None,
    }
}

/// The quad that culling `grid` gives face slot `s`: none when the face is
/// not drawn, else the face with the texture `registry` has for it.
pub open spec fn culled_quad(grid: Seq<BuiltBlockID>, registry: BlockRegistry, s: int) -> Option<
    MeshFace,
> {
    if slot_visible(grid, s) {
        Some(
            MeshFace {
                cell: slot_cell(s) as usize,
                face: slot_face(s),
                texture: registry.texture_of(grid[slot_cell(s)], slot_face(s)),
            },
        )
    } else {
        None
    }
}

/// A mesh with its bookkeeping is the culled mesh of the recorded voxels.
pub proof fn lemma_tracked_mesh_renders(
    meta: MeshMetadata,
    mesh: ChunkMesh,
    registry: BlockRegistry,
)
    requires
        meta.tracks(mesh@, registry),
    ensures
        mesh.renders(meta.voxels@, registry),
{
    let grid = meta.voxels@;
    assert forall|k: int| 0 <= k < mesh@.len() implies {
        &&& face_visible(grid, (#[trigger] mesh@[k]).cell as int, mesh@[k].face)
        &&& mesh@[k].texture == registry.texture_of(grid[mesh@[k].cell as int], mesh@[k].face)
    } by {
        let s = mesh@[k].slot();
        lemma_slot_round_trip(mesh@[k].cell as int, mesh@[k].face, s);
        assert(place_of(meta.slots@[s]) == k);
        assert(slot_quad(meta.slots@, mesh@, s) == Some(mesh@[k]));
    }
    assert forall|cell: int, face: Face| face_visible(grid, cell, face) implies #[trigger] mesh.shows(
        cell,
        face,
    ) by {
        let s = slot_of(cell, face);
        lemma_slot_round_trip(cell, face, s);
        assert(slot_quad(meta.slots@, mesh@, s).is_some());
        let k = meta.slots@[s].unwrap() as int;
        assert(mesh@[k].slot() == s);
    }
    assert forall|a: int, b: int| 0 <= a < b < mesh@.len() implies (#[trigger] mesh@[a]).slot() != (
    #[trigger] mesh@[b]).slot() by {
        assert(place_of(meta.slots@[mesh@[a].slot()]) == a);
        assert(place_of(meta.slots@[mesh@[b].slot()]) == b);
    }
}

/// Builds and patches chunk meshes by face culling.
pub struct ChunkMesher;

impl ChunkMesher {
    /// Builds the culled mesh of `grid` and its bookkeeping.
    ///
    /// Fails only when `grid` does not hold exactly `CHUNK_LEN` voxels. On
    /// success the mesh has one quad for each face of a solid voxel that
    /// borders the chunk boundary or a voxel that is not solid, textured as
    /// `registry` says, in grid order.
    pub fn build(grid: &[BuiltBlockID], registry: &BlockRegistry) -> (r: Result<
        (ChunkMesh, MeshMetadata),
        MeshError,
    >)
        ensures
            grid@.len() != CHUNK_LEN ==> r == Err::<(ChunkMesh, MeshMetadata), MeshError>(
                MeshError::GridLength { expected: CHUNK_LEN, found: grid@.len() as usize },
            ),
            grid@.len() == CHUNK_LEN ==> r.is_ok(),
            r matches Ok((mesh, meta)) ==> {
                &&& meta.voxels@ == grid@
                &&& meta.tracks(mesh@, *registry)
                &&& mesh.renders(grid@, *registry)
                &&& mesh.ascending()
            },
    {
        if grid.len() != CHUNK_LEN {
            return Err(MeshError::GridLength { expected: CHUNK_LEN, found: grid.len() });
        }
        let mut voxels: Vec<BuiltBlockID> = Vec::new();
        let mut c: usize = 0;
        while c < CHUNK_LEN
            invariant
                c <= CHUNK_LEN,
                grid@.len() == CHUNK_LEN,
                voxels@ == grid@.take(c as int),
            decreases CHUNK_LEN - c,
        {
            voxels.push(grid[c]);
            c += 1;
        }
        assert(voxels@ == grid@);
        let mut faces: Vec<MeshFace> = Vec::new();
        let mut slots: Vec<Option<usize>> = Vec::new();
        let mut s: usize = 0;
        while s < FACE_SLOTS
            invariant
                s <= FACE_SLOTS,
                grid@.len() == CHUNK_LEN,
                slots@.len() == s,
                faces@.len() <= s,
                forall|k: int|
                    0 <= k < faces@.len() ==> {
                        &&& (#[trigger] faces@[k]).cell < 512
                        &&& 0 <= faces@[k].slot() < s
                        &&& place_of(slots@[faces@[k].slot()]) == k
                        &&& faces@[k].texture == registry.texture_of(
                            grid@[faces@[k].cell as int],
                            faces@[k].face,
                        )
                    },
                forall|t: int|
                    0 <= t < s ==> match #[trigger] slots@[t] {
                        Some(k) => k < faces@.len() && faces@[k as int].slot() == t,
                        None => true,
                    },
                forall|t: int|
                    0 <= t < s ==> ((#[trigger] slots@[t]).is_some() <==> slot_visible(grid@, t)),
                forall|a: int, b: int|
                    0 <= a < b < faces@.len() ==> (#[trigger] faces@[a]).slot() < (
                    #[trigger] faces@[b]).slot(),
            decreases FACE_SLOTS - s,
        {
            let cell = s / 6;
            let face = Face::from_index(s % 6);
            proof {
                lemma_slot_round_trip(cell as int, face, s as int);
            }
            if is_face_visible(grid, cell, face) {
                let texture = registry.geometry_for(grid[cell]).texture(face);
                slots.push(Some(faces.len()));
                faces.push(MeshFace { cell, face, texture });
            } else {
                slots.push(None);
            }
            s += 1;
        }
        let mesh = ChunkMesh { faces };
        let meta = MeshMetadata { voxels, slots };
        proof {
            assert forall|t: int| 0 <= t < 3072 implies #[trigger] slot_quad(meta.slots@, mesh@, t)
                == culled_quad(grid@, *registry, t) by {
                lemma_slot_round_trip(0, Face::Top, t);
                assert(meta.slots@[t].is_some() <==> slot_visible(grid@, t));
                if meta.slots@[t].is_some() {
                    let k = meta.slots@[t].unwrap() as int;
                    lemma_slot_round_trip(mesh@[k].cell as int, mesh@[k].face, t);
                }
            }
            lemma_tracked_mesh_renders(meta, mesh, *registry);
        }
        Ok((mesh, meta))
    }

    /// Brings the mesh of a chunk up to date after the voxel at `index`
    /// changed from `old_id` to `new_id`.
    ///
    /// `neighbor_ids` holds, in the order of the faces, the kinds of the six
    /// cells that border the edited cell, as they were before the edit
    /// (`None` past the chunk boundary). Only the six faces of the edited
    /// cell and the faces of its neighbours that touch it are looked at; the
    /// result is the culled mesh of the edited grid, in no fixed order.
    pub fn apply_edit(
        mesh: &mut ChunkMesh,
        metadata: &mut MeshMetadata,
        registry: &BlockRegistry,
        index: usize,
        old_id: BuiltBlockID,
        new_id: BuiltBlockID,
        neighbor_ids: [Option<BuiltBlockID>; 6],
    )
        requires
            old(metadata).tracks(old(mesh)@, *registry),
            index < CHUNK_LEN,
            old_id == old(metadata).voxels@[index as int],
            captured_neighbors(old(metadata).voxels@, index as int, neighbor_ids@),
        ensures
            final(metadata).voxels@ == old(metadata).voxels@.update(index as int, new_id),
            final(metadata).tracks(final(mesh)@, *registry),
            final(mesh).renders(final(metadata).voxels@, *registry),
    {
        let ghost before = metadata.voxels@;
        let ghost after = before.update(index as int, new_id);
        metadata.voxels.set(index, new_id);
        let mut f: usize = 0;
        while f < 6
            invariant
                f <= 6,
                index < CHUNK_LEN,
                before.len() == 512,
                after == before.update(index as int, new_id),
                captured_neighbors(before, index as int, neighbor_ids@),
                metadata.voxels@ == after,
                metadata.indexes(mesh@),
                forall|s: int|
                    0 <= s < 3072 ==> #[trigger] slot_quad(metadata.slots@, mesh@, s) == culled_quad(
                        if patched(index as int, f as int, s) {
                            after
                        } else {
                            before
                        },
                        *registry,
                        s,
                    ),
            decreases 6 - f,
        {
            let face = Face::from_index(f);
            let back = face.opposite();
            let beside = neighbor_ids[f];
            let open_side = match beside {
                Some(kind) => !kind.is_solid(),
                None => true,
            };
            let own = if new_id.is_solid() && open_side {
                Some(registry.geometry_for(new_id).texture(face))
            } else {
                None
            };
            let ghost mid_slots = metadata.slots@;
            let ghost mid_mesh = mesh@;
            proof {
                lemma_slot_round_trip(index as int, face, 0);
                if neighbor_of(index as int, face).is_some() {
                    lemma_neighbor_mutual(index as int, face);
                }
            }
            Self::set_face(mesh, metadata, index, face, own);
            match get_neighbor(index, face) {
                Some(j) => {
                    let kind = match beside {
                        Some(kind) => kind,
                        None => BuiltBlockID::Air,
                    };
                    let theirs = if kind.is_solid() && !new_id.is_solid() {
                        Some(registry.geometry_for(kind).texture(back))
                    } else {
                        None
                    };
                    proof {
                        lemma_slot_round_trip(j as int, back, 0);
                    }
                    Self::set_face(mesh, metadata, j, back, theirs);
                },
                None => {},
            }
            proof {
                assert forall|s: int| 0 <= s < 3072 implies #[trigger] slot_quad(
                    metadata.slots@,
                    mesh@,
                    s,
                ) == culled_quad(
                    if patched(index as int, f as int + 1, s) {
                        after
                    } else {
                        before
                    },
                    *registry,
                    s,
                ) by {
                    lemma_patched_step(before, after, *registry, index as int, new_id, f as int, s);
                    assert(slot_quad(mid_slots, mid_mesh, s) == culled_quad(
                        if patched(index as int, f as int, s) {
                            after
                        } else {
                            before
                        },
                        *registry,
                        s,
                    ));
                }
            }
            f += 1;
        }
        proof {
            assert forall|s: int| 0 <= s < 3072 implies #[trigger] slot_quad(
                metadata.slots@,
                mesh@,
                s,
            ) == culled_quad(after, *registry, s) by {
                lemma_unpatched_same(before, after, *registry, index as int, new_id, s);
            }
            lemma_tracked_mesh_renders(*metadata, *mesh, *registry);
        }
    }

    /// The kinds of the six cells that border cell `index` of `grid`, in the
    /// order of the faces, with `None` past the chunk boundary: what
    /// `apply_edit` wants to know of the grid before an edit.
    pub fn capture_neighbors(grid: &[BuiltBlockID], index: usize) -> (ids: [Option<BuiltBlockID>; 6])
        requires
            grid@.len() == CHUNK_LEN,
        ensures
            captured_neighbors(grid@, index as int, ids@),
    {
        let ids = [
            Self::neighbor_kind(grid, index, Face::Top),
            Self::neighbor_kind(grid, index, Face::Bottom),
            Self::neighbor_kind(grid, index, Face::Right),
            Self::neighbor_kind(grid, index, Face::Left),
            Self::neighbor_kind(grid, index, Face::Back),
            Self::neighbor_kind(grid, index, Face::Forward),
        ];
        assert forall|face: Face| #[trigger]
            ids@[face.ordinal()] == match neighbor_of(index as int, face) {
                Some(j) => Some(grid@[j]),
                None => None,
            } by {
            match face {
                Face::Top => {},
                Face::Bottom => {},
                Face::Right => {},
                Face::Left => {},
                Face::Back => {},
                Face::Forward => {},
            }
        }
        ids
    }

    fn neighbor_kind(grid: &[BuiltBlockID], index: usize, face: Face) -> (kind: Option<BuiltBlockID>)
        requires
            grid@.len() == CHUNK_LEN,
        ensures
            kind == match neighbor_of(index as int, face) {
                Some(j) => Some(grid@[j]),
                None => None,
            },
    {
        match get_neighbor(index, face) {
            Some(j) => Some(grid[j]),
            None => None,
        }
    }

    /// Makes the quad of `face` of `cell` be `want`: drawn with that texture,
    /// or not drawn. Every other slot keeps its quad.
    fn set_face(
        mesh: &mut ChunkMesh,
        metadata: &mut MeshMetadata,
        cell: usize,
        face: Face,
        want: Option<u32>,
    )
        requires
            old(metadata).indexes(old(mesh)@),
            cell < CHUNK_LEN,
        ensures
            final(metadata).indexes(final(mesh)@),
            final(metadata).voxels@ == old(metadata).voxels@,
            forall|s: int|
                0 <= s < 3072 ==> #[trigger] slot_quad(final(metadata).slots@, final(mesh)@, s) == (
                if s == slot_of(cell as int, face) {
                    wanted_quad(cell, face, want)
                } else {
                    slot_quad(old(metadata).slots@, old(mesh)@, s)
                }),
    {
        let s = cell * 6 + face.index();
        let quad_count = mesh.faces.len();
        match want {
            Some(texture) => {
                let quad = MeshFace { cell, face, texture };
                match metadata.slots[s] {
                    Some(k) => {
                        mesh.faces.set(k, quad);
                    },
                    None => {
                        proof {
                            lemma_mesh_fits(*metadata, mesh@, s as int);
                        }
                        metadata.slots.set(s, Some(quad_count));
                        mesh.faces.push(quad);
                    },
                }
            },
            None => {
                match metadata.slots[s] {
                    Some(k) => {
                        let moved = mesh.faces[quad_count - 1];
                        let from = moved.cell * 6 + moved.face.index();
                        mesh.faces.set(k, moved);
                        mesh.faces.pop();
                        metadata.slots.set(from, Some(k));
                        metadata.slots.set(s, None);
                    },
                    None => {},
                }
            },
        }
    }
}

/// The quad asked for when a face is to be drawn with a texture, or not drawn.
pub open spec fn wanted_quad(cell: usize, face: Face, want: Option<u32>) -> Option<MeshFace> {
    match want {
        Some(texture) => Some(MeshFace { cell, face, texture }),
        None => None,
    }
}

/// Whether `ids` holds, in the order of the faces, the kinds of the cells
/// that border cell `index` in `grid`, with `None` past the chunk boundary.
pub open spec fn captured_neighbors(
    grid: Seq<BuiltBlockID>,
    index: int,
    ids: Seq<Option<BuiltBlockID>>,
) -> bool {
    &&& ids.len() == 6
    &&& forall|face: Face|
        #[trigger] ids[face.ordinal()] == match neighbor_of(index, face) {
            Some(j) => Some(grid[j]),
            None => None,
        }
}

/// Whether face slot `s` is one of those an edit of cell `index` has
/// settled after handling the first `done` faces of that cell: the cell's
/// own face, or the face of the cell beside it that looks back at it.
pub open spec fn patched(index: int, done: int, s: int) -> bool {
    ||| slot_cell(s) == index && slot_face(s).ordinal() < done
    ||| neighbor_of(slot_cell(s), slot_face(s)) == Some(index) && slot_face(
        s,
    ).opposite_of().ordinal() < done
}

/// A table with one entry per drawn face holds fewer quads than there are
/// slots while some slot is still empty.
proof fn lemma_mesh_fits(meta: MeshMetadata, mesh: Seq<MeshFace>, empty: int)
    requires
        meta.indexes(mesh),
        0 <= empty < 3072,
        meta.slots@[empty].is_none(),
    ensures
        mesh.len() < 3072,
{
    broadcast use vstd::set::group_set_axioms;

    let slots = Seq::new(mesh.len(), |k: int| mesh[k].slot());
    assert forall|a: int, b: int| 0 <= a < b < slots.len() implies slots[a] != slots[b] by {
        assert(place_of(meta.slots@[mesh[a].slot()]) == a);
        assert(place_of(meta.slots@[mesh[b].slot()]) == b);
    }
    slots.unique_seq_to_set();
    let all = vstd::set_lib::set_int_range(0, 3072);
    vstd::set_lib::lemma_int_range(0, 3072);
    assert forall|s: int| slots.to_set().contains(s) implies all.remove(empty).contains(s) by {
        let k = choose|k: int| 0 <= k < slots.len() && slots[k] == s;
        lemma_slot_round_trip(mesh[k].cell as int, mesh[k].face, s);
        assert(place_of(meta.slots@[mesh[k].slot()]) == k);
    }
    vstd::set_lib::lemma_len_subset(slots.to_set(), all.remove(empty));
}

/// Handling one more face of the edited cell settles exactly two more
/// slots, and what culling gives them is what the edit writes there.
proof fn lemma_patched_step(
    before: Seq<BuiltBlockID>,
    after: Seq<BuiltBlockID>,
    registry: BlockRegistry,
    index: int,
    new_id: BuiltBlockID,
    done: int,
    s: int,
)
    requires
        before.len() == 512,
        0 <= index < 512,
        after == before.update(index, new_id),
        0 <= done < 6,
        0 <= s < 3072,
    ensures
        ({
            let face = Face::from_ordinal(done);
            let own = slot_of(index, face);
            if s == own {
                &&& patched(index, done + 1, s)
                &&& slot_visible(after, s) <==> new_id.solid() && match neighbor_of(index, face) {
                    Some(j) => !before[j].solid(),
                    None => true,
                }
                &&& after[slot_cell(s)] == new_id
                &&& slot_cell(s) == index
                &&& slot_face(s) == face
            } else {
                match neighbor_of(index, face) {
                    Some(j) => if s == slot_of(j, face.opposite_of()) {
                        &&& patched(index, done + 1, s)
                        &&& slot_visible(after, s) <==> before[j].solid() && !new_id.solid()
                        &&& after[slot_cell(s)] == before[j]
                        &&& slot_cell(s) == j
                        &&& slot_face(s) == face.opposite_of()
                    } else {
                        patched(index, done + 1, s) == patched(index, done, s)
                    },
                    None => patched(index, done + 1, s) == patched(index, done, s),
                }
            }
        }),
{
    let face = Face::from_ordinal(done);
    let cell = slot_cell(s);
    let side = slot_face(s);
    lemma_slot_round_trip(index, face, s);
    if neighbor_of(index, face).is_some() {
        lemma_neighbor_mutual(index, face);
        let j = neighbor_of(index, face).unwrap();
        lemma_slot_round_trip(j, face.opposite_of(), s);
    }
    if neighbor_of(cell, side).is_some() {
        lemma_neighbor_mutual(cell, side);
    }
}

/// A slot that an edit of cell `index` never settles belongs to a face whose
/// cell and whose neighbour both kept their kind, so culling gives it the
/// same quad before and after; a slot that it settles gets the quad of the
/// edited grid.
proof fn lemma_unpatched_same(
    before: Seq<BuiltBlockID>,
    after: Seq<BuiltBlockID>,
    registry: BlockRegistry,
    index: int,
    new_id: BuiltBlockID,
    s: int,
)
    requires
        before.len() == 512,
        0 <= index < 512,
        after == before.update(index, new_id),
        0 <= s < 3072,
    ensures
        culled_quad(
            if patched(index, 6, s) {
                after
            } else {
                before
            },
            registry,
            s,
        ) == culled_quad(after, registry, s),
{
    lemma_slot_round_trip(0, Face::Top, s);
    if neighbor_of(slot_cell(s), slot_face(s)).is_some() {
        lemma_neighbor_mutual(slot_cell(s), slot_face(s));
    }
}

} // verus!
