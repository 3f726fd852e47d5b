//! Picking voxels along a ray.
//!
//! A ray is walked cell by cell: it starts in one voxel cell and crosses one
//! cell boundary at a time, each crossing moving one step along one axis.
//! The walk reports the first cell that holds a block. A hit names the face
//! that was struck, and the free cell in front of that face is where a new
//! block can be placed.

use vstd::prelude::*;
use crate::block::BuiltBlockID;
use crate::chunk::World;
use crate::coords::WorldPos;

verus! {

/// The face of a voxel that a ray struck, or `NoFace` when no face could be
/// told (a ray that clips an edge or a corner).
#[derive(Debug, Clone, Copy, PartialEq, Eq, Hash, Structural)]
pub enum HitFace {
    NoFace,
    PosX,
    NegX,
    PosY,
    NegY,
    PosZ,
    NegZ,
}

impl HitFace {
    /// The outward unit normal of this face; zero for `NoFace`.
    pub open spec fn normal(self) -> (int, int, int) {
        match self {
            HitFace::NoFace => (0, 0, 0),
            HitFace::PosX => (1, 0, 0),
            HitFace::NegX => (-1, 0, 0),
            HitFace::PosY => (0, 1, 0),
            HitFace::NegY => (0, -1, 0),
            HitFace::PosZ => (0, 0, 1),
            HitFace::NegZ => (0, 0, -1),
        }
    }

    /// The outward unit normal of this face, as a step between cells; zero
    /// for `NoFace`.
    pub fn offset(self) -> (o: WorldPos)
        ensures
            (o.x as int, o.y as int, o.z as int) == self.normal(),
    {
        match self {
            HitFace::NoFace => WorldPos { x: 0, y: 0, z: 0 },
            HitFace::PosX => WorldPos { x: 1, y: 0, z: 0 },
            HitFace::NegX => WorldPos { x: -1, y: 0, z: 0 },
            HitFace::PosY => WorldPos { x: 0, y: 1, z: 0 },
            HitFace::NegY => WorldPos { x: 0, y: -1, z: 0 },
            HitFace::PosZ => WorldPos { x: 0, y: 0, z: 1 },
            HitFace::NegZ => WorldPos { x: 0, y: 0, z: -1 },
        }
    }
}

/// The face that a normal with whole components points out of: the x
/// component decides if it is not zero, then y, then z; `NoFace` for the zero
/// vector.
pub open spec fn face_of_normal(x: int, y: int, z: int) -> HitFace {
    if x > 0 {
        HitFace::PosX
    } else if x < 0 {
        HitFace::NegX
    } else if y > 0 {
        HitFace::PosY
    } else if y < 0 {
        HitFace::NegY
    } else if z > 0 {
        HitFace::PosZ
    } else if z < 0 {
        HitFace::NegZ
    } else {
        HitFace::NoFace
    }
}

/// The face that `normal` points out of.
pub fn determine_hit_face(normal: WorldPos) -> (face: HitFace)
    ensures
        face == face_of_normal(normal.x as int, normal.y as int, normal.z as int),
        face == HitFace::NoFace <==> normal.x == 0 && normal.y == 0 && normal.z == 0,
{
    if normal.x > 0 {
        HitFace::PosX
    } else if normal.x < 0 {
        HitFace::NegX
    } else if normal.y > 0 {
        HitFace::PosY
    } else if normal.y < 0 {
        HitFace::NegY
    } else if normal.z > 0 {
        HitFace::PosZ
    } else if normal.z < 0 {
        HitFace::NegZ
    } else {
        HitFace::NoFace
    }
}

/// Every face is the face of its own normal.
pub proof fn lemma_face_of_own_normal(face: HitFace)
    ensures
        face_of_normal(face.normal().0, face.normal().1, face.normal().2) == face,
{
}

/// The axis along which a ray crosses from one cell into the next.
#[derive(Debug, Clone, Copy, PartialEq, Eq, Hash, Structural)]
pub enum Axis {
    X,
    Y,
    Z,
}

/// Where a ray met a block.
#[derive(Debug, Clone, Copy, PartialEq, Eq, Structural)]
pub struct RaycastHit {
    /// The cell of the block.
    pub position: WorldPos,
    /// Outward normal of the struck face, whole components; zero if unknown.
    pub face_normal: WorldPos,
    /// Number of cell boundaries crossed before the hit; 0 when the ray
    /// starts inside the block.
    pub steps: usize,
    /// The struck face.
    pub face: HitFace,
}

/// Whether `step` moves one cell forwards or backwards along every axis.
pub open spec fn is_unit_step(step: WorldPos) -> bool {
    &&& step.x == 1 || step.x == -1
    &&& step.y == 1 || step.y == -1
    &&& step.z == 1 || step.z == -1
}

/// The cell a walk stands in after its first `n` crossings, as unbounded
/// integers: from `start`, each crossing moves by `step` along its axis.
pub open spec fn cell_after(start: WorldPos, step: WorldPos, crossings: Seq<Axis>, n: int) -> (
    int,
    int,
    int,
)
    decreases n,
{
    if n <= 0 {
        (start.x as int, start.y as int, start.z as int)
    } else {
        let prev = cell_after(start, step, crossings, n - 1);
        match crossings[n - 1] {
            Axis::X => (prev.0 + step.x, prev.1, prev.2),
            Axis::Y => (prev.0, prev.1 + step.y, prev.2),
            Axis::Z => (prev.0, prev.1, prev.2 + step.z),
        }
    }
}

/// Whether the cell `c` can be written as a world position.
pub open spec fn in_reach(c: (int, int, int)) -> bool {
    &&& i32::MIN <= c.0 <= i32::MAX
    &&& i32::MIN <= c.1 <= i32::MAX
    &&& i32::MIN <= c.2 <= i32::MAX
}

/// The world position of cell `c`.
pub open spec fn as_pos(c: (int, int, int)) -> WorldPos {
    WorldPos { x: c.0 as i32, y: c.1 as i32, z: c.2 as i32 }
}

/// Whether a walk stays inside the coordinate range for all its crossings.
pub open spec fn walk_in_reach(start: WorldPos, step: WorldPos, crossings: Seq<Axis>) -> bool {
    forall|n: int|
        0 <= n <= crossings.len() ==> in_reach(#[trigger] cell_after(start, step, crossings, n))
}

/// Whether a walk finds nothing up to its `n`-th crossing: the start cell
/// and the first `n` cells entered all lie in the coordinate range and
/// hold air.
pub open spec fn clear_to(
    world: &World,
    start: WorldPos,
    step: WorldPos,
    crossings: Seq<Axis>,
    n: int,
) -> bool {
    forall|k: int|
        0 <= k <= n ==> {
            &&& in_reach(#[trigger] cell_after(start, step, crossings, k))
            &&& world.block_at(as_pos(cell_after(start, step, crossings, k))) == BuiltBlockID::Air
        }
}

/// Whether a walk never has to step out of the coordinate range: as long as
/// it has found nothing, the next cell it enters lies in the range. Cells
/// behind the first block do not count, since the walk never enters them.
pub open spec fn walk_can_go_on(
    world: &World,
    start: WorldPos,
    step: WorldPos,
    crossings: Seq<Axis>,
) -> bool {
    forall|n: int|
        0 <= n < crossings.len() && #[trigger] clear_to(world, start, step, crossings, n)
            ==> in_reach(cell_after(start, step, crossings, n + 1))
}

/// A walk of `crossings` stays inside the coordinate range when its start
/// keeps a distance of the walk's length from both ends of the range.
pub proof fn lemma_walk_in_reach(start: WorldPos, step: WorldPos, crossings: Seq<Axis>)
    requires
        is_unit_step(step),
        i32::MIN + crossings.len() <= start.x <= i32::MAX - crossings.len(),
        i32::MIN + crossings.len() <= start.y <= i32::MAX - crossings.len(),
        i32::MIN + crossings.len() <= start.z <= i32::MAX - crossings.len(),
    ensures
        walk_in_reach(start, step, crossings),
{
    assert forall|n: int| 0 <= n <= crossings.len() implies in_reach(
        #[trigger] cell_after(start, step, crossings, n),
    ) by {
        lemma_walk_span(start, step, crossings, n);
    }
}

proof fn lemma_walk_span(start: WorldPos, step: WorldPos, crossings: Seq<Axis>, n: int)
    requires
        is_unit_step(step),
        0 <= n,
    ensures
        start.x - n <= cell_after(start, step, crossings, n).0 <= start.x + n,
        start.y - n <= cell_after(start, step, crossings, n).1 <= start.y + n,
        start.z - n <= cell_after(start, step, crossings, n).2 <= start.z + n,
    decreases n,
{
    if n > 0 {
        lemma_walk_span(start, step, crossings, n - 1);
    }
}

/// A walk that stays inside the coordinate range as a whole never has to
/// step out of it, whatever the world holds.
pub proof fn lemma_walk_in_reach_can_go_on(
    world: &World,
    start: WorldPos,
    step: WorldPos,
    crossings: Seq<Axis>,
)
    requires
        walk_in_reach(start, step, crossings),
    ensures
        walk_can_go_on(world, start, step, crossings),
{
}

/// A walk that starts inside a block never has to step out of the
/// coordinate range, wherever it starts and whichever way it goes: it takes
/// no step at all, and the hit is the start cell after 0 crossings.
pub proof fn lemma_walk_from_block_can_go_on(
    world: &World,
    start: WorldPos,
    step: WorldPos,
    crossings: Seq<Axis>,
)
    requires
        world.block_at(start) != BuiltBlockID::Air,
    ensures
        walk_can_go_on(world, start, step, crossings),
        walk_ends(
            world,
            start,
            step,
            crossings,
            (WalkEnd::Hit { steps: 0, position: start }),
        ),
{
    assert(as_pos(cell_after(start, step, crossings, 0)) == start);
    assert forall|n: int| 0 <= n < crossings.len() implies !#[trigger] clear_to(
        world,
        start,
        step,
        crossings,
        n,
    ) by {
        if clear_to(world, start, step, crossings, n) {
            assert(in_reach(cell_after(start, step, crossings, 0)));
        }
    }
}

/// How a walk ended.
#[derive(Debug, Clone, Copy, PartialEq, Eq, Structural)]
pub enum WalkEnd {
    /// The cell `position`, reached after `steps` crossings, holds a block;
    /// the cells before it are air.
    Hit { steps: usize, position: WorldPos },
    /// The start cell and every cell entered are air.
    Clear,
    /// After `steps` crossings through air the next crossing leaves the
    /// coordinate range.
    OutOfRange { steps: usize },
}

/// Whether `end` is how the walk from `start` across `crossings` ends.
pub open spec fn walk_ends(
    world: &World,
    start: WorldPos,
    step: WorldPos,
    crossings: Seq<Axis>,
    end: WalkEnd,
) -> bool {
    match end {
        WalkEnd::Hit { steps, position } => {
            &&& steps <= crossings.len()
            &&& clear_to(world, start, step, crossings, steps - 1)
            &&& in_reach(cell_after(start, step, crossings, steps as int))
            &&& position == as_pos(cell_after(start, step, crossings, steps as int))
            &&& world.block_at(position) != BuiltBlockID::Air
        },
        WalkEnd::Clear => clear_to(world, start, step, crossings, crossings.len() as int),
        WalkEnd::OutOfRange { steps } => {
            &&& steps < crossings.len()
            &&& clear_to(world, start, step, crossings, steps as int)
            &&& !in_reach(cell_after(start, step, crossings, steps + 1))
        },
    }
}

/// The upper bound on the crossings of one walk: twice the longest distance
/// a ray may travel, which is handed in as `doubled_distance`, plus a fixed
/// margin of 100. The bound only makes sure that a walk ends.
pub fn max_iterations(doubled_distance: i32) -> (cap: i32)
    requires
        doubled_distance + 100 <= i32::MAX,
    ensures
        cap == doubled_distance + 100,
{
    doubled_distance + 100
}

/// Walks from the cell `start` across `crossings` until it finds a block,
/// runs out of crossings, or would leave the coordinate range, and says
/// which. Needs nothing of its arguments.
pub fn walk_until_hit(world: &World, start: WorldPos, step: WorldPos, crossings: &Vec<Axis>) -> (end:
    WalkEnd)
    ensures
        walk_ends(world, start, step, crossings@, end),
{
    if world.get_block(start).is_solid() {
        return WalkEnd::Hit { steps: 0, position: start };
    }
    let mut x = start.x;
    let mut y = start.y;
    let mut z = start.z;
    let mut n: usize = 0;
    while n < crossings.len()
        invariant
            n <= crossings@.len(),
            (x as int, y as int, z as int) == cell_after(start, step, crossings@, n as int),
            clear_to(world, start, step, crossings@, n as int),
        decreases crossings@.len() - n,
    {
        let moved = match crossings[n] {
            Axis::X => (x.checked_add(step.x), Some(y), Some(z)),
            Axis::Y => (Some(x), y.checked_add(step.y), Some(z)),
            Axis::Z => (Some(x), Some(y), z.checked_add(step.z)),
        };
        match moved {
            (Some(next_x), Some(next_y), Some(next_z)) => {
                x = next_x;
                y = next_y;
                z = next_z;
            },
            _ => {
                return WalkEnd::OutOfRange { steps: n };
            },
        }
        n += 1;
        let current_pos = WorldPos { x, y, z };
        if world.get_block(current_pos).is_solid() {
            return WalkEnd::Hit { steps: n, position: current_pos };
        }
    }
    WalkEnd::Clear
}

/// Walks from the cell `start` across `crossings` and reports the first
/// cell that holds a block, with the number of crossings made to reach it.
///
/// The start cell itself counts: a ray that begins inside a block hits that
/// block after 0 crossings. `None` means that the start cell and every cell
/// entered are air. The walk must not have to leave the coordinate range
/// before it finds a block.
pub fn precise_minecraft_raycast(
    world: &World,
    start: WorldPos,
    step: WorldPos,
    crossings: &Vec<Axis>,
) -> (hit: Option<(usize, WorldPos)>)
    requires
        walk_can_go_on(world, start, step, crossings@),
    ensures
        match hit {
            Some((steps, position)) => walk_ends(
                world,
                start,
                step,
                crossings@,
                (WalkEnd::Hit { steps, position }),
            ),
            None => walk_ends(world, start, step, crossings@, WalkEnd::Clear),
        },
        world.block_at(start) != BuiltBlockID::Air ==> hit == Some((0usize, start)),
{
    let end = walk_until_hit(world, start, step, crossings);
    proof {
        if world.block_at(start) != BuiltBlockID::Air {
            lemma_walk_end_from_block(world, start, step, crossings@, end);
        }
    }
    match end {
        WalkEnd::Hit { steps, position } => Some((steps, position)),
        WalkEnd::Clear => None,
        WalkEnd::OutOfRange { steps } => None,
    }
}

/// A walk that starts inside a block can only end as a hit of the start
/// cell after 0 crossings.
pub proof fn lemma_walk_end_from_block(
    world: &World,
    start: WorldPos,
    step: WorldPos,
    crossings: Seq<Axis>,
    end: WalkEnd,
)
    requires
        world.block_at(start) != BuiltBlockID::Air,
        walk_ends(world, start, step, crossings, end),
    ensures
        end == (WalkEnd::Hit { steps: 0, position: start }),
{
    assert(as_pos(cell_after(start, step, crossings, 0)) == start);
    assert(in_reach(cell_after(start, step, crossings, 0)));
    match end {
        WalkEnd::Hit { steps, position } => {
            if steps > 0 {
                assert(clear_to(world, start, step, crossings, steps - 1));
                assert(world.block_at(as_pos(cell_after(start, step, crossings, 0)))
                    == BuiltBlockID::Air);
            }
        },
        WalkEnd::Clear => {
            assert(world.block_at(as_pos(cell_after(start, step, crossings, 0)))
                == BuiltBlockID::Air);
        },
        WalkEnd::OutOfRange { steps } => {
            assert(world.block_at(as_pos(cell_after(start, step, crossings, 0)))
                == BuiltBlockID::Air);
        },
    }
}

/// The first cell along a walk that holds a block, if there is one. The
/// walk must not have to leave the coordinate range before it finds one.
pub fn voxel_raycast(world: &World, start: WorldPos, step: WorldPos, crossings: &Vec<Axis>) -> (hit:
    Option<WorldPos>)
    requires
        walk_can_go_on(world, start, step, crossings@),
    ensures
        match hit {
            Some(position) => exists|steps: int|
                {
                    &&& 0 <= steps <= crossings@.len()
                    &&& clear_to(world, start, step, crossings@, steps - 1)
                    &&& in_reach(#[trigger] cell_after(start, step, crossings@, steps))
                    &&& position == as_pos(cell_after(start, step, crossings@, steps))
                    &&& world.block_at(position) != BuiltBlockID::Air
                },
            None => walk_ends(world, start, step, crossings@, WalkEnd::Clear),
        },
        world.block_at(start) != BuiltBlockID::Air ==> hit == Some(start),
{
    match precise_minecraft_raycast(world, start, step, crossings) {
        Some((steps, position)) => {
            assert(in_reach(cell_after(start, step, crossings@, steps as int)));
            Some(position)
        },
        None => None,
    }
}

/// The cell in front of the struck face of `hit`, as unbounded integers.
pub open spec fn adjacent_cell(hit: RaycastHit) -> (int, int, int) {
    (
        hit.position.x + hit.face.normal().0,
        hit.position.y + hit.face.normal().1,
        hit.position.z + hit.face.normal().2,
    )
}

/// The cell in front of the struck face of `hit`, if that cell is air: the
/// place for a new block. `None` when the hit names no face or the cell is
/// taken.
pub fn get_adjacent_empty_position(hit: &RaycastHit, world: &World) -> (free: Option<WorldPos>)
    requires
        in_reach(adjacent_cell(*hit)),
    ensures
        match free {
            Some(position) => {
                &&& hit.face != HitFace::NoFace
                &&& position == as_pos(adjacent_cell(*hit))
                &&& world.block_at(position) == BuiltBlockID::Air
            },
            None => hit.face == HitFace::NoFace || world.block_at(as_pos(adjacent_cell(*hit)))
                != BuiltBlockID::Air,
        },
{
    let offset = match hit.face {
        HitFace::NoFace => {
            return None;
        },
        face => face.offset(),
    };
    let adjacent_pos = WorldPos {
        x: hit.position.x + offset.x,
        y: hit.position.y + offset.y,
        z: hit.position.z + offset.z,
    };
    if world.get_block(adjacent_pos).is_solid() {
        None
    } else {
        Some(adjacent_pos)
    }
}

} // verus!
