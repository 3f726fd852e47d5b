//! World, chunk and chunk-local coordinates.
//!
//! A chunk is a cube of `SIZE`³ voxels. A world position maps to the chunk
//! that holds it by floor division and to its place inside that chunk by the
//! Euclidean remainder, so negative coordinates land in negative chunks with
//! non-negative local offsets.

use vstd::prelude::*;

verus! {

/// Edge length of a chunk, in voxels.
pub const SIZE: usize = 8;

/// Number of voxels in one chunk.
pub const CHUNK_LEN: usize = 512;

/// Integer position of a voxel in world space.
#[derive(Debug, Clone, Copy, PartialEq, Eq, Hash, Structural)]
pub struct WorldPos {
    pub x: i32,
    pub y: i32,
    pub z: i32,
}

/// Integer position of a chunk; chunk `c` covers world axes `c * SIZE .. c * SIZE + SIZE`.
#[derive(Debug, Clone, Copy, PartialEq, Eq, Hash, Structural)]
pub struct ChunkPos {
    pub x: i32,
    pub y: i32,
    pub z: i32,
}

/// Index of the local cell `(lx, ly, lz)` in a chunk's grid: x runs fastest,
/// then z, and y (height) is the outermost stride.
pub open spec fn grid_index(lx: int, ly: int, lz: int) -> int {
    lx + lz * 8 + ly * 64
}

/// The local x of grid index `i`.
pub open spec fn index_x(i: int) -> int {
    i % 8
}

/// The local y (height) of grid index `i`.
pub open spec fn index_y(i: int) -> int {
    i / 64
}

/// The local z (depth) of grid index `i`.
pub open spec fn index_z(i: int) -> int {
    (i / 8) % 8
}

/// Whether `l` is a valid local offset along one axis.
pub open spec fn is_local(l: int) -> bool {
    0 <= l < 8
}

fn floor_div_size(a: i32) -> (q: i32)
    ensures
        q == a as int / 8,
        q * 8 <= a < q * 8 + 8,
{
    match a.checked_div_euclid(8) {
        Some(q) => q,
        None => 0,
    }
}

fn floor_rem_size(a: i32) -> (r: usize)
    ensures
        r == a as int % 8,
        r < 8,
{
    match a.checked_rem_euclid(8) {
        Some(r) => r as usize,
        None => 0,
    }
}

impl WorldPos {
    /// The chunk that holds this position, as a specification.
    pub open spec fn chunk_of(self) -> ChunkPos {
        ChunkPos {
            x: (self.x as int / 8) as i32,
            y: (self.y as int / 8) as i32,
            z: (self.z as int / 8) as i32,
        }
    }

    /// The offsets of this position inside its chunk, as a specification.
    pub open spec fn local_of(self) -> (int, int, int) {
        (self.x as int % 8, self.y as int % 8, self.z as int % 8)
    }

    /// The grid index of this position inside its chunk, as a specification.
    pub open spec fn index_of(self) -> int {
        grid_index(self.x as int % 8, self.y as int % 8, self.z as int % 8)
    }

    /// The chunk that holds this position: each axis divided by `SIZE`,
    /// rounded towards negative infinity.
    pub fn to_chunk_pos(self) -> (c: ChunkPos)
        ensures
            c == self.chunk_of(),
            c.x * 8 <= self.x < c.x * 8 + 8,
            c.y * 8 <= self.y < c.y * 8 + 8,
            c.z * 8 <= self.z < c.z * 8 + 8,
    {
        ChunkPos {
            x: floor_div_size(self.x),
            y: floor_div_size(self.y),
            z: floor_div_size(self.z),
        }
    }

    /// The offsets `(lx, ly, lz)` of this position inside its chunk: the
    /// Euclidean remainder of each axis by `SIZE`, never negative.
    pub fn to_local_pos(self) -> (l: (usize, usize, usize))
        ensures
            (l.0 as int, l.1 as int, l.2 as int) == self.local_of(),
            l.0 < SIZE,
            l.1 < SIZE,
            l.2 < SIZE,
    {
        (floor_rem_size(self.x), floor_rem_size(self.y), floor_rem_size(self.z))
    }

    /// The index of this position in its chunk's grid, `lx + lz * SIZE + ly * SIZE²`.
    pub fn to_local_index(self) -> (i: usize)
        ensures
            i == self.index_of(),
            i < CHUNK_LEN,
    {
        let (x, y, z) = self.to_local_pos();
        x + z * SIZE + y * SIZE * SIZE
    }
}

impl ChunkPos {
    /// The world coordinates of local cell `(lx, ly, lz)` of this chunk, as
    /// unbounded integers.
    pub open spec fn world_at(self, lx: int, ly: int, lz: int) -> (int, int, int) {
        (self.x * 8 + lx, self.y * 8 + ly, self.z * 8 + lz)
    }

    /// Whether the world coordinates of local cell `(lx, ly, lz)` of this
    /// chunk fit the coordinate type.
    pub open spec fn holds_local(self, lx: int, ly: int, lz: int) -> bool {
        &&& i32::MIN <= self.x * 8 + lx <= i32::MAX
        &&& i32::MIN <= self.y * 8 + ly <= i32::MAX
        &&& i32::MIN <= self.z * 8 + lz <= i32::MAX
    }

    /// The world position of local cell `(local_x, local_y, local_z)` of this
    /// chunk: `chunk * SIZE + local` on each axis.
    pub fn to_world_pos(self, local_x: usize, local_y: usize, local_z: usize) -> (w: WorldPos)
        requires
            self.holds_local(local_x as int, local_y as int, local_z as int),
        ensures
            (w.x as int, w.y as int, w.z as int) == self.world_at(
                local_x as int,
                local_y as int,
                local_z as int,
            ),
    {
        WorldPos {
            x: (self.x as i64 * 8 + local_x as i64) as i32,
            y: (self.y as i64 * 8 + local_y as i64) as i32,
            z: (self.z as i64 * 8 + local_z as i64) as i32,
        }
    }
}

/// Coordinate round trip: rebuilding a world position from its chunk and its
/// local offsets gives the position back, and the rebuilt coordinates always
/// fit the coordinate type.
pub proof fn lemma_world_round_trip(p: WorldPos)
    ensures
        p.chunk_of().holds_local(p.local_of().0, p.local_of().1, p.local_of().2),
        p.chunk_of().world_at(p.local_of().0, p.local_of().1, p.local_of().2) == (
            p.x as int,
            p.y as int,
            p.z as int,
        ),
{
}

/// Local offsets are never negative and stay below the chunk edge, and the
/// chunk is the floor of the division, also for negative coordinates: the
/// chunk's first cell is at or below the position on every axis.
pub proof fn lemma_local_in_range(p: WorldPos)
    ensures
        is_local(p.local_of().0),
        is_local(p.local_of().1),
        is_local(p.local_of().2),
        p.chunk_of().x * 8 <= p.x < p.chunk_of().x * 8 + 8,
        p.chunk_of().y * 8 <= p.y < p.chunk_of().y * 8 + 8,
        p.chunk_of().z * 8 <= p.z < p.chunk_of().z * 8 + 8,
        0 <= p.index_of() < 512,
{
}

/// Every world position has exactly one chunk and one local cell: any chunk
/// and in-range offsets that rebuild `p` are the ones `p` maps to.
pub proof fn lemma_chunk_and_local_unique(c: ChunkPos, lx: int, ly: int, lz: int, p: WorldPos)
    requires
        is_local(lx),
        is_local(ly),
        is_local(lz),
        c.world_at(lx, ly, lz) == (p.x as int, p.y as int, p.z as int),
    ensures
        c == p.chunk_of(),
        (lx, ly, lz) == p.local_of(),
{
}

/// Two positions are equal exactly when they share chunk and grid index.
pub proof fn lemma_position_by_chunk_and_index(p: WorldPos, q: WorldPos)
    ensures
        (p.chunk_of() == q.chunk_of() && p.index_of() == q.index_of()) <==> p == q,
{
    if p.chunk_of() == q.chunk_of() && p.index_of() == q.index_of() {
        lemma_grid_index_decode(p.local_of().0, p.local_of().1, p.local_of().2);
        lemma_grid_index_decode(q.local_of().0, q.local_of().1, q.local_of().2);
    }
}

/// A grid index determines its local offsets.
pub proof fn lemma_grid_index_decode(lx: int, ly: int, lz: int)
    requires
        is_local(lx),
        is_local(ly),
        is_local(lz),
    ensures
        0 <= grid_index(lx, ly, lz) < 512,
        index_x(grid_index(lx, ly, lz)) == lx,
        index_y(grid_index(lx, ly, lz)) == ly,
        index_z(grid_index(lx, ly, lz)) == lz,
{
}

/// Every grid index below `CHUNK_LEN` is the index of its own offsets.
pub proof fn lemma_grid_index_encode(i: int)
    requires
        0 <= i < 512,
    ensures
        is_local(index_x(i)),
        is_local(index_y(i)),
        is_local(index_z(i)),
        grid_index(index_x(i), index_y(i), index_z(i)) == i,
{
}

} // verus!
