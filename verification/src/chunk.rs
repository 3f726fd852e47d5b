//! Chunks and the world that owns them.
//!
//! The world maps chunk positions to chunk entities. Blocks are read and
//! written by world position; a write marks the chunk stale, and one sweep
//! rebuilds the mesh of every stale chunk.

use vstd::prelude::*;
use std::collections::HashMap;
use bevy::platform::collections::HashSet;
use crate::block::{BlockRegistry, BuiltBlockID};
use crate::coords::{ChunkPos, WorldPos, CHUNK_LEN};
use crate::mesher::{ChunkMesh, ChunkMesher, MeshMetadata};

verus! {

broadcast use vstd::std_specs::hash::group_hash_axioms;

/// One chunk: its voxels, its mesh with the bookkeeping to patch it, and
/// whether the mesh is stale.
#[derive(Debug)]
pub struct Chunk {
    pub pos: ChunkPos,
    pub meta: MeshMetadata,
    pub grid: Vec<BuiltBlockID>,
    pub mesh: ChunkMesh,
    pub dirty: bool,
}

impl Chunk {
    /// Whether the mesh is the culled mesh of the chunk's voxels.
    pub open spec fn current(&self, registry: BlockRegistry) -> bool {
        &&& self.meta.voxels@ == self.grid@
        &&& self.meta.tracks(self.mesh@, registry)
        &&& self.mesh.renders(self.grid@, registry)
    }

    /// Whether this is a chunk as it is first made: at `pos`, every voxel
    /// `fill`, not stale, with its mesh built in grid order.
    pub open spec fn fresh_at(&self, pos: ChunkPos, fill: BuiltBlockID, registry: BlockRegistry) -> bool {
        &&& self.pos == pos
        &&& self.grid@ == Seq::new(512, |i: int| fill)
        &&& !self.dirty
        &&& self.current(registry)
        &&& self.mesh.ascending()
    }

    /// Whether this chunk is `before` after a write of `block` at grid index
    /// `index` that waits for the sweep: the one voxel changed, the chunk is
    /// stale, and place, mesh and bookkeeping are as they were.
    pub open spec fn written_from(&self, before: Chunk, index: int, block: BuiltBlockID) -> bool {
        &&& self.pos == before.pos
        &&& self.meta == before.meta
        &&& self.mesh == before.mesh
        &&& self.grid@ == before.grid@.update(index, block)
        &&& self.dirty
    }

    /// Whether this is a chunk first made at `pos`, all air, and then written
    /// to once, `block` at grid index `index`, without a new mesh.
    pub open spec fn written_fresh(
        &self,
        pos: ChunkPos,
        registry: BlockRegistry,
        index: int,
        block: BuiltBlockID,
    ) -> bool {
        exists|fresh: Chunk|
            #[trigger] fresh.fresh_at(pos, BuiltBlockID::Air, registry) && self.written_from(
                fresh,
                index,
                block,
            )
    }

    /// Whether this chunk is `before` after a write of `block` at grid index
    /// `index` that patched the mesh at once: the one voxel changed, the
    /// stale mark is as it was, and a stale chunk kept mesh and bookkeeping.
    pub open spec fn patched_from(&self, before: Chunk, index: int, block: BuiltBlockID) -> bool {
        &&& self.pos == before.pos
        &&& self.grid@ == before.grid@.update(index, block)
        &&& self.dirty == before.dirty
        &&& before.dirty ==> self.meta == before.meta && self.mesh == before.mesh
    }

    /// Whether this chunk is `before` with the same place, mesh and
    /// bookkeeping, and unless it was `written` to the same in all.
    pub open spec fn kept_from(&self, before: Chunk, written: bool) -> bool {
        &&& self.pos == before.pos
        &&& self.meta == before.meta
        &&& self.mesh == before.mesh
        &&& !written ==> *self == before
    }

    /// Whether this chunk is `before` after a sweep: same place and voxels,
    /// no longer stale, and with an up-to-date mesh in grid order if it was
    /// stale.
    pub open spec fn swept_from(&self, before: Chunk, registry: BlockRegistry) -> bool {
        if before.dirty {
            &&& self.pos == before.pos
            &&& self.grid@ == before.grid@
            &&& !self.dirty
            &&& self.current(registry)
            &&& self.mesh.ascending()
        } else {
            *self == before
        }
    }
}

/// The map key of a chunk position: the three coordinates, each shifted to
/// be non-negative, side by side in one number.
pub open spec fn chunk_key(c: ChunkPos) -> u128 {
    ((c.x as int + 0x8000_0000) * 0x1_0000_0000_0000_0000 + (c.y as int + 0x8000_0000)
        * 0x1_0000_0000 + (c.z as int + 0x8000_0000)) as u128
}

/// Different chunk positions have different keys.
pub proof fn lemma_chunk_key_injective(a: ChunkPos, b: ChunkPos)
    ensures
        chunk_key(a) == chunk_key(b) <==> a == b,
{
}

fn key_of(c: ChunkPos) -> (k: u128)
    ensures
        k == chunk_key(c),
{
    let x = (c.x as i64 + 0x8000_0000) as u128;
    let y = (c.y as i64 + 0x8000_0000) as u128;
    let z = (c.z as i64 + 0x8000_0000) as u128;
    x * 0x1_0000_0000_0000_0000 + y * 0x1_0000_0000 + z
}

/// The engine's hash set, `bevy::platform::collections::HashSet`: opaque
/// here, known only by what the wrappers below say of it.
#[verifier::external_type_specification]
#[verifier::external_body]
#[verifier::reject_recursive_types(T)]
#[verifier::reject_recursive_types(S)]
pub struct ExPlatformHashSet<T, S>(bevy::platform::collections::HashSet<T, S>);

/// The engine's fixed-seed hasher, `bevy::platform::hash::FixedHasher`, the
/// hasher of its hash set.
#[verifier::external_type_specification]
#[verifier::external_body]
pub struct ExFixedHasher(bevy::platform::hash::FixedHasher);

/// The coordinate triples that a set of loaded chunk positions holds.
pub uninterp spec fn loaded_keys(set: HashSet<(i32, i32, i32)>) -> Set<(i32, i32, i32)>;

/// `HashSet::new` of `bevy::platform::collections`: a set that holds nothing.
#[verifier::external_body]
fn loaded_set_new() -> (set: HashSet<(i32, i32, i32)>)
    ensures
        loaded_keys(set) == Set::<(i32, i32, i32)>::empty(),
{
    HashSet::new()
}

/// `HashSet::insert` of `bevy::platform::collections`: afterwards the set
/// holds `key` besides what it held; the result tells whether `key` was new.
#[verifier::external_body]
fn loaded_set_insert(set: &mut HashSet<(i32, i32, i32)>, key: (i32, i32, i32)) -> (fresh: bool)
    ensures
        loaded_keys(*final(set)) == loaded_keys(*old(set)).insert(key),
        fresh == !loaded_keys(*old(set)).contains(key),
{
    set.insert(key)
}

/// `HashSet::contains` of `bevy::platform::collections`: whether the set
/// holds `key`.
#[verifier::external_body]
fn loaded_set_contains(set: &HashSet<(i32, i32, i32)>, key: (i32, i32, i32)) -> (found: bool)
    ensures
        found == loaded_keys(*set).contains(key),
{
    set.contains(&key)
}

/// The set of chunks, found by chunk position.
pub struct World {
    chunks: HashMap<u128, usize>,
    loaded_chunks: HashSet<(i32, i32, i32)>,
    entities: Vec<Chunk>,
}

impl World {
    /// Every chunk entity ever created, in order of creation.
    pub closed spec fn store(&self) -> Seq<Chunk> {
        self.entities@
    }

    /// The entity that stands for each chunk position that has one.
    pub closed spec fn index(&self) -> Map<ChunkPos, int> {
        Map::new(
            |c: ChunkPos| self.chunks@.contains_key(chunk_key(c)),
            |c: ChunkPos| self.chunks@[chunk_key(c)] as int,
        )
    }

    /// The positions marked as loaded.
    pub closed spec fn loaded(&self) -> Set<ChunkPos> {
        Set::new(|c: ChunkPos| loaded_keys(self.loaded_chunks).contains((c.x, c.y, c.z)))
    }

    /// Whether the chunk at `c` exists.
    pub open spec fn has_chunk(&self, c: ChunkPos) -> bool {
        self.index().contains_key(c)
    }

    /// The world's invariant: every indexed position leads to an entity of
    /// the store that sits at that position, every entity holds a full grid,
    /// and the loaded positions are exactly the indexed ones.
    pub closed spec fn wf(&self) -> bool {
        &&& forall|c: ChunkPos| #[trigger]
            self.index().contains_key(c) ==> 0 <= self.index()[c] < self.store().len()
                && self.store()[self.index()[c]].pos == c
        &&& forall|e: int|
            0 <= e < self.store().len() ==> (#[trigger] self.store()[e]).grid@.len() == 512
        &&& forall|c: ChunkPos|
            loaded_keys(self.loaded_chunks).contains((c.x, c.y, c.z)) <==> #[trigger] self.index().contains_key(
                c,
            )
    }

    /// The block at `p`: what the chunk that holds `p` stores for it, and
    /// `Air` where there is no such chunk.
    pub open spec fn block_at(&self, p: WorldPos) -> BuiltBlockID {
        let c = p.chunk_of();
        if self.index().contains_key(c) && 0 <= self.index()[c] < self.store().len()
            && p.index_of() < self.store()[self.index()[c]].grid@.len() {
            self.store()[self.index()[c]].grid@[p.index_of()]
        } else {
            BuiltBlockID::Air
        }
    }

    /// Whether every chunk's mesh is the culled mesh of the voxels its
    /// bookkeeping records, and those are the chunk's own voxels unless the
    /// chunk is stale.
    pub open spec fn meshes_current(&self, registry: BlockRegistry) -> bool {
        forall|e: int|
            0 <= e < self.store().len() ==> {
                &&& (#[trigger] self.store()[e]).meta.tracks(self.store()[e].mesh@, registry)
                &&& !self.store()[e].dirty ==> self.store()[e].current(registry)
            }
    }

    /// What a well-formed world promises about its index and its store.
    pub proof fn lemma_wf(&self)
        requires
            self.wf(),
        ensures
            forall|c: ChunkPos| #[trigger]
                self.has_chunk(c) ==> 0 <= self.index()[c] < self.store().len()
                    && self.store()[self.index()[c]].pos == c,
            forall|e: int|
                0 <= e < self.store().len() ==> (#[trigger] self.store()[e]).grid@.len() == 512,
            self.loaded() == self.index().dom(),
    {
        assert(self.loaded() =~= self.index().dom());
    }

    /// A world without chunks: every block reads as `Air`.
    pub fn new() -> (w: World)
        ensures
            w.wf(),
            w.store() == Seq::<Chunk>::empty(),
            w.index() == Map::<ChunkPos, int>::empty(),
            forall|p: WorldPos| w.block_at(p) == BuiltBlockID::Air,
            forall|registry: BlockRegistry| w.meshes_current(registry),
    {
        let w = World {
            chunks: HashMap::new(),
            loaded_chunks: loaded_set_new(),
            entities: Vec::new(),
        };
        assert(w.index() =~= Map::<ChunkPos, int>::empty());
        w
    }

    /// The block at `world_pos`: the stored kind, or `Air` where the chunk
    /// that would hold it does not exist.
    pub fn get_block(&self, world_pos: WorldPos) -> (b: BuiltBlockID)
        ensures
            b == self.block_at(world_pos),
            !self.has_chunk(world_pos.chunk_of()) ==> b == BuiltBlockID::Air,
    {
        let chunk_pos = world_pos.to_chunk_pos();
        let key = key_of(chunk_pos);
        match self.chunks.get(&key) {
            Some(entity) => {
                let e = *entity;
                let index = world_pos.to_local_index();
                if e < self.entities.len() && index < self.entities[e].grid.len() {
                    self.entities[e].grid[index]
                } else {
                    BuiltBlockID::Air
                }
            },
            None => BuiltBlockID::Air,
        }
    }

    /// The entity of the chunk at `chunk_pos`, if that chunk exists.
    pub fn entity_of(&self, chunk_pos: ChunkPos) -> (e: Option<usize>)
        ensures
            match e {
                Some(e) => self.has_chunk(chunk_pos) && self.index()[chunk_pos] == e,
                None => !self.has_chunk(chunk_pos),
            },
    {
        match self.chunks.get(&key_of(chunk_pos)) {
            Some(entity) => Some(*entity),
            None => None,
        }
    }

    /// Number of chunk entities in the store.
    pub fn entity_count(&self) -> (n: usize)
        ensures
            n == self.store().len(),
    {
        self.entities.len()
    }

    /// The chunk entity `entity`, if the store holds that many.
    pub fn chunk(&self, entity: usize) -> (c: Option<&Chunk>)
        ensures
            match c {
                Some(c) => entity < self.store().len() && *c == self.store()[entity as int],
                None => entity >= self.store().len(),
            },
    {
        if entity < self.entities.len() {
            Some(&self.entities[entity])
        } else {
            None
        }
    }

    /// Whether `chunk_pos` is marked as loaded; in a well-formed world that
    /// is so exactly when the chunk exists.
    pub fn is_loaded(&self, chunk_pos: ChunkPos) -> (l: bool)
        ensures
            l == self.loaded().contains(chunk_pos),
    {
        loaded_set_contains(&self.loaded_chunks, (chunk_pos.x, chunk_pos.y, chunk_pos.z))
    }

    /// Writes `block` at `world_pos`, creating the chunk that holds the
    /// position (all air, freshly meshed) if it does not exist yet, and
    /// marks that chunk stale. Always succeeds.
    pub fn set_block(&mut self, world_pos: WorldPos, block: BuiltBlockID, breg: &BlockRegistry) -> (done:
        bool)
        requires
            old(self).wf(),
        ensures
            done,
            final(self).wf(),
            forall|p: WorldPos|
                final(self).block_at(p) == if p == world_pos {
                    block
                } else {
                    old(self).block_at(p)
                },
            forall|c: ChunkPos|
                final(self).has_chunk(c) <==> old(self).has_chunk(c) || c == world_pos.chunk_of(),
            final(self).chunk_is_stale(world_pos.chunk_of()),
            final(self).store().len() == old(self).store().len() + if old(self).has_chunk(
                world_pos.chunk_of(),
            ) {
                0int
            } else {
                1int
            },
            final(self).keeps_others(*old(self), final(self).index()[world_pos.chunk_of()]),
            old(self).has_chunk(world_pos.chunk_of()) ==> final(self).store()[final(self).index()[world_pos.chunk_of()]].written_from(
                old(self).store()[old(self).index()[world_pos.chunk_of()]],
                world_pos.index_of(),
                block,
            ),
            !old(self).has_chunk(world_pos.chunk_of()) ==> final(self).index()[world_pos.chunk_of()]
                == old(self).store().len() && final(self).store().last().written_fresh(
                world_pos.chunk_of(),
                *breg,
                world_pos.index_of(),
                block,
            ),
            old(self).meshes_current(*breg) ==> final(self).meshes_current(*breg),
    {
        let chunk_pos = world_pos.to_chunk_pos();
        let existed = self.chunks.contains_key(&key_of(chunk_pos));
        if !existed {
            self.create_chunk_now(breg, chunk_pos);
        }
        let ghost mid = *self;
        let done = self.set_block_in_chunk(world_pos, block);
        proof {
            let written = self.index()[chunk_pos];
            assert(mid.has_chunk(chunk_pos));
            assert(written == mid.index()[chunk_pos]);
            assert(0 <= written < mid.store().len() && mid.store()[written].pos == chunk_pos);
            if existed {
                assert(mid.store() == old(self).store() && mid.index() == old(self).index());
            } else {
                assert(written == old(self).store().len());
                let fresh = mid.store().last();
                assert(fresh.fresh_at(chunk_pos, BuiltBlockID::Air, *breg));
                assert(self.store().last().written_from(fresh, world_pos.index_of(), block));
                assert forall|c: ChunkPos| old(self).has_chunk(c) implies self.has_chunk(c)
                    && #[trigger] self.index()[c] == old(self).index()[c] by {
                    assert(c != chunk_pos);
                }
                assert forall|o: int|
                    0 <= o < old(self).store().len() && o != written implies #[trigger] self.store()[o]
                        == old(self).store()[o] by {
                    assert(mid.store().drop_last()[o] == mid.store()[o]);
                }
            }
        }
        done
    }

    /// Creates the chunk at `chunk_pos`, filled with air, with its mesh
    /// built. Creating a chunk that exists already puts a fresh entity in
    /// its place: the blocks written there before read as air again.
    pub fn create_chunk_now(&mut self, breg: &BlockRegistry, chunk_pos: ChunkPos)
        requires
            old(self).wf(),
        ensures
            final(self).wf(),
            final(self).spawned_from(*old(self), *breg, chunk_pos, BuiltBlockID::Air),
            forall|p: WorldPos|
                final(self).block_at(p) == if p.chunk_of() == chunk_pos {
                    BuiltBlockID::Air
                } else {
                    old(self).block_at(p)
                },
            old(self).meshes_current(*breg) ==> final(self).meshes_current(*breg),
    {
        spawn_chunk(self, breg, chunk_pos, None);
    }

    /// Writes `block` at `world_pos` into a chunk that exists, and marks the
    /// chunk stale. Returns whether the chunk exists; without it nothing
    /// changes.
    pub fn set_block_in_chunk(&mut self, world_pos: WorldPos, block: BuiltBlockID) -> (done: bool)
        requires
            old(self).wf(),
        ensures
            done == old(self).has_chunk(world_pos.chunk_of()),
            final(self).wf(),
            final(self).index() == old(self).index(),
            final(self).store().len() == old(self).store().len(),
            !done ==> final(self).store() == old(self).store(),
            done ==> final(self).chunk_is_stale(world_pos.chunk_of()),
            forall|e: int|
                0 <= e < final(self).store().len() ==> {
                    let before = old(self).store()[e];
                    let after = #[trigger] final(self).store()[e];
                    if done && e == old(self).index()[world_pos.chunk_of()] {
                        after.written_from(before, world_pos.index_of(), block)
                    } else {
                        after == before
                    }
                },
            forall|p: WorldPos|
                final(self).block_at(p) == if done && p == world_pos {
                    block
                } else {
                    old(self).block_at(p)
                },
    {
        let chunk_pos = world_pos.to_chunk_pos();
        let found = match self.chunks.get(&key_of(chunk_pos)) {
            Some(entity) => Some(*entity),
            None => None,
        };
        match found {
            Some(e) => {
                let index = world_pos.to_local_index();
                proof {
                    assert(self.index().contains_key(chunk_pos));
                    assert(self.index()[chunk_pos] == e);
                    assert(self.store()[e as int].grid@.len() == 512);
                }
                self.entities[e].grid.set(index, block);
                self.entities[e].dirty = true;
                proof {
                    let c = world_pos.chunk_of();
                    assert(old(self).index().contains_key(c));
                    assert(self.chunks@ == old(self).chunks@);
                    assert(self.index() =~= old(self).index());
                    assert(self.entities@.len() == old(self).entities@.len());
                    assert(self.entities@[e as int].grid@ == old(self).entities@[e as int].grid@.update(
                        index as int,
                        block,
                    ));
                    assert(self.entities@[e as int].pos == old(self).entities@[e as int].pos);
                    assert forall|o: int| 0 <= o < self.entities@.len() && o != e implies self.entities@[o]
                        == old(self).entities@[o] by {}
                    assert forall|p: WorldPos| self.block_at(p) == if p == world_pos {
                        block
                    } else {
                        old(self).block_at(p)
                    } by {
                        crate::coords::lemma_position_by_chunk_and_index(p, world_pos);
                    }
                }
                true
            },
            None => false,
        }
    }

    /// Writes `block` at `world_pos` and brings the mesh of the chunk up to
    /// date at once, by patching the faces around the edited voxel, so that
    /// the chunk need not wait for a sweep. The chunk is created first if it
    /// does not exist. A chunk that is stale already only takes the write and
    /// stays stale: its mesh is out of date and is left to the sweep.
    pub fn edit_block(&mut self, world_pos: WorldPos, block: BuiltBlockID, breg: &BlockRegistry)
        requires
            old(self).wf(),
            old(self).meshes_current(*breg),
        ensures
            final(self).wf(),
            final(self).meshes_current(*breg),
            forall|p: WorldPos|
                final(self).block_at(p) == if p == world_pos {
                    block
                } else {
                    old(self).block_at(p)
                },
            forall|c: ChunkPos|
                final(self).has_chunk(c) <==> old(self).has_chunk(c) || c == world_pos.chunk_of(),
            final(self).chunk_is_stale(world_pos.chunk_of()) <==> old(self).chunk_is_stale(
                world_pos.chunk_of(),
            ),
            final(self).store().len() == old(self).store().len() + if old(self).has_chunk(
                world_pos.chunk_of(),
            ) {
                0int
            } else {
                1int
            },
            final(self).keeps_others(*old(self), final(self).index()[world_pos.chunk_of()]),
            old(self).has_chunk(world_pos.chunk_of()) ==> final(self).store()[final(self).index()[world_pos.chunk_of()]].patched_from(
                old(self).store()[old(self).index()[world_pos.chunk_of()]],
                world_pos.index_of(),
                block,
            ),
            !old(self).has_chunk(world_pos.chunk_of()) ==> {
                &&& final(self).index()[world_pos.chunk_of()] == old(self).store().len()
                &&& final(self).store().last().pos == world_pos.chunk_of()
                &&& final(self).store().last().grid@ == Seq::new(
                    512,
                    |i: int| BuiltBlockID::Air,
                ).update(world_pos.index_of(), block)
                &&& !final(self).store().last().dirty
            },
    {
        let chunk_pos = world_pos.to_chunk_pos();
        if !self.chunks.contains_key(&key_of(chunk_pos)) {
            self.create_chunk_now(breg, chunk_pos);
        }
        let ghost mid = *self;
        let found = match self.chunks.get(&key_of(chunk_pos)) {
            Some(entity) => Some(*entity),
            None => None,
        };
        match found {
            Some(e) => {
                let index = world_pos.to_local_index();
                proof {
                    assert(self.index().contains_key(chunk_pos));
                    assert(self.index()[chunk_pos] == e);
                    assert(self.store()[e as int].grid@.len() == 512);
                    assert(self.store()[e as int].meta.tracks(self.store()[e as int].mesh@, *breg));
                }
                if !self.entities[e].dirty {
                    let old_id = self.entities[e].grid[index];
                    let ids = ChunkMesher::capture_neighbors(self.entities[e].grid.as_slice(), index);
                    let chunk = &mut self.entities[e];
                    ChunkMesher::apply_edit(
                        &mut chunk.mesh,
                        &mut chunk.meta,
                        breg,
                        index,
                        old_id,
                        block,
                        ids,
                    );
                    chunk.grid.set(index, block);
                } else {
                    self.entities[e].grid.set(index, block);
                }
                proof {
                    assert(self.chunks@ == mid.chunks@);
                    assert(self.index() =~= mid.index());
                    assert(self.entities@.len() == mid.entities@.len());
                    assert(self.entities@[e as int].grid@ == mid.entities@[e as int].grid@.update(
                        index as int,
                        block,
                    ));
                    assert(self.entities@[e as int].pos == mid.entities@[e as int].pos);
                    assert(self.entities@[e as int].dirty == mid.entities@[e as int].dirty);
                    assert forall|o: int| 0 <= o < self.entities@.len() && o != e implies self.entities@[o]
                        == mid.entities@[o] by {}
                    assert forall|p: WorldPos| self.block_at(p) == if p == world_pos {
                        block
                    } else {
                        mid.block_at(p)
                    } by {
                        crate::coords::lemma_position_by_chunk_and_index(p, world_pos);
                    }
                    if !old(self).has_chunk(chunk_pos) {
                        assert(e == old(self).store().len());
                        assert forall|c: ChunkPos| old(self).has_chunk(c) implies self.has_chunk(c)
                            && #[trigger] self.index()[c] == old(self).index()[c] by {
                            assert(c != chunk_pos);
                        }
                        assert forall|o: int|
                            0 <= o < old(self).store().len() && o != e implies #[trigger] self.store()[o]
                                == old(self).store()[o] by {
                            assert(mid.store().drop_last()[o] == mid.store()[o]);
                        }
                    } else {
                        assert(mid.store() == old(self).store() && mid.index() == old(self).index());
                    }
                }
            },
            None => {},
        }
    }

    /// Whether the chunk at `c` exists and is marked stale.
    pub open spec fn chunk_is_stale(&self, c: ChunkPos) -> bool {
        &&& self.has_chunk(c)
        &&& 0 <= self.index()[c] < self.store().len()
        &&& self.store()[self.index()[c]].dirty
    }

    /// Whether nothing but entity `written` changed since `before`: every
    /// chunk position of `before` still leads to the same entity, and every
    /// other entity of `before` is as it was.
    pub open spec fn keeps_others(&self, before: World, written: int) -> bool {
        &&& forall|c: ChunkPos|
            before.has_chunk(c) ==> self.has_chunk(c) && #[trigger] self.index()[c]
                == before.index()[c]
        &&& forall|o: int|
            0 <= o < before.store().len() && o != written ==> #[trigger] self.store()[o]
                == before.store()[o]
    }

    /// Whether this world is `before` after the writes `events` and nothing
    /// else: every chunk position of `before` still leads to the same
    /// entity, no entity of `before` has a new mesh, and an entity whose
    /// place no event writes to is as it was.
    pub open spec fn kept_through(&self, before: World, events: Seq<SetBlockEvent>) -> bool {
        &&& self.store().len() >= before.store().len()
        &&& forall|c: ChunkPos|
            before.has_chunk(c) ==> self.has_chunk(c) && #[trigger] self.index()[c]
                == before.index()[c]
        &&& forall|o: int|
            0 <= o < before.store().len() ==> (#[trigger] self.store()[o]).kept_from(
                before.store()[o],
                touches_chunk(events, before.store()[o].pos),
            )
    }

    /// Whether this world is `before` with one more entity: a chunk at
    /// `chunk_pos` filled with `fill`, not stale and with its mesh built in
    /// grid order, which the index now gives for `chunk_pos`.
    pub open spec fn spawned_from(
        &self,
        before: World,
        registry: BlockRegistry,
        chunk_pos: ChunkPos,
        fill: BuiltBlockID,
    ) -> bool {
        &&& self.store().len() == before.store().len() + 1
        &&& self.store().drop_last() == before.store()
        &&& self.index() == before.index().insert(chunk_pos, before.store().len() as int)
        &&& self.store().last().fresh_at(chunk_pos, fill, registry)
    }
}

/// Creates the chunk at `chunk_pos`, filled with `fill_with` (air when
/// `None`), builds its mesh and enters it in the world. Where the position
/// had a chunk already, the new entity takes its place in the index and the
/// old one stays in the store, unreachable by position.
pub fn spawn_chunk(
    world: &mut World,
    breg: &BlockRegistry,
    chunk_pos: ChunkPos,
    fill_with: Option<BuiltBlockID>,
)
    requires
        old(world).wf(),
    ensures
        final(world).wf(),
        final(world).spawned_from(*old(world), *breg, chunk_pos, fill_of(fill_with)),
        forall|p: WorldPos|
            final(world).block_at(p) == if p.chunk_of() == chunk_pos {
                fill_of(fill_with)
            } else {
                old(world).block_at(p)
            },
        old(world).meshes_current(*breg) ==> final(world).meshes_current(*breg),
{
    let fill_block = match fill_with {
        Some(block) => block,
        None => BuiltBlockID::Air,
    };
    let mut grid: Vec<BuiltBlockID> = Vec::new();
    let mut n: usize = 0;
    while n < CHUNK_LEN
        invariant
            n <= CHUNK_LEN,
            grid@ == Seq::new(n as nat, |i: int| fill_block),
        decreases CHUNK_LEN - n,
    {
        grid.push(fill_block);
        n += 1;
    }
    let key = key_of(chunk_pos);
    match ChunkMesher::build(grid.as_slice(), breg) {
        Ok((mesh, meta)) => {
            let entity = world.entities.len();
            world.entities.push(Chunk { pos: chunk_pos, meta, grid, mesh, dirty: false });
            world.chunks.insert(key, entity);
            loaded_set_insert(&mut world.loaded_chunks, (chunk_pos.x, chunk_pos.y, chunk_pos.z));
            proof {
                assert(world.index() =~= old(world).index().insert(chunk_pos, entity as int))
                    by {
                    assert forall|c: ChunkPos| c != chunk_pos implies chunk_key(c) != key by {
                        lemma_chunk_key_injective(c, chunk_pos);
                    }
                }
                assert(world.store().drop_last() =~= old(world).store());
                assert forall|c: ChunkPos|
                    loaded_keys(world.loaded_chunks).contains((c.x, c.y, c.z)) <==> #[trigger] world.index().contains_key(
                        c,
                    ) by {
                    assert(old(world).index().contains_key(c) <==> loaded_keys(
                        old(world).loaded_chunks,
                    ).contains((c.x, c.y, c.z)));
                }
            }
        },
        Err(_) => {},
    }
}

/// The kind a new chunk is filled with: the one asked for, or air.
pub open spec fn fill_of(fill_with: Option<BuiltBlockID>) -> BuiltBlockID {
    match fill_with {
        Some(block) => block,
        None => BuiltBlockID::Air,
    }
}

/// Asks for the meshes to be brought up to date.
#[derive(Debug, Clone, Copy, PartialEq, Eq, Default, Structural)]
pub struct RegenerateMesh;

/// Asks for `block` to be written at `world_pos`.
#[derive(Debug, Clone, Copy, PartialEq, Eq, Structural)]
pub struct SetBlockEvent {
    pub world_pos: WorldPos,
    pub block: BuiltBlockID,
}

/// Asks which block stands at `world_pos`.
#[derive(Debug, Clone, Copy, PartialEq, Eq, Structural)]
pub struct GetBlockEvent {
    pub world_pos: WorldPos,
}

/// The block at `p` once `events` have been applied in order to a world
/// that held `start` there: what the last event for `p` wrote, or `start`
/// when no event names `p`.
pub open spec fn block_after(events: Seq<SetBlockEvent>, start: BuiltBlockID, p: WorldPos) -> BuiltBlockID
    decreases events.len(),
{
    if events.len() == 0 {
        start
    } else if events.last().world_pos == p {
        events.last().block
    } else {
        block_after(events.drop_last(), start, p)
    }
}

/// Whether one of `events` writes into chunk `c`.
pub open spec fn touches_chunk(events: Seq<SetBlockEvent>, c: ChunkPos) -> bool {
    exists|i: int| 0 <= i < events.len() && (#[trigger] events[i]).world_pos.chunk_of() == c
}

/// Applies the queued block writes to the world, in order. Chunks are
/// created where a write needs one; every chunk written to ends up stale.
pub fn handle_set_block_events(
    set_block_events: &Vec<SetBlockEvent>,
    world: &mut World,
    breg: &BlockRegistry,
)
    requires
        old(world).wf(),
    ensures
        final(world).wf(),
        forall|p: WorldPos|
            final(world).block_at(p) == block_after(set_block_events@, old(world).block_at(p), p),
        forall|c: ChunkPos|
            final(world).has_chunk(c) <==> old(world).has_chunk(c) || touches_chunk(
                set_block_events@,
                c,
            ),
        forall|c: ChunkPos|
            touches_chunk(set_block_events@, c) ==> #[trigger] final(world).chunk_is_stale(c),
        final(world).kept_through(*old(world), set_block_events@),
        old(world).meshes_current(*breg) ==> final(world).meshes_current(*breg),
{
    let mut i: usize = 0;
    while i < set_block_events.len()
        invariant
            i <= set_block_events.len(),
            world.wf(),
            forall|p: WorldPos|
                world.block_at(p) == block_after(
                    set_block_events@.take(i as int),
                    old(world).block_at(p),
                    p,
                ),
            forall|c: ChunkPos|
                world.has_chunk(c) <==> old(world).has_chunk(c) || touches_chunk(
                    set_block_events@.take(i as int),
                    c,
                ),
            forall|c: ChunkPos|
                touches_chunk(set_block_events@.take(i as int), c) ==> #[trigger] world.chunk_is_stale(
                    c,
                ),
            world.kept_through(*old(world), set_block_events@.take(i as int)),
            old(world).meshes_current(*breg) ==> world.meshes_current(*breg),
        decreases set_block_events.len() - i,
    {
        let event = set_block_events[i];
        let ghost seen = set_block_events@.take(i as int);
        let ghost next = set_block_events@.take(i as int + 1);
        let ghost mid = *world;
        world.set_block(event.world_pos, event.block, breg);
        proof {
            let hit = event.world_pos.chunk_of();
            let written = world.index()[hit];
            assert(next.drop_last() == seen);
            assert(next.last() == event);
            assert(next[i as int].world_pos.chunk_of() == hit);
            mid.lemma_wf();
            world.lemma_wf();
            assert(world.has_chunk(hit));
            assert forall|c: ChunkPos| touches_chunk(seen, c) implies touches_chunk(next, c) by {
                let k = choose|k: int|
                    0 <= k < seen.len() && (#[trigger] seen[k]).world_pos.chunk_of() == c;
                assert(next[k] == seen[k]);
            }
            assert forall|c: ChunkPos| touches_chunk(next, c) implies #[trigger] world.chunk_is_stale(
                c,
            ) by {
                let k = choose|k: int|
                    0 <= k < next.len() && (#[trigger] next[k]).world_pos.chunk_of() == c;
                if c != hit {
                    assert(seen[k] == next[k]);
                    assert(mid.chunk_is_stale(c));
                    assert(mid.has_chunk(c));
                    assert(world.index()[c] == mid.index()[c]);
                    assert(world.store()[mid.index()[c]] == mid.store()[mid.index()[c]]);
                }
            }
            assert(world.kept_through(*old(world), next)) by {
                assert forall|c: ChunkPos| old(world).has_chunk(c) implies world.has_chunk(c)
                    && #[trigger] world.index()[c] == old(world).index()[c] by {
                    assert(mid.index()[c] == old(world).index()[c]);
                }
                assert forall|o: int| 0 <= o < old(world).store().len() implies (
                #[trigger] world.store()[o]).kept_from(
                    old(world).store()[o],
                    touches_chunk(next, old(world).store()[o].pos),
                ) by {
                    assert(mid.store()[o].kept_from(
                        old(world).store()[o],
                        touches_chunk(seen, old(world).store()[o].pos),
                    ));
                    if o == written {
                        assert(mid.has_chunk(hit));
                        assert(mid.store()[o].pos == hit);
                    } else {
                        assert(world.store()[o] == mid.store()[o]);
                    }
                }
            }
            assert forall|c: ChunkPos|
                world.has_chunk(c) <==> old(world).has_chunk(c) || touches_chunk(next, c) by {
                if touches_chunk(seen, c) {
                    let k = choose|k: int|
                        0 <= k < seen.len() && (#[trigger] seen[k]).world_pos.chunk_of() == c;
                    assert(next[k] == seen[k]);
                }
                if c == event.world_pos.chunk_of() {
                    assert(next[i as int].world_pos.chunk_of() == c);
                }
                if touches_chunk(next, c) {
                    let k = choose|k: int|
                        0 <= k < next.len() && (#[trigger] next[k]).world_pos.chunk_of() == c;
                    if k < i {
                        assert(seen[k] == next[k]);
                    }
                }
            }
        }
        i += 1;
    }
    assert(set_block_events@.take(i as int) == set_block_events@);
}

/// Rebuilds the mesh of every stale chunk from its voxels and clears the
/// mark. Returns the entities whose mesh was rebuilt, in store order.
pub fn update_dirty_chunks(world: &mut World, breg: &BlockRegistry) -> (rebuilt: Vec<usize>)
    requires
        old(world).wf(),
    ensures
        final(world).wf(),
        final(world).index() == old(world).index(),
        final(world).store().len() == old(world).store().len(),
        forall|e: int|
            0 <= e < final(world).store().len() ==> (#[trigger] final(world).store()[e]).swept_from(
                old(world).store()[e],
                *breg,
            ),
        forall|p: WorldPos| final(world).block_at(p) == old(world).block_at(p),
        forall|k: int|
            0 <= k < rebuilt@.len() ==> (#[trigger] rebuilt@[k]) < old(world).store().len() && old(
                world,
            ).store()[rebuilt@[k] as int].dirty,
        forall|e: int|
            0 <= e < old(world).store().len() && (#[trigger] old(world).store()[e]).dirty
                ==> rebuilt@.contains(e as usize),
        forall|a: int, b: int| 0 <= a < b < rebuilt@.len() ==> rebuilt@[a] < rebuilt@[b],
        old(world).meshes_current(*breg) ==> final(world).meshes_current(*breg) && forall|e: int|
            0 <= e < final(world).store().len() ==> (#[trigger] final(world).store()[e]).current(
                *breg,
            ),
{
    let mut rebuilt: Vec<usize> = Vec::new();
    let count = world.entities.len();
    let mut i: usize = 0;
    while i < count
        invariant
            i <= count,
            count == old(world).entities@.len(),
            world.entities@.len() == count,
            world.chunks@ == old(world).chunks@,
            world.loaded_chunks == old(world).loaded_chunks,
            old(world).wf(),
            forall|e: int|
                0 <= e < i ==> (#[trigger] world.entities@[e]).swept_from(
                    old(world).entities@[e],
                    *breg,
                ),
            forall|e: int| i <= e < count ==> #[trigger] world.entities@[e] == old(world).entities@[e],
            forall|k: int|
                0 <= k < rebuilt@.len() ==> (#[trigger] rebuilt@[k]) < i && old(
                    world,
                ).entities@[rebuilt@[k] as int].dirty,
            forall|e: int|
                0 <= e < i && (#[trigger] old(world).entities@[e]).dirty ==> rebuilt@.contains(
                    e as usize,
                ),
            forall|a: int, b: int| 0 <= a < b < rebuilt@.len() ==> rebuilt@[a] < rebuilt@[b],
        decreases count - i,
    {
        let ghost was = world.entities@;
        proof {
            assert(old(world).store()[i as int].grid@.len() == 512);
            assert(was[i as int] == old(world).entities@[i as int]);
        }
        if world.entities[i].dirty {
            match ChunkMesher::build(world.entities[i].grid.as_slice(), breg) {
                Ok((mesh, meta)) => {
                    world.entities[i].mesh = mesh;
                    world.entities[i].meta = meta;
                    world.entities[i].dirty = false;
                    let ghost listed = rebuilt@;
                    rebuilt.push(i);
                    proof {
                        assert(world.entities@[i as int].grid == was[i as int].grid);
                        assert(world.entities@[i as int].pos == was[i as int].pos);
                        assert(world.entities@[i as int].mesh == mesh);
                        assert(world.entities@[i as int].meta == meta);
                        assert forall|e: int| 0 <= e < count && e != i implies world.entities@[e]
                            == was[e] by {}
                        assert(world.entities@[i as int].swept_from(old(world).entities@[i as int], *breg));
                        assert forall|e: int|
                            0 <= e < i + 1 && (#[trigger] old(world).entities@[e]).dirty
                                implies rebuilt@.contains(e as usize) by {
                            if e < i {
                                let k = choose|k: int| 0 <= k < listed.len() && listed[k] == e as usize;
                                assert(rebuilt@[k] == e as usize);
                            } else {
                                assert(rebuilt@[listed.len() as int] == i);
                            }
                        }
                    }
                },
                Err(_) => {},
            }
        }
        i += 1;
    }
    proof {
        assert(world.index() =~= old(world).index());
    }
    rebuilt
}

} // verus!
