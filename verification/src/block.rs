//! Block identifiers and the registry that maps them to cube geometry.

use vstd::prelude::*;
use crate::built_block_mesh::{get_texture, isotropic_mesh, top_bottom_mesh, CubeFaces};
use crate::mesher::Face;

verus! {

/// The closed set of block kinds. `Air` is the empty value: it is never
/// drawn, never hides a neighbour's face, and fills new chunks.
#[derive(Debug, Clone, Copy, PartialEq, Eq, Hash, Structural)]
pub enum BuiltBlockID {
    Air,
    Brick,
    Dirt,
    Grass,
    PlanksOak,
    WoolColoredOrange,
}

impl BuiltBlockID {
    /// Number of block kinds.
    pub const COUNT: usize = 6;

    /// Position of this kind in the declaration order, starting at 0 for `Air`.
    pub open spec fn ordinal(self) -> nat {
        match self {
            BuiltBlockID::Air => 0,
            BuiltBlockID::Brick => 1,
            BuiltBlockID::Dirt => 2,
            BuiltBlockID::Grass => 3,
            BuiltBlockID::PlanksOak => 4,
            BuiltBlockID::WoolColoredOrange => 5,
        }
    }

    /// The kind at position `n`; `Air` for every `n` that names no kind.
    pub open spec fn from_ordinal(n: int) -> BuiltBlockID {
        if n == 1 {
            BuiltBlockID::Brick
        } else if n == 2 {
            BuiltBlockID::Dirt
        } else if n == 3 {
            BuiltBlockID::Grass
        } else if n == 4 {
            BuiltBlockID::PlanksOak
        } else if n == 5 {
            BuiltBlockID::WoolColoredOrange
        } else {
            BuiltBlockID::Air
        }
    }

    /// Whether this kind fills its cell: true for every kind but `Air`.
    pub open spec fn solid(self) -> bool {
        self != BuiltBlockID::Air
    }

    /// The kind with ordinal `value`, or `None` when `value` names no kind.
    pub fn from_repr(value: usize) -> (r: Option<BuiltBlockID>)
        ensures
            value < BuiltBlockID::COUNT ==> r == Some(BuiltBlockID::from_ordinal(value as int)),
            value >= BuiltBlockID::COUNT ==> r.is_none(),
    {
        if value == 0 {
            Some(BuiltBlockID::Air)
        } else if value == 1 {
            Some(BuiltBlockID::Brick)
        } else if value == 2 {
            Some(BuiltBlockID::Dirt)
        } else if value == 3 {
            Some(BuiltBlockID::Grass)
        } else if value == 4 {
            Some(BuiltBlockID::PlanksOak)
        } else if value == 5 {
            Some(BuiltBlockID::WoolColoredOrange)
        } else {
            None
        }
    }

    /// The kind with ordinal `value`, falling back to `Air` when `value`
    /// names no kind.
    pub fn from_repr_or_air(value: usize) -> (b: BuiltBlockID)
        ensures
            b == BuiltBlockID::from_ordinal(value as int),
            value >= BuiltBlockID::COUNT ==> b == BuiltBlockID::Air,
    {
        match BuiltBlockID::from_repr(value) {
            Some(b) => b,
            None => BuiltBlockID::Air,
        }
    }

    /// The ordinal of this kind.
    pub fn repr(self) -> (n: usize)
        ensures
            n == self.ordinal(),
            n < BuiltBlockID::COUNT,
    {
        match self {
            BuiltBlockID::Air => 0,
            BuiltBlockID::Brick => 1,
            BuiltBlockID::Dirt => 2,
            BuiltBlockID::Grass => 3,
            BuiltBlockID::PlanksOak => 4,
            BuiltBlockID::WoolColoredOrange => 5,
        }
    }

    /// Whether this kind fills its cell.
    pub fn is_solid(self) -> (s: bool)
        ensures
            s == self.solid(),
    {
        match self {
            BuiltBlockID::Air => false,
            _ => true,
        }
    }
}

/// The ordinal identifies the kind: converting a kind to its ordinal and
/// back gives the kind, and every ordinal below `COUNT` is the ordinal of the
/// kind it converts to.
pub proof fn lemma_ordinal_round_trip(b: BuiltBlockID, n: int)
    ensures
        BuiltBlockID::from_ordinal(b.ordinal() as int) == b,
        b.ordinal() < BuiltBlockID::COUNT,
        0 <= n < BuiltBlockID::COUNT ==> BuiltBlockID::from_ordinal(n).ordinal() == n,
        !(0 <= n < BuiltBlockID::COUNT) ==> BuiltBlockID::from_ordinal(n) == BuiltBlockID::Air,
{
}

/// Cube geometry of every drawable block kind. Built once, read-only after.
#[derive(Debug, Clone, Copy, PartialEq, Eq, Structural)]
pub struct BlockRegistry {
    pub grass: CubeFaces,
    pub brick: CubeFaces,
    pub dirt: CubeFaces,
    pub planks_oak: CubeFaces,
    pub wool_colored_orange: CubeFaces,
}

impl BlockRegistry {
    /// The geometry registered for `id`, as a specification: none for `Air`.
    pub open spec fn mesh_of(self, id: BuiltBlockID) -> Option<CubeFaces> {
        match id {
            BuiltBlockID::Air => None,
            BuiltBlockID::Brick => Some(self.brick),
            BuiltBlockID::Dirt => Some(self.dirt),
            BuiltBlockID::Grass => Some(self.grass),
            BuiltBlockID::PlanksOak => Some(self.planks_oak),
            BuiltBlockID::WoolColoredOrange => Some(self.wool_colored_orange),
        }
    }

    /// The geometry used for `id`, as a specification: the registered one, or
    /// the missing-texture cube where none is registered.
    pub open spec fn geometry_of(self, id: BuiltBlockID) -> CubeFaces {
        match self.mesh_of(id) {
            Some(faces) => faces,
            None => CubeFaces::missing(),
        }
    }

    /// The texture index drawn on side `face` of a block of kind `id`.
    pub open spec fn texture_of(self, id: BuiltBlockID, face: Face) -> u32 {
        self.geometry_of(id).side(face)
    }

    /// The registry of the stock blocks, with textures looked up by name in
    /// the texture table: grass has its own top, dirt below and grass sides;
    /// every other block shows one texture on all sides.
    pub fn from_texture_table() -> (r: BlockRegistry)
        ensures
            r.grass == CubeFaces::spec_cube(3, 2, 4, 4, 4, 4),
            r.brick == CubeFaces::spec_cube(1, 1, 1, 1, 1, 1),
            r.dirt == CubeFaces::spec_cube(2, 2, 2, 2, 2, 2),
            r.planks_oak == CubeFaces::spec_cube(5, 5, 5, 5, 5, 5),
            r.wool_colored_orange == CubeFaces::spec_cube(6, 6, 6, 6, 6, 6),
    {
        proof {
            crate::built_block_mesh::lemma_texture_names();
        }
        BlockRegistry {
            grass: top_bottom_mesh(
                get_texture("grass_carried.png"),
                get_texture("dirt.png"),
                get_texture("grass_side_carried.png"),
            ),
            brick: isotropic_mesh(get_texture("brick.png")),
            dirt: isotropic_mesh(get_texture("dirt.png")),
            planks_oak: isotropic_mesh(get_texture("planks_oak.png")),
            wool_colored_orange: isotropic_mesh(get_texture("wool_colored_orange.png")),
        }
    }

    /// The geometry registered for `voxel`; `None` for `Air`, which has none.
    pub fn get_mesh(&self, voxel: &BuiltBlockID) -> (m: Option<CubeFaces>)
        ensures
            m == self.mesh_of(*voxel),
            m.is_none() <==> *voxel == BuiltBlockID::Air,
    {
        match *voxel {
            BuiltBlockID::Air => None,
            BuiltBlockID::Brick => Some(self.brick),
            BuiltBlockID::Dirt => Some(self.dirt),
            BuiltBlockID::Grass => Some(self.grass),
            BuiltBlockID::PlanksOak => Some(self.planks_oak),
            BuiltBlockID::WoolColoredOrange => Some(self.wool_colored_orange),
        }
    }

    /// The six face descriptors used for `id`. A kind without registered
    /// geometry resolves to the missing-texture cube (texture index 0).
    pub fn geometry_for(&self, id: BuiltBlockID) -> (g: CubeFaces)
        ensures
            g == self.geometry_of(id),
            id == BuiltBlockID::Air ==> g == CubeFaces::missing(),
    {
        match self.get_mesh(&id) {
            Some(faces) => faces,
            None => isotropic_mesh(0),
        }
    }

    /// Whether a voxel of kind `voxel` hides the face of a neighbour that
    /// touches it on `side`: every kind but `Air` does, on every side.
    pub fn is_covering(&self, voxel: &BuiltBlockID, side: Face) -> (c: bool)
        ensures
            c == voxel.solid(),
    {
        voxel.is_solid()
    }

    /// Whether `id` is solid: true for every kind but `Air`.
    pub fn is_solid(&self, id: BuiltBlockID) -> (s: bool)
        ensures
            s == id.solid(),
            s <==> id != BuiltBlockID::Air,
    {
        id.is_solid()
    }
}

} // verus!
