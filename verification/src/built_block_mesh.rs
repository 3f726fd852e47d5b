//! The block texture table and the per-face texture descriptors of cubes.

use vstd::prelude::*;
use crate::mesher::Face;

verus! {

/// Number of entries in the block texture table.
pub const MAX_BLOCK_TEXTURE_COUNT: usize = 7;

/// Index of a texture in the block texture table.
pub type BlockTextureIndex = u32;

/// The texture file names, in table order. Entry 0 is the missing-texture
/// placeholder that every failed lookup resolves to.
pub open spec fn texture_names() -> Seq<Seq<char>> {
    seq![
        "missing_tile.png"@,
        "brick.png"@,
        "dirt.png"@,
        "grass_carried.png"@,
        "grass_side_carried.png"@,
        "planks_oak.png"@,
        "wool_colored_orange.png"@,
    ]
}

/// The first table index that holds `name`, if any.
pub open spec fn texture_index_of(name: Seq<char>) -> Option<u32> {
    if name == texture_names()[0] {
        Some(0u32)
    } else if name == texture_names()[1] {
        Some(1u32)
    } else if name == texture_names()[2] {
        Some(2u32)
    } else if name == texture_names()[3] {
        Some(3u32)
    } else if name == texture_names()[4] {
        Some(4u32)
    } else if name == texture_names()[5] {
        Some(5u32)
    } else if name == texture_names()[6] {
        Some(6u32)
    } else {
        None
    }
}

/// The table entries are pairwise different, so each name has one index.
pub proof fn lemma_texture_names()
    ensures
        texture_names().len() == MAX_BLOCK_TEXTURE_COUNT,
        forall|i: int, j: int|
            0 <= i < j < texture_names().len() ==> texture_names()[i] != texture_names()[j],
        forall|i: int|
            0 <= i < texture_names().len() ==> texture_index_of(#[trigger] texture_names()[i])
                == Some(i as u32),
{
    reveal_strlit("missing_tile.png");
    reveal_strlit("brick.png");
    reveal_strlit("dirt.png");
    reveal_strlit("grass_carried.png");
    reveal_strlit("grass_side_carried.png");
    reveal_strlit("planks_oak.png");
    reveal_strlit("wool_colored_orange.png");
    let t = texture_names();
    assert(t[0].len() == 16);
    assert(t[1].len() == 9);
    assert(t[2].len() == 8);
    assert(t[3].len() == 17);
    assert(t[4].len() == 22);
    assert(t[5].len() == 14);
    assert(t[6].len() == 23);
}

/// `str`'s equality (`<str as PartialEq>::eq`): true exactly when the two
/// slices hold the same characters.
#[verifier::external_body]
fn same_text(a: &str, b: &str) -> (r: bool)
    ensures
        r == (a@ == b@),
{
    a == b
}

/// The file name at `index` of the texture table, or `None` past its end.
pub fn block_texture(index: usize) -> (name: Option<&'static str>)
    ensures
        index < MAX_BLOCK_TEXTURE_COUNT ==> name.is_some() && name.unwrap()@
            == texture_names()[index as int],
        index >= MAX_BLOCK_TEXTURE_COUNT ==> name.is_none(),
{
    if index == 0 {
        Some("missing_tile.png")
    } else if index == 1 {
        Some("brick.png")
    } else if index == 2 {
        Some("dirt.png")
    } else if index == 3 {
        Some("grass_carried.png")
    } else if index == 4 {
        Some("grass_side_carried.png")
    } else if index == 5 {
        Some("planks_oak.png")
    } else if index == 6 {
        Some("wool_colored_orange.png")
    } else {
        None
    }
}

/// The table index of the texture called `name`, or `None` when the table
/// holds no such name.
pub fn get_texture_option(name: &str) -> (r: Option<u32>)
    ensures
        r == texture_index_of(name@),
        r.is_some() ==> r.unwrap() < MAX_BLOCK_TEXTURE_COUNT && texture_names()[r.unwrap() as int]
            == name@,
        r.is_none() ==> forall|i: int| 0 <= i < texture_names().len() ==> texture_names()[i] != name@,
{
    if same_text(name, "missing_tile.png") {
        Some(0)
    } else if same_text(name, "brick.png") {
        Some(1)
    } else if same_text(name, "dirt.png") {
        Some(2)
    } else if same_text(name, "grass_carried.png") {
        Some(3)
    } else if same_text(name, "grass_side_carried.png") {
        Some(4)
    } else if same_text(name, "planks_oak.png") {
        Some(5)
    } else if same_text(name, "wool_colored_orange.png") {
        Some(6)
    } else {
        None
    }
}

/// The table index of the texture called `name`; index 0, the
/// missing-texture placeholder, when the table holds no such name.
pub fn get_texture(name: &str) -> (i: u32)
    ensures
        i == match texture_index_of(name@) {
            Some(found) => found,
            None => 0u32,
        },
        i < MAX_BLOCK_TEXTURE_COUNT,
{
    match get_texture_option(name) {
        Some(found) => found,
        None => 0,
    }
}

/// The texture index shown on each of the six sides of a cube.
#[derive(Debug, Clone, Copy, PartialEq, Eq, Hash, Structural)]
pub struct CubeFaces {
    pub top: BlockTextureIndex,
    pub bottom: BlockTextureIndex,
    pub right: BlockTextureIndex,
    pub left: BlockTextureIndex,
    pub back: BlockTextureIndex,
    pub forward: BlockTextureIndex,
}

impl CubeFaces {
    /// The cube with the given texture on each side, as a specification.
    pub open spec fn spec_cube(
        top: u32,
        bottom: u32,
        right: u32,
        left: u32,
        back: u32,
        forward: u32,
    ) -> CubeFaces {
        CubeFaces { top, bottom, right, left, back, forward }
    }

    /// The cube that shows the missing-texture placeholder on all sides.
    pub open spec fn missing() -> CubeFaces {
        CubeFaces::spec_cube(0, 0, 0, 0, 0, 0)
    }

    /// The texture index on side `face`, as a specification.
    pub open spec fn side(self, face: Face) -> u32 {
        match face {
            Face::Top => self.top,
            Face::Bottom => self.bottom,
            Face::Right => self.right,
            Face::Left => self.left,
            Face::Back => self.back,
            Face::Forward => self.forward,
        }
    }

    /// The texture index on side `face`.
    pub fn texture(&self, face: Face) -> (t: u32)
        ensures
            t == self.side(face),
    {
        match face {
            Face::Top => self.top,
            Face::Bottom => self.bottom,
            Face::Right => self.right,
            Face::Left => self.left,
            Face::Back => self.back,
            Face::Forward => self.forward,
        }
    }
}

/// A cube with `side` on all six sides.
pub fn isotropic_mesh(side: BlockTextureIndex) -> (m: CubeFaces)
    ensures
        m == CubeFaces::spec_cube(side, side, side, side, side, side),
{
    simple_cubic_mesh(side, side, side, side, side, side)
}

/// A cube with `axial` on top and bottom and `side` on the four other sides.
pub fn axial_mesh(axial: BlockTextureIndex, side: BlockTextureIndex) -> (m: CubeFaces)
    ensures
        m == CubeFaces::spec_cube(axial, axial, side, side, side, side),
{
    simple_cubic_mesh(axial, axial, side, side, side, side)
}

/// A cube with `top` on top, `bottom` below and `side` on the four other sides.
pub fn top_bottom_mesh(
    top: BlockTextureIndex,
    bottom: BlockTextureIndex,
    side: BlockTextureIndex,
) -> (m: CubeFaces)
    ensures
        m == CubeFaces::spec_cube(top, bottom, side, side, side, side),
{
    simple_cubic_mesh(top, bottom, side, side, side, side)
}

/// A cube with one texture index per side.
pub fn simple_cubic_mesh(
    top: BlockTextureIndex,
    bottom: BlockTextureIndex,
    right: BlockTextureIndex,
    left: BlockTextureIndex,
    back: BlockTextureIndex,
    forward: BlockTextureIndex,
) -> (m: CubeFaces)
    ensures
        m == CubeFaces::spec_cube(top, bottom, right, left, back, forward),
{
    CubeFaces { top, bottom, right, left, back, forward }
}

} // verus!
