//! Uniform values of the block material.

use vstd::prelude::*;
use crate::built_block_mesh::MAX_BLOCK_TEXTURE_COUNT;

verus! {

/// What the block shader is told about the texture array it samples.
#[derive(Debug, Clone, Copy, PartialEq, Eq, Structural)]
pub struct MaterialUniforms {
    /// Number of textures bound.
    pub texture_count: u32,
}

impl MaterialUniforms {
    /// The uniforms for a material that binds the whole block texture table.
    pub fn for_texture_table() -> (u: MaterialUniforms)
        ensures
            u.texture_count == MAX_BLOCK_TEXTURE_COUNT,
    {
        MaterialUniforms { texture_count: 7 }
    }
}

} // verus!
