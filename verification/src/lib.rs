//! Chunked voxel world: coordinate mapping, block registry, face-culling
//! chunk meshes, world storage and voxel-grid ray walks, with machine-checked
//! contracts.

pub mod animation;
pub mod bindless_material;
pub mod block;
pub mod built_block_mesh;
pub mod chunk;
pub mod coords;
pub mod mesh_laws;
pub mod mesher;
pub mod raycast;
