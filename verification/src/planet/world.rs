pub mod chunk;
pub mod chunk_world;
pub mod voxel;
