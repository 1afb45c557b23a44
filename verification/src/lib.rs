//! Voxel-planet world logic: chunked voxel storage, chunk bookkeeping,
//! marching-squares cell meshes, greedy rectangle merging, shared border
//! vertices and the small pieces of game state that sit around them.
pub mod foliage;
pub mod foreign;
pub mod planet;
pub mod tiles;
