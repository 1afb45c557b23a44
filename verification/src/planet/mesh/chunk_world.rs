use crate::foreign::{classic_chunk_map_contains_key, classic_chunk_map_contents, classic_chunk_map_new, perlin_for_seed, perlin_new};
use crate::planet::startup::{
    after_set_voxel, chunk_views, map_dirty_chunks, map_get_voxel, map_mark_all_dirty, map_set_dirty,
    law_write_marks_side_neighbors_dirty, map_set_voxel, full_grid_at, voxel_in, with_chunk_dirty, Chunk, ChunkModel,
    VoxelType, CHUNK_SIZE,
};
use crate::planet::world::chunk_world::chunk_key;
use bevy::platform::collections::HashMap;
use noise::Perlin;
use vstd::prelude::*;

verus! {

/// A first-generation voxel world that also carries its noise generator.
pub struct ChunkWorld {
    /// Loaded chunks by their world position
    pub loaded_chunks: HashMap<(i32, i32), Chunk>,
    pub noise: Perlin,
}

impl ChunkWorld {
    /// The loaded chunks, each by its abstract contents.
    pub open spec fn chunks(&self) -> Map<(i32, i32), ChunkModel> {
        chunk_views(classic_chunk_map_contents(self.loaded_chunks))
    }

    /// A world with no chunk loaded and noise seeded with 42.
    pub fn new() -> (r: Self)
        ensures
            r.chunks().dom().is_empty(),
            r.noise == perlin_for_seed(42),
    {
        Self { loaded_chunks: classic_chunk_map_new(), noise: perlin_new(42) }
    }

    /// The voxel at world coordinates `(x, y)`, or air where its chunk is not loaded.
    pub fn get_voxel(&self, x: i32, y: i32) -> (r: VoxelType)
        ensures
            r == voxel_in(self.chunks(), x as int, y as int),
    {
        map_get_voxel(&self.loaded_chunks, x, y)
    }

    /// Writes `vtype` at world `(x, y)` when its chunk is loaded, marking the
    /// loaded chunks across the edges the voxel lies on dirty.
    pub fn set_voxel(&mut self, x: i32, y: i32, vtype: VoxelType)
        ensures
            final(self).chunks() == after_set_voxel(old(self).chunks(), x as int, y as int, vtype),
            full_grid_at(old(self).chunks(), x, y),
            // what the write does to the voxels, as `law_voxel_read_after_write` states it
            old(self).chunks().dom().contains(chunk_key(x as int, y as int))
                ==> voxel_in(final(self).chunks(), x as int, y as int) == vtype,
            forall|x2: i32, y2: i32| #![trigger voxel_in(final(self).chunks(), x2 as int, y2 as int)]
                (x2, y2) != (x, y) ==> voxel_in(final(self).chunks(), x2 as int, y2 as int) == voxel_in(old(self).chunks(), x2 as int, y2 as int),
            // as `law_write_marks_side_neighbors_dirty` states it
            forall|dx: int, dy: int| #![trigger chunk_key(x + dx, y + dy)]
                old(self).chunks().dom().contains(chunk_key(x as int, y as int))
                && ((dx == 0 && (dy == 1 || dy == -1)) || (dy == 0 && (dx == 1 || dx == -1)))
                && old(self).chunks().dom().contains(chunk_key(x + dx, y + dy))
                && chunk_key(x + dx, y + dy) != chunk_key(x as int, y as int)
                ==> final(self).chunks()[chunk_key(x + dx, y + dy)].dirty,
            final(self).noise == old(self).noise,
    {
        map_set_voxel(&mut self.loaded_chunks, x, y, vtype);
        proof {
            assert forall|dx: int, dy: int| #![trigger chunk_key(x + dx, y + dy)]
                old(self).chunks().dom().contains(chunk_key(x as int, y as int))
                && ((dx == 0 && (dy == 1 || dy == -1)) || (dy == 0 && (dx == 1 || dx == -1)))
                && old(self).chunks().dom().contains(chunk_key(x + dx, y + dy))
                && chunk_key(x + dx, y + dy) != chunk_key(x as int, y as int)
                implies self.chunks()[chunk_key(x + dx, y + dy)].dirty by {
                law_write_marks_side_neighbors_dirty(old(self).chunks(), x, y, vtype, dx, dy, chunk_key(x as int, y as int));
            }
        }
    }

    pub fn is_chunk_loaded(&self, chunk_x: i32, chunk_y: i32) -> (r: bool)
        ensures
            r == self.chunks().dom().contains((chunk_x, chunk_y)),
    {
        classic_chunk_map_contains_key(&self.loaded_chunks, (chunk_x, chunk_y))
    }

    pub fn mark_chunk_clean(&mut self, chunk_x: i32, chunk_y: i32)
        ensures
            final(self).chunks() == with_chunk_dirty(old(self).chunks(), (chunk_x, chunk_y), false),
            final(self).noise == old(self).noise,
    {
        map_set_dirty(&mut self.loaded_chunks, (chunk_x, chunk_y), false)
    }

    /// The positions of the loaded chunks that need re-meshing, each once, in
    /// no particular order.
    pub fn get_dirty_chunks(&self) -> (r: Vec<(i32, i32)>)
        ensures
            r@.no_duplicates(),
            forall|k: (i32, i32)| r@.contains(k) <==> self.chunks().dom().contains(k) && self.chunks()[k].dirty,
    {
        map_dirty_chunks(&self.loaded_chunks)
    }

    pub fn mark_all_chunks_dirty(&mut self)
        ensures
            final(self).chunks() == old(self).chunks().map_values(|c: ChunkModel| c.with_dirty(true)),
            final(self).noise == old(self).noise,
    {
        map_mark_all_dirty(&mut self.loaded_chunks)
    }

    pub fn chunk_size() -> (r: usize)
        ensures
            r == CHUNK_SIZE,
    {
        CHUNK_SIZE
    }
}

} // verus!
