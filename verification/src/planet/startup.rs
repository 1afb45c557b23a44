//! The first-generation voxel world: three materials, and border handling
//! that only looks at the four sides.
use crate::foreign::{
    classic_chunk_map_contains_key, classic_chunk_map_contents, classic_chunk_map_get,
    classic_chunk_map_insert, classic_chunk_map_keys, classic_chunk_map_new, classic_chunk_map_remove,
};
use crate::planet::world::chunk::voxel_index;
use crate::planet::world::chunk_world::{chunk_coord, chunk_key, law_world_coord_split, lemma_coord_parts, local_coord};
use bevy::platform::collections::HashMap;
use vstd::prelude::*;

verus! {

/// Width and height of a chunk, in voxels.
pub const CHUNK_SIZE: usize = 16;

/// The material of one voxel.
#[derive(Clone, Copy, PartialEq, Eq, Structural, Debug)]
pub enum VoxelType {
    Air,
    Rock,
    Dirt,
}

pub struct Chunk {
    voxels: Vec<VoxelType>,
    /// Whether this chunk needs to be re-meshed
    dirty: bool,
}

/// The abstract contents of a chunk.
pub struct ChunkModel {
    pub voxels: Seq<VoxelType>,
    pub dirty: bool,
}

impl ChunkModel {
    /// The voxel stored at `(x, y)`: air where the index falls outside the grid.
    pub open spec fn voxel_at(self, x: int, y: int) -> VoxelType {
        let idx = voxel_index(x, y);
        if 0 <= idx < self.voxels.len() {
            self.voxels[idx]
        } else {
            VoxelType::Air
        }
    }

    /// The model after writing `vtype` at `(x, y)`: nothing changes outside
    /// the grid; inside it the value is stored, and a changed value makes the
    /// chunk dirty.
    pub open spec fn with_voxel(self, x: int, y: int, vtype: VoxelType) -> ChunkModel {
        let idx = voxel_index(x, y);
        if 0 <= idx < self.voxels.len() {
            ChunkModel { voxels: self.voxels.update(idx, vtype), dirty: self.dirty || self.voxels[idx] != vtype }
        } else {
            self
        }
    }

    pub open spec fn with_dirty(self, dirty: bool) -> ChunkModel {
        ChunkModel { dirty, ..self }
    }
}

impl View for Chunk {
    type V = ChunkModel;

    closed spec fn view(&self) -> ChunkModel {
        ChunkModel { voxels: self.voxels@, dirty: self.dirty }
    }
}

impl Chunk {
    /// A chunk always holds a full grid of voxels.
    #[verifier::type_invariant]
    spec fn full_grid(self) -> bool {
        self.voxels@.len() == CHUNK_SIZE * CHUNK_SIZE
    }

    /// A freshly generated chunk holding `voxels` (a full grid, row by row),
    /// waiting to be meshed.
    pub fn from_voxels(voxels: Vec<VoxelType>) -> (r: Chunk)
        requires
            voxels@.len() == CHUNK_SIZE * CHUNK_SIZE,
        ensures
            r@.voxels == voxels@,
            r@.dirty,
    {
        Chunk { voxels, dirty: true }
    }

    /// Writes `vtype` at `(x, y)` when the index lies inside the grid, and
    /// marks the chunk dirty when that changes the stored value.
    pub fn set_voxel(&mut self, x: usize, y: usize, vtype: VoxelType)
        requires
            voxel_index(x as int, y as int) <= usize::MAX,
        ensures
            final(self)@ == old(self)@.with_voxel(x as int, y as int, vtype),
            old(self)@.voxels.len() == CHUNK_SIZE * CHUNK_SIZE,
            x < CHUNK_SIZE && y < CHUNK_SIZE ==> final(self)@.voxel_at(x as int, y as int) == vtype,
    {
        proof {
            use_type_invariant(&*self);
        }
        let idx = y * CHUNK_SIZE + x;

        if idx < self.voxels.len() {
            let old_voxel = self.voxels[idx];
            let mut voxels = self.voxels.clone();
            proof {
                assert(voxels@ =~= self.voxels@);
            }
            voxels.set(idx, vtype);
            self.voxels = voxels;

            let is_changed = old_voxel != vtype;
            if is_changed {
                self.dirty = true;
            }
        }
        proof {
            assert(self@ =~= old(self)@.with_voxel(x as int, y as int, vtype));
        }
    }

    /// The voxel at `(x, y)`, or air when the index lies outside the grid.
    pub fn get_voxel(&self, x: usize, y: usize) -> (r: VoxelType)
        requires
            voxel_index(x as int, y as int) <= usize::MAX,
        ensures
            r == self@.voxel_at(x as int, y as int),
            self@.voxels.len() == CHUNK_SIZE * CHUNK_SIZE,
    {
        proof {
            use_type_invariant(self);
        }
        let idx = y * CHUNK_SIZE + x;

        if idx < self.voxels.len() {
            self.voxels[idx]
        } else {
            VoxelType::Air
        }
    }

    /// Returns whether this chunk needs to be re-meshed
    pub fn is_dirty(&self) -> (r: bool)
        ensures
            r == self@.dirty,
    {
        self.dirty
    }

    pub fn mark_clean(&mut self)
        ensures
            final(self)@ == old(self)@.with_dirty(false),
    {
        proof {
            use_type_invariant(&*self);
        }
        self.dirty = false;
    }

    pub fn mark_dirty(&mut self)
        ensures
            final(self)@ == old(self)@.with_dirty(true),
    {
        proof {
            use_type_invariant(&*self);
        }
        self.dirty = true;
    }
}

/// The abstract contents of each loaded chunk.
pub open spec fn chunk_views(m: Map<(i32, i32), Chunk>) -> Map<(i32, i32), ChunkModel> {
    m.map_values(|c: Chunk| c@)
}

/// The voxel at world coordinates `(x, y)`: air where its chunk is not loaded.
pub open spec fn voxel_in(chunks: Map<(i32, i32), ChunkModel>, x: int, y: int) -> VoxelType {
    let k = chunk_key(x, y);
    if chunks.dom().contains(k) {
        chunks[k].voxel_at(local_coord(x), local_coord(y))
    } else {
        VoxelType::Air
    }
}

/// Whether a write at local `(lx, ly)` of chunk `(cx, cy)` marks chunk `p`
/// dirty: the chunk left, right, below or above it, across the edge the voxel
/// lies on.
pub open spec fn side_touched(p: (i32, i32), cx: int, cy: int, lx: int, ly: int) -> bool {
    ||| (lx == 0 && p.0 == cx - 1 && p.1 == cy)
    ||| (lx == CHUNK_SIZE - 1 && p.0 == cx + 1 && p.1 == cy)
    ||| (ly == 0 && p.0 == cx && p.1 == cy - 1)
    ||| (ly == CHUNK_SIZE - 1 && p.0 == cx && p.1 == cy + 1)
}

/// The chunks after writing `vtype` at world `(x, y)`: nothing changes where
/// the chunk is not loaded; otherwise the chunk takes the write and the loaded
/// chunks across the edges the voxel lies on are marked dirty.
pub open spec fn after_set_voxel(chunks: Map<(i32, i32), ChunkModel>, x: int, y: int, vtype: VoxelType) -> Map<(i32, i32), ChunkModel> {
    let k = chunk_key(x, y);
    let lx = local_coord(x);
    let ly = local_coord(y);
    if chunks.dom().contains(k) {
        Map::new(
            |p: (i32, i32)| chunks.dom().contains(p),
            |p: (i32, i32)|
                if p == k {
                    chunks[k].with_voxel(lx, ly, vtype)
                } else if side_touched(p, k.0 as int, k.1 as int, lx, ly) {
                    chunks[p].with_dirty(true)
                } else {
                    chunks[p]
                },
        )
    } else {
        chunks
    }
}

/// The chunk holding world `(x, y)`, where it is loaded, holds a full grid.
pub open spec fn full_grid_at(chunks: Map<(i32, i32), ChunkModel>, x: i32, y: i32) -> bool {
    chunks.dom().contains(chunk_key(x as int, y as int))
        ==> chunks[chunk_key(x as int, y as int)].voxels.len() == CHUNK_SIZE * CHUNK_SIZE
}

/// The chunks after setting the dirty flag of chunk `k`, where it is loaded.
pub open spec fn with_chunk_dirty(chunks: Map<(i32, i32), ChunkModel>, k: (i32, i32), dirty: bool) -> Map<(i32, i32), ChunkModel> {
    if chunks.dom().contains(k) {
        chunks.insert(k, chunks[k].with_dirty(dirty))
    } else {
        chunks
    }
}

/// Reading a voxel back after writing it gives what was written, wherever its
/// chunk is loaded (with a full grid of voxels); where it is not loaded the
/// write is lost and the voxel reads as air. Every other voxel reads as
/// before, and the set of loaded chunks stays the same.
pub proof fn law_voxel_read_after_write(
    chunks: Map<(i32, i32), ChunkModel>,
    x: i32,
    y: i32,
    vtype: VoxelType,
    x2: i32,
    y2: i32,
)
    requires
        chunks.dom().contains(chunk_key(x as int, y as int))
            ==> chunks[chunk_key(x as int, y as int)].voxels.len() == CHUNK_SIZE * CHUNK_SIZE,
    ensures
        after_set_voxel(chunks, x as int, y as int, vtype).dom() == chunks.dom(),
        chunks.dom().contains(chunk_key(x as int, y as int))
            ==> voxel_in(after_set_voxel(chunks, x as int, y as int, vtype), x as int, y as int) == vtype,
        !chunks.dom().contains(chunk_key(x as int, y as int))
            ==> voxel_in(after_set_voxel(chunks, x as int, y as int, vtype), x as int, y as int) == VoxelType::Air,
        (x2, y2) != (x, y) ==> voxel_in(after_set_voxel(chunks, x as int, y as int, vtype), x2 as int, y2 as int)
            == voxel_in(chunks, x2 as int, y2 as int),
{
    let after = after_set_voxel(chunks, x as int, y as int, vtype);
    let k = chunk_key(x as int, y as int);
    let k2 = chunk_key(x2 as int, y2 as int);
    lemma_coord_parts(x, y, x2, y2);
    law_world_coord_split(x as int);
    law_world_coord_split(y as int);
    law_world_coord_split(x2 as int);
    law_world_coord_split(y2 as int);
    assert(after.dom() =~= chunks.dom());
    if chunks.dom().contains(k) {
        let lx = local_coord(x as int);
        let ly = local_coord(y as int);
        assert(0 <= voxel_index(lx, ly) < chunks[k].voxels.len());
        assert(after[k] == chunks[k].with_voxel(lx, ly, vtype));
        if (x2, y2) != (x, y) && chunks.dom().contains(k2) {
            if k2 == k {
                let lx2 = local_coord(x2 as int);
                let ly2 = local_coord(y2 as int);
                assert(voxel_index(lx2, ly2) != voxel_index(lx, ly));
            } else {
                assert(after[k2].voxels == chunks[k2].voxels);
            }
        }
    }
}

/// A write at world `(x, y)` in a loaded chunk marks dirty every other loaded
/// chunk that holds one of the four voxels beside it (left, right, below,
/// above): their meshes use the written voxel. Every loaded chunk that is
/// neither the voxel's own nor holds one of those four voxels is unchanged.
pub proof fn law_write_marks_side_neighbors_dirty(
    chunks: Map<(i32, i32), ChunkModel>,
    x: i32,
    y: i32,
    vtype: VoxelType,
    dx: int,
    dy: int,
    p: (i32, i32),
)
    requires
        chunks.dom().contains(chunk_key(x as int, y as int)),
        (dx == 0 && (dy == 1 || dy == -1)) || (dy == 0 && (dx == 1 || dx == -1)),
    ensures
        ({
            let n = chunk_key(x + dx, y + dy);
            chunks.dom().contains(n) && n != chunk_key(x as int, y as int)
                ==> after_set_voxel(chunks, x as int, y as int, vtype)[n].dirty
        }),
        chunks.dom().contains(p) && p != chunk_key(x as int, y as int)
            && p != chunk_key(x - 1, y as int) && p != chunk_key(x + 1, y as int)
            && p != chunk_key(x as int, y - 1) && p != chunk_key(x as int, y + 1)
            ==> after_set_voxel(chunks, x as int, y as int, vtype)[p] == chunks[p],
{
    let k = chunk_key(x as int, y as int);
    law_world_coord_split(x as int);
    law_world_coord_split(y as int);
    law_world_coord_split(x + dx);
    law_world_coord_split(y + dy);
    law_world_coord_split(x - 1);
    law_world_coord_split(x + 1);
    law_world_coord_split(y - 1);
    law_world_coord_split(y + 1);
    assert(-0x800_0001 <= chunk_coord(x as int) < 0x800_0001);
    assert(-0x800_0001 <= chunk_coord(y as int) < 0x800_0001);
    assert(-0x800_0001 <= chunk_coord(x + dx) < 0x800_0001);
    assert(-0x800_0001 <= chunk_coord(y + dy) < 0x800_0001);
    assert(-0x800_0001 <= chunk_coord(x - 1) < 0x800_0001);
    assert(-0x800_0001 <= chunk_coord(x + 1) < 0x800_0001);
    assert(-0x800_0001 <= chunk_coord(y - 1) < 0x800_0001);
    assert(-0x800_0001 <= chunk_coord(y + 1) < 0x800_0001);
    let lx = local_coord(x as int);
    let ly = local_coord(y as int);
    let n = chunk_key(x + dx, y + dy);
    if chunks.dom().contains(n) && n != k {
        assert(side_touched(n, k.0 as int, k.1 as int, lx, ly));
    }
}

proof fn lemma_views_insert(m: Map<(i32, i32), Chunk>, k: (i32, i32), c: Chunk)
    ensures
        chunk_views(m.insert(k, c)) == chunk_views(m).insert(k, c@),
{
    assert(chunk_views(m.insert(k, c)) =~= chunk_views(m).insert(k, c@));
}

proof fn lemma_views_remove(m: Map<(i32, i32), Chunk>, k: (i32, i32))
    ensures
        chunk_views(m.remove(k)) == chunk_views(m).remove(k),
{
    assert(chunk_views(m.remove(k)) =~= chunk_views(m).remove(k));
}

/// Splits a world coordinate into (chunk coordinate, position inside the chunk).
fn split_coord(v: i32) -> (r: (i32, i32))
    ensures
        r.0 == chunk_coord(v as int),
        r.1 == local_coord(v as int),
        0 <= r.1 < CHUNK_SIZE,
        -0x800_0000 <= r.0 < 0x800_0000,
{
    let size = CHUNK_SIZE as i32;
    let c = match v.checked_div_euclid(size) {
        Some(c) => c,
        None => 0,
    };
    let l = match v.checked_rem_euclid(size) {
        Some(l) => l,
        None => 0,
    };
    (c, l)
}

// -----------------------------------------------------------------------------
// Operations on a map of loaded chunks, shared by the worlds built on it
// -----------------------------------------------------------------------------

/// The voxel at world `(x, y)` of the loaded chunks.
pub(crate) fn map_get_voxel(chunks: &HashMap<(i32, i32), Chunk>, x: i32, y: i32) -> (r: VoxelType)
    ensures
        r == voxel_in(chunk_views(classic_chunk_map_contents(*chunks)), x as int, y as int),
{
    let (chunk_x, local_x) = split_coord(x);
    let (chunk_y, local_y) = split_coord(y);

    // Look up the chunk
    match classic_chunk_map_get(chunks, (chunk_x, chunk_y)) {
        Some(chunk) => chunk.get_voxel(local_x as usize, local_y as usize),
        None => VoxelType::Air,
    }
}

/// Sets the dirty flag of the chunk at `key`, where it is loaded.
pub(crate) fn map_set_dirty(chunks: &mut HashMap<(i32, i32), Chunk>, key: (i32, i32), dirty: bool)
    ensures
        chunk_views(classic_chunk_map_contents(*final(chunks)))
            == with_chunk_dirty(chunk_views(classic_chunk_map_contents(*old(chunks))), key, dirty),
{
    if let Some(mut chunk) = classic_chunk_map_remove(chunks, key) {
        proof {
            lemma_views_remove(classic_chunk_map_contents(*old(chunks)), key);
        }
        if dirty {
            chunk.mark_dirty();
        } else {
            chunk.mark_clean();
        }
        let ghost removed = classic_chunk_map_contents(*chunks);
        classic_chunk_map_insert(chunks, key, chunk);
        proof {
            lemma_views_insert(removed, key, chunk);
            assert(chunk_views(classic_chunk_map_contents(*chunks))
                =~= with_chunk_dirty(chunk_views(classic_chunk_map_contents(*old(chunks))), key, dirty));
        }
    }
}

/// Writes `vtype` at world `(x, y)` of the loaded chunks, marking the loaded
/// chunks across the edges the voxel lies on dirty.
pub(crate) fn map_set_voxel(chunks: &mut HashMap<(i32, i32), Chunk>, x: i32, y: i32, vtype: VoxelType)
    ensures
        chunk_views(classic_chunk_map_contents(*final(chunks)))
            == after_set_voxel(chunk_views(classic_chunk_map_contents(*old(chunks))), x as int, y as int, vtype),            full_grid_at(chunk_views(classic_chunk_map_contents(*old(chunks))), x, y),
            chunk_views(classic_chunk_map_contents(*old(chunks))).dom().contains(chunk_key(x as int, y as int))
                ==> voxel_in(chunk_views(classic_chunk_map_contents(*final(chunks))), x as int, y as int) == vtype,
            forall|x2: i32, y2: i32| #![trigger voxel_in(chunk_views(classic_chunk_map_contents(*final(chunks))), x2 as int, y2 as int)]
                (x2, y2) != (x, y) ==> voxel_in(chunk_views(classic_chunk_map_contents(*final(chunks))), x2 as int, y2 as int)
                    == voxel_in(chunk_views(classic_chunk_map_contents(*old(chunks))), x2 as int, y2 as int),
{
    let (chunk_x, local_x) = split_coord(x);
    let (chunk_y, local_y) = split_coord(y);
    let key = (chunk_x, chunk_y);
    let ghost old_chunks = chunk_views(classic_chunk_map_contents(*chunks));

    // Get the chunk, or optionally generate it
    if let Some(mut chunk) = classic_chunk_map_remove(chunks, key) {
        proof {
            lemma_views_remove(classic_chunk_map_contents(*old(chunks)), key);
        }
        chunk.set_voxel(local_x as usize, local_y as usize, vtype);
        let ghost removed = classic_chunk_map_contents(*chunks);
        classic_chunk_map_insert(chunks, key, chunk);
        proof {
            lemma_views_insert(removed, key, chunk);
        }

        // Mark adjacent chunks as dirty if we're near the border
        // This ensures that mesh boundaries are updated correctly
        let last = CHUNK_SIZE as i32 - 1;
        if local_x == 0 {
            map_set_dirty(chunks, (chunk_x - 1, chunk_y), true);
        }
        if local_x == last {
            map_set_dirty(chunks, (chunk_x + 1, chunk_y), true);
        }
        if local_y == 0 {
            map_set_dirty(chunks, (chunk_x, chunk_y - 1), true);
        }
        if local_y == last {
            map_set_dirty(chunks, (chunk_x, chunk_y + 1), true);
        }
        proof {
            assert(chunk_views(classic_chunk_map_contents(*chunks))
                =~= after_set_voxel(old_chunks, x as int, y as int, vtype));
        }
    }
    proof {
        lemma_coord_parts(x, y, x, y);
        law_voxel_read_after_write(old_chunks, x, y, vtype, x, y);
        assert forall|x2: i32, y2: i32| #![trigger voxel_in(chunk_views(classic_chunk_map_contents(*chunks)), x2 as int, y2 as int)]
            (x2, y2) != (x, y) implies voxel_in(chunk_views(classic_chunk_map_contents(*chunks)), x2 as int, y2 as int)
                == voxel_in(old_chunks, x2 as int, y2 as int) by {
            law_voxel_read_after_write(old_chunks, x, y, vtype, x2, y2);
        }
    }
}

/// The positions of the dirty loaded chunks, each once, in no particular order.
pub(crate) fn map_dirty_chunks(chunks: &HashMap<(i32, i32), Chunk>) -> (r: Vec<(i32, i32)>)
    ensures
        r@.no_duplicates(),
        forall|k: (i32, i32)| r@.contains(k) <==> classic_chunk_map_contents(*chunks).dom().contains(k)
            && classic_chunk_map_contents(*chunks)[k]@.dirty,
{
    let ghost m = classic_chunk_map_contents(*chunks);
    let keys = classic_chunk_map_keys(chunks);
    let mut r: Vec<(i32, i32)> = Vec::new();
    let mut i: usize = 0;
    while i < keys.len()
        invariant
            i <= keys@.len(),
            m == classic_chunk_map_contents(*chunks),
            keys@.no_duplicates(),
            keys@.to_set() == m.dom(),
            r@.no_duplicates(),
            forall|j: int| 0 <= j < r@.len() ==> keys@.take(i as int).contains(#[trigger] r@[j]),
            forall|j: int| 0 <= j < r@.len() ==> m[#[trigger] r@[j]]@.dirty,
            forall|j: int| 0 <= j < i && m[#[trigger] keys@[j]]@.dirty ==> r@.contains(keys@[j]),
        decreases keys@.len() - i,
    {
        let key = keys[i];
        proof {
            assert(keys@.to_set().contains(key));
            assert(keys@.take(i as int + 1) =~= keys@.take(i as int).push(key));
            assert(!keys@.take(i as int).contains(key));
        }
        let ghost r_before = r@;
        match classic_chunk_map_get(chunks, key) {
            Some(chunk) => {
                if chunk.is_dirty() {
                    r.push(key);
                }
            },
            None => {},
        }
        proof {
            assert forall|j: int| 0 <= j < r@.len() implies keys@.take(i as int + 1).contains(#[trigger] r@[j]) by {
                if j < r_before.len() {
                    assert(r@[j] == r_before[j]);
                    assert(keys@.take(i as int).contains(r_before[j]));
                } else {
                    assert(keys@.take(i as int + 1)[i as int] == key);
                }
            }
            assert forall|j: int| 0 <= j < i + 1 && m[#[trigger] keys@[j]]@.dirty implies r@.contains(keys@[j]) by {
                if j == i {
                    assert(r@[r@.len() - 1] == key);
                } else {
                    assert(r_before.contains(keys@[j]));
                    let t = choose|t: int| 0 <= t < r_before.len() && r_before[t] == keys@[j];
                    assert(r@[t] == r_before[t]);
                }
            }
        }
        i = i + 1;
    }
    proof {
        assert(keys@.take(keys@.len() as int) =~= keys@);
        assert forall|k: (i32, i32)| m.dom().contains(k) && m[k]@.dirty implies r@.contains(k) by {
            assert(keys@.to_set().contains(k));
            let j = choose|j: int| 0 <= j < keys@.len() && keys@[j] == k;
        }
        assert forall|k: (i32, i32)| r@.contains(k) implies m.dom().contains(k) && m[k]@.dirty by {
            let j = choose|j: int| 0 <= j < r@.len() && r@[j] == k;
            assert(keys@.contains(k));
        }
    }
    r
}

/// Marks every loaded chunk dirty.
pub(crate) fn map_mark_all_dirty(chunks: &mut HashMap<(i32, i32), Chunk>)
    ensures
        chunk_views(classic_chunk_map_contents(*final(chunks))) == chunk_views(classic_chunk_map_contents(*old(chunks)))
            .map_values(|c: ChunkModel| c.with_dirty(true)),
{
    let ghost old_chunks = chunk_views(classic_chunk_map_contents(*chunks));
    let keys = classic_chunk_map_keys(chunks);
    let mut i: usize = 0;
    while i < keys.len()
        invariant
            i <= keys@.len(),
            keys@.to_set() == old_chunks.dom(),
            old_chunks == chunk_views(classic_chunk_map_contents(*old(chunks))),
            chunk_views(classic_chunk_map_contents(*chunks)) == Map::new(
                |p: (i32, i32)| old_chunks.dom().contains(p),
                |p: (i32, i32)| if keys@.take(i as int).contains(p) { old_chunks[p].with_dirty(true) } else { old_chunks[p] },
            ),
        decreases keys@.len() - i,
    {
        let key = keys[i];
        map_set_dirty(chunks, key, true);
        proof {
            assert(keys@.to_set().contains(key));
            let t0 = keys@.take(i as int);
            let t1 = keys@.take(i as int + 1);
            assert(t1 =~= t0.push(key));
            assert forall|p: (i32, i32)| #![all_triggers] true implies (t1.contains(p) <==> t0.contains(p) || p == key) by {
                if t1.contains(p) {
                    let j = choose|j: int| 0 <= j < t1.len() && #[trigger] t1[j] == p;
                    if j < t0.len() {
                        assert(t0[j] == p);
                    }
                }
                if t0.contains(p) {
                    let j = choose|j: int| 0 <= j < t0.len() && #[trigger] t0[j] == p;
                    assert(t1[j] == p);
                }
                if p == key {
                    assert(t1[i as int] == p);
                }
            }
            let expected = Map::new(
                |p: (i32, i32)| old_chunks.dom().contains(p),
                |p: (i32, i32)| if t1.contains(p) { old_chunks[p].with_dirty(true) } else { old_chunks[p] },
            );
            assert(chunk_views(classic_chunk_map_contents(*chunks)) =~= expected);
        }
        i = i + 1;
    }
    proof {
        assert(keys@.take(keys@.len() as int) =~= keys@);
        assert forall|p: (i32, i32)| old_chunks.dom().contains(p) implies keys@.contains(p) by {
            assert(keys@.to_set().contains(p));
        }
        assert(chunk_views(classic_chunk_map_contents(*chunks))
            =~= old_chunks.map_values(|c: ChunkModel| c.with_dirty(true)));
    }
}

// -----------------------------------------------------------------------------
// The world resource
// -----------------------------------------------------------------------------

pub struct VoxelWorld {
    /// Loaded chunks by their world position
    pub loaded_chunks: HashMap<(i32, i32), Chunk>,
}

impl VoxelWorld {
    /// The loaded chunks, each by its abstract contents.
    pub open spec fn chunks(&self) -> Map<(i32, i32), ChunkModel> {
        chunk_views(classic_chunk_map_contents(self.loaded_chunks))
    }

    /// A world with no chunk loaded.
    pub fn new() -> (r: Self)
        ensures
            r.chunks().dom().is_empty(),
    {
        Self { loaded_chunks: classic_chunk_map_new() }
    }

    /// The voxel at world coordinates `(x, y)`, or air where its chunk is not loaded.
    pub fn get_voxel(&self, x: i32, y: i32) -> (r: VoxelType)
        ensures
            r == voxel_in(self.chunks(), x as int, y as int),
    {
        map_get_voxel(&self.loaded_chunks, x, y)
    }

    /// Writes `vtype` at world `(x, y)` when its chunk is loaded, marking the
    /// loaded chunks across the edges the voxel lies on dirty.
    pub fn set_voxel(&mut self, x: i32, y: i32, vtype: VoxelType)
        ensures
            final(self).chunks() == after_set_voxel(old(self).chunks(), x as int, y as int, vtype),
            full_grid_at(old(self).chunks(), x, y),
            // what the write does to the voxels, as `law_voxel_read_after_write` states it
            old(self).chunks().dom().contains(chunk_key(x as int, y as int))
                ==> voxel_in(final(self).chunks(), x as int, y as int) == vtype,
            forall|x2: i32, y2: i32| #![trigger voxel_in(final(self).chunks(), x2 as int, y2 as int)]
                (x2, y2) != (x, y) ==> voxel_in(final(self).chunks(), x2 as int, y2 as int) == voxel_in(old(self).chunks(), x2 as int, y2 as int),
            // as `law_write_marks_side_neighbors_dirty` states it
            forall|dx: int, dy: int| #![trigger chunk_key(x + dx, y + dy)]
                old(self).chunks().dom().contains(chunk_key(x as int, y as int))
                && ((dx == 0 && (dy == 1 || dy == -1)) || (dy == 0 && (dx == 1 || dx == -1)))
                && old(self).chunks().dom().contains(chunk_key(x + dx, y + dy))
                && chunk_key(x + dx, y + dy) != chunk_key(x as int, y as int)
                ==> final(self).chunks()[chunk_key(x + dx, y + dy)].dirty,
    {
        map_set_voxel(&mut self.loaded_chunks, x, y, vtype);
        proof {
            assert forall|dx: int, dy: int| #![trigger chunk_key(x + dx, y + dy)]
                old(self).chunks().dom().contains(chunk_key(x as int, y as int))
                && ((dx == 0 && (dy == 1 || dy == -1)) || (dy == 0 && (dx == 1 || dx == -1)))
                && old(self).chunks().dom().contains(chunk_key(x + dx, y + dy))
                && chunk_key(x + dx, y + dy) != chunk_key(x as int, y as int)
                implies self.chunks()[chunk_key(x + dx, y + dy)].dirty by {
                law_write_marks_side_neighbors_dirty(old(self).chunks(), x, y, vtype, dx, dy, chunk_key(x as int, y as int));
            }
        }
    }

    pub fn is_chunk_loaded(&self, chunk_x: i32, chunk_y: i32) -> (r: bool)
        ensures
            r == self.chunks().dom().contains((chunk_x, chunk_y)),
    {
        classic_chunk_map_contains_key(&self.loaded_chunks, (chunk_x, chunk_y))
    }

    pub fn mark_chunk_clean(&mut self, chunk_x: i32, chunk_y: i32)
        ensures
            final(self).chunks() == with_chunk_dirty(old(self).chunks(), (chunk_x, chunk_y), false),
    {
        map_set_dirty(&mut self.loaded_chunks, (chunk_x, chunk_y), false)
    }

    /// The positions of the loaded chunks that need re-meshing, each once, in
    /// no particular order.
    pub fn get_dirty_chunks(&self) -> (r: Vec<(i32, i32)>)
        ensures
            r@.no_duplicates(),
            forall|k: (i32, i32)| r@.contains(k) <==> self.chunks().dom().contains(k) && self.chunks()[k].dirty,
    {
        map_dirty_chunks(&self.loaded_chunks)
    }

    pub fn mark_all_chunks_dirty(&mut self)
        ensures
            final(self).chunks() == old(self).chunks().map_values(|c: ChunkModel| c.with_dirty(true)),
    {
        map_mark_all_dirty(&mut self.loaded_chunks)
    }

    pub fn chunk_size() -> (r: usize)
        ensures
            r == CHUNK_SIZE,
    {
        CHUNK_SIZE
    }
}

} // verus!
