use crate::foreign::{
    chunk_map_contains_key, chunk_map_contents, chunk_map_get, chunk_map_insert, chunk_map_keys,
    chunk_map_len, chunk_map_new, chunk_map_remove, perlin_for_seed, perlin_new, random_u64,
};
use crate::planet::meshing::dual_contouring::{contour_cells, lemma_contour_cells_voxels_only, SharedVertexRegistry};
use bevy::ecs::entity::Entity;
use bevy::math::Vec2;
use crate::planet::world::chunk::{voxel_index, Chunk, ChunkModel, CHUNK_SIZE};
use crate::planet::world::voxel::VoxelType;
use bevy::platform::collections::HashMap;
use noise::Perlin;
use vstd::prelude::*;

verus! {

/// The chunk holding world coordinate `v` (floor division by the chunk size).
pub open spec fn chunk_coord(v: int) -> int {
    v / (CHUNK_SIZE as int)
}

/// The position of world coordinate `v` inside its chunk.
pub open spec fn local_coord(v: int) -> int {
    v % (CHUNK_SIZE as int)
}

/// The key of the chunk holding the voxel at world coordinates `(x, y)`.
pub open spec fn chunk_key(x: int, y: int) -> (i32, i32) {
    (chunk_coord(x) as i32, chunk_coord(y) as i32)
}

/// The abstract contents of each loaded chunk.
pub open spec fn chunk_views(m: Map<(i32, i32), Chunk>) -> Map<(i32, i32), ChunkModel> {
    m.map_values(|c: Chunk| c@)
}

/// The voxel at world coordinates `(x, y)`: air where its chunk is not loaded.
pub open spec fn voxel_in(chunks: Map<(i32, i32), ChunkModel>, x: int, y: int) -> VoxelType {
    let k = chunk_key(x, y);
    if chunks.dom().contains(k) {
        chunks[k].voxel_at(local_coord(x), local_coord(y))
    } else {
        VoxelType::Air
    }
}

/// Whether a step of `d` chunks (-1, 0 or 1) leaves the chunk from local
/// position `l`: only from the first or last row or column.
pub open spec fn step_leaves(d: int, l: int) -> bool {
    ||| d == 0
    ||| (d == -1 && l == 0)
    ||| (d == 1 && l == CHUNK_SIZE - 1)
}

/// Whether chunk `p` touches the voxel at local `(lx, ly)` of chunk `(cx, cy)`:
/// one of the (up to eight) chunks around it that share the voxel's border.
pub open spec fn touches_border_voxel(p: (i32, i32), cx: int, cy: int, lx: int, ly: int) -> bool {
    let dx = p.0 - cx;
    let dy = p.1 - cy;
    &&& !(dx == 0 && dy == 0)
    &&& step_leaves(dx, lx)
    &&& step_leaves(dy, ly)
}

/// Whether chunk `p` lies directly left, right, below or above chunk `q`.
pub open spec fn side_neighbor(p: (i32, i32), q: (i32, i32)) -> bool {
    ||| (p.0 == q.0 - 1 && p.1 == q.1)
    ||| (p.0 == q.0 + 1 && p.1 == q.1)
    ||| (p.0 == q.0 && p.1 == q.1 - 1)
    ||| (p.0 == q.0 && p.1 == q.1 + 1)
}

/// How many chunk steps apart two chunk positions are: left-right steps plus
/// up-down steps.
pub open spec fn chunk_steps(p: (i32, i32), q: (i32, i32)) -> int {
    let dx = p.0 - q.0;
    let dy = p.1 - q.1;
    (if dx < 0 { -dx } else { dx }) + (if dy < 0 { -dy } else { dy })
}

/// The chunks directly beside a chunk, whose borders it shares, are exactly
/// the four one step away from it: left, right, below and above.
pub proof fn law_side_neighbors_one_step(p: (i32, i32), q: (i32, i32))
    ensures
        side_neighbor(p, q) <==> chunk_steps(p, q) == 1,
{
}

/// The chunks after marking chunk `k` dirty, where it is loaded.
pub open spec fn with_chunk_dirty(chunks: Map<(i32, i32), ChunkModel>, k: (i32, i32), dirty: bool) -> Map<(i32, i32), ChunkModel> {
    if chunks.dom().contains(k) {
        chunks.insert(k, chunks[k].with_dirty(dirty))
    } else {
        chunks
    }
}

/// The chunks after writing `vtype` at world `(x, y)`: nothing changes where
/// the chunk is not loaded; otherwise the chunk takes the write and every
/// loaded chunk that shares the voxel's border is marked dirty.
pub open spec fn after_set_voxel(chunks: Map<(i32, i32), ChunkModel>, x: int, y: int, vtype: VoxelType) -> Map<(i32, i32), ChunkModel> {
    let k = chunk_key(x, y);
    let lx = local_coord(x);
    let ly = local_coord(y);
    if chunks.dom().contains(k) {
        Map::new(
            |p: (i32, i32)| chunks.dom().contains(p),
            |p: (i32, i32)|
                if p == k {
                    chunks[k].with_voxel(lx, ly, vtype)
                } else if touches_border_voxel(p, k.0 as int, k.1 as int, lx, ly) {
                    chunks[p].with_dirty(true)
                } else {
                    chunks[p]
                },
        )
    } else {
        chunks
    }
}


/// Whether chunk `p` lies directly beside one of the chunks in `s`.
pub open spec fn beside_any(p: (i32, i32), s: Seq<(i32, i32)>) -> bool {
    exists|j: int| 0 <= j < s.len() && side_neighbor(p, #[trigger] s[j])
}

/// The chunks to load, in the order met, for the candidate positions `cands`
/// when the chunks at `loaded` are already there: each candidate that is
/// neither loaded nor met earlier in `cands`.
pub open spec fn chunks_to_load(loaded: Set<(i32, i32)>, cands: Seq<(i32, i32)>) -> Seq<(i32, i32)>
    decreases cands.len(),
{
    if cands.len() == 0 {
        Seq::empty()
    } else {
        let prev = chunks_to_load(loaded, cands.drop_last());
        let c = cands.last();
        if loaded.contains(c) || cands.drop_last().contains(c) {
            prev
        } else {
            prev.push(c)
        }
    }
}

/// Where every candidate is loaded already, there is nothing to load.
proof fn lemma_nothing_to_load(loaded: Set<(i32, i32)>, cands: Seq<(i32, i32)>)
    requires
        forall|j: int| 0 <= j < cands.len() ==> loaded.contains(#[trigger] cands[j]),
    ensures
        chunks_to_load(loaded, cands).len() == 0,
    decreases cands.len(),
{
    if cands.len() > 0 {
        let prefix = cands.drop_last();
        assert forall|j: int| 0 <= j < prefix.len() implies loaded.contains(#[trigger] prefix[j]) by {
            assert(prefix[j] == cands[j]);
        }
        lemma_nothing_to_load(loaded, prefix);
        assert(loaded.contains(cands[cands.len() - 1]));
    }
}

/// The chunks to load are the candidates that are not loaded yet, each once;
/// and loading the same candidates a second time loads nothing.
pub proof fn law_load_each_chunk_once(loaded: Set<(i32, i32)>, cands: Seq<(i32, i32)>)
    ensures
        chunks_to_load(loaded, cands).no_duplicates(),
        forall|p: (i32, i32)| #[trigger] chunks_to_load(loaded, cands).contains(p) <==> cands.contains(p) && !loaded.contains(p),
        chunks_to_load(loaded + cands.to_set(), cands).len() == 0,
    decreases cands.len(),
{
    assert forall|j: int| 0 <= j < cands.len() implies (loaded + cands.to_set()).contains(#[trigger] cands[j]) by {
        assert(cands.to_set().contains(cands[j]));
    }
    lemma_nothing_to_load(loaded + cands.to_set(), cands);
    if cands.len() > 0 {
        let prefix = cands.drop_last();
        let c = cands.last();
        law_load_each_chunk_once(loaded, prefix);
        let prev = chunks_to_load(loaded, prefix);
        assert forall|p: (i32, i32)| cands.contains(p) <==> prefix.contains(p) || p == c by {
            if cands.contains(p) {
                let j = choose|j: int| 0 <= j < cands.len() && cands[j] == p;
                if j < prefix.len() {
                    assert(prefix[j] == p);
                }
            }
            if prefix.contains(p) {
                let j = choose|j: int| 0 <= j < prefix.len() && prefix[j] == p;
                assert(cands[j] == p);
            }
            if p == c {
                assert(cands[cands.len() - 1] == p);
            }
        }
        if !(loaded.contains(c) || prefix.contains(c)) {
            let r = prev.push(c);
            assert forall|p: (i32, i32)| r.contains(p) <==> prev.contains(p) || p == c by {
                if r.contains(p) {
                    let j = choose|j: int| 0 <= j < r.len() && r[j] == p;
                    if j < prev.len() {
                        assert(prev[j] == p);
                    }
                }
                if prev.contains(p) {
                    let j = choose|j: int| 0 <= j < prev.len() && prev[j] == p;
                    assert(r[j] == p);
                }
                if p == c {
                    assert(r[prev.len() as int] == p);
                }
            }
            assert(!prev.contains(c));
            assert forall|i: int, j: int| 0 <= i < r.len() && 0 <= j < r.len() && i != j implies r[i] != r[j] by {
                if i < prev.len() && j < prev.len() {
                } else if i < prev.len() {
                    assert(prev.contains(r[i]));
                } else if j < prev.len() {
                    assert(prev.contains(r[j]));
                }
            }
        }
    }
}

/// A chunk as generation leaves it: needing meshing, unmodified, and with no
/// surface normals and no foliage yet.
pub open spec fn fresh_chunk(c: ChunkModel) -> bool {
    &&& c.dirty
    &&& !c.modified
    &&& c.surface_normals.len() == 0
    &&& c.foliage.len() == 0
}

/// A chunk as loading leaves it: needing meshing, unmodified, and with one
/// surface normal per contour cell of the chunk among the loaded `chunks`.
pub open spec fn loaded_chunk(chunks: Map<(i32, i32), ChunkModel>, k: (i32, i32)) -> bool {
    &&& chunks[k].dirty
    &&& !chunks[k].modified
    &&& chunks[k].surface_normals.len() == contour_cells(chunks, k.0 as int, k.1 as int, 256).len()
}

/// Coordinates one step away from which stay inside `i32`.
pub open spec fn steppable(p: (i32, i32)) -> bool {
    &&& i32::MIN < p.0 < i32::MAX
    &&& i32::MIN < p.1 < i32::MAX
}

proof fn lemma_beside_any_push(p: (i32, i32), s: Seq<(i32, i32)>, q: (i32, i32))
    ensures
        beside_any(p, s.push(q)) <==> beside_any(p, s) || side_neighbor(p, q),
{
    if beside_any(p, s) {
        let j = choose|j: int| 0 <= j < s.len() && side_neighbor(p, #[trigger] s[j]);
        assert(s.push(q)[j] == s[j]);
    }
    if side_neighbor(p, q) {
        assert(s.push(q)[s.len() as int] == q);
    }
    if beside_any(p, s.push(q)) {
        let j = choose|j: int| 0 <= j < s.push(q).len() && side_neighbor(p, #[trigger] s.push(q)[j]);
        if j < s.len() {
            assert(s[j] == s.push(q)[j]);
        }
    }
}

pub proof fn lemma_views_insert(m: Map<(i32, i32), Chunk>, k: (i32, i32), c: Chunk)
    ensures
        chunk_views(m.insert(k, c)) == chunk_views(m).insert(k, c@),
{
    assert(chunk_views(m.insert(k, c)) =~= chunk_views(m).insert(k, c@));
}

pub proof fn lemma_views_remove(m: Map<(i32, i32), Chunk>, k: (i32, i32))
    ensures
        chunk_views(m.remove(k)) == chunk_views(m).remove(k),
{
    assert(chunk_views(m.remove(k)) =~= chunk_views(m).remove(k));
}

/// Every world coordinate is the origin of its chunk plus its position inside
/// that chunk, and that position lies within the chunk.
pub proof fn law_world_coord_split(v: int)
    ensures
        chunk_coord(v) * (CHUNK_SIZE as int) + local_coord(v) == v,
        0 <= local_coord(v) < CHUNK_SIZE,
{
    vstd::arithmetic::div_mod::lemma_fundamental_div_mod(v, CHUNK_SIZE as int);
}

/// Two world positions in the same chunk, at the same place inside it, are
/// the same position; and the chunk of an `i32` coordinate fits in an `i32`.
pub proof fn lemma_coord_parts(x: i32, y: i32, x2: i32, y2: i32)
    ensures
        chunk_key(x as int, y as int).0 == chunk_coord(x as int),
        chunk_key(x as int, y as int).1 == chunk_coord(y as int),
        chunk_key(x as int, y as int) == chunk_key(x2 as int, y2 as int)
            && local_coord(x as int) == local_coord(x2 as int)
            && local_coord(y as int) == local_coord(y2 as int) ==> x == x2 && y == y2,
{
    law_world_coord_split(x as int);
    law_world_coord_split(y as int);
    law_world_coord_split(x2 as int);
    law_world_coord_split(y2 as int);
    assert(-0x800_0000 <= chunk_coord(x as int) < 0x800_0000);
    assert(-0x800_0000 <= chunk_coord(y as int) < 0x800_0000);
    assert(-0x800_0000 <= chunk_coord(x2 as int) < 0x800_0000);
    assert(-0x800_0000 <= chunk_coord(y2 as int) < 0x800_0000);
}

/// Reading a voxel back after writing it gives what was written, wherever its
/// chunk is loaded (with a full grid of voxels); where it is not loaded the
/// write is lost and the voxel reads as air. Every other voxel reads as
/// before, and the set of loaded chunks stays the same.
pub proof fn law_voxel_read_after_write(
    chunks: Map<(i32, i32), ChunkModel>,
    x: i32,
    y: i32,
    vtype: VoxelType,
    x2: i32,
    y2: i32,
)
    requires
        chunks.dom().contains(chunk_key(x as int, y as int))
            ==> chunks[chunk_key(x as int, y as int)].voxels.len() == CHUNK_SIZE * CHUNK_SIZE,
    ensures
        after_set_voxel(chunks, x as int, y as int, vtype).dom() == chunks.dom(),
        chunks.dom().contains(chunk_key(x as int, y as int))
            ==> voxel_in(after_set_voxel(chunks, x as int, y as int, vtype), x as int, y as int) == vtype,
        !chunks.dom().contains(chunk_key(x as int, y as int))
            ==> voxel_in(after_set_voxel(chunks, x as int, y as int, vtype), x as int, y as int) == VoxelType::Air,
        (x2, y2) != (x, y) ==> voxel_in(after_set_voxel(chunks, x as int, y as int, vtype), x2 as int, y2 as int)
            == voxel_in(chunks, x2 as int, y2 as int),
{
    let after = after_set_voxel(chunks, x as int, y as int, vtype);
    let k = chunk_key(x as int, y as int);
    let k2 = chunk_key(x2 as int, y2 as int);
    lemma_coord_parts(x, y, x2, y2);
    law_world_coord_split(x as int);
    law_world_coord_split(y as int);
    law_world_coord_split(x2 as int);
    law_world_coord_split(y2 as int);
    assert(after.dom() =~= chunks.dom());
    if chunks.dom().contains(k) {
        let lx = local_coord(x as int);
        let ly = local_coord(y as int);
        assert(0 <= voxel_index(lx, ly) < chunks[k].voxels.len());
        assert(after[k] == chunks[k].with_voxel(lx, ly, vtype));
        if (x2, y2) != (x, y) && chunks.dom().contains(k2) {
            if k2 == k {
                let lx2 = local_coord(x2 as int);
                let ly2 = local_coord(y2 as int);
                assert(voxel_index(lx2, ly2) != voxel_index(lx, ly));
            } else {
                assert(after[k2].voxels == chunks[k2].voxels);
            }
        }
    }
}

/// A write that changes a voxel leaves its chunk needing re-meshing, and so
/// does every other loaded chunk holding one of the eight voxels around it:
/// their meshes share the written voxel's border.
pub proof fn law_write_marks_neighbors_dirty(
    chunks: Map<(i32, i32), ChunkModel>,
    x: i32,
    y: i32,
    vtype: VoxelType,
    dx: int,
    dy: int,
)
    requires
        chunks.dom().contains(chunk_key(x as int, y as int)),
        chunks[chunk_key(x as int, y as int)].voxels.len() == CHUNK_SIZE * CHUNK_SIZE,
        -1 <= dx <= 1,
        -1 <= dy <= 1,
        i32::MIN <= x + dx <= i32::MAX,
        i32::MIN <= y + dy <= i32::MAX,
    ensures
        voxel_in(chunks, x as int, y as int) != vtype
            ==> after_set_voxel(chunks, x as int, y as int, vtype)[chunk_key(x as int, y as int)].dirty,
        ({
            let n = chunk_key(x + dx, y + dy);
            chunks.dom().contains(n) && n != chunk_key(x as int, y as int)
                ==> after_set_voxel(chunks, x as int, y as int, vtype)[n].dirty
        }),
{
    let k = chunk_key(x as int, y as int);
    let n = chunk_key(x + dx, y + dy);
    let x2 = (x + dx) as i32;
    let y2 = (y + dy) as i32;
    lemma_coord_parts(x, y, x2, y2);
    law_world_coord_split(x as int);
    law_world_coord_split(y as int);
    law_world_coord_split(x + dx);
    law_world_coord_split(y + dy);
    let lx = local_coord(x as int);
    let ly = local_coord(y as int);
    assert(0 <= voxel_index(lx, ly) < chunks[k].voxels.len());
    if chunks.dom().contains(n) && n != k {
        assert(touches_border_voxel(n, k.0 as int, k.1 as int, lx, ly));
    }
}

/// A write at world `(x, y)` leaves unchanged every loaded chunk that holds
/// none of the nine voxels at and around it.
pub proof fn law_write_leaves_far_chunks(
    chunks: Map<(i32, i32), ChunkModel>,
    x: i32,
    y: i32,
    vtype: VoxelType,
    p: (i32, i32),
)
    requires
        chunks.dom().contains(p),
        forall|dx: int, dy: int| -1 <= dx <= 1 && -1 <= dy <= 1 ==> p != #[trigger] chunk_key(x + dx, y + dy),
    ensures
        after_set_voxel(chunks, x as int, y as int, vtype)[p] == chunks[p],
{
    let k = chunk_key(x as int, y as int);
    if chunks.dom().contains(k) {
        let lx = local_coord(x as int);
        let ly = local_coord(y as int);
        assert(p != chunk_key(x + 0, y + 0));
        if touches_border_voxel(p, k.0 as int, k.1 as int, lx, ly) {
            let dx = p.0 - k.0;
            let dy = p.1 - k.1;
            law_world_coord_split(x as int);
            law_world_coord_split(y as int);
            law_world_coord_split(x + dx);
            law_world_coord_split(y + dy);
            assert(-0x800_0001 <= chunk_coord(x as int) < 0x800_0001);
            assert(-0x800_0001 <= chunk_coord(y as int) < 0x800_0001);
            assert(-0x800_0001 <= chunk_coord(x + dx) < 0x800_0001);
            assert(-0x800_0001 <= chunk_coord(y + dy) < 0x800_0001);
            assert(chunk_coord(x + dx) == k.0 + dx);
            assert(chunk_coord(y + dy) == k.1 + dy);
            assert(p == chunk_key(x + dx, y + dy));
        }
    }
}

/// Marking a loaded chunk dirty or clean sets exactly its own flag: the
/// loaded chunks, their voxels and every other chunk stay as they were, and
/// marking an unloaded position changes nothing.
pub proof fn law_mark_sets_only_its_flag(chunks: Map<(i32, i32), ChunkModel>, k: (i32, i32), dirty: bool, p: (i32, i32))
    ensures
        with_chunk_dirty(chunks, k, dirty).dom() == chunks.dom(),
        chunks.dom().contains(k) ==> with_chunk_dirty(chunks, k, dirty)[k].dirty == dirty,
        chunks.dom().contains(k) ==> with_chunk_dirty(chunks, k, dirty)[k].voxels == chunks[k].voxels,
        p != k ==> with_chunk_dirty(chunks, k, dirty)[p] == chunks[p],
        !chunks.dom().contains(k) ==> with_chunk_dirty(chunks, k, dirty) == chunks,
{
    if chunks.dom().contains(k) {
        assert(chunks.insert(k, chunks[k].with_dirty(dirty)).dom() =~= chunks.dom());
    }
}

/// Splits a world coordinate into (chunk coordinate, position inside the chunk).
fn split_coord(v: i32) -> (r: (i32, i32))
    ensures
        r.0 == chunk_coord(v as int),
        r.1 == local_coord(v as int),
        0 <= r.1 < CHUNK_SIZE,
        -0x800_0000 <= r.0 < 0x800_0000,
{
    let size = CHUNK_SIZE as i32;
    let c = match v.checked_div_euclid(size) {
        Some(c) => c,
        None => 0,
    };
    let l = match v.checked_rem_euclid(size) {
        Some(l) => l,
        None => 0,
    };
    (c, l)
}

/// The loaded part of the voxel world, and what it needs to grow more.
pub struct World {
    /// Loaded chunks by their world position
    pub loaded_chunks: HashMap<(i32, i32), Chunk>,
    pub noise: Perlin,
    /// World seed for deterministic generation
    pub seed: u64,
    /// Shared vertex registry for border vertices
    pub vertex_registry: SharedVertexRegistry,
}

impl World {
    /// The loaded chunks, each by its abstract contents.
    pub open spec fn chunks(&self) -> Map<(i32, i32), ChunkModel> {
        chunk_views(chunk_map_contents(self.loaded_chunks))
    }

    /// A world with no chunk loaded, noise seeded with 42, a random seed and
    /// an empty vertex registry.
    pub fn new() -> (r: Self)
        ensures
            r.chunks().dom().is_empty(),
            r.noise == perlin_for_seed(42),
            r.vertex_registry.wf(),
            r.vertex_registry.ids().dom().is_empty(),
            r.vertex_registry.next_id() == 0,
    {
        Self {
            loaded_chunks: chunk_map_new(),
            noise: perlin_new(42),
            seed: random_u64(),
            vertex_registry: SharedVertexRegistry::new(),
        }
    }

    /// The voxel at world coordinates `(x, y)`, or air where its chunk is not loaded.
    pub fn get_voxel(&self, x: i32, y: i32) -> (r: VoxelType)
        ensures
            r == voxel_in(self.chunks(), x as int, y as int),
    {
        let (chunk_x, local_x) = split_coord(x);
        let (chunk_y, local_y) = split_coord(y);

        match chunk_map_get(&self.loaded_chunks, (chunk_x, chunk_y)) {
            Some(chunk) => chunk.get_voxel(local_x as usize, local_y as usize),
            None => VoxelType::Air,
        }
    }

    /// Writes `vtype` at world coordinates `(x, y)` when its chunk is loaded,
    /// and marks the chunks that share that voxel's border dirty.
    pub fn set_voxel(&mut self, x: i32, y: i32, vtype: VoxelType)
        ensures
            final(self).chunks() == after_set_voxel(old(self).chunks(), x as int, y as int, vtype),
            old(self).chunks().dom().contains(chunk_key(x as int, y as int))
                ==> old(self).chunks()[chunk_key(x as int, y as int)].voxels.len() == CHUNK_SIZE * CHUNK_SIZE,
            // what the write does to the voxels, as `law_voxel_read_after_write` states it
            old(self).chunks().dom().contains(chunk_key(x as int, y as int))
                ==> voxel_in(final(self).chunks(), x as int, y as int) == vtype,
            !old(self).chunks().dom().contains(chunk_key(x as int, y as int)) ==> final(self).chunks() == old(self).chunks(),
            forall|x2: i32, y2: i32| #![trigger voxel_in(final(self).chunks(), x2 as int, y2 as int)]
                (x2, y2) != (x, y) ==> voxel_in(final(self).chunks(), x2 as int, y2 as int) == voxel_in(old(self).chunks(), x2 as int, y2 as int),
            final(self).noise == old(self).noise,
            final(self).seed == old(self).seed,
            final(self).vertex_registry == old(self).vertex_registry,
    {
        let (chunk_x, local_x) = split_coord(x);
        let (chunk_y, local_y) = split_coord(y);
        let key = (chunk_x, chunk_y);
        let ghost old_chunks = self.chunks();

        if let Some(mut chunk) = chunk_map_remove(&mut self.loaded_chunks, key) {
            proof {
                lemma_views_remove(chunk_map_contents(old(self).loaded_chunks), key);
            }
            chunk.set_voxel(local_x as usize, local_y as usize, vtype);
            let ghost removed = chunk_map_contents(self.loaded_chunks);
            chunk_map_insert(&mut self.loaded_chunks, key, chunk);
            proof {
                lemma_views_insert(removed, key, chunk);
                assert(self.chunks() =~= old_chunks.insert(key, old_chunks[key].with_voxel(local_x as int, local_y as int, vtype)));
            }
            let ghost written = self.chunks();

            self.mark_neighboring_chunks_dirty(chunk_x, chunk_y, local_x, local_y);
            proof {
                assert(self.chunks() =~= after_set_voxel(old_chunks, x as int, y as int, vtype));
            }
        }
        proof {
            lemma_coord_parts(x, y, x, y);
            law_voxel_read_after_write(old_chunks, x, y, vtype, x, y);
            assert forall|x2: i32, y2: i32| #![trigger voxel_in(self.chunks(), x2 as int, y2 as int)]
                (x2, y2) != (x, y) implies voxel_in(self.chunks(), x2 as int, y2 as int) == voxel_in(old_chunks, x2 as int, y2 as int) by {
                law_voxel_read_after_write(old_chunks, x, y, vtype, x2, y2);
            }
        }
    }

    pub fn is_chunk_loaded(&self, chunk_x: i32, chunk_y: i32) -> (r: bool)
        ensures
            r == self.chunks().dom().contains((chunk_x, chunk_y)),
    {
        chunk_map_contains_key(&self.loaded_chunks, (chunk_x, chunk_y))
    }

    /// The positions of the loaded chunks that need re-meshing, each once, in
    /// no particular order.
    pub fn get_dirty_chunks(&self) -> (r: Vec<(i32, i32)>)
        ensures
            r@.no_duplicates(),
            forall|k: (i32, i32)| r@.contains(k) <==> self.chunks().dom().contains(k) && self.chunks()[k].dirty,
    {
        let keys = chunk_map_keys(&self.loaded_chunks);
        let mut r: Vec<(i32, i32)> = Vec::new();
        let mut i: usize = 0;
        while i < keys.len()
            invariant
                i <= keys@.len(),
                keys@.no_duplicates(),
                keys@.to_set() == self.chunks().dom(),
                r@.no_duplicates(),
                forall|j: int| 0 <= j < r@.len() ==> keys@.take(i as int).contains(#[trigger] r@[j]),
                forall|j: int| 0 <= j < r@.len() ==> self.chunks()[#[trigger] r@[j]].dirty,
                forall|j: int| 0 <= j < i && self.chunks()[#[trigger] keys@[j]].dirty ==> r@.contains(keys@[j]),
            decreases keys@.len() - i,
        {
            let key = keys[i];
            proof {
                assert(keys@.to_set().contains(key));
                assert(keys@.take(i as int + 1) =~= keys@.take(i as int).push(key));
                assert(!keys@.take(i as int).contains(key));
            }
            let ghost r_before = r@;
            match chunk_map_get(&self.loaded_chunks, key) {
                Some(chunk) => {
                    if chunk.is_dirty() {
                        r.push(key);
                    }
                },
                None => {},
            }
            proof {
                assert forall|j: int| 0 <= j < r@.len() implies keys@.take(i as int + 1).contains(#[trigger] r@[j]) by {
                    if j < r_before.len() {
                        assert(r@[j] == r_before[j]);
                        assert(keys@.take(i as int).contains(r_before[j]));
                    } else {
                        assert(keys@.take(i as int + 1)[i as int] == key);
                    }
                }
                assert forall|j: int| 0 <= j < i + 1 && self.chunks()[#[trigger] keys@[j]].dirty implies r@.contains(keys@[j]) by {
                    if j == i {
                        assert(r@[r@.len() - 1] == key);
                    } else {
                        assert(r_before.contains(keys@[j]));
                        let t = choose|t: int| 0 <= t < r_before.len() && r_before[t] == keys@[j];
                        assert(r@[t] == r_before[t]);
                    }
                }
            }
            i = i + 1;
        }
        proof {
            assert(keys@.take(keys@.len() as int) =~= keys@);
            assert forall|k: (i32, i32)| self.chunks().dom().contains(k) && self.chunks()[k].dirty implies r@.contains(k) by {
                assert(keys@.to_set().contains(k));
                let j = choose|j: int| 0 <= j < keys@.len() && keys@[j] == k;
            }
            assert forall|k: (i32, i32)| r@.contains(k) implies self.chunks().dom().contains(k) && self.chunks()[k].dirty by {
                let j = choose|j: int| 0 <= j < r@.len() && r@[j] == k;
                assert(keys@.contains(k));
            }
        }
        r
    }

    /// Marks the chunk at `(chunk_x, chunk_y)` as needing re-meshing, where it is loaded.
    pub fn mark_chunk_dirty(&mut self, chunk_x: i32, chunk_y: i32)
        ensures
            final(self).chunks() == with_chunk_dirty(old(self).chunks(), (chunk_x, chunk_y), true),
            final(self).noise == old(self).noise,
            final(self).seed == old(self).seed,
            final(self).vertex_registry == old(self).vertex_registry,
    {
        self.set_chunk_dirty(chunk_x, chunk_y, true);
    }

    /// Marks the chunk at `(chunk_x, chunk_y)` as meshed, where it is loaded.
    pub fn mark_chunk_clean(&mut self, chunk_x: i32, chunk_y: i32)
        ensures
            final(self).chunks() == with_chunk_dirty(old(self).chunks(), (chunk_x, chunk_y), false),
            final(self).noise == old(self).noise,
            final(self).seed == old(self).seed,
            final(self).vertex_registry == old(self).vertex_registry,
    {
        self.set_chunk_dirty(chunk_x, chunk_y, false);
    }

    fn set_chunk_dirty(&mut self, chunk_x: i32, chunk_y: i32, dirty: bool)
        ensures
            final(self).chunks() == with_chunk_dirty(old(self).chunks(), (chunk_x, chunk_y), dirty),
            final(self).noise == old(self).noise,
            final(self).seed == old(self).seed,
            final(self).vertex_registry == old(self).vertex_registry,
    {
        let key = (chunk_x, chunk_y);
        if let Some(mut chunk) = chunk_map_remove(&mut self.loaded_chunks, key) {
            proof {
                lemma_views_remove(chunk_map_contents(old(self).loaded_chunks), key);
            }
            if dirty {
                chunk.mark_dirty();
            } else {
                chunk.mark_clean();
            }
            let ghost removed = chunk_map_contents(self.loaded_chunks);
            chunk_map_insert(&mut self.loaded_chunks, key, chunk);
            proof {
                lemma_views_insert(removed, key, chunk);
                assert(self.chunks() =~= with_chunk_dirty(old(self).chunks(), key, dirty));
            }
        }
    }

    /// Get mutable access to the shared vertex registry
    pub fn get_vertex_registry_mut(&mut self) -> (r: &mut SharedVertexRegistry)
        ensures
            *r == old(self).vertex_registry,
            *final(self) == (World { vertex_registry: *final(r), ..*old(self) }),
    {
        &mut self.vertex_registry
    }

    /// Get immutable access to the shared vertex registry
    pub fn get_vertex_registry(&self) -> (r: &SharedVertexRegistry)
        ensures
            *r == self.vertex_registry,
    {
        &self.vertex_registry
    }

    /// Mark neighboring chunks as dirty when a voxel near chunk boundaries is modified.
    /// This ensures that mesh boundaries are updated correctly for dual contouring.
    fn mark_neighboring_chunks_dirty(&mut self, chunk_x: i32, chunk_y: i32, local_x: i32, local_y: i32)
        requires
            -0x800_0000 <= chunk_x < 0x800_0000,
            -0x800_0000 <= chunk_y < 0x800_0000,
        ensures
            final(self).chunks() == Map::new(
                |p: (i32, i32)| old(self).chunks().dom().contains(p),
                |p: (i32, i32)|
                    if touches_border_voxel(p, chunk_x as int, chunk_y as int, local_x as int, local_y as int) {
                        old(self).chunks()[p].with_dirty(true)
                    } else {
                        old(self).chunks()[p]
                    },
            ),
            final(self).noise == old(self).noise,
            final(self).seed == old(self).seed,
            final(self).vertex_registry == old(self).vertex_registry,
    {
        let last = CHUNK_SIZE as i32 - 1;
        // Edge cases
        if local_x == 0 {
            self.mark_chunk_dirty(chunk_x - 1, chunk_y);
        }
        if local_x == last {
            self.mark_chunk_dirty(chunk_x + 1, chunk_y);
        }
        if local_y == 0 {
            self.mark_chunk_dirty(chunk_x, chunk_y - 1);
        }
        if local_y == last {
            self.mark_chunk_dirty(chunk_x, chunk_y + 1);
        }

        // Corner cases
        if local_x == 0 && local_y == 0 {
            self.mark_chunk_dirty(chunk_x - 1, chunk_y - 1);
        }
        if local_x == last && local_y == 0 {
            self.mark_chunk_dirty(chunk_x + 1, chunk_y - 1);
        }
        if local_x == 0 && local_y == last {
            self.mark_chunk_dirty(chunk_x - 1, chunk_y + 1);
        }
        if local_x == last && local_y == last {
            self.mark_chunk_dirty(chunk_x + 1, chunk_y + 1);
        }
        proof {
            let expected = Map::new(
                |p: (i32, i32)| old(self).chunks().dom().contains(p),
                |p: (i32, i32)|
                    if touches_border_voxel(p, chunk_x as int, chunk_y as int, local_x as int, local_y as int) {
                        old(self).chunks()[p].with_dirty(true)
                    } else {
                        old(self).chunks()[p]
                    },
            );
            assert(self.chunks() =~= expected);
        }
    }

    /// Inserts a fresh chunk of the generated voxels at each candidate
    /// position that is not loaded yet; returns those positions in order.
    fn insert_fresh_chunks(&mut self, candidates: &Vec<(i32, i32)>, generate: impl Fn(i32, i32) -> Vec<VoxelType>) -> (r: Vec<(i32, i32)>)
        requires
            forall|x: i32, y: i32| call_requires(generate, (x, y)),
            forall|x: i32, y: i32, v: Vec<VoxelType>| call_ensures(generate, (x, y), v) ==> v@.len() == CHUNK_SIZE * CHUNK_SIZE,
        ensures
            r@ == chunks_to_load(old(self).chunks().dom(), candidates@),
            final(self).chunks().dom() == old(self).chunks().dom() + candidates@.to_set(),
            forall|k: (i32, i32)| #[trigger] old(self).chunks().dom().contains(k)
                ==> chunk_map_contents(final(self).loaded_chunks)[k] == chunk_map_contents(old(self).loaded_chunks)[k],
            forall|k: (i32, i32)| #[trigger] final(self).chunks().dom().contains(k) && !old(self).chunks().dom().contains(k)
                ==> fresh_chunk(final(self).chunks()[k]) && exists|v: Vec<VoxelType>|
                    #[trigger] call_ensures(generate, (k.0, k.1), v) && final(self).chunks()[k].voxels == v@,
            final(self).noise == old(self).noise,
            final(self).seed == old(self).seed,
            final(self).vertex_registry == old(self).vertex_registry,
    {
        let ghost old_dom = self.chunks().dom();
        let ghost old_map = chunk_map_contents(self.loaded_chunks);
        let mut loaded: Vec<(i32, i32)> = Vec::new();
        let mut i: usize = 0;
        while i < candidates.len()
            invariant
                i <= candidates@.len(),
                forall|x: i32, y: i32| call_requires(generate, (x, y)),
                old_dom == old(self).chunks().dom(),
                old_map == chunk_map_contents(old(self).loaded_chunks),
                loaded@ == chunks_to_load(old_dom, candidates@.take(i as int)),
                self.chunks().dom() == old_dom + candidates@.take(i as int).to_set(),
                forall|k: (i32, i32)| #[trigger] old_dom.contains(k)
                    ==> chunk_map_contents(self.loaded_chunks)[k] == old_map[k],
                forall|x: i32, y: i32, v: Vec<VoxelType>| call_ensures(generate, (x, y), v) ==> v@.len() == CHUNK_SIZE * CHUNK_SIZE,
                forall|k: (i32, i32)| #[trigger] self.chunks().dom().contains(k) && !old_dom.contains(k)
                    ==> fresh_chunk(self.chunks()[k]) && exists|v: Vec<VoxelType>|
                        #[trigger] call_ensures(generate, (k.0, k.1), v) && self.chunks()[k].voxels == v@,
                self.noise == old(self).noise,
                self.seed == old(self).seed,
                self.vertex_registry == old(self).vertex_registry,
            decreases candidates@.len() - i,
        {
            let pos = candidates[i];
            let ghost before = chunk_map_contents(self.loaded_chunks);
            proof {
                assert(candidates@.take(i as int + 1).drop_last() =~= candidates@.take(i as int));
                assert(candidates@.take(i as int + 1).last() == pos);
                assert(candidates@.take(i as int + 1).to_set() =~= candidates@.take(i as int).to_set().insert(pos)) by {
                    assert(candidates@.take(i as int + 1) =~= candidates@.take(i as int).push(pos));
                    candidates@.take(i as int).lemma_push_to_set_commute(pos);
                }
                assert(candidates@.take(i as int).contains(pos) <==> candidates@.take(i as int).to_set().contains(pos));
                assert(self.chunks().dom() == before.dom());
            }
            if !chunk_map_contains_key(&self.loaded_chunks, pos) {
                let voxels = generate(pos.0, pos.1);
                let ghost generated = voxels;
                let chunk = Chunk::from_voxels(voxels);
                chunk_map_insert(&mut self.loaded_chunks, pos, chunk);
                loaded.push(pos);
                proof {
                    lemma_views_insert(before, pos, chunk);
                    assert(self.chunks()[pos] == chunk@);
                    assert(call_ensures(generate, (pos.0, pos.1), generated));
                    assert(fresh_chunk(self.chunks()[pos]));
                }
            }
            proof {
                assert(self.chunks().dom() =~= old_dom + candidates@.take(i as int + 1).to_set());
            }
            i = i + 1;
        }
        proof {
            assert(candidates@.take(candidates@.len() as int) =~= candidates@);
        }
        loaded
    }

    /// Marks the loaded chunks directly beside `q` dirty.
    fn mark_side_neighbors_dirty(&mut self, q: (i32, i32))
        requires
            steppable(q),
        ensures
            final(self).chunks() == Map::new(
                |p: (i32, i32)| old(self).chunks().dom().contains(p),
                |p: (i32, i32)|
                    if side_neighbor(p, q) {
                        old(self).chunks()[p].with_dirty(true)
                    } else {
                        old(self).chunks()[p]
                    },
            ),
            final(self).noise == old(self).noise,
            final(self).seed == old(self).seed,
            final(self).vertex_registry == old(self).vertex_registry,
    {
        let (chunk_x, chunk_y) = q;
        self.mark_chunk_dirty(chunk_x - 1, chunk_y);
        self.mark_chunk_dirty(chunk_x + 1, chunk_y);
        self.mark_chunk_dirty(chunk_x, chunk_y - 1);
        self.mark_chunk_dirty(chunk_x, chunk_y + 1);
        proof {
            let expected = Map::new(
                |p: (i32, i32)| old(self).chunks().dom().contains(p),
                |p: (i32, i32)|
                    if side_neighbor(p, q) {
                        old(self).chunks()[p].with_dirty(true)
                    } else {
                        old(self).chunks()[p]
                    },
            );
            assert(self.chunks() =~= expected);
        }
    }

    /// Unloads the chunks at `chunks_to_remove` (those the culling box no
    /// longer keeps). The loaded chunks directly beside any of them are marked
    /// dirty first, so their borders get re-meshed. Returns the positions given.
    pub fn unload_chunks_outside_box(&mut self, chunks_to_remove: Vec<(i32, i32)>) -> (r: Vec<(i32, i32)>)
        requires
            forall|j: int| 0 <= j < chunks_to_remove@.len() ==> steppable(#[trigger] chunks_to_remove@[j]),
        ensures
            r@ == chunks_to_remove@,
            final(self).chunks() == Map::new(
                |p: (i32, i32)| old(self).chunks().dom().contains(p) && !chunks_to_remove@.contains(p),
                |p: (i32, i32)|
                    if beside_any(p, chunks_to_remove@) {
                        old(self).chunks()[p].with_dirty(true)
                    } else {
                        old(self).chunks()[p]
                    },
            ),
            // as `law_side_neighbors_one_step` states it: every chunk left
            // loaded one step from an unloaded one is dirty, and every other
            // chunk left loaded is unchanged
            forall|j: int, p: (i32, i32)| 0 <= j < chunks_to_remove@.len() && final(self).chunks().dom().contains(p)
                && #[trigger] chunk_steps(p, chunks_to_remove@[j]) == 1 ==> final(self).chunks()[p].dirty,
            forall|p: (i32, i32)| #[trigger] final(self).chunks().dom().contains(p)
                && (forall|j: int| 0 <= j < chunks_to_remove@.len() ==> #[trigger] chunk_steps(p, chunks_to_remove@[j]) != 1)
                ==> final(self).chunks()[p] == old(self).chunks()[p],
            final(self).noise == old(self).noise,
            final(self).seed == old(self).seed,
            final(self).vertex_registry == old(self).vertex_registry,
    {
        let ghost old_chunks = self.chunks();
        let mut i: usize = 0;
        // Mark neighboring chunks as dirty before removing chunks
        while i < chunks_to_remove.len()
            invariant
                i <= chunks_to_remove@.len(),
                forall|j: int| 0 <= j < chunks_to_remove@.len() ==> steppable(#[trigger] chunks_to_remove@[j]),
                old_chunks == old(self).chunks(),
                self.chunks() == Map::new(
                    |p: (i32, i32)| old_chunks.dom().contains(p),
                    |p: (i32, i32)|
                        if beside_any(p, chunks_to_remove@.take(i as int)) {
                            old_chunks[p].with_dirty(true)
                        } else {
                            old_chunks[p]
                        },
                ),
                self.noise == old(self).noise,
                self.seed == old(self).seed,
                self.vertex_registry == old(self).vertex_registry,
            decreases chunks_to_remove@.len() - i,
        {
            let q = chunks_to_remove[i];
            self.mark_side_neighbors_dirty(q);
            proof {
                assert(chunks_to_remove@.take(i as int + 1) =~= chunks_to_remove@.take(i as int).push(q));
                assert forall|p: (i32, i32)| #![all_triggers] true implies
                    (beside_any(p, chunks_to_remove@.take(i as int + 1))
                        <==> beside_any(p, chunks_to_remove@.take(i as int)) || side_neighbor(p, q)) by {
                    lemma_beside_any_push(p, chunks_to_remove@.take(i as int), q);
                }
                let expected = Map::new(
                    |p: (i32, i32)| old_chunks.dom().contains(p),
                    |p: (i32, i32)|
                        if beside_any(p, chunks_to_remove@.take(i as int + 1)) {
                            old_chunks[p].with_dirty(true)
                        } else {
                            old_chunks[p]
                        },
                );
                assert(self.chunks() =~= expected);
            }
            i = i + 1;
        }
        proof {
            assert(chunks_to_remove@.take(chunks_to_remove@.len() as int) =~= chunks_to_remove@);
        }
        let ghost marked = self.chunks();
        let mut i: usize = 0;
        while i < chunks_to_remove.len()
            invariant
                i <= chunks_to_remove@.len(),
                self.chunks() == marked.restrict(marked.dom() - chunks_to_remove@.take(i as int).to_set()),
                self.noise == old(self).noise,
                self.seed == old(self).seed,
                self.vertex_registry == old(self).vertex_registry,
            decreases chunks_to_remove@.len() - i,
        {
            let q = chunks_to_remove[i];
            let ghost before = chunk_map_contents(self.loaded_chunks);
            chunk_map_remove(&mut self.loaded_chunks, q);
            proof {
                lemma_views_remove(before, q);
                assert(chunks_to_remove@.take(i as int + 1) =~= chunks_to_remove@.take(i as int).push(q));
                chunks_to_remove@.take(i as int).lemma_push_to_set_commute(q);
                assert(self.chunks() =~= marked.restrict(marked.dom() - chunks_to_remove@.take(i as int + 1).to_set()));
            }
            i = i + 1;
        }
        proof {
            assert(chunks_to_remove@.take(chunks_to_remove@.len() as int) =~= chunks_to_remove@);
            let expected = Map::new(
                |p: (i32, i32)| old(self).chunks().dom().contains(p) && !chunks_to_remove@.contains(p),
                |p: (i32, i32)|
                    if beside_any(p, chunks_to_remove@) {
                        old(self).chunks()[p].with_dirty(true)
                    } else {
                        old(self).chunks()[p]
                    },
            );
            assert(self.chunks() =~= expected);
            assert forall|j: int, p: (i32, i32)| 0 <= j < chunks_to_remove@.len() && self.chunks().dom().contains(p)
                && #[trigger] chunk_steps(p, chunks_to_remove@[j]) == 1 implies self.chunks()[p].dirty by {
                law_side_neighbors_one_step(p, chunks_to_remove@[j]);
                assert(beside_any(p, chunks_to_remove@));
            }
            assert forall|p: (i32, i32)| #[trigger] self.chunks().dom().contains(p)
                && (forall|j: int| 0 <= j < chunks_to_remove@.len() ==> #[trigger] chunk_steps(p, chunks_to_remove@[j]) != 1)
                implies self.chunks()[p] == old(self).chunks()[p] by {
                if beside_any(p, chunks_to_remove@) {
                    let j = choose|j: int| 0 <= j < chunks_to_remove@.len() && side_neighbor(p, #[trigger] chunks_to_remove@[j]);
                    law_side_neighbors_one_step(p, chunks_to_remove@[j]);
                    assert(chunk_steps(p, chunks_to_remove@[j]) != 1);
                }
            }
        }
        chunks_to_remove
    }

    /// Marks the newly loaded chunks at `loaded`, and the loaded chunks
    /// directly beside them, dirty, so that their shared borders get meshed.
    pub fn mark_chunks_dirty_with_neighbors(&mut self, loaded: &Vec<(i32, i32)>)
        requires
            forall|j: int| 0 <= j < loaded@.len() ==> steppable(#[trigger] loaded@[j]),
        ensures
            final(self).chunks() == Map::new(
                |p: (i32, i32)| old(self).chunks().dom().contains(p),
                |p: (i32, i32)|
                    if loaded@.contains(p) || beside_any(p, loaded@) {
                        old(self).chunks()[p].with_dirty(true)
                    } else {
                        old(self).chunks()[p]
                    },
            ),
            // as `law_side_neighbors_one_step` states it: the loaded chunks at
            // `loaded` or one step from one of them are dirty, every other
            // chunk is unchanged
            forall|j: int, p: (i32, i32)| 0 <= j < loaded@.len() && final(self).chunks().dom().contains(p)
                && (p == loaded@[j] || #[trigger] chunk_steps(p, loaded@[j]) == 1) ==> final(self).chunks()[p].dirty,
            forall|p: (i32, i32)| #[trigger] final(self).chunks().dom().contains(p)
                && !loaded@.contains(p) && (forall|j: int| 0 <= j < loaded@.len() ==> #[trigger] chunk_steps(p, loaded@[j]) != 1)
                ==> final(self).chunks()[p] == old(self).chunks()[p],
            final(self).noise == old(self).noise,
            final(self).seed == old(self).seed,
            final(self).vertex_registry == old(self).vertex_registry,
    {
        let ghost old_chunks = self.chunks();
        let mut i: usize = 0;
        while i < loaded.len()
            invariant
                i <= loaded@.len(),
                forall|j: int| 0 <= j < loaded@.len() ==> steppable(#[trigger] loaded@[j]),
                old_chunks == old(self).chunks(),
                self.chunks() == Map::new(
                    |p: (i32, i32)| old_chunks.dom().contains(p),
                    |p: (i32, i32)|
                        if loaded@.take(i as int).contains(p) || beside_any(p, loaded@.take(i as int)) {
                            old_chunks[p].with_dirty(true)
                        } else {
                            old_chunks[p]
                        },
                ),
                self.noise == old(self).noise,
                self.seed == old(self).seed,
                self.vertex_registry == old(self).vertex_registry,
            decreases loaded@.len() - i,
        {
            let q = loaded[i];
            self.mark_chunk_dirty(q.0, q.1);
            self.mark_side_neighbors_dirty(q);
            proof {
                assert(loaded@.take(i as int + 1) =~= loaded@.take(i as int).push(q));
                assert forall|p: (i32, i32)| #![all_triggers] true implies
                    (beside_any(p, loaded@.take(i as int + 1))
                        <==> beside_any(p, loaded@.take(i as int)) || side_neighbor(p, q)) by {
                    lemma_beside_any_push(p, loaded@.take(i as int), q);
                }
                assert forall|p: (i32, i32)| #![all_triggers] true implies
                    (loaded@.take(i as int + 1).contains(p) <==> loaded@.take(i as int).contains(p) || p == q) by {
                    if loaded@.take(i as int + 1).contains(p) {
                        let j = choose|j: int| 0 <= j < i + 1 && #[trigger] loaded@.take(i as int + 1)[j] == p;
                        if j < i {
                            assert(loaded@.take(i as int)[j] == p);
                        }
                    }
                    if loaded@.take(i as int).contains(p) {
                        let j = choose|j: int| 0 <= j < i && #[trigger] loaded@.take(i as int)[j] == p;
                        assert(loaded@.take(i as int + 1)[j] == p);
                    }
                    if p == q {
                        assert(loaded@.take(i as int + 1)[i as int] == p);
                    }
                }
                let expected = Map::new(
                    |p: (i32, i32)| old_chunks.dom().contains(p),
                    |p: (i32, i32)|
                        if loaded@.take(i as int + 1).contains(p) || beside_any(p, loaded@.take(i as int + 1)) {
                            old_chunks[p].with_dirty(true)
                        } else {
                            old_chunks[p]
                        },
                );
                assert(self.chunks() =~= expected);
            }
            i = i + 1;
        }
        proof {
            assert(loaded@.take(loaded@.len() as int) =~= loaded@);
            assert forall|j: int, p: (i32, i32)| 0 <= j < loaded@.len() && self.chunks().dom().contains(p)
                && (p == loaded@[j] || #[trigger] chunk_steps(p, loaded@[j]) == 1) implies self.chunks()[p].dirty by {
                law_side_neighbors_one_step(p, loaded@[j]);
                if p == loaded@[j] {
                    assert(loaded@.contains(p));
                } else {
                    assert(beside_any(p, loaded@));
                }
            }
            assert forall|p: (i32, i32)| #[trigger] self.chunks().dom().contains(p)
                && !loaded@.contains(p) && (forall|j: int| 0 <= j < loaded@.len() ==> #[trigger] chunk_steps(p, loaded@[j]) != 1)
                implies self.chunks()[p] == old(self).chunks()[p] by {
                if beside_any(p, loaded@) {
                    let j = choose|j: int| 0 <= j < loaded@.len() && side_neighbor(p, #[trigger] loaded@[j]);
                    law_side_neighbors_one_step(p, loaded@[j]);
                    assert(chunk_steps(p, loaded@[j]) != 1);
                }
            }
        }
    }

    /// Gives the chunk at `key`, where it is loaded, the surface normals
    /// `normals` and adds the foliage `foliage` grown on it.
    fn set_chunk_surface(&mut self, key: (i32, i32), normals: Vec<(Vec2, Vec2)>, foliage: Vec<Entity>)
        ensures
            chunk_map_contents(final(self).loaded_chunks).dom() == chunk_map_contents(old(self).loaded_chunks).dom(),
            forall|k: (i32, i32)| k != key ==> #[trigger] chunk_map_contents(final(self).loaded_chunks)[k]
                == chunk_map_contents(old(self).loaded_chunks)[k],
            final(self).chunks() == (if old(self).chunks().dom().contains(key) {
                old(self).chunks().insert(key, (ChunkModel {
                    surface_normals: normals@,
                    foliage: old(self).chunks()[key].foliage + foliage@,
                    ..old(self).chunks()[key]
                }))
            } else {
                old(self).chunks()
            }),
            final(self).noise == old(self).noise,
            final(self).seed == old(self).seed,
            final(self).vertex_registry == old(self).vertex_registry,
    {
        if let Some(mut chunk) = chunk_map_remove(&mut self.loaded_chunks, key) {
            proof {
                lemma_views_remove(chunk_map_contents(old(self).loaded_chunks), key);
            }
            chunk.populate_surface_normals(normals);
            let ghost start = chunk@;
            let mut i: usize = 0;
            while i < foliage.len()
                invariant
                    i <= foliage@.len(),
                    chunk@ == (ChunkModel { foliage: start.foliage + foliage@.take(i as int), ..start }),
                decreases foliage@.len() - i,
            {
                chunk.add_foliage(foliage[i]);
                proof {
                    assert(start.foliage + foliage@.take(i as int + 1) =~= (start.foliage + foliage@.take(i as int)).push(foliage@[i as int]));
                }
                i = i + 1;
            }
            proof {
                assert(foliage@.take(foliage@.len() as int) =~= foliage@);
            }
            let ghost removed = chunk_map_contents(self.loaded_chunks);
            chunk_map_insert(&mut self.loaded_chunks, key, chunk);
            proof {
                lemma_views_insert(removed, key, chunk);
                assert(chunk_map_contents(self.loaded_chunks).dom() =~= chunk_map_contents(old(self).loaded_chunks).dom());
                assert(self.chunks() =~= old(self).chunks().insert(key, (ChunkModel {
                    surface_normals: normals@,
                    foliage: old(self).chunks()[key].foliage + foliage@,
                    ..old(self).chunks()[key]
                })));
            }
        }
    }

    /// Loads the chunks at the candidate positions (those the culling box
    /// keeps, in the order the box's range is walked) that are not loaded yet
    /// and returns their positions in that order. Each is a chunk of the
    /// voxels that `generate` gives for it, needing meshing and unmodified.
    /// Once all are in (the normals depend on the neighbouring chunks), each
    /// gets the surface normals that `surface_normals` computes for it, one
    /// per contour cell of the chunk, and the foliage that `grow_foliage`
    /// grows on those normals from the chunk position and the world seed.
    pub fn load_chunks_in_box(
        &mut self,
        candidates: &Vec<(i32, i32)>,
        generate: impl Fn(i32, i32) -> Vec<VoxelType>,
        surface_normals: impl Fn(&World, i32, i32) -> Vec<(Vec2, Vec2)>,
        grow_foliage: impl Fn(&[(Vec2, Vec2)], i32, i32, u64) -> Vec<Entity>,
    ) -> (r: Vec<(i32, i32)>)
        requires
            forall|x: i32, y: i32| call_requires(generate, (x, y)),
            forall|x: i32, y: i32, v: Vec<VoxelType>| call_ensures(generate, (x, y), v) ==> v@.len() == CHUNK_SIZE * CHUNK_SIZE,
            forall|w: &World, x: i32, y: i32| call_requires(surface_normals, (w, x, y)),
            forall|w: &World, x: i32, y: i32, v: Vec<(Vec2, Vec2)>| call_ensures(surface_normals, (w, x, y), v)
                ==> v@.len() == contour_cells(w.chunks(), x as int, y as int, 256).len(),
            forall|n: &[(Vec2, Vec2)], x: i32, y: i32, seed: u64| call_requires(grow_foliage, (n, x, y, seed)),
        ensures
            r@ == chunks_to_load(old(self).chunks().dom(), candidates@),
            final(self).chunks().dom() == old(self).chunks().dom() + candidates@.to_set(),
            forall|k: (i32, i32)| #[trigger] old(self).chunks().dom().contains(k)
                ==> chunk_map_contents(final(self).loaded_chunks)[k] == chunk_map_contents(old(self).loaded_chunks)[k],
            forall|k: (i32, i32)| #[trigger] final(self).chunks().dom().contains(k) && !old(self).chunks().dom().contains(k)
                ==> loaded_chunk(final(self).chunks(), k) && (exists|v: Vec<VoxelType>|
                    #[trigger] call_ensures(generate, (k.0, k.1), v) && final(self).chunks()[k].voxels == v@)
                && (exists|n: &[(Vec2, Vec2)], f: Vec<Entity>|
                    #[trigger] call_ensures(grow_foliage, (n, k.0, k.1, old(self).seed), f)
                    && n@ == final(self).chunks()[k].surface_normals && final(self).chunks()[k].foliage == f@),
            final(self).noise == old(self).noise,
            final(self).seed == old(self).seed,
            final(self).vertex_registry == old(self).vertex_registry,
    {
        let ghost old_dom = self.chunks().dom();
        let ghost old_map = chunk_map_contents(self.loaded_chunks);
        let loaded = self.insert_fresh_chunks(candidates, generate);
        let ghost mid = self.chunks();
        let ghost mid_map = chunk_map_contents(self.loaded_chunks);
        proof {
            law_load_each_chunk_once(old_dom, candidates@);
        }

        // The insertion of surface normals has to be done separately because it
        // depends on neighboring chunks
        let mut i: usize = 0;
        while i < loaded.len()
            invariant
                i <= loaded@.len(),
                old_dom == old(self).chunks().dom(),
                old_map == chunk_map_contents(old(self).loaded_chunks),
                loaded@ == chunks_to_load(old_dom, candidates@),
                loaded@.no_duplicates(),
                forall|p: (i32, i32)| #[trigger] loaded@.contains(p) <==> candidates@.contains(p) && !old_dom.contains(p),
                forall|w: &World, x: i32, y: i32| call_requires(surface_normals, (w, x, y)),
                forall|w: &World, x: i32, y: i32, v: Vec<(Vec2, Vec2)>| call_ensures(surface_normals, (w, x, y), v)
                    ==> v@.len() == contour_cells(w.chunks(), x as int, y as int, 256).len(),
                forall|n: &[(Vec2, Vec2)], x: i32, y: i32, seed: u64| call_requires(grow_foliage, (n, x, y, seed)),
                mid.dom() == old_dom + candidates@.to_set(),
                mid == chunk_views(mid_map),
                chunk_map_contents(self.loaded_chunks).dom() == mid_map.dom(),
                self.chunks().dom() == mid.dom(),
                forall|k: (i32, i32)| #[trigger] old_dom.contains(k) ==> mid_map[k] == old_map[k],
                forall|k: (i32, i32)| #[trigger] mid.dom().contains(k) && !old_dom.contains(k) ==> mid[k].foliage.len() == 0,
                forall|k: (i32, i32)| !loaded@.take(i as int).contains(k)
                    ==> #[trigger] chunk_map_contents(self.loaded_chunks)[k] == mid_map[k],
                forall|k: (i32, i32)| #[trigger] self.chunks().dom().contains(k)
                    ==> self.chunks()[k] == (ChunkModel {
                        surface_normals: self.chunks()[k].surface_normals,
                        foliage: self.chunks()[k].foliage,
                        ..mid[k]
                    }),
                forall|k: (i32, i32)| #[trigger] loaded@.take(i as int).contains(k)
                    ==> self.chunks()[k].surface_normals.len() == contour_cells(mid, k.0 as int, k.1 as int, 256).len()
                    && (exists|n: &[(Vec2, Vec2)], f: Vec<Entity>|
                        #[trigger] call_ensures(grow_foliage, (n, k.0, k.1, old(self).seed), f)
                        && n@ == self.chunks()[k].surface_normals && self.chunks()[k].foliage == f@),
                self.noise == old(self).noise,
                self.seed == old(self).seed,
                self.vertex_registry == old(self).vertex_registry,
            decreases loaded@.len() - i,
        {
            let key = loaded[i];
            proof {
                lemma_contour_cells_voxels_only(self.chunks(), mid, key.0 as int, key.1 as int, 256);
            }
            let normals = surface_normals(&*self, key.0, key.1);
            let foliage = grow_foliage(normals.as_slice(), key.0, key.1, self.seed);
            let ghost before = self.chunks();
            proof {
                let t0 = loaded@.take(i as int);
                assert(!t0.contains(key)) by {
                    if t0.contains(key) {
                        let j = choose|j: int| 0 <= j < t0.len() && t0[j] == key;
                        assert(loaded@[j] == loaded@[i as int]);
                    }
                }
                assert(loaded@.contains(key));
                assert(mid.dom().contains(key)) by {
                    assert(candidates@.contains(key));
                    assert(candidates@.to_set().contains(key));
                }
                assert(chunk_map_contents(self.loaded_chunks)[key] == mid_map[key]);
                assert(before[key] == mid_map[key]@);
                assert(mid[key] == mid_map[key]@);
                assert(before[key].foliage == mid[key].foliage);
                assert(before[key].foliage.len() == 0);
                assert(before[key].foliage + foliage@ =~= foliage@);
            }
            self.set_chunk_surface(key, normals, foliage);
            proof {
                let t0 = loaded@.take(i as int);
                let t1 = loaded@.take(i as int + 1);
                assert(t1 =~= t0.push(key));
                assert forall|p: (i32, i32)| #![all_triggers] true implies (t1.contains(p) <==> t0.contains(p) || p == key) by {
                    if t1.contains(p) {
                        let j = choose|j: int| 0 <= j < t1.len() && #[trigger] t1[j] == p;
                        if j < t0.len() {
                            assert(t0[j] == p);
                        }
                    }
                    if t0.contains(p) {
                        let j = choose|j: int| 0 <= j < t0.len() && #[trigger] t0[j] == p;
                        assert(t1[j] == p);
                    }
                    if p == key {
                        assert(t1[i as int] == p);
                    }
                }
            }
            i = i + 1;
        }
        proof {
            assert(loaded@.take(loaded@.len() as int) =~= loaded@);
            assert forall|k: (i32, i32)| #[trigger] self.chunks().dom().contains(k) && !old_dom.contains(k)
                implies loaded_chunk(self.chunks(), k) && (exists|v: Vec<VoxelType>|
                    #[trigger] call_ensures(generate, (k.0, k.1), v) && self.chunks()[k].voxels == v@)
                && (exists|n: &[(Vec2, Vec2)], f: Vec<Entity>|
                    #[trigger] call_ensures(grow_foliage, (n, k.0, k.1, old(self).seed), f)
                    && n@ == self.chunks()[k].surface_normals && self.chunks()[k].foliage == f@) by {
                assert(candidates@.to_set().contains(k));
                assert(loaded@.contains(k));
                lemma_contour_cells_voxels_only(self.chunks(), mid, k.0 as int, k.1 as int, 256);
                assert(mid.dom().contains(k));
            }
            assert forall|k: (i32, i32)| #[trigger] old_dom.contains(k)
                implies chunk_map_contents(self.loaded_chunks)[k] == old_map[k] by {
                assert(!loaded@.contains(k));
                if loaded@.take(loaded@.len() as int).contains(k) {
                    let j = choose|j: int| 0 <= j < loaded@.len() && loaded@.take(loaded@.len() as int)[j] == k;
                    assert(loaded@[j] == k);
                }
            }
        }
        loaded
    }

    /// Marks every loaded chunk as needing re-meshing (when the voxel view is
    /// switched back on, every chunk mesh has to be rebuilt).
    pub fn mark_all_chunks_dirty(&mut self)
        ensures
            final(self).chunks() == old(self).chunks().map_values(|c: ChunkModel| c.with_dirty(true)),
            final(self).noise == old(self).noise,
            final(self).seed == old(self).seed,
            final(self).vertex_registry == old(self).vertex_registry,
    {
        let ghost old_chunks = self.chunks();
        let keys = chunk_map_keys(&self.loaded_chunks);
        let mut i: usize = 0;
        while i < keys.len()
            invariant
                i <= keys@.len(),
                keys@.to_set() == old_chunks.dom(),
                old_chunks == old(self).chunks(),
                self.chunks() == Map::new(
                    |p: (i32, i32)| old_chunks.dom().contains(p),
                    |p: (i32, i32)| if keys@.take(i as int).contains(p) { old_chunks[p].with_dirty(true) } else { old_chunks[p] },
                ),
                self.noise == old(self).noise,
                self.seed == old(self).seed,
                self.vertex_registry == old(self).vertex_registry,
            decreases keys@.len() - i,
        {
            let key = keys[i];
            self.mark_chunk_dirty(key.0, key.1);
            proof {
                assert(keys@.to_set().contains(key));
                let t0 = keys@.take(i as int);
                let t1 = keys@.take(i as int + 1);
                assert(t1 =~= t0.push(key));
                assert forall|p: (i32, i32)| #![all_triggers] true implies (t1.contains(p) <==> t0.contains(p) || p == key) by {
                    if t1.contains(p) {
                        let j = choose|j: int| 0 <= j < t1.len() && #[trigger] t1[j] == p;
                        if j < t0.len() {
                            assert(t0[j] == p);
                        }
                    }
                    if t0.contains(p) {
                        let j = choose|j: int| 0 <= j < t0.len() && #[trigger] t0[j] == p;
                        assert(t1[j] == p);
                    }
                    if p == key {
                        assert(t1[i as int] == p);
                    }
                }
                let expected = Map::new(
                    |p: (i32, i32)| old_chunks.dom().contains(p),
                    |p: (i32, i32)| if t1.contains(p) { old_chunks[p].with_dirty(true) } else { old_chunks[p] },
                );
                assert(self.chunks() =~= expected);
            }
            i = i + 1;
        }
        proof {
            assert(keys@.take(keys@.len() as int) =~= keys@);
            assert forall|p: (i32, i32)| old_chunks.dom().contains(p) implies keys@.contains(p) by {
                assert(keys@.to_set().contains(p));
            }
            assert(self.chunks() =~= old_chunks.map_values(|c: ChunkModel| c.with_dirty(true)));
        }
    }

    /// The smallest box of chunk coordinates holding every loaded chunk, as
    /// `(min_x, max_x, min_y, max_y)` (all inclusive), or `None` when no chunk
    /// is loaded.
    pub fn loaded_chunk_bounds(&self) -> (r: Option<(i32, i32, i32, i32)>)
        ensures
            r is None <==> self.chunks().dom().is_empty(),
            r matches Some(b) ==> {
                &&& forall|k: (i32, i32)| #[trigger] self.chunks().dom().contains(k)
                    ==> b.0 <= k.0 <= b.1 && b.2 <= k.1 <= b.3
                &&& exists|k: (i32, i32)| #[trigger] self.chunks().dom().contains(k) && k.0 == b.0
                &&& exists|k: (i32, i32)| #[trigger] self.chunks().dom().contains(k) && k.0 == b.1
                &&& exists|k: (i32, i32)| #[trigger] self.chunks().dom().contains(k) && k.1 == b.2
                &&& exists|k: (i32, i32)| #[trigger] self.chunks().dom().contains(k) && k.1 == b.3
            },
    {
        let keys = chunk_map_keys(&self.loaded_chunks);
        if keys.len() == 0 {
            proof {
                assert forall|k: (i32, i32)| !self.chunks().dom().contains(k) by {
                    if self.chunks().dom().contains(k) {
                        assert(keys@.to_set().contains(k));
                        assert(keys@.contains(k));
                    }
                }
                assert(self.chunks().dom() =~= Set::<(i32, i32)>::empty());
            }
            return None;
        }
        let first = keys[0];
        let mut min_x = first.0;
        let mut max_x = first.0;
        let mut min_y = first.1;
        let mut max_y = first.1;
        let mut i: usize = 1;
        while i < keys.len()
            invariant
                1 <= i <= keys@.len(),
                forall|j: int| 0 <= j < i ==> min_x <= (#[trigger] keys@[j]).0 <= max_x && min_y <= keys@[j].1 <= max_y,
                exists|j: int| 0 <= j < i && (#[trigger] keys@[j]).0 == min_x,
                exists|j: int| 0 <= j < i && (#[trigger] keys@[j]).0 == max_x,
                exists|j: int| 0 <= j < i && (#[trigger] keys@[j]).1 == min_y,
                exists|j: int| 0 <= j < i && (#[trigger] keys@[j]).1 == max_y,
            decreases keys@.len() - i,
        {
            let k = keys[i];
            if k.0 < min_x {
                min_x = k.0;
            }
            if k.0 > max_x {
                max_x = k.0;
            }
            if k.1 < min_y {
                min_y = k.1;
            }
            if k.1 > max_y {
                max_y = k.1;
            }
            i = i + 1;
        }
        proof {
            let b = (min_x, max_x, min_y, max_y);
            assert(self.chunks().dom() =~= chunk_map_contents(self.loaded_chunks).dom());
            assert(keys@.to_set().contains(keys@[0]));
            assert(self.chunks().dom().contains(keys@[0]));
            assert forall|k: (i32, i32)| #[trigger] self.chunks().dom().contains(k)
                implies b.0 <= k.0 <= b.1 && b.2 <= k.1 <= b.3 by {
                assert(keys@.to_set().contains(k));
                let j = choose|j: int| 0 <= j < keys@.len() && keys@[j] == k;
            }
            let j0 = choose|j: int| 0 <= j < i && (#[trigger] keys@[j]).0 == min_x;
            let j1 = choose|j: int| 0 <= j < i && (#[trigger] keys@[j]).0 == max_x;
            let j2 = choose|j: int| 0 <= j < i && (#[trigger] keys@[j]).1 == min_y;
            let j3 = choose|j: int| 0 <= j < i && (#[trigger] keys@[j]).1 == max_y;
            assert(keys@.to_set().contains(keys@[j0]));
            assert(keys@.to_set().contains(keys@[j1]));
            assert(keys@.to_set().contains(keys@[j2]));
            assert(keys@.to_set().contains(keys@[j3]));
            assert(self.chunks().dom().contains(keys@[j0]));
            assert(self.chunks().dom().contains(keys@[j1]));
            assert(self.chunks().dom().contains(keys@[j2]));
            assert(self.chunks().dom().contains(keys@[j3]));
        }
        Some((min_x, max_x, min_y, max_y))
    }

    pub fn chunk_size() -> (r: usize)
        ensures
            r == CHUNK_SIZE,
    {
        CHUNK_SIZE
    }

    /// Get the number of loaded chunks
    pub fn loaded_chunk_count(&self) -> (r: usize)
        ensures
            r == self.chunks().len(),
    {
        let r = chunk_map_len(&self.loaded_chunks);
        proof {
            assert(self.chunks().dom() =~= chunk_map_contents(self.loaded_chunks).dom());
        }
        r
    }
}

} // verus!
