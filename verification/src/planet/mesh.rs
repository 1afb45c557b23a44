pub mod chunk_world;
pub mod dual_contourer;

use crate::planet::mesh::dual_contourer::{
    append_cell_meshes, cell_samplable, chunk_cell, chunk_mesh_of, full_cells, is_chunk_mesh,
    lemma_is_chunk_mesh_of, partial_meshes, voxel_loaded,
};
use crate::planet::meshing::{valid_line_list, valid_triangle_list};
use crate::planet::meshing::greedy_mesh::{cell_marked, covered_by, is_greedy_meshing, quads_mesh, GreedyQuad};
use crate::planet::startup::{ChunkModel, VoxelType, VoxelWorld};
use crate::planet::world::chunk_world::chunk_key;
use vstd::arithmetic::div_mod::lemma_fundamental_div_mod_converse;
use vstd::prelude::*;

verus! {

pub struct MeshRenderer;

/// The line-list indices that outline the triangles of a triangle list: for
/// each complete triangle `(a, b, c)` of `ts`, the lines a-b, b-c and c-a.
pub open spec fn wireframe_of(ts: Seq<u32>, n: nat) -> Seq<u32>
    decreases n,
{
    if n == 0 {
        Seq::empty()
    } else {
        let k = 3 * (n - 1);
        wireframe_of(ts, (n - 1) as nat) + seq![ts[k], ts[k + 1], ts[k + 1], ts[k + 2], ts[k + 2], ts[k]]
    }
}

/// The chunk that a mesh shows.
#[derive(Clone, Copy, PartialEq, Eq, Structural, Debug)]
pub struct ChunkMesh {
    pub chunk_x: i32,
    pub chunk_y: i32,
}

/// The mesh of one material of one chunk: corners in world units and the
/// triangle indices into them.
pub struct MaterialMesh {
    pub chunk: ChunkMesh,
    pub material: VoxelType,
    pub vertices: Vec<(i64, i64)>,
    pub indices: Vec<u32>,
}

/// A material mesh by its chunk position, material, corners and indices.
pub type MeshView = ((i32, i32), VoxelType, Seq<(i64, i64)>, Seq<u32>);

impl MaterialMesh {
    pub open spec fn parts(&self) -> MeshView {
        ((self.chunk.chunk_x, self.chunk.chunk_y), self.material, self.vertices@, self.indices@)
    }
}

/// The materials that are meshed: rock, then dirt.
pub open spec fn meshed_material(i: int) -> VoxelType {
    if i == 0 {
        VoxelType::Rock
    } else {
        VoxelType::Dirt
    }
}

/// The meshes of the first `n` meshed materials of chunk `k` that have both
/// vertices and indices.
pub open spec fn chunk_meshes(chunks: Map<(i32, i32), ChunkModel>, k: (i32, i32), n: nat) -> Seq<MeshView>
    decreases n,
{
    if n == 0 {
        Seq::empty()
    } else {
        let prev = chunk_meshes(chunks, k, (n - 1) as nat);
        let m = meshed_material(n - 1);
        let mesh = chunk_mesh_of(chunks, k.0 as int, k.1 as int, m);
        if mesh.0.len() > 0 && mesh.1.len() > 0 {
            prev.push((k, m, mesh.0, mesh.1))
        } else {
            prev
        }
    }
}

/// The meshes of the chunks at `ds`, chunk after chunk.
pub open spec fn meshes_of_chunks(chunks: Map<(i32, i32), ChunkModel>, ds: Seq<(i32, i32)>) -> Seq<MeshView>
    decreases ds.len(),
{
    if ds.len() == 0 {
        Seq::empty()
    } else {
        meshes_of_chunks(chunks, ds.drop_last()) + chunk_meshes(chunks, ds.last(), 2)
    }
}

/// Chunk coordinates whose cells' world coordinates, and the next chunk's, fit in an `i32`.
pub open spec fn meshable_chunk(k: (i32, i32)) -> bool {
    &&& -0x800_0000 <= k.0 < 0x7ff_ffff
    &&& -0x800_0000 <= k.1 < 0x7ff_ffff
}

/// The outline of a triangle list is a line list over the same vertices:
/// three lines, six indices, per triangle, naming only vertices that the
/// triangles name.
pub proof fn law_wireframe_valid(n: nat, ts: Seq<u32>, k: nat)
    requires
        valid_triangle_list(n, ts),
        3 * k <= ts.len(),
    ensures
        wireframe_of(ts, k).len() == 6 * k,
        valid_line_list(n, wireframe_of(ts, k)),
    decreases k,
{
    if k > 0 {
        law_wireframe_valid(n, ts, (k - 1) as nat);
        let p = wireframe_of(ts, (k - 1) as nat);
        let w = wireframe_of(ts, k);
        let b = 3 * (k - 1);
        assert(ts[b] < n && ts[b + 1] < n && ts[b + 2] < n);
        assert forall|i: int| 0 <= i < w.len() implies (#[trigger] w[i]) < n by {
            if i < p.len() {
                assert(w[i] == p[i]);
            }
        }
    }
}

impl MeshRenderer {
    /// Rebuilds the meshes of the chunks that need it: for every dirty chunk
    /// (returned first, so their old meshes can be removed), its rock and dirt
    /// meshes that have vertices and indices, chunk after chunk; afterwards no
    /// chunk is dirty any more.
    pub fn render_mesh(world: &mut VoxelWorld) -> (r: (Vec<(i32, i32)>, Vec<MaterialMesh>))
        requires
            forall|k: (i32, i32)| old(world).chunks().dom().contains(k) && old(world).chunks()[k].dirty ==> meshable_chunk(k),
        ensures
            r.0@.no_duplicates(),
            forall|k: (i32, i32)| r.0@.contains(k) <==> old(world).chunks().dom().contains(k) && old(world).chunks()[k].dirty,
            r.1@.map_values(|m: MaterialMesh| m.parts()) == meshes_of_chunks(old(world).chunks(), r.0@),
            forall|i: int| 0 <= i < r.1@.len() ==> valid_triangle_list((#[trigger] r.1@[i]).vertices@.len(), r.1@[i].indices@),
            final(world).chunks() == old(world).chunks().map_values(|c: ChunkModel| c.with_dirty(false)),
    {
        let ghost old_chunks = world.chunks();
        let dirty_chunks = world.get_dirty_chunks();
        let mut meshes: Vec<MaterialMesh> = Vec::new();

        // Regenerate meshes for dirty chunks only
        let mut i: usize = 0;
        while i < dirty_chunks.len()
            invariant
                i <= dirty_chunks@.len(),
                old_chunks == old(world).chunks(),
                world.chunks() == old_chunks,
                forall|k: (i32, i32)| dirty_chunks@.contains(k) ==> meshable_chunk(k),
                meshes@.map_values(|m: MaterialMesh| m.parts()) == meshes_of_chunks(old_chunks, dirty_chunks@.take(i as int)),
                forall|j: int| 0 <= j < meshes@.len() ==> valid_triangle_list((#[trigger] meshes@[j]).vertices@.len(), meshes@[j].indices@),
            decreases dirty_chunks@.len() - i,
        {
            let key = dirty_chunks[i];
            proof {
                assert(dirty_chunks@.contains(key));
            }
            let ghost start = meshes@.map_values(|m: MaterialMesh| m.parts());
            let mut k: usize = 0;
            while k < 2
                invariant
                    k <= 2,
                    world.chunks() == old_chunks,
                    meshable_chunk(key),
                    meshes@.map_values(|m: MaterialMesh| m.parts()) == start + chunk_meshes(old_chunks, key, k as nat),
                    forall|j: int| 0 <= j < meshes@.len() ==> valid_triangle_list((#[trigger] meshes@[j]).vertices@.len(), meshes@[j].indices@),
                decreases 2 - k,
            {
                let material_type = if k == 0 { VoxelType::Rock } else { VoxelType::Dirt };
                let (vertices, indices) = DualContourer::generate_chunk_mesh(world, key.0, key.1, material_type);
                proof {
                    lemma_is_chunk_mesh_of(old_chunks, key.0 as int, key.1 as int, material_type, (vertices@, indices@));
                }
                let ghost before = meshes@;
                if vertices.len() > 0 && indices.len() > 0 {
                    meshes.push(MaterialMesh {
                        chunk: ChunkMesh { chunk_x: key.0, chunk_y: key.1 },
                        material: material_type,
                        vertices,
                        indices,
                    });
                    proof {
                        assert(meshes@.map_values(|m: MaterialMesh| m.parts())
                            =~= before.map_values(|m: MaterialMesh| m.parts()).push(meshes@.last().parts()));
                    }
                }
                proof {
                    let n = (k + 1) as nat;
                    assert(((n - 1) as int) == k);
                    assert(meshes@.map_values(|m: MaterialMesh| m.parts()) =~= start + chunk_meshes(old_chunks, key, n));
                }
                k = k + 1;
            }
            proof {
                assert(dirty_chunks@.take(i as int + 1).drop_last() =~= dirty_chunks@.take(i as int));
                assert(dirty_chunks@.take(i as int + 1).last() == key);
            }
            i = i + 1;
        }
        proof {
            assert(dirty_chunks@.take(dirty_chunks@.len() as int) =~= dirty_chunks@);
        }

        // Mark chunks as clean after processing
        let mut i: usize = 0;
        while i < dirty_chunks.len()
            invariant
                i <= dirty_chunks@.len(),
                old_chunks == old(world).chunks(),
                world.chunks() == Map::new(
                    |p: (i32, i32)| old_chunks.dom().contains(p),
                    |p: (i32, i32)| if dirty_chunks@.take(i as int).contains(p) { old_chunks[p].with_dirty(false) } else { old_chunks[p] },
                ),
            decreases dirty_chunks@.len() - i,
        {
            let key = dirty_chunks[i];
            world.mark_chunk_clean(key.0, key.1);
            proof {
                let t0 = dirty_chunks@.take(i as int);
                let t1 = dirty_chunks@.take(i as int + 1);
                assert(t1 =~= t0.push(key));
                assert forall|p: (i32, i32)| #![all_triggers] true implies (t1.contains(p) <==> t0.contains(p) || p == key) by {
                    if t1.contains(p) {
                        let j = choose|j: int| 0 <= j < t1.len() && #[trigger] t1[j] == p;
                        if j < t0.len() {
                            assert(t0[j] == p);
                        }
                    }
                    if t0.contains(p) {
                        let j = choose|j: int| 0 <= j < t0.len() && #[trigger] t0[j] == p;
                        assert(t1[j] == p);
                    }
                    if p == key {
                        assert(t1[i as int] == p);
                    }
                }
                let expected = Map::new(
                    |p: (i32, i32)| old_chunks.dom().contains(p),
                    |p: (i32, i32)| if t1.contains(p) { old_chunks[p].with_dirty(false) } else { old_chunks[p] },
                );
                assert(world.chunks() =~= expected);
            }
            i = i + 1;
        }
        proof {
            assert(dirty_chunks@.take(dirty_chunks@.len() as int) =~= dirty_chunks@);
            assert forall|p: (i32, i32)| old_chunks.dom().contains(p) && !dirty_chunks@.contains(p)
                implies old_chunks[p] == old_chunks[p].with_dirty(false) by {}
            assert(world.chunks() =~= old_chunks.map_values(|c: ChunkModel| c.with_dirty(false)));
        }
        (dirty_chunks, meshes)
    }

    /// Converts each complete triangle `(a, b, c)` of a triangle list into
    /// the three lines a-b, b-c, c-a; a trailing incomplete triangle is ignored.
    pub fn generate_wireframe_indices(triangle_indices: &[u32]) -> (r: Vec<u32>)
        ensures
            r@ == wireframe_of(triangle_indices@, (triangle_indices@.len() / 3) as nat),
    {
        let mut wireframe_indices: Vec<u32> = Vec::new();
        let len = triangle_indices.len();
        let n = len / 3;
        let mut t: usize = 0;
        while t < n
            invariant
                t <= n,
                len == triangle_indices@.len(),
                n == triangle_indices@.len() / 3,
                wireframe_indices@ == wireframe_of(triangle_indices@, t as nat),
            decreases n - t,
        {
            assert(3 * t + 2 < len) by (nonlinear_arith)
                requires
                    t < n,
                    n == len / 3,
            ;
            let a = triangle_indices[3 * t];
            let b = triangle_indices[3 * t + 1];
            let c = triangle_indices[3 * t + 2];

            // Add three lines: a-b, b-c, c-a
            wireframe_indices.push(a);
            wireframe_indices.push(b);
            wireframe_indices.push(b);
            wireframe_indices.push(c);
            wireframe_indices.push(c);
            wireframe_indices.push(a);
            proof {
                assert(wireframe_indices@ =~= wireframe_of(triangle_indices@, (t + 1) as nat));
            }
            t = t + 1;
        }
        wireframe_indices
    }
}

/// Dual contouring over the chunks of a `VoxelWorld`.
pub struct DualContourer;

/// In an unloaded chunk no cell has all four corners loaded, so there is
/// nothing to mesh.
proof fn lemma_unloaded_chunk_has_no_cells(chunks: Map<(i32, i32), ChunkModel>, cx: int, cy: int, target: VoxelType, n: nat)
    requires
        !chunks.dom().contains((cx as i32, cy as i32)),
        -0x800_0000 <= cx < 0x7ff_ffff,
        -0x800_0000 <= cy < 0x7ff_ffff,
        n <= 256,
    ensures
        full_cells(chunks, cx, cy, target, n) =~= Seq::<(i32, i32)>::empty(),
        partial_meshes(chunks, cx, cy, target, n).len() == 0,
    decreases n,
{
    if n > 0 {
        lemma_unloaded_chunk_has_no_cells(chunks, cx, cy, target, (n - 1) as nat);
        let t = n - 1;
        let c = chunk_cell(cx, cy, t);
        lemma_fundamental_div_mod_converse(t, 16, t / 16, t % 16);
        lemma_fundamental_div_mod_converse(c.0, 16, cx, t % 16);
        lemma_fundamental_div_mod_converse(c.1, 16, cy, t / 16);
        assert(chunk_key(c.0, c.1) == (cx as i32, cy as i32));
        assert(!voxel_loaded(chunks, c.0, c.1));
        assert(!cell_samplable(chunks, c.0, c.1));
    }
}

impl DualContourer {
    /// The mesh of `target_type` in chunk `(chunk_x, chunk_y)`: empty when the
    /// chunk is not loaded.
    pub fn generate_chunk_mesh(world: &VoxelWorld, chunk_x: i32, chunk_y: i32, target_type: VoxelType) -> (r: (Vec<(i64, i64)>, Vec<u32>))
        requires
            -0x800_0000 <= chunk_x < 0x7ff_ffff,
            -0x800_0000 <= chunk_y < 0x7ff_ffff,
        ensures
            is_chunk_mesh(world.chunks(), chunk_x as int, chunk_y as int, target_type, (r.0@, r.1@)),
            valid_triangle_list(r.0@.len(), r.1@),
    {
        // Check if chunk is loaded
        if !world.is_chunk_loaded(chunk_x, chunk_y) {
            let vertices: Vec<(i64, i64)> = Vec::new();
            let indices: Vec<u32> = Vec::new();
            proof {
                let cs = world.chunks();
                let b = (chunk_x * 16, chunk_y * 16, chunk_x * 16 + 16, chunk_y * 16 + 16);
                lemma_unloaded_chunk_has_no_cells(cs, chunk_x as int, chunk_y as int, target_type, 256);
                let quads = full_cells(cs, chunk_x as int, chunk_y as int, target_type, 256);
                let rs = Seq::<GreedyQuad>::empty();
                assert forall|x: int, y: int| #[trigger] cell_marked(quads, b, x, y) implies covered_by(rs, x, y) by {
                    assert(!quads.contains((x as i32, y as i32)));
                }
                assert(is_greedy_meshing(quads, b, rs));
                assert(quads_mesh(rs) == (Seq::<(i64, i64)>::empty(), Seq::<u32>::empty()));
                assert(partial_meshes(cs, chunk_x as int, chunk_y as int, target_type, 256) =~= Seq::empty());
                assert((vertices@, indices@) == append_cell_meshes(quads_mesh(rs), partial_meshes(cs, chunk_x as int, chunk_y as int, target_type, 256)));
            }
            return (vertices, indices);
        }
        crate::planet::mesh::dual_contourer::DualContourer::chunk_mesh(&world.loaded_chunks, chunk_x, chunk_y, target_type)
    }
}

} // verus!
