use crate::foreign::chunk_map_get;
use crate::planet::meshing::render_voxels::{voxel_mesh, VoxelRenderer};
use crate::planet::world::chunk::{Chunk, ChunkModel};
use crate::planet::world::chunk_world::World;
use crate::planet::world::voxel::VoxelType;
use vstd::prelude::*;

verus! {

/// The chunk that a mesh shows.
#[derive(Clone, Copy, PartialEq, Eq, Structural, Debug)]
pub struct ChunkMesh {
    pub chunk_x: i32,
    pub chunk_y: i32,
}

/// The mesh of one material of one chunk: corners in world units and the
/// triangle indices into them.
pub struct MaterialMesh {
    pub chunk: ChunkMesh,
    pub material: VoxelType,
    pub vertices: Vec<(i64, i64)>,
    pub indices: Vec<u32>,
}

/// A material mesh by its chunk position, material, corners and indices.
pub type MeshView = ((i32, i32), VoxelType, Seq<(i64, i64)>, Seq<u32>);

impl MaterialMesh {
    pub open spec fn parts(&self) -> MeshView {
        ((self.chunk.chunk_x, self.chunk.chunk_y), self.material, self.vertices@, self.indices@)
    }
}

pub struct MeshRenderer;

/// The materials that are meshed, in the order their meshes are built: rock,
/// dirt, grass, core.
pub open spec fn meshed_material(i: int) -> VoxelType {
    if i == 0 {
        VoxelType::Rock
    } else if i == 1 {
        VoxelType::Dirt
    } else if i == 2 {
        VoxelType::Grass
    } else {
        VoxelType::Core
    }
}

/// The non-empty meshes of the first `n` meshed materials of chunk `c` at `k`.
pub open spec fn chunk_meshes(c: ChunkModel, k: (i32, i32), n: nat) -> Seq<MeshView>
    decreases n,
{
    if n == 0 {
        Seq::empty()
    } else {
        let prev = chunk_meshes(c, k, (n - 1) as nat);
        let m = meshed_material(n - 1);
        let mesh = voxel_mesh(c, k.0 as int, k.1 as int, m, 256);
        if mesh.0.len() > 0 {
            prev.push((k, m, mesh.0, mesh.1))
        } else {
            prev
        }
    }
}

/// The meshes of the chunks at `ds`, chunk after chunk.
pub open spec fn meshes_of_chunks(chunks: Map<(i32, i32), ChunkModel>, ds: Seq<(i32, i32)>) -> Seq<MeshView>
    decreases ds.len(),
{
    if ds.len() == 0 {
        Seq::empty()
    } else {
        meshes_of_chunks(chunks, ds.drop_last()) + chunk_meshes(chunks[ds.last()], ds.last(), 4)
    }
}

/// Whether some voxel of chunk `c` holds material `m`.
pub open spec fn chunk_holds(c: ChunkModel, m: VoxelType) -> bool {
    exists|x: int, y: int| 0 <= x < 16 && 0 <= y < 16 && #[trigger] c.voxel_at(x, y) == m
}

/// The voxel mesh of a material over the first `n` voxels has a vertex
/// exactly when the material is not air and one of those voxels holds it.
proof fn lemma_voxel_mesh_nonempty(c: ChunkModel, cx: int, cy: int, m: VoxelType, n: nat)
    ensures
        voxel_mesh(c, cx, cy, m, n).0.len() > 0
            <==> (m != VoxelType::Air && exists|t: int| 0 <= t < n && #[trigger] c.voxel_at(t % 16, t / 16) == m),
    decreases n,
{
    if n > 0 {
        lemma_voxel_mesh_nonempty(c, cx, cy, m, (n - 1) as nat);
        let t0 = n - 1;
        if m != VoxelType::Air && exists|t: int| 0 <= t < n && #[trigger] c.voxel_at(t % 16, t / 16) == m {
            let t = choose|t: int| 0 <= t < n && #[trigger] c.voxel_at(t % 16, t / 16) == m;
            if t < t0 {
                assert(exists|u: int| 0 <= u < n - 1 && #[trigger] c.voxel_at(u % 16, u / 16) == m);
            }
        }
    }
}

/// Voxel `t` of a chunk, counting row by row, is the voxel at `(t % 16, t / 16)`,
/// and every voxel of the chunk is one of the first 256.
proof fn lemma_chunk_holds_index(c: ChunkModel, m: VoxelType)
    ensures
        chunk_holds(c, m) <==> exists|t: int| 0 <= t < 256 && #[trigger] c.voxel_at(t % 16, t / 16) == m,
{
    if chunk_holds(c, m) {
        let (x, y) = choose|x: int, y: int| 0 <= x < 16 && 0 <= y < 16 && #[trigger] c.voxel_at(x, y) == m;
        let t = 16 * y + x;
        vstd::arithmetic::div_mod::lemma_fundamental_div_mod_converse(t, 16, y, x);
        assert(c.voxel_at(t % 16, t / 16) == m);
    }
    if exists|t: int| 0 <= t < 256 && #[trigger] c.voxel_at(t % 16, t / 16) == m {
        let t = choose|t: int| 0 <= t < 256 && #[trigger] c.voxel_at(t % 16, t / 16) == m;
        vstd::arithmetic::div_mod::lemma_fundamental_div_mod(t, 16);
        assert(0 <= t / 16 < 16);
        assert(c.voxel_at(t % 16, t / 16) == m);
    }
}

/// The meshes of the first `n` materials of a chunk all belong to the chunk,
/// each has one of those materials, and a material that is met has a mesh
/// exactly when its voxel mesh is not empty.
proof fn lemma_chunk_meshes_materials(c: ChunkModel, k: (i32, i32), n: nat)
    requires
        n <= 4,
    ensures
        forall|j: int| 0 <= j < chunk_meshes(c, k, n).len() ==> (#[trigger] chunk_meshes(c, k, n)[j]).0 == k,
        forall|j: int| 0 <= j < chunk_meshes(c, k, n).len()
            ==> exists|i: int| 0 <= i < n && (#[trigger] chunk_meshes(c, k, n)[j]).1 == meshed_material(i),
        forall|j1: int, j2: int| 0 <= j1 < j2 < chunk_meshes(c, k, n).len()
            ==> (#[trigger] chunk_meshes(c, k, n)[j1]).1 != (#[trigger] chunk_meshes(c, k, n)[j2]).1,
        forall|i: int| 0 <= i < n ==> ((exists|j: int| 0 <= j < chunk_meshes(c, k, n).len()
            && (#[trigger] chunk_meshes(c, k, n)[j]).1 == meshed_material(i))
            <==> #[trigger] voxel_mesh(c, k.0 as int, k.1 as int, meshed_material(i), 256).0.len() > 0),
    decreases n,
{
    if n > 0 {
        lemma_chunk_meshes_materials(c, k, (n - 1) as nat);
        let prev = chunk_meshes(c, k, (n - 1) as nat);
        let cur = chunk_meshes(c, k, n);
        let mm = meshed_material(n - 1);
        assert forall|j: int| 0 <= j < cur.len() implies exists|i: int| 0 <= i < n && (#[trigger] cur[j]).1 == meshed_material(i) by {
            if j < prev.len() {
                assert(cur[j] == prev[j]);
                let i = choose|i: int| 0 <= i < n - 1 && (#[trigger] prev[j]).1 == meshed_material(i);
                assert(cur[j].1 == meshed_material(i));
            } else {
                assert(cur[j].1 == meshed_material(n - 1));
            }
        }
        assert forall|j1: int, j2: int| 0 <= j1 < j2 < cur.len() implies (#[trigger] cur[j1]).1 != (#[trigger] cur[j2]).1 by {
            if j2 < prev.len() {
                assert(cur[j1] == prev[j1] && cur[j2] == prev[j2]);
            } else {
                assert(cur[j1] == prev[j1]);
                let i = choose|i: int| 0 <= i < n - 1 && (#[trigger] prev[j1]).1 == meshed_material(i);
                assert(cur[j2].1 == mm);
            }
        }
        assert forall|i: int| 0 <= i < n implies ((exists|j: int| 0 <= j < cur.len() && (#[trigger] cur[j]).1 == meshed_material(i))
            <==> #[trigger] voxel_mesh(c, k.0 as int, k.1 as int, meshed_material(i), 256).0.len() > 0) by {
            if i < n - 1 {
                assert(meshed_material(i) != mm);
                if exists|j: int| 0 <= j < cur.len() && (#[trigger] cur[j]).1 == meshed_material(i) {
                    let j = choose|j: int| 0 <= j < cur.len() && (#[trigger] cur[j]).1 == meshed_material(i);
                    if j < prev.len() {
                        assert(prev[j] == cur[j]);
                    }
                }
                if exists|j: int| 0 <= j < prev.len() && (#[trigger] prev[j]).1 == meshed_material(i) {
                    let j = choose|j: int| 0 <= j < prev.len() && (#[trigger] prev[j]).1 == meshed_material(i);
                    assert(cur[j] == prev[j]);
                }
            } else {
                if exists|j: int| 0 <= j < cur.len() && (#[trigger] cur[j]).1 == meshed_material(i) {
                    let j = choose|j: int| 0 <= j < cur.len() && (#[trigger] cur[j]).1 == meshed_material(i);
                    if j < prev.len() {
                        assert(prev[j] == cur[j]);
                        let i2 = choose|i2: int| 0 <= i2 < n - 1 && (#[trigger] prev[j]).1 == meshed_material(i2);
                    }
                }
                if voxel_mesh(c, k.0 as int, k.1 as int, mm, 256).0.len() > 0 {
                    assert(cur[prev.len() as int].1 == mm);
                }
            }
        }
    }
}

/// Whether `ms` holds a mesh of chunk `k` and material `m`.
pub open spec fn has_mesh(ms: Seq<MaterialMesh>, k: (i32, i32), m: VoxelType) -> bool {
    exists|j: int| 0 <= j < ms.len() && (#[trigger] ms[j]).parts().0 == k && ms[j].parts().1 == m
}

/// Joining the meshes `p` of the chunks at `rest` with the meshes `c` of one
/// more chunk `last` keeps every mesh on one of the chunks and keeps the
/// materials of each chunk's meshes apart.
proof fn lemma_join_meshes(p: Seq<MeshView>, c: Seq<MeshView>, rest: Seq<(i32, i32)>, last: (i32, i32))
    requires
        !rest.contains(last),
        forall|j: int| 0 <= j < p.len() ==> rest.contains((#[trigger] p[j]).0),
        forall|j: int| 0 <= j < c.len() ==> (#[trigger] c[j]).0 == last,
        forall|j1: int, j2: int| 0 <= j1 < j2 < p.len() && (#[trigger] p[j1]).0 == (#[trigger] p[j2]).0 ==> p[j1].1 != p[j2].1,
        forall|j1: int, j2: int| 0 <= j1 < j2 < c.len() ==> (#[trigger] c[j1]).1 != (#[trigger] c[j2]).1,
    ensures
        forall|j: int| 0 <= j < (p + c).len() ==> rest.push(last).contains((#[trigger] (p + c)[j]).0),
        forall|j1: int, j2: int| 0 <= j1 < j2 < (p + c).len() && (#[trigger] (p + c)[j1]).0 == (#[trigger] (p + c)[j2]).0
            ==> (p + c)[j1].1 != (p + c)[j2].1,
{
    let all = p + c;
    let ds = rest.push(last);
    assert forall|j: int| 0 <= j < all.len() implies ds.contains((#[trigger] all[j]).0) by {
        if j < p.len() {
            assert(all[j] == p[j]);
            let a = choose|a: int| 0 <= a < rest.len() && rest[a] == p[j].0;
            assert(ds[a] == rest[a]);
        } else {
            assert(all[j] == c[j - p.len()]);
            assert(ds[ds.len() - 1] == last);
        }
    }
    assert forall|j1: int, j2: int| 0 <= j1 < j2 < all.len() && (#[trigger] all[j1]).0 == (#[trigger] all[j2]).0
        implies all[j1].1 != all[j2].1 by {
        if j2 < p.len() {
            assert(all[j1] == p[j1] && all[j2] == p[j2]);
        } else if j1 < p.len() {
            assert(all[j1] == p[j1] && all[j2] == c[j2 - p.len()]);
            assert(rest.contains(p[j1].0));
        } else {
            assert(all[j1] == c[j1 - p.len()] && all[j2] == c[j2 - p.len()]);
        }
    }
}

/// A mesh of chunk `k` and material `m` is among `p + c` exactly when it is
/// among `p`, or among `c` where `k` is the chunk of `c`.
proof fn lemma_join_find(p: Seq<MeshView>, c: Seq<MeshView>, last: (i32, i32), k: (i32, i32), m: VoxelType)
    requires
        forall|j: int| 0 <= j < c.len() ==> (#[trigger] c[j]).0 == last,
    ensures
        (exists|j: int| 0 <= j < (p + c).len() && (#[trigger] (p + c)[j]).0 == k && (p + c)[j].1 == m)
            <==> ((exists|j: int| 0 <= j < p.len() && (#[trigger] p[j]).0 == k && p[j].1 == m)
                || (k == last && exists|j: int| 0 <= j < c.len() && (#[trigger] c[j]).1 == m)),
{
    let all = p + c;
    if exists|j: int| 0 <= j < all.len() && (#[trigger] all[j]).0 == k && all[j].1 == m {
        let j = choose|j: int| 0 <= j < all.len() && (#[trigger] all[j]).0 == k && all[j].1 == m;
        if j < p.len() {
            assert(all[j] == p[j]);
        } else {
            assert(all[j] == c[j - p.len()]);
        }
    }
    if exists|j: int| 0 <= j < p.len() && (#[trigger] p[j]).0 == k && p[j].1 == m {
        let j = choose|j: int| 0 <= j < p.len() && (#[trigger] p[j]).0 == k && p[j].1 == m;
        assert(all[j] == p[j]);
    }
    if k == last && exists|j: int| 0 <= j < c.len() && (#[trigger] c[j]).1 == m {
        let j = choose|j: int| 0 <= j < c.len() && (#[trigger] c[j]).1 == m;
        assert(all[p.len() + j] == c[j]);
    }
}

/// A chunk holds a material other than air exactly when its meshes include
/// one of that material.
proof fn lemma_chunk_meshes_present(c: ChunkModel, k: (i32, i32), m: VoxelType)
    requires
        m != VoxelType::Air,
    ensures
        (exists|j: int| 0 <= j < chunk_meshes(c, k, 4).len() && (#[trigger] chunk_meshes(c, k, 4)[j]).1 == m)
            <==> chunk_holds(c, m),
{
    let i: int = if m == VoxelType::Rock { 0 } else if m == VoxelType::Dirt { 1 } else if m == VoxelType::Grass { 2 } else { 3 };
    assert(meshed_material(i) == m);
    lemma_chunk_meshes_materials(c, k, 4);
    lemma_voxel_mesh_nonempty(c, k.0 as int, k.1 as int, m, 256);
    lemma_chunk_holds_index(c, m);
    assert(voxel_mesh(c, k.0 as int, k.1 as int, meshed_material(i), 256).0.len() > 0 <==> chunk_holds(c, m));
}

/// The meshes of the chunks at `ds`, as `render_mesh` returns them: every
/// mesh belongs to one of those chunks; for each of them and each material
/// other than air, the chunk has a mesh of that material exactly when one of
/// its voxels holds it; and no two meshes of one chunk share a material.
pub proof fn law_meshes_one_per_present_material(
    chunks: Map<(i32, i32), ChunkModel>,
    ds: Seq<(i32, i32)>,
    k: (i32, i32),
    m: VoxelType,
)
    requires
        ds.no_duplicates(),
    ensures
        forall|j: int| 0 <= j < meshes_of_chunks(chunks, ds).len() ==> ds.contains((#[trigger] meshes_of_chunks(chunks, ds)[j]).0),
        ds.contains(k) && m != VoxelType::Air ==> ((exists|j: int| 0 <= j < meshes_of_chunks(chunks, ds).len()
            && (#[trigger] meshes_of_chunks(chunks, ds)[j]).0 == k && meshes_of_chunks(chunks, ds)[j].1 == m)
            <==> chunk_holds(chunks[k], m)),
        forall|j1: int, j2: int| 0 <= j1 < j2 < meshes_of_chunks(chunks, ds).len()
            && (#[trigger] meshes_of_chunks(chunks, ds)[j1]).0 == (#[trigger] meshes_of_chunks(chunks, ds)[j2]).0
            ==> meshes_of_chunks(chunks, ds)[j1].1 != meshes_of_chunks(chunks, ds)[j2].1,
    decreases ds.len(),
{
    if ds.len() > 0 {
        let rest = ds.drop_last();
        let last = ds.last();
        assert(rest.no_duplicates()) by {
            assert forall|a: int, b: int| 0 <= a < b < rest.len() implies rest[a] != rest[b] by {
                assert(rest[a] == ds[a] && rest[b] == ds[b]);
            }
        }
        assert(!rest.contains(last)) by {
            if rest.contains(last) {
                let a = choose|a: int| 0 <= a < rest.len() && rest[a] == last;
                assert(ds[a] == ds[ds.len() - 1]);
            }
        }
        assert(ds == rest.push(last));
        law_meshes_one_per_present_material(chunks, rest, k, m);
        let p = meshes_of_chunks(chunks, rest);
        let c = chunk_meshes(chunks[last], last, 4);
        assert(meshes_of_chunks(chunks, ds) == p + c);
        lemma_chunk_meshes_materials(chunks[last], last, 4);
        lemma_join_meshes(p, c, rest, last);
        if ds.contains(k) && m != VoxelType::Air {
            lemma_join_find(p, c, last, k, m);
            if k == last {
                lemma_chunk_meshes_present(chunks[k], k, m);
                if exists|j: int| 0 <= j < p.len() && (#[trigger] p[j]).0 == k && p[j].1 == m {
                    let j = choose|j: int| 0 <= j < p.len() && (#[trigger] p[j]).0 == k && p[j].1 == m;
                    assert(rest.contains(p[j].0));
                }
            } else {
                assert(rest.contains(k)) by {
                    let a = choose|a: int| 0 <= a < ds.len() && ds[a] == k;
                    assert(a != ds.len() - 1);
                    assert(rest[a] == k);
                }
            }
        }
    }
}

impl MeshRenderer {
    fn meshed_material_at(i: usize) -> (r: VoxelType)
        ensures
            r == meshed_material(i as int),
    {
        if i == 0 {
            VoxelType::Rock
        } else if i == 1 {
            VoxelType::Dirt
        } else if i == 2 {
            VoxelType::Grass
        } else {
            VoxelType::Core
        }
    }

    /// Appends the non-empty material meshes of `chunk` at `key`.
    fn push_chunk_meshes(out: &mut Vec<MaterialMesh>, chunk: &Chunk, key: (i32, i32))
        ensures
            final(out)@.map_values(|m: MaterialMesh| m.parts())
                == old(out)@.map_values(|m: MaterialMesh| m.parts()) + chunk_meshes(chunk@, key, 4),
    {
        let ghost start = out@.map_values(|m: MaterialMesh| m.parts());
        let mut i: usize = 0;
        while i < 4
            invariant
                i <= 4,
                start == old(out)@.map_values(|m: MaterialMesh| m.parts()),
                out@.map_values(|m: MaterialMesh| m.parts()) == start + chunk_meshes(chunk@, key, i as nat),
            decreases 4 - i,
        {
            let material = Self::meshed_material_at(i);
            let ghost before = out@;
            match VoxelRenderer::render_voxels(chunk, key.0, key.1, material) {
                Some((vertices, indices)) => {
                    out.push(MaterialMesh {
                        chunk: ChunkMesh { chunk_x: key.0, chunk_y: key.1 },
                        material,
                        vertices,
                        indices,
                    });
                    proof {
                        assert(out@.map_values(|m: MaterialMesh| m.parts())
                            =~= before.map_values(|m: MaterialMesh| m.parts()).push(out@.last().parts()));
                    }
                },
                None => {},
            }
            proof {
                let n = (i + 1) as nat;
                assert(((n - 1) as int) == i);
                assert(out@.map_values(|m: MaterialMesh| m.parts()) =~= start + chunk_meshes(chunk@, key, n));
            }
            i = i + 1;
        }
    }

    /// Rebuilds the meshes of the chunks that need it: for every dirty chunk
    /// (returned first, so their old meshes can be removed), the meshes of its
    /// rock, dirt, grass and core voxels that are not empty, chunk after chunk;
    /// afterwards no chunk is dirty any more.
    pub fn render_mesh(world: &mut World) -> (r: (Vec<(i32, i32)>, Vec<MaterialMesh>))
        ensures
            r.0@.no_duplicates(),
            forall|k: (i32, i32)| r.0@.contains(k) <==> old(world).chunks().dom().contains(k) && old(world).chunks()[k].dirty,
            r.1@.map_values(|m: MaterialMesh| m.parts()) == meshes_of_chunks(old(world).chunks(), r.0@),
            final(world).chunks() == old(world).chunks().map_values(|c: ChunkModel| c.with_dirty(false)),
            // as `law_meshes_one_per_present_material` states it
            forall|k: (i32, i32), m: VoxelType| #![trigger has_mesh(r.1@, k, m)]
                r.0@.contains(k) && m != VoxelType::Air ==> (has_mesh(r.1@, k, m) <==> chunk_holds(old(world).chunks()[k], m)),
            final(world).noise == old(world).noise,
            final(world).seed == old(world).seed,
            final(world).vertex_registry == old(world).vertex_registry,
    {
        let ghost old_chunks = world.chunks();
        let dirty_chunks = world.get_dirty_chunks();
        let mut meshes: Vec<MaterialMesh> = Vec::new();
        let mut i: usize = 0;
        while i < dirty_chunks.len()
            invariant
                i <= dirty_chunks@.len(),
                old_chunks == old(world).chunks(),
                dirty_chunks@.no_duplicates(),
                forall|k: (i32, i32)| dirty_chunks@.contains(k) ==> old_chunks.dom().contains(k),
                world.chunks() == Map::new(
                    |p: (i32, i32)| old_chunks.dom().contains(p),
                    |p: (i32, i32)| if dirty_chunks@.take(i as int).contains(p) { old_chunks[p].with_dirty(false) } else { old_chunks[p] },
                ),
                meshes@.map_values(|m: MaterialMesh| m.parts()) == meshes_of_chunks(old_chunks, dirty_chunks@.take(i as int)),
                world.noise == old(world).noise,
                world.seed == old(world).seed,
                world.vertex_registry == old(world).vertex_registry,
            decreases dirty_chunks@.len() - i,
        {
            let key = dirty_chunks[i];
            let t0 = Ghost(dirty_chunks@.take(i as int));
            let t1 = Ghost(dirty_chunks@.take(i as int + 1));
            proof {
                assert(t1@ =~= t0@.push(key));
                assert(dirty_chunks@.contains(key));
                assert(!t0@.contains(key)) by {
                    if t0@.contains(key) {
                        let j = choose|j: int| 0 <= j < t0@.len() && t0@[j] == key;
                        assert(dirty_chunks@[j] == dirty_chunks@[i as int]);
                    }
                }
            }
            match chunk_map_get(&world.loaded_chunks, key) {
                Some(chunk) => {
                    proof {
                        assert(chunk@ == world.chunks()[key]);
                        assert(chunk@.voxels == old_chunks[key].voxels);
                        assert(chunk_meshes(chunk@, key, 4) == chunk_meshes(old_chunks[key], key, 4)) by {
                            lemma_chunk_meshes_voxels_only(chunk@, old_chunks[key], key, 4);
                        }
                    }
                    Self::push_chunk_meshes(&mut meshes, chunk, key);
                },
                None => {},
            }
            // Remove dirty flag
            world.mark_chunk_clean(key.0, key.1);
            proof {
                assert(t1@.drop_last() =~= t0@);
                assert(t1@.last() == key);
                assert forall|p: (i32, i32)| #![all_triggers] true implies (t1@.contains(p) <==> t0@.contains(p) || p == key) by {
                    if t1@.contains(p) {
                        let j = choose|j: int| 0 <= j < t1@.len() && #[trigger] t1@[j] == p;
                        if j < t0@.len() {
                            assert(t0@[j] == p);
                        }
                    }
                    if t0@.contains(p) {
                        let j = choose|j: int| 0 <= j < t0@.len() && #[trigger] t0@[j] == p;
                        assert(t1@[j] == p);
                    }
                    if p == key {
                        assert(t1@[i as int] == p);
                    }
                }
                let expected = Map::new(
                    |p: (i32, i32)| old_chunks.dom().contains(p),
                    |p: (i32, i32)| if t1@.contains(p) { old_chunks[p].with_dirty(false) } else { old_chunks[p] },
                );
                assert(world.chunks() =~= expected);
            }
            i = i + 1;
        }
        proof {
            assert(dirty_chunks@.take(dirty_chunks@.len() as int) =~= dirty_chunks@);
            assert forall|p: (i32, i32)| old_chunks.dom().contains(p) && !dirty_chunks@.contains(p)
                implies old_chunks[p] == old_chunks[p].with_dirty(false) by {}
            assert(world.chunks() =~= old_chunks.map_values(|c: ChunkModel| c.with_dirty(false)));
            let ms = meshes@;
            let views = ms.map_values(|m: MaterialMesh| m.parts());
            assert forall|k: (i32, i32), m: VoxelType| #![trigger has_mesh(ms, k, m)]
                dirty_chunks@.contains(k) && m != VoxelType::Air implies (has_mesh(ms, k, m) <==> chunk_holds(old_chunks[k], m)) by {
                law_meshes_one_per_present_material(old_chunks, dirty_chunks@, k, m);
                if has_mesh(ms, k, m) {
                    let j = choose|j: int| 0 <= j < ms.len() && (#[trigger] ms[j]).parts().0 == k && ms[j].parts().1 == m;
                    assert(views[j] == ms[j].parts());
                }
                if chunk_holds(old_chunks[k], m) {
                    let j = choose|j: int| 0 <= j < views.len() && (#[trigger] views[j]).0 == k && views[j].1 == m;
                    assert(views[j] == ms[j].parts());
                }
            }
        }
        (dirty_chunks, meshes)
    }
}

/// The meshes of a chunk depend on its voxels alone.
proof fn lemma_chunk_meshes_voxels_only(a: ChunkModel, b: ChunkModel, k: (i32, i32), n: nat)
    requires
        a.voxels == b.voxels,
    ensures
        chunk_meshes(a, k, n) == chunk_meshes(b, k, n),
    decreases n,
{
    if n > 0 {
        lemma_chunk_meshes_voxels_only(a, b, k, (n - 1) as nat);
        lemma_voxel_mesh_voxels_only(a, b, k.0 as int, k.1 as int, meshed_material(n - 1), 256);
    }
}

proof fn lemma_voxel_mesh_voxels_only(a: ChunkModel, b: ChunkModel, cx: int, cy: int, m: VoxelType, n: nat)
    requires
        a.voxels == b.voxels,
    ensures
        voxel_mesh(a, cx, cy, m, n) == voxel_mesh(b, cx, cy, m, n),
    decreases n,
{
    if n > 0 {
        lemma_voxel_mesh_voxels_only(a, b, cx, cy, m, (n - 1) as nat);
    }
}

} // verus!
