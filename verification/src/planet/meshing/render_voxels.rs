use crate::planet::mesh::dual_contourer::chunk_cell;
use crate::planet::world::chunk::{Chunk, ChunkModel, CHUNK_SIZE};
use crate::planet::world::voxel::VoxelType;
use crate::planet::meshing::valid_triangle_list;
use vstd::arithmetic::div_mod::lemma_fundamental_div_mod_converse;
use vstd::prelude::*;

verus! {

/// Voxel size in world units
pub const VOXEL_SIZE: i64 = 6;

pub struct VoxelRenderer;

/// The square of world voxel `(wx, wy)` (in voxels), in world units: centred
/// on the voxel's scaled position, one voxel wide; bottom-left, bottom-right,
/// top-right, top-left.
pub open spec fn voxel_square(wx: int, wy: int) -> Seq<(i64, i64)> {
    let x = wx * VOXEL_SIZE;
    let y = wy * VOXEL_SIZE;
    let h = VOXEL_SIZE / 2;
    seq![((x - h) as i64, (y - h) as i64), ((x + h) as i64, (y - h) as i64), ((x + h) as i64, (y + h) as i64), ((x - h) as i64, (y + h) as i64)]
}

/// The two triangles of a square whose corners start at index `o`.
pub open spec fn square_indices(o: int) -> Seq<u32> {
    seq![o as u32, (o + 1) as u32, (o + 2) as u32, o as u32, (o + 2) as u32, (o + 3) as u32]
}

/// The quads of the first `n` voxels of chunk `(cx, cy)` (row by row) that
/// hold `material`, one square and two triangles each; air has none.
pub open spec fn voxel_mesh(c: ChunkModel, cx: int, cy: int, material: VoxelType, n: nat) -> (Seq<(i64, i64)>, Seq<u32>)
    decreases n,
{
    if n == 0 {
        (Seq::empty(), Seq::empty())
    } else {
        let p = voxel_mesh(c, cx, cy, material, (n - 1) as nat);
        let w = chunk_cell(cx, cy, n - 1);
        let local_x = (n - 1) % 16;
        let local_y = (n - 1) / 16;
        if c.voxel_at(local_x, local_y) == material && material != VoxelType::Air {
            (p.0 + voxel_square(w.0, w.1), p.1 + square_indices(p.0.len() as int))
        } else {
            p
        }
    }
}

/// The voxel mesh of the first `n` voxels has four corners and two triangles
/// per meshed voxel, and its triangles only name its own corners.
pub proof fn law_voxel_mesh_valid(c: ChunkModel, cx: int, cy: int, material: VoxelType, n: nat)
    requires
        n <= 256,
    ensures
        voxel_mesh(c, cx, cy, material, n).0.len() <= 4 * n,
        4 * voxel_mesh(c, cx, cy, material, n).1.len() == 6 * voxel_mesh(c, cx, cy, material, n).0.len(),
        valid_triangle_list(voxel_mesh(c, cx, cy, material, n).0.len(), voxel_mesh(c, cx, cy, material, n).1),
    decreases n,
{
    if n > 0 {
        law_voxel_mesh_valid(c, cx, cy, material, (n - 1) as nat);
        let p = voxel_mesh(c, cx, cy, material, (n - 1) as nat);
        let m = voxel_mesh(c, cx, cy, material, n);
        let o = p.0.len();
        assert forall|i: int| 0 <= i < m.1.len() implies (#[trigger] m.1[i]) < m.0.len() by {
            if i < p.1.len() {
                assert(m.1[i] == p.1[i]);
            } else {
                assert(m.1[i] == square_indices(o as int)[i - p.1.len()]);
            }
        }
    }
}

impl VoxelRenderer {
    /// The mesh to show for the voxels of `material_type` in a chunk: its
    /// voxel mesh when that has any vertex, and `None` when there is nothing
    /// of that material to show.
    pub fn render_voxels(chunk: &Chunk, chunk_x: i32, chunk_y: i32, material_type: VoxelType) -> (r: Option<(Vec<(i64, i64)>, Vec<u32>)>)
        ensures
            r is Some <==> voxel_mesh(chunk@, chunk_x as int, chunk_y as int, material_type, 256).0.len() > 0,
            r matches Some(m) ==> (m.0@, m.1@) == voxel_mesh(chunk@, chunk_x as int, chunk_y as int, material_type, 256),
    {
        let (vertices, indices) = Self::generate_voxel_mesh(chunk, chunk_x, chunk_y, material_type);
        if vertices.len() > 0 {
            Some((vertices, indices))
        } else {
            None
        }
    }

    /// Generate mesh data for voxels of a specific material type in a chunk:
    /// one square (in world units) and two triangles per voxel of that material.
    pub fn generate_voxel_mesh(chunk: &Chunk, chunk_x: i32, chunk_y: i32, material_type: VoxelType) -> (r: (Vec<(i64, i64)>, Vec<u32>))
        ensures
            (r.0@, r.1@) == voxel_mesh(chunk@, chunk_x as int, chunk_y as int, material_type, 256),
            valid_triangle_list(r.0@.len(), r.1@),
    {
        let mut vertices: Vec<(i64, i64)> = Vec::new();
        let mut indices: Vec<u32> = Vec::new();
        let mut vertex_count: u32 = 0;

        let chunk_world_x = chunk_x as i64 * CHUNK_SIZE as i64;
        let chunk_world_y = chunk_y as i64 * CHUNK_SIZE as i64;

        let mut dy: usize = 0;
        while dy < CHUNK_SIZE
            invariant
                dy <= 16,
                chunk_world_x == chunk_x * 16,
                chunk_world_y == chunk_y * 16,
                (vertices@, indices@) == voxel_mesh(chunk@, chunk_x as int, chunk_y as int, material_type, (16 * dy) as nat),
                vertex_count == vertices@.len(),
                vertices@.len() <= 64 * dy,
            decreases 16 - dy,
        {
            let mut dx: usize = 0;
            while dx < CHUNK_SIZE
                invariant
                    dy < 16,
                    dx <= 16,
                    chunk_world_x == chunk_x * 16,
                    chunk_world_y == chunk_y * 16,
                    (vertices@, indices@) == voxel_mesh(chunk@, chunk_x as int, chunk_y as int, material_type, (16 * dy + dx) as nat),
                    vertex_count == vertices@.len(),
                    vertices@.len() <= 64 * dy + 4 * dx,
                decreases 16 - dx,
            {
                proof {
                    lemma_fundamental_div_mod_converse(16 * dy + dx, 16, dy as int, dx as int);
                }
                let voxel = chunk.get_voxel(dx, dy);

                // Only render voxels of the requested material type
                if voxel == material_type && voxel != VoxelType::Air {
                    let world_x = (chunk_world_x + dx as i64) * VOXEL_SIZE;
                    let world_y = (chunk_world_y + dy as i64) * VOXEL_SIZE;

                    // Create a quad for this voxel
                    let half_size = VOXEL_SIZE / 2;

                    // Add vertices for the quad (2D rectangle)
                    vertices.push((world_x - half_size, world_y - half_size));  // Bottom-left
                    vertices.push((world_x + half_size, world_y - half_size));  // Bottom-right
                    vertices.push((world_x + half_size, world_y + half_size));  // Top-right
                    vertices.push((world_x - half_size, world_y + half_size));  // Top-left

                    // Add indices for two triangles forming the quad
                    indices.push(vertex_count);
                    indices.push(vertex_count + 1);
                    indices.push(vertex_count + 2);  // First triangle
                    indices.push(vertex_count);
                    indices.push(vertex_count + 2);
                    indices.push(vertex_count + 3);  // Second triangle

                    vertex_count = vertex_count + 4;
                }
                proof {
                    let n = (16 * dy + dx + 1) as nat;
                    assert(((n - 1) as int) == 16 * dy + dx);
                    assert(chunk_cell(chunk_x as int, chunk_y as int, n - 1) == (chunk_x * 16 + dx, chunk_y * 16 + dy));
                    assert(vertices@ =~= voxel_mesh(chunk@, chunk_x as int, chunk_y as int, material_type, n).0);
                    assert(indices@ =~= voxel_mesh(chunk@, chunk_x as int, chunk_y as int, material_type, n).1);
                }
                dx = dx + 1;
            }
            dy = dy + 1;
        }
        proof {
            law_voxel_mesh_valid(chunk@, chunk_x as int, chunk_y as int, material_type, 256);
        }
        (vertices, indices)
    }
}

} // verus!
