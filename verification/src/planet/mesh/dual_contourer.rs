//! Marching-squares meshes of the first-generation voxel world.
//!
//! Cell meshes place their vertices on the corners and edge midpoints of a
//! cell, so they are held exactly in half-voxel units: the cell with corner
//! `(x, y)` spans `(2x, 2y)` to `(2x + 2, 2y + 2)`.
use crate::foreign::classic_chunk_map_contents;
use crate::planet::startup::{chunk_views, map_get_voxel, voxel_in, ChunkModel, VoxelType};
use crate::planet::mesh::chunk_world::ChunkWorld;
use crate::planet::meshing::greedy_mesh::{
    is_greedy_meshing, law_greedy_meshing_unique, law_quads_mesh_valid, quads_mesh, GreedyMeshHandler, GreedyQuad,
};
use crate::planet::startup::CHUNK_SIZE;
use crate::planet::meshing::valid_triangle_list;
use crate::planet::world::chunk_world::chunk_key;
use bevy::platform::collections::HashMap;
use vstd::arithmetic::div_mod::lemma_fundamental_div_mod_converse;
use vstd::prelude::*;

verus! {

/// Dual contouring algorithm for generating meshes from voxel data
pub struct DualContourer;

/// The four corners of a cell, in the order bottom-left, bottom-right,
/// top-right, top-left: whether each holds the material being meshed.
pub struct CellConfiguration {
    pub corners: [bool; 4],
}

/// The mesh of one cell: vertices in half-voxel units and triangles as
/// triples of indices into them.
#[derive(Debug)]
pub struct CellMesh {
    pub vertices: Vec<(i64, i64)>,
    pub triangles: Vec<(u32, u32, u32)>,
}

/// The point `(dx, dy)` half-voxels from the corner of cell `(cx, cy)`.
pub open spec fn hv(cx: int, cy: int, dx: int, dy: int) -> (i64, i64) {
    ((2 * cx + dx) as i64, (2 * cy + dy) as i64)
}

/// A mesh by its vertices and triangles.
pub type MeshParts = (Seq<(i64, i64)>, Seq<(u32, u32, u32)>);

pub open spec fn quad_triangles() -> Seq<(u32, u32, u32)> {
    seq![(0u32, 1u32, 2u32), (0u32, 2u32, 3u32)]
}

pub open spec fn fan_triangles() -> Seq<(u32, u32, u32)> {
    seq![(0u32, 1u32, 2u32), (0u32, 2u32, 3u32), (0u32, 3u32, 4u32)]
}

/// The whole cell as two triangles.
pub open spec fn full_quad_spec(cx: int, cy: int) -> MeshParts {
    (seq![hv(cx, cy, 0, 0), hv(cx, cy, 2, 0), hv(cx, cy, 2, 2), hv(cx, cy, 0, 2)], quad_triangles())
}

/// The triangle cut off at one corner (0 bottom-left, 1 bottom-right,
/// 2 top-right, 3 top-left) by the midpoints of its two edges.
pub open spec fn corner_vertices(cx: int, cy: int, corner: int) -> Seq<(i64, i64)> {
    if corner == 0 {
        seq![hv(cx, cy, 0, 0), hv(cx, cy, 1, 0), hv(cx, cy, 0, 1)]
    } else if corner == 1 {
        seq![hv(cx, cy, 2, 0), hv(cx, cy, 1, 0), hv(cx, cy, 2, 1)]
    } else if corner == 2 {
        seq![hv(cx, cy, 2, 2), hv(cx, cy, 2, 1), hv(cx, cy, 1, 2)]
    } else {
        seq![hv(cx, cy, 0, 2), hv(cx, cy, 0, 1), hv(cx, cy, 1, 2)]
    }
}

pub open spec fn corner_spec(cx: int, cy: int, corner: int) -> MeshParts {
    (corner_vertices(cx, cy, corner), seq![(0u32, 1u32, 2u32)])
}

/// The cell without the triangle at one corner, as a fan of three triangles.
pub open spec fn inverse_corner_spec(cx: int, cy: int, corner: int) -> MeshParts {
    let v = if corner == 0 {
        seq![hv(cx, cy, 1, 0), hv(cx, cy, 2, 0), hv(cx, cy, 2, 2), hv(cx, cy, 0, 2), hv(cx, cy, 0, 1)]
    } else if corner == 1 {
        seq![hv(cx, cy, 0, 0), hv(cx, cy, 1, 0), hv(cx, cy, 2, 1), hv(cx, cy, 2, 2), hv(cx, cy, 0, 2)]
    } else if corner == 2 {
        seq![hv(cx, cy, 0, 0), hv(cx, cy, 2, 0), hv(cx, cy, 2, 1), hv(cx, cy, 1, 2), hv(cx, cy, 0, 2)]
    } else {
        seq![hv(cx, cy, 0, 0), hv(cx, cy, 2, 0), hv(cx, cy, 2, 2), hv(cx, cy, 1, 2), hv(cx, cy, 0, 1)]
    };
    (v, fan_triangles())
}

/// The half of the cell along one edge (0 bottom, 1 right, 2 top, 3 left).
pub open spec fn edge_spec(cx: int, cy: int, edge: int) -> MeshParts {
    let v = if edge == 0 {
        seq![hv(cx, cy, 0, 0), hv(cx, cy, 2, 0), hv(cx, cy, 2, 1), hv(cx, cy, 0, 1)]
    } else if edge == 1 {
        seq![hv(cx, cy, 1, 0), hv(cx, cy, 2, 0), hv(cx, cy, 2, 2), hv(cx, cy, 1, 2)]
    } else if edge == 2 {
        seq![hv(cx, cy, 0, 1), hv(cx, cy, 2, 1), hv(cx, cy, 2, 2), hv(cx, cy, 0, 2)]
    } else {
        seq![hv(cx, cy, 0, 0), hv(cx, cy, 1, 0), hv(cx, cy, 1, 2), hv(cx, cy, 0, 2)]
    };
    (v, quad_triangles())
}

/// Two opposite corner triangles: bottom-right and top-left when `flip`,
/// bottom-left and top-right otherwise.
pub open spec fn diagonal_spec(cx: int, cy: int, flip: bool) -> MeshParts {
    let v = if flip {
        seq![hv(cx, cy, 1, 0), hv(cx, cy, 2, 0), hv(cx, cy, 2, 1), hv(cx, cy, 0, 1), hv(cx, cy, 0, 2), hv(cx, cy, 1, 2)]
    } else {
        seq![hv(cx, cy, 0, 0), hv(cx, cy, 1, 0), hv(cx, cy, 0, 1), hv(cx, cy, 1, 2), hv(cx, cy, 2, 2), hv(cx, cy, 2, 1)]
    };
    (v, seq![(0u32, 1u32, 2u32), (3u32, 4u32, 5u32)])
}

/// Adds the triangle of corner `k` to `acc`; corners 1 and 3 are wound the
/// other way round.
pub open spec fn add_corner_triangle(acc: MeshParts, cx: int, cy: int, k: int) -> MeshParts {
    let b = acc.0.len();
    let t = if k == 0 || k == 2 {
        (b as u32, (b + 1) as u32, (b + 2) as u32)
    } else {
        (b as u32, (b + 2) as u32, (b + 1) as u32)
    };
    (acc.0 + corner_vertices(cx, cy, k), acc.1.push(t))
}

pub open spec fn filled_count(corners: [bool; 4]) -> int {
    (if corners[0] { 1int } else { 0 }) + (if corners[1] { 1int } else { 0 })
        + (if corners[2] { 1int } else { 0 }) + (if corners[3] { 1int } else { 0 })
}

/// The fallback mesh: nothing for an empty cell, the whole cell for a full
/// one, and otherwise one corner triangle per filled corner.
pub open spec fn generic_spec(cx: int, cy: int, corners: [bool; 4]) -> MeshParts {
    let n = filled_count(corners);
    if n == 0 {
        (Seq::empty(), Seq::empty())
    } else if n == 4 {
        full_quad_spec(cx, cy)
    } else {
        let a0: MeshParts = (Seq::empty(), Seq::empty());
        let a1 = if corners[0] { add_corner_triangle(a0, cx, cy, 0) } else { a0 };
        let a2 = if corners[1] { add_corner_triangle(a1, cx, cy, 1) } else { a1 };
        let a3 = if corners[2] { add_corner_triangle(a2, cx, cy, 2) } else { a2 };
        if corners[3] { add_corner_triangle(a3, cx, cy, 3) } else { a3 }
    }
}

/// The marching-squares case of a cell: bit `k` set when corner `k` is filled.
pub open spec fn case_index(corners: [bool; 4]) -> int {
    (if corners[0] { 1int } else { 0 }) + (if corners[1] { 2int } else { 0 })
        + (if corners[2] { 4int } else { 0 }) + (if corners[3] { 8int } else { 0 })
}

/// The mesh of a cell for its case.
pub open spec fn cell_mesh_spec(corners: [bool; 4], cx: int, cy: int) -> Option<MeshParts> {
    let c = case_index(corners);
    if c == 0 {
        None
    } else if c == 15 {
        Some(full_quad_spec(cx, cy))
    } else if c == 1 {
        Some(corner_spec(cx, cy, 0))
    } else if c == 2 {
        Some(corner_spec(cx, cy, 1))
    } else if c == 4 {
        Some(corner_spec(cx, cy, 2))
    } else if c == 8 {
        Some(corner_spec(cx, cy, 3))
    } else if c == 3 {
        Some(edge_spec(cx, cy, 0))
    } else if c == 6 {
        Some(edge_spec(cx, cy, 1))
    } else if c == 12 {
        Some(edge_spec(cx, cy, 2))
    } else if c == 9 {
        Some(edge_spec(cx, cy, 3))
    } else if c == 5 {
        Some(diagonal_spec(cx, cy, false))
    } else if c == 10 {
        Some(diagonal_spec(cx, cy, true))
    } else if c == 14 {
        Some(inverse_corner_spec(cx, cy, 0))
    } else if c == 13 {
        Some(inverse_corner_spec(cx, cy, 1))
    } else if c == 11 {
        Some(inverse_corner_spec(cx, cy, 2))
    } else {
        Some(inverse_corner_spec(cx, cy, 3))
    }
}


/// Corner `j` of the square of cell `(cx, cy)` in half-voxel units: 0
/// bottom-left, 1 bottom-right, 2 top-right, 3 top-left.
pub open spec fn square_corner(cx: int, cy: int, j: int) -> (i64, i64) {
    let dx: int = if j == 1 || j == 2 { 2 } else { 0 };
    let dy: int = if j == 2 || j == 3 { 2 } else { 0 };
    ((2 * cx + dx) as i64, (2 * cy + dy) as i64)
}

/// The vertices of the mesh of a cell with the given corners: none for an
/// empty cell.
pub open spec fn cell_vertices(corners: [bool; 4], cx: int, cy: int) -> Seq<(i64, i64)> {
    match cell_mesh_spec(corners, cx, cy) {
        Some(m) => m.0,
        None => Seq::empty(),
    }
}

/// A cell is meshed exactly when one of its corners is filled; then its mesh
/// lies within the cell's square, and a corner of the square is one of the
/// mesh's vertices exactly when that corner holds the material: the mesh
/// covers the filled corners and leaves the empty ones out.
pub proof fn law_cell_mesh_covers_filled_corners(corners: [bool; 4], cx: int, cy: int, j: int)
    requires
        -0x1_0000_0000 <= cx <= 0x1_0000_0000,
        -0x1_0000_0000 <= cy <= 0x1_0000_0000,
        0 <= j < 4,
    ensures
        cell_mesh_spec(corners, cx, cy) is None <==> (!corners[0] && !corners[1] && !corners[2] && !corners[3]),
        cell_vertices(corners, cx, cy).contains(square_corner(cx, cy, j)) <==> corners[j],
        forall|i: int| 0 <= i < cell_vertices(corners, cx, cy).len()
            ==> 2 * cx <= (#[trigger] cell_vertices(corners, cx, cy)[i]).0 <= 2 * cx + 2
                && 2 * cy <= cell_vertices(corners, cx, cy)[i].1 <= 2 * cy + 2,
{
    let m = cell_mesh_spec(corners, cx, cy);
    if m is Some {
        let v = cell_vertices(corners, cx, cy);
        let p = square_corner(cx, cy, j);
        assert(v.len() <= 6);
        assert(v[0] == v[0] && v[1] == v[1] && v[2] == v[2] && v[3] == v[3] && v[4] == v[4] && v[5] == v[5]);
        if !corners[j] {
            assert forall|i: int| 0 <= i < v.len() implies v[i] != p by {}
        }
    }
}

/// Cell `t` of chunk `(cx, cy)`, counting row by row from its bottom-left cell.
pub open spec fn chunk_cell(cx: int, cy: int, t: int) -> (int, int) {
    (cx * 16 + t % 16, cy * 16 + t / 16)
}

/// A cell whose four corners are loaded and all hold `target`.
pub open spec fn cell_is_full(chunks: Map<(i32, i32), ChunkModel>, x: int, y: int, target: VoxelType) -> bool {
    cell_samplable(chunks, x, y) && case_index(cell_corners(chunks, x, y, target)) == 15
}

/// A cell whose four corners are loaded and where the surface of `target` passes.
pub open spec fn cell_is_partial(chunks: Map<(i32, i32), ChunkModel>, x: int, y: int, target: VoxelType) -> bool {
    &&& cell_samplable(chunks, x, y)
    &&& case_index(cell_corners(chunks, x, y, target)) != 0
    &&& case_index(cell_corners(chunks, x, y, target)) != 15
}

/// The full cells among the first `n` cells of chunk `(cx, cy)`, in order.
pub open spec fn full_cells(chunks: Map<(i32, i32), ChunkModel>, cx: int, cy: int, target: VoxelType, n: nat) -> Seq<(i32, i32)>
    decreases n,
{
    if n == 0 {
        Seq::empty()
    } else {
        let prev = full_cells(chunks, cx, cy, target, (n - 1) as nat);
        let c = chunk_cell(cx, cy, n - 1);
        if cell_is_full(chunks, c.0, c.1, target) {
            prev.push((c.0 as i32, c.1 as i32))
        } else {
            prev
        }
    }
}

/// The cell meshes of the partial cells among the first `n` cells, in order.
pub open spec fn partial_meshes(chunks: Map<(i32, i32), ChunkModel>, cx: int, cy: int, target: VoxelType, n: nat) -> Seq<MeshParts>
    decreases n,
{
    if n == 0 {
        Seq::empty()
    } else {
        let prev = partial_meshes(chunks, cx, cy, target, (n - 1) as nat);
        let c = chunk_cell(cx, cy, n - 1);
        if cell_is_partial(chunks, c.0, c.1, target) {
            prev.push(cell_mesh_spec(cell_corners(chunks, c.0, c.1, target), c.0, c.1)->0)
        } else {
            prev
        }
    }
}

/// A cell-mesh vertex (half-voxel units) placed in the world: scaled to world
/// units, shifted left by 400 and mirrored about height 300.
pub open spec fn placed_vertex(v: (i64, i64)) -> (i64, i64) {
    ((3 * v.0 - 400) as i64, (300 - 3 * v.1) as i64)
}

/// The indices of triangles `ts` whose vertices start at index `o`.
pub open spec fn offset_triangles(ts: Seq<(u32, u32, u32)>, o: int) -> Seq<u32>
    decreases ts.len(),
{
    if ts.len() == 0 {
        Seq::empty()
    } else {
        let t = ts.last();
        offset_triangles(ts.drop_last(), o) + seq![(o + t.0) as u32, (o + t.1) as u32, (o + t.2) as u32]
    }
}

/// The mesh `base` with the cell meshes `ms` placed in the world and added
/// one after the other.
pub open spec fn append_cell_meshes(base: (Seq<(i64, i64)>, Seq<u32>), ms: Seq<MeshParts>) -> (Seq<(i64, i64)>, Seq<u32>)
    decreases ms.len(),
{
    if ms.len() == 0 {
        base
    } else {
        let p = append_cell_meshes(base, ms.drop_last());
        let m = ms.last();
        (p.0 + m.0.map_values(|v: (i64, i64)| placed_vertex(v)), p.1 + offset_triangles(m.1, p.0.len() as int))
    }
}

/// The mesh of `target` in chunk `(cx, cy)`: the full cells merged into
/// rectangles by greedy meshing, then the cell meshes of the partial cells.
pub open spec fn is_chunk_mesh(chunks: Map<(i32, i32), ChunkModel>, cx: int, cy: int, target: VoxelType, mesh: (Seq<(i64, i64)>, Seq<u32>)) -> bool {
    exists|rs: Seq<GreedyQuad>|
        #[trigger] is_greedy_meshing(full_cells(chunks, cx, cy, target, 256), (cx * 16, cy * 16, cx * 16 + 16, cy * 16 + 16), rs)
        && mesh == append_cell_meshes(quads_mesh(rs), partial_meshes(chunks, cx, cy, target, 256))
}

/// A chunk has one mesh per material only: the loaded voxels fix it.
pub proof fn law_chunk_mesh_unique(
    chunks: Map<(i32, i32), ChunkModel>,
    cx: int,
    cy: int,
    target: VoxelType,
    m1: (Seq<(i64, i64)>, Seq<u32>),
    m2: (Seq<(i64, i64)>, Seq<u32>),
)
    requires
        is_chunk_mesh(chunks, cx, cy, target, m1),
        is_chunk_mesh(chunks, cx, cy, target, m2),
    ensures
        m1 == m2,
{
    let quads = full_cells(chunks, cx, cy, target, 256);
    let b = (cx * 16, cy * 16, cx * 16 + 16, cy * 16 + 16);
    let ms = partial_meshes(chunks, cx, cy, target, 256);
    let rs1 = choose|rs: Seq<GreedyQuad>| #[trigger] is_greedy_meshing(quads, b, rs) && m1 == append_cell_meshes(quads_mesh(rs), ms);
    let rs2 = choose|rs: Seq<GreedyQuad>| #[trigger] is_greedy_meshing(quads, b, rs) && m2 == append_cell_meshes(quads_mesh(rs), ms);
    law_greedy_meshing_unique(quads, b, rs1, rs2);
}

/// The mesh of `target` in chunk `(cx, cy)`: the one that `is_chunk_mesh`
/// describes (there is at most one, by `law_chunk_mesh_unique`).
pub open spec fn chunk_mesh_of(chunks: Map<(i32, i32), ChunkModel>, cx: int, cy: int, target: VoxelType) -> (Seq<(i64, i64)>, Seq<u32>) {
    choose|m: (Seq<(i64, i64)>, Seq<u32>)| is_chunk_mesh(chunks, cx, cy, target, m)
}

/// A mesh that `is_chunk_mesh` describes is the chunk mesh.
pub proof fn lemma_is_chunk_mesh_of(chunks: Map<(i32, i32), ChunkModel>, cx: int, cy: int, target: VoxelType, m: (Seq<(i64, i64)>, Seq<u32>))
    requires
        is_chunk_mesh(chunks, cx, cy, target, m),
    ensures
        m == chunk_mesh_of(chunks, cx, cy, target),
{
    let c = chunk_mesh_of(chunks, cx, cy, target);
    assert(is_chunk_mesh(chunks, cx, cy, target, c));
    law_chunk_mesh_unique(chunks, cx, cy, target, m, c);
}

/// Every mesh of the table is small and indexes its own vertices.
pub open spec fn small_mesh(m: MeshParts) -> bool {
    &&& m.0.len() <= 12
    &&& forall|i: int| 0 <= i < m.1.len() ==> (#[trigger] m.1[i]).0 < m.0.len() && m.1[i].1 < m.0.len() && m.1[i].2 < m.0.len()
    &&& forall|i: int| 0 <= i < m.0.len() ==> -0x1_0000_0000_0000 <= (#[trigger] m.0[i]).0 <= 0x1_0000_0000_0000
        && -0x1_0000_0000_0000 <= m.0[i].1 <= 0x1_0000_0000_0000
}


/// The table mesh of every non-empty case is small, and it is the full unit
/// square exactly in case 15.
proof fn lemma_table_mesh(corners: [bool; 4], x: int, y: int)
    requires
        -0x1_0000_0000 <= x <= 0x1_0000_0000,
        -0x1_0000_0000 <= y <= 0x1_0000_0000,
        case_index(corners) != 0,
    ensures
        cell_mesh_spec(corners, x, y) is Some,
        small_mesh(cell_mesh_spec(corners, x, y)->0),
        full_parts(cell_mesh_spec(corners, x, y)->0, x, y) <==> case_index(corners) == 15,
{
    let m = cell_mesh_spec(corners, x, y)->0;
    let f = full_quad_spec(x, y).0;
    let c = case_index(corners);
    if c == 15 {
        assert(m.0 == f);
        assert forall|k: int| 0 <= k < 4 implies m.0.contains(#[trigger] f[k]) by {
            assert(m.0[k] == f[k]);
        }
    } else if c == 3 || c == 6 || c == 12 || c == 9 {
        // a half cell misses one corner of the square
        let miss = if c == 3 { f[2] } else if c == 6 { f[0] } else if c == 12 { f[0] } else { f[1] };
        assert(!m.0.contains(miss)) by {
            assert forall|i: int| 0 <= i < m.0.len() implies m.0[i] != miss by {}
        }
        if c == 3 {
            assert(!m.0.contains(f[2]));
        } else if c == 6 || c == 12 {
            assert(!m.0.contains(f[0]));
        } else {
            assert(!m.0.contains(f[1]));
        }
    }
}

/// Whether mesh `m` is the full unit square of cell `(x, y)` as
/// `is_full_quad_mesh` tests it.
pub open spec fn full_parts(m: MeshParts, x: int, y: int) -> bool {
    m.0.len() == 4 && m.1.len() == 2
        && forall|k: int| 0 <= k < 4 ==> m.0.contains(#[trigger] full_quad_spec(x, y).0[k])
}

/// Row `dy`, column `dx` of a chunk is its cell `16 * dy + dx`.
proof fn lemma_cell_index(cx: int, cy: int, dx: int, dy: int)
    requires
        0 <= dx < 16,
        0 <= dy,
    ensures
        chunk_cell(cx, cy, 16 * dy + dx) == (cx * 16 + dx, cy * 16 + dy),
{
    lemma_fundamental_div_mod_converse(16 * dy + dx, 16, dy, dx);
}

proof fn lemma_offset_triangles_len(ts: Seq<(u32, u32, u32)>, o: int)
    ensures
        offset_triangles(ts, o).len() == 3 * ts.len(),
    decreases ts.len(),
{
    if ts.len() > 0 {
        lemma_offset_triangles_len(ts.drop_last(), o);
    }
}

impl CellMesh {
    pub open spec fn parts(&self) -> MeshParts {
        (self.vertices@, self.triangles@)
    }
}

/// Whether the voxel at world `(x, y)` lies in a loaded chunk.
pub open spec fn voxel_loaded(chunks: Map<(i32, i32), ChunkModel>, x: int, y: int) -> bool {
    chunks.dom().contains(chunk_key(x, y))
}

/// Whether all four corners of cell `(x, y)` lie in loaded chunks.
pub open spec fn cell_samplable(chunks: Map<(i32, i32), ChunkModel>, x: int, y: int) -> bool {
    &&& voxel_loaded(chunks, x, y)
    &&& voxel_loaded(chunks, x + 1, y)
    &&& voxel_loaded(chunks, x, y + 1)
    &&& voxel_loaded(chunks, x + 1, y + 1)
}

/// Which corners of cell `(x, y)` hold `target`.
pub open spec fn cell_corners(chunks: Map<(i32, i32), ChunkModel>, x: int, y: int, target: VoxelType) -> [bool; 4] {
    [
        voxel_in(chunks, x, y) == target,
        voxel_in(chunks, x + 1, y) == target,
        voxel_in(chunks, x + 1, y + 1) == target,
        voxel_in(chunks, x, y + 1) == target,
    ]
}

/// `(dx, dy)` half-voxels from the corner of cell `(cx, cy)`.
fn half_point(cx: i32, cy: i32, dx: i64, dy: i64) -> (r: (i64, i64))
    requires
        0 <= dx <= 2,
        0 <= dy <= 2,
    ensures
        r == hv(cx as int, cy as int, dx as int, dy as int),
{
    (2 * (cx as i64) + dx, 2 * (cy as i64) + dy)
}

impl DualContourer {
    /// Which corners of cell `(x, y)` hold `target`.
    pub fn get_cell_configuration(chunks: &HashMap<(i32, i32), crate::planet::startup::Chunk>, x: i32, y: i32, target_type: VoxelType) -> (r: CellConfiguration)
        requires
            x < i32::MAX,
            y < i32::MAX,
        ensures
            r.corners == cell_corners(chunk_views(classic_chunk_map_contents(*chunks)), x as int, y as int, target_type),
    {
        CellConfiguration {
            corners: [
                map_get_voxel(chunks, x, y) == target_type,  // bottom-left
                map_get_voxel(chunks, x + 1, y) == target_type,  // bottom-right
                map_get_voxel(chunks, x + 1, y + 1) == target_type,  // top-right
                map_get_voxel(chunks, x, y + 1) == target_type,  // top-left
            ],
        }
    }

    pub fn create_full_quad(cell_x: i32, cell_y: i32) -> (r: CellMesh)
        ensures
            r.parts() == full_quad_spec(cell_x as int, cell_y as int),
    {
        let r = CellMesh {
            vertices: vec![
                half_point(cell_x, cell_y, 0, 0),
                half_point(cell_x, cell_y, 2, 0),
                half_point(cell_x, cell_y, 2, 2),
                half_point(cell_x, cell_y, 0, 2),
            ],
            triangles: vec![(0, 1, 2), (0, 2, 3)],
        };
        proof {
            assert(r.parts().0 =~= full_quad_spec(cell_x as int, cell_y as int).0);
            assert(r.parts().1 =~= full_quad_spec(cell_x as int, cell_y as int).1);
        }
        r
    }

    pub fn create_corner_mesh(cell_x: i32, cell_y: i32, corner: usize) -> (r: CellMesh)
        requires
            corner < 4,
        ensures
            r.parts() == corner_spec(cell_x as int, cell_y as int, corner as int),
    {
        let vertices = match corner {
            // bottom-left
            0 => vec![half_point(cell_x, cell_y, 0, 0), half_point(cell_x, cell_y, 1, 0), half_point(cell_x, cell_y, 0, 1)],
            // bottom-right
            1 => vec![half_point(cell_x, cell_y, 2, 0), half_point(cell_x, cell_y, 1, 0), half_point(cell_x, cell_y, 2, 1)],
            // top-right
            2 => vec![half_point(cell_x, cell_y, 2, 2), half_point(cell_x, cell_y, 2, 1), half_point(cell_x, cell_y, 1, 2)],
            // top-left
            _ => vec![half_point(cell_x, cell_y, 0, 2), half_point(cell_x, cell_y, 0, 1), half_point(cell_x, cell_y, 1, 2)],
        };
        let r = CellMesh { vertices, triangles: vec![(0, 1, 2)] };
        proof {
            assert(r.parts().0 =~= corner_spec(cell_x as int, cell_y as int, corner as int).0);
            assert(r.parts().1 =~= corner_spec(cell_x as int, cell_y as int, corner as int).1);
        }
        r
    }

    /// Create full square minus the corner
    pub fn create_inverse_corner_mesh(cell_x: i32, cell_y: i32, corner: usize) -> (r: CellMesh)
        requires
            corner < 4,
        ensures
            r.parts() == inverse_corner_spec(cell_x as int, cell_y as int, corner as int),
    {
        let (cx, cy) = (cell_x, cell_y);
        let vertices = match corner {
            // all except bottom-left
            0 => vec![half_point(cx, cy, 1, 0), half_point(cx, cy, 2, 0), half_point(cx, cy, 2, 2), half_point(cx, cy, 0, 2), half_point(cx, cy, 0, 1)],
            // all except bottom-right
            1 => vec![half_point(cx, cy, 0, 0), half_point(cx, cy, 1, 0), half_point(cx, cy, 2, 1), half_point(cx, cy, 2, 2), half_point(cx, cy, 0, 2)],
            // all except top-right
            2 => vec![half_point(cx, cy, 0, 0), half_point(cx, cy, 2, 0), half_point(cx, cy, 2, 1), half_point(cx, cy, 1, 2), half_point(cx, cy, 0, 2)],
            // all except top-left
            _ => vec![half_point(cx, cy, 0, 0), half_point(cx, cy, 2, 0), half_point(cx, cy, 2, 2), half_point(cx, cy, 1, 2), half_point(cx, cy, 0, 1)],
        };
        let r = CellMesh { vertices, triangles: vec![(0, 1, 2), (0, 2, 3), (0, 3, 4)] };
        proof {
            assert(r.parts().0 =~= inverse_corner_spec(cx as int, cy as int, corner as int).0);
            assert(r.parts().1 =~= inverse_corner_spec(cx as int, cy as int, corner as int).1);
        }
        r
    }

    pub fn create_edge_mesh(cell_x: i32, cell_y: i32, edge: usize) -> (r: CellMesh)
        requires
            edge < 4,
        ensures
            r.parts() == edge_spec(cell_x as int, cell_y as int, edge as int),
    {
        let (cx, cy) = (cell_x, cell_y);
        let vertices = match edge {
            // bottom edge
            0 => vec![half_point(cx, cy, 0, 0), half_point(cx, cy, 2, 0), half_point(cx, cy, 2, 1), half_point(cx, cy, 0, 1)],
            // right edge
            1 => vec![half_point(cx, cy, 1, 0), half_point(cx, cy, 2, 0), half_point(cx, cy, 2, 2), half_point(cx, cy, 1, 2)],
            // top edge
            2 => vec![half_point(cx, cy, 0, 1), half_point(cx, cy, 2, 1), half_point(cx, cy, 2, 2), half_point(cx, cy, 0, 2)],
            // left edge
            _ => vec![half_point(cx, cy, 0, 0), half_point(cx, cy, 1, 0), half_point(cx, cy, 1, 2), half_point(cx, cy, 0, 2)],
        };
        let r = CellMesh { vertices, triangles: vec![(0, 1, 2), (0, 2, 3)] };
        proof {
            assert(r.parts().0 =~= edge_spec(cx as int, cy as int, edge as int).0);
            assert(r.parts().1 =~= edge_spec(cx as int, cy as int, edge as int).1);
        }
        r
    }

    pub fn create_diagonal_mesh(cell_x: i32, cell_y: i32, flip: bool) -> (r: CellMesh)
        ensures
            r.parts() == diagonal_spec(cell_x as int, cell_y as int, flip),
    {
        let (cx, cy) = (cell_x, cell_y);
        let vertices = if flip {
            // bottom-right + top-left
            vec![
                half_point(cx, cy, 1, 0),  // bottom center
                half_point(cx, cy, 2, 0),  // bottom-right
                half_point(cx, cy, 2, 1),  // right center
                half_point(cx, cy, 0, 1),  // left center
                half_point(cx, cy, 0, 2),  // top-left
                half_point(cx, cy, 1, 2),  // top center
            ]
        } else {
            // bottom-left + top-right
            vec![
                half_point(cx, cy, 0, 0),  // bottom-left
                half_point(cx, cy, 1, 0),  // bottom center
                half_point(cx, cy, 0, 1),  // left center
                half_point(cx, cy, 1, 2),  // top center
                half_point(cx, cy, 2, 2),  // top-right
                half_point(cx, cy, 2, 1),  // right center
            ]
        };
        let r = CellMesh { vertices, triangles: vec![(0, 1, 2), (3, 4, 5)] };
        proof {
            assert(r.parts().0 =~= diagonal_spec(cx as int, cy as int, flip).0);
            assert(r.parts().1 =~= diagonal_spec(cx as int, cy as int, flip).1);
        }
        r
    }

    /// Appends the triangle of corner `k` to the mesh under construction.
    fn push_corner_triangle(vertices: &mut Vec<(i64, i64)>, triangles: &mut Vec<(u32, u32, u32)>, cell_x: i32, cell_y: i32, k: usize)
        requires
            k < 4,
            old(vertices)@.len() <= 9,
        ensures
            (final(vertices)@, final(triangles)@)
                == add_corner_triangle((old(vertices)@, old(triangles)@), cell_x as int, cell_y as int, k as int),
    {
        let corner = Self::create_corner_mesh(cell_x, cell_y, k);
        let mut i: usize = 0;
        let ghost v0 = vertices@;
        while i < 3
            invariant
                i <= 3,
                corner.vertices@ == corner_vertices(cell_x as int, cell_y as int, k as int),
                vertices@ == v0 + corner.vertices@.take(i as int),
            decreases 3 - i,
        {
            vertices.push(corner.vertices[i]);
            proof {
                assert(corner.vertices@.take(i as int + 1) =~= corner.vertices@.take(i as int).push(corner.vertices@[i as int]));
            }
            i = i + 1;
        }
        proof {
            assert(corner.vertices@.take(3) =~= corner.vertices@);
        }
        let base_idx = vertices.len() as u32 - 3;
        if k == 0 || k == 2 {
            triangles.push((base_idx, base_idx + 1, base_idx + 2));
        } else {
            triangles.push((base_idx, base_idx + 2, base_idx + 1));
        }
    }

    pub fn create_generic_mesh(cell_x: i32, cell_y: i32, corners: [bool; 4]) -> (r: CellMesh)
        ensures
            r.parts() == generic_spec(cell_x as int, cell_y as int, corners),
    {
        // Count filled corners
        let mut filled_count: usize = 0;
        if corners[0] {
            filled_count = filled_count + 1;
        }
        if corners[1] {
            filled_count = filled_count + 1;
        }
        if corners[2] {
            filled_count = filled_count + 1;
        }
        if corners[3] {
            filled_count = filled_count + 1;
        }

        if filled_count == 0 {
            // No mesh needed
            let r = CellMesh { vertices: Vec::new(), triangles: Vec::new() };
            proof {
                assert(r.parts().0 =~= generic_spec(cell_x as int, cell_y as int, corners).0);
                assert(r.parts().1 =~= generic_spec(cell_x as int, cell_y as int, corners).1);
            }
            return r;
        }
        if filled_count == 4 {
            // All filled - create full quad
            return Self::create_full_quad(cell_x, cell_y);
        }

        // For partial fills, one corner triangle for each filled corner
        let mut vertices: Vec<(i64, i64)> = Vec::new();
        let mut triangles: Vec<(u32, u32, u32)> = Vec::new();
        if corners[0] {
            Self::push_corner_triangle(&mut vertices, &mut triangles, cell_x, cell_y, 0);
        }
        if corners[1] {
            Self::push_corner_triangle(&mut vertices, &mut triangles, cell_x, cell_y, 1);
        }
        if corners[2] {
            Self::push_corner_triangle(&mut vertices, &mut triangles, cell_x, cell_y, 2);
        }
        if corners[3] {
            Self::push_corner_triangle(&mut vertices, &mut triangles, cell_x, cell_y, 3);
        }
        CellMesh { vertices, triangles }
    }

    /// The mesh of the cell with corner `(cell_x, cell_y)` and the given corner
    /// configuration: none for an empty cell, the marching-squares piece otherwise.
    pub fn generate_cell_mesh(config: CellConfiguration, cell_x: i32, cell_y: i32) -> (r: Option<CellMesh>)
        ensures
            r matches Some(m) ==> cell_mesh_spec(config.corners, cell_x as int, cell_y as int) == Some(m.parts()),
            r is None ==> cell_mesh_spec(config.corners, cell_x as int, cell_y as int) is None,
            // as `law_cell_mesh_covers_filled_corners` states it
            r is None <==> (!config.corners[0] && !config.corners[1] && !config.corners[2] && !config.corners[3]),
            r matches Some(m) ==> forall|j: int| 0 <= j < 4
                ==> (m.vertices@.contains(#[trigger] square_corner(cell_x as int, cell_y as int, j)) <==> config.corners[j]),
    {
        proof {
            law_cell_mesh_covers_filled_corners(config.corners, cell_x as int, cell_y as int, 0);
            assert forall|j: int| 0 <= j < 4 implies (cell_vertices(config.corners, cell_x as int, cell_y as int)
                .contains(#[trigger] square_corner(cell_x as int, cell_y as int, j)) <==> config.corners[j]) by {
                law_cell_mesh_covers_filled_corners(config.corners, cell_x as int, cell_y as int, j);
            }
        }
        let corners = config.corners;
        let case_index: u8 = (if corners[0] { 1u8 } else { 0u8 }) + (if corners[1] { 2u8 } else { 0u8 })
            + (if corners[2] { 4u8 } else { 0u8 }) + (if corners[3] { 8u8 } else { 0u8 });

        match case_index {
            0 => None,  // All empty
            15 => Some(Self::create_full_quad(cell_x, cell_y)),  // All filled
            // Single corner cases
            1 => Some(Self::create_corner_mesh(cell_x, cell_y, 0)),  // bottom-left
            2 => Some(Self::create_corner_mesh(cell_x, cell_y, 1)),  // bottom-right
            4 => Some(Self::create_corner_mesh(cell_x, cell_y, 2)),  // top-right
            8 => Some(Self::create_corner_mesh(cell_x, cell_y, 3)),  // top-left
            // Adjacent corner cases (edges)
            3 => Some(Self::create_edge_mesh(cell_x, cell_y, 0)),  // bottom edge (corners 0,1)
            6 => Some(Self::create_edge_mesh(cell_x, cell_y, 1)),  // right edge (corners 1,2)
            12 => Some(Self::create_edge_mesh(cell_x, cell_y, 2)),  // top edge (corners 2,3)
            9 => Some(Self::create_edge_mesh(cell_x, cell_y, 3)),  // left edge (corners 3,0)
            // Diagonal cases
            5 => Some(Self::create_diagonal_mesh(cell_x, cell_y, false)),  // bottom-left + top-right
            10 => Some(Self::create_diagonal_mesh(cell_x, cell_y, true)),  // bottom-right + top-left
            // Three corner cases (inverse of single corner)
            14 => Some(Self::create_inverse_corner_mesh(cell_x, cell_y, 0)),  // all except bottom-left
            13 => Some(Self::create_inverse_corner_mesh(cell_x, cell_y, 1)),  // all except bottom-right
            11 => Some(Self::create_inverse_corner_mesh(cell_x, cell_y, 2)),  // all except top-right
            7 => Some(Self::create_inverse_corner_mesh(cell_x, cell_y, 3)),  // all except top-left
            // Handle any remaining cases
            _ => Some(Self::create_generic_mesh(cell_x, cell_y, corners)),
        }
    }


    /// Whether the chunk holding the voxel at world `(vx, vy)` is loaded.
    fn voxel_chunk_loaded(chunks: &HashMap<(i32, i32), crate::planet::startup::Chunk>, vx: i32, vy: i32) -> (r: bool)
        ensures
            r == voxel_loaded(chunk_views(classic_chunk_map_contents(*chunks)), vx as int, vy as int),
    {
        let chunk_size = CHUNK_SIZE as i32;
        let chunk_x = match vx.checked_div_euclid(chunk_size) {
            Some(c) => c,
            None => 0,
        };
        let chunk_y = match vy.checked_div_euclid(chunk_size) {
            Some(c) => c,
            None => 0,
        };
        crate::foreign::classic_chunk_map_contains_key(chunks, (chunk_x, chunk_y))
    }

    /// Whether all four corners of cell `(x, y)` lie in loaded chunks; the
    /// corners are tried row by row, bottom row first.
    pub fn can_sample_cell(chunks: &HashMap<(i32, i32), crate::planet::startup::Chunk>, x: i32, y: i32) -> (r: bool)
        requires
            x < i32::MAX,
            y < i32::MAX,
        ensures
            r == cell_samplable(chunk_views(classic_chunk_map_contents(*chunks)), x as int, y as int),
    {
        Self::voxel_chunk_loaded(chunks, x, y)
            && Self::voxel_chunk_loaded(chunks, x + 1, y)
            && Self::voxel_chunk_loaded(chunks, x, y + 1)
            && Self::voxel_chunk_loaded(chunks, x + 1, y + 1)
    }

    /// Sorts the cells of chunk `(chunk_x, chunk_y)`: full cells by position,
    /// partial cells by their mesh.
    fn collect_cells(chunks: &HashMap<(i32, i32), crate::planet::startup::Chunk>, chunk_x: i32, chunk_y: i32, target_type: VoxelType) -> (r: (Vec<(i32, i32)>, Vec<CellMesh>))
        requires
            -0x800_0000 <= chunk_x < 0x7ff_ffff,
            -0x800_0000 <= chunk_y < 0x7ff_ffff,
        ensures
            r.0@ == full_cells(chunk_views(classic_chunk_map_contents(*chunks)), chunk_x as int, chunk_y as int, target_type, 256),
            r.1@.map_values(|m: CellMesh| m.parts())
                == partial_meshes(chunk_views(classic_chunk_map_contents(*chunks)), chunk_x as int, chunk_y as int, target_type, 256),
            r.1@.len() <= 256,
            forall|i: int| 0 <= i < r.1@.len() ==> small_mesh(#[trigger] r.1@[i].parts()),
    {
        let ghost cs = chunk_views(classic_chunk_map_contents(*chunks));
        let chunk_size = CHUNK_SIZE as i32;
        let world_min_x = chunk_x * chunk_size;
        let world_min_y = chunk_y * chunk_size;
        let mut mesh_quads: Vec<(i32, i32)> = Vec::new();
        let mut complex_meshes: Vec<CellMesh> = Vec::new();
        let mut dy: usize = 0;
        while dy < 16
            invariant
                dy <= 16,
                -0x800_0000 <= chunk_x < 0x7ff_ffff,
                -0x800_0000 <= chunk_y < 0x7ff_ffff,
                chunk_size == 16,
                world_min_x == chunk_x * 16,
                world_min_y == chunk_y * 16,
                cs == chunk_views(classic_chunk_map_contents(*chunks)),
                mesh_quads@ == full_cells(cs, chunk_x as int, chunk_y as int, target_type, (16 * dy) as nat),
                complex_meshes@.map_values(|m: CellMesh| m.parts())
                    == partial_meshes(cs, chunk_x as int, chunk_y as int, target_type, (16 * dy) as nat),
                complex_meshes@.len() <= 16 * dy,
                forall|i: int| 0 <= i < complex_meshes@.len() ==> small_mesh(#[trigger] complex_meshes@[i].parts()),
            decreases 16 - dy,
        {
            let mut dx: usize = 0;
            while dx < 16
                invariant
                    dy < 16,
                    dx <= 16,
                    -0x800_0000 <= chunk_x < 0x7ff_ffff,
                    -0x800_0000 <= chunk_y < 0x7ff_ffff,
                    chunk_size == 16,
                    world_min_x == chunk_x * 16,
                    world_min_y == chunk_y * 16,
                    cs == chunk_views(classic_chunk_map_contents(*chunks)),
                    mesh_quads@ == full_cells(cs, chunk_x as int, chunk_y as int, target_type, (16 * dy + dx) as nat),
                    complex_meshes@.map_values(|m: CellMesh| m.parts())
                        == partial_meshes(cs, chunk_x as int, chunk_y as int, target_type, (16 * dy + dx) as nat),
                    complex_meshes@.len() <= 16 * dy + dx,
                    forall|i: int| 0 <= i < complex_meshes@.len() ==> small_mesh(#[trigger] complex_meshes@[i].parts()),
                decreases 16 - dx,
            {
                let world_x = world_min_x + dx as i32;
                let world_y = world_min_y + dy as i32;
                assert(world_x == chunk_x * 16 + dx && world_y == chunk_y * 16 + dy);
                assert(world_x < i32::MAX && world_y < i32::MAX);
                let ghost t = 16 * dy + dx;
                proof {
                    lemma_cell_index(chunk_x as int, chunk_y as int, dx as int, dy as int);
                }
                let ghost before = complex_meshes@;

                // A cell belongs to the chunk containing its bottom-left corner
                let cell_chunk_x = match world_x.checked_div_euclid(chunk_size) {
                    Some(c) => c,
                    None => 0,
                };
                let cell_chunk_y = match world_y.checked_div_euclid(chunk_size) {
                    Some(c) => c,
                    None => 0,
                };
                proof {
                    lemma_fundamental_div_mod_converse(world_x as int, 16, chunk_x as int, dx as int);
                    lemma_fundamental_div_mod_converse(world_y as int, 16, chunk_y as int, dy as int);
                }
                if cell_chunk_x == chunk_x && cell_chunk_y == chunk_y {
                    // Only create cells where we can sample all 4 corners
                    if Self::can_sample_cell(chunks, world_x, world_y) {
                        let cell = Self::get_cell_configuration(chunks, world_x, world_y, target_type);
                        let ghost corners = cell.corners;
                        if let Some(cell_mesh) = Self::generate_cell_mesh(cell, world_x, world_y) {
                            proof {
                                lemma_table_mesh(corners, world_x as int, world_y as int);
                            }
                            // A full quad goes to greedy meshing, other shapes directly into the mesh
                            if Self::is_full_quad_mesh(&cell_mesh, world_x, world_y) {
                                mesh_quads.push((world_x, world_y));
                            } else {
                                complex_meshes.push(cell_mesh);
                                proof {
                                    assert(complex_meshes@.map_values(|m: CellMesh| m.parts())
                                        =~= before.map_values(|m: CellMesh| m.parts()).push(cell_mesh.parts()));
                                }
                            }
                        }
                    }
                }
                proof {
                    assert((t + 1 - 1) == t);
                }
                dx = dx + 1;
            }
            dy = dy + 1;
        }
        (mesh_quads, complex_meshes)
    }

    /// The mesh of `target_type` in chunk `(chunk_x, chunk_y)` of the loaded
    /// chunks, as vertex positions in world units and triangle indices.
    pub fn chunk_mesh(chunks: &HashMap<(i32, i32), crate::planet::startup::Chunk>, chunk_x: i32, chunk_y: i32, target_type: VoxelType) -> (r: (Vec<(i64, i64)>, Vec<u32>))
        requires
            -0x800_0000 <= chunk_x < 0x7ff_ffff,
            -0x800_0000 <= chunk_y < 0x7ff_ffff,
        ensures
            is_chunk_mesh(chunk_views(classic_chunk_map_contents(*chunks)), chunk_x as int, chunk_y as int, target_type, (r.0@, r.1@)),
            valid_triangle_list(r.0@.len(), r.1@),
    {
        let ghost cs = chunk_views(classic_chunk_map_contents(*chunks));
        let chunk_size = CHUNK_SIZE as i32;
        assert(chunk_size == 16);

        // Calculate world bounds for this specific chunk
        let world_min_x = chunk_x * chunk_size;
        let world_max_x = (chunk_x + 1) * chunk_size;
        let world_min_y = chunk_y * chunk_size;
        let world_max_y = (chunk_y + 1) * chunk_size;

        let (mesh_quads, complex_meshes) = Self::collect_cells(chunks, chunk_x, chunk_y, target_type);

        // Apply greedy meshing to full quads within this chunk
        let greedy_quads = GreedyMeshHandler::greedy_mesh_quads(mesh_quads.as_slice(), world_min_x, world_min_y, world_max_x, world_max_y);

        let mut vertices: Vec<(i64, i64)> = Vec::new();
        let mut indices: Vec<u32> = Vec::new();

        // Add greedy meshed quads to the final mesh
        let mut i: usize = 0;
        while i < greedy_quads.len()
            invariant
                i <= greedy_quads@.len(),
                greedy_quads@.len() <= 256,
                (vertices@, indices@) == quads_mesh(greedy_quads@.take(i as int)),
                vertices@.len() == 4 * i,
                valid_triangle_list(vertices@.len(), indices@),
            decreases greedy_quads@.len() - i,
        {
            let ghost before = greedy_quads@.take(i as int);
            GreedyMeshHandler::add_quad_to_mesh(&mut vertices, &mut indices, greedy_quads[i]);
            proof {
                assert(greedy_quads@.take(i as int + 1).drop_last() =~= before);
                law_quads_mesh_valid(before);
                law_quads_mesh_valid(greedy_quads@.take(i as int + 1));
            }
            i = i + 1;
        }
        proof {
            assert(greedy_quads@.take(greedy_quads@.len() as int) =~= greedy_quads@);
        }
        let ghost base = (vertices@, indices@);
        let ghost parts = complex_meshes@.map_values(|m: CellMesh| m.parts());

        // Add complex meshes to the final mesh
        let mut j: usize = 0;
        while j < complex_meshes.len()
            invariant
                j <= complex_meshes@.len(),
                complex_meshes@.len() <= 256,
                parts == complex_meshes@.map_values(|m: CellMesh| m.parts()),
                forall|k: int| 0 <= k < complex_meshes@.len() ==> small_mesh(#[trigger] complex_meshes@[k].parts()),
                (vertices@, indices@) == append_cell_meshes(base, parts.take(j as int)),
                vertices@.len() <= 1024 + 12 * j,
                valid_triangle_list(vertices@.len(), indices@),
            decreases complex_meshes@.len() - j,
        {
            let cell_mesh = &complex_meshes[j];
            proof {
                assert(small_mesh(complex_meshes@[j as int].parts()));
            }
            let vertex_offset = vertices.len() as u32;
            let ghost p_vertices = vertices@;
            let ghost p_indices = indices@;

            // Add vertices with their world placement
            let mut k: usize = 0;
            while k < cell_mesh.vertices.len()
                invariant
                    k <= cell_mesh.vertices@.len(),
                    small_mesh(cell_mesh.parts()),
                    vertices@ == p_vertices + cell_mesh.vertices@.take(k as int).map_values(|v: (i64, i64)| placed_vertex(v)),
                decreases cell_mesh.vertices@.len() - k,
            {
                let v = cell_mesh.vertices[k];
                proof {
                    assert(small_mesh(cell_mesh.parts()));
                    assert(cell_mesh.parts().0[k as int] == v);
                }
                vertices.push((3 * v.0 - 400, 300 - 3 * v.1));
                proof {
                    assert(cell_mesh.vertices@.take(k as int + 1) =~= cell_mesh.vertices@.take(k as int).push(v));
                    assert(vertices@ =~= p_vertices + cell_mesh.vertices@.take(k as int + 1).map_values(|v: (i64, i64)| placed_vertex(v)));
                }
                k = k + 1;
            }
            proof {
                assert(cell_mesh.vertices@.take(cell_mesh.vertices@.len() as int) =~= cell_mesh.vertices@);
            }

            // Add indices with offset
            proof {
                assert(vertices@.len() == p_vertices.len() + cell_mesh.vertices@.len());
            }
            let mut k: usize = 0;
            while k < cell_mesh.triangles.len()
                invariant
                    k <= cell_mesh.triangles@.len(),
                    small_mesh(cell_mesh.parts()),
                    vertex_offset as int == p_vertices.len(),
                    p_vertices.len() <= 1024 + 12 * 256,
                    indices@ == p_indices + offset_triangles(cell_mesh.triangles@.take(k as int), vertex_offset as int),
                    vertices@.len() == p_vertices.len() + cell_mesh.vertices@.len(),
                    valid_triangle_list(p_vertices.len(), p_indices),
                    indices@.len() == p_indices.len() + 3 * k,
                    forall|i: int| 0 <= i < indices@.len() ==> (#[trigger] indices@[i]) < vertices@.len(),
                decreases cell_mesh.triangles@.len() - k,
            {
                let t = cell_mesh.triangles[k];
                proof {
                    assert(cell_mesh.parts().1[k as int] == t);
                }
                let ghost i_before = indices@;
                indices.push(vertex_offset + t.0);
                indices.push(vertex_offset + t.1);
                indices.push(vertex_offset + t.2);
                proof {
                    assert forall|i: int| 0 <= i < indices@.len() implies (#[trigger] indices@[i]) < vertices@.len() by {
                        if i < i_before.len() {
                            assert(indices@[i] == i_before[i]);
                        }
                    }
                    assert(cell_mesh.triangles@.take(k as int + 1).drop_last() =~= cell_mesh.triangles@.take(k as int));
                    assert(indices@ =~= p_indices + offset_triangles(cell_mesh.triangles@.take(k as int + 1), vertex_offset as int));
                }
                k = k + 1;
            }
            proof {
                assert(cell_mesh.triangles@.take(cell_mesh.triangles@.len() as int) =~= cell_mesh.triangles@);
                assert(indices@.len() % 3 == 0);
                assert(parts.take(j as int + 1).drop_last() =~= parts.take(j as int));
                assert(parts.take(j as int + 1).last() == cell_mesh.parts());
            }
            j = j + 1;
        }
        proof {
            assert(parts.take(parts.len() as int) =~= parts);
            assert(is_greedy_meshing(
                full_cells(cs, chunk_x as int, chunk_y as int, target_type, 256),
                (chunk_x * 16, chunk_y * 16, chunk_x * 16 + 16, chunk_y * 16 + 16),
                greedy_quads@,
            ));
        }
        (vertices, indices)
    }

    /// The mesh of `target_type` in chunk `(chunk_x, chunk_y)` of the world.
    pub fn generate_chunk_mesh(world: &ChunkWorld, chunk_x: i32, chunk_y: i32, target_type: VoxelType) -> (r: (Vec<(i64, i64)>, Vec<u32>))
        requires
            -0x800_0000 <= chunk_x < 0x7ff_ffff,
            -0x800_0000 <= chunk_y < 0x7ff_ffff,
        ensures
            is_chunk_mesh(world.chunks(), chunk_x as int, chunk_y as int, target_type, (r.0@, r.1@)),
            valid_triangle_list(r.0@.len(), r.1@),
    {
        Self::chunk_mesh(&world.loaded_chunks, chunk_x, chunk_y, target_type)
    }

    /// Whether the mesh is the full unit square of cell `(x, y)`: exactly four
    /// vertices and two triangles, with every corner of the cell among the vertices.
    pub fn is_full_quad_mesh(mesh: &CellMesh, x: i32, y: i32) -> (r: bool)
        ensures
            r == (mesh.vertices@.len() == 4 && mesh.triangles@.len() == 2
                && forall|k: int| 0 <= k < 4 ==> mesh.vertices@.contains(#[trigger] full_quad_spec(x as int, y as int).0[k])),
    {
        // A full quad should have exactly 4 vertices and 2 triangles
        if mesh.vertices.len() != 4 || mesh.triangles.len() != 2 {
            return false;
        }
        let expected = Self::create_full_quad(x, y).vertices;
        let mut k: usize = 0;
        while k < 4
            invariant
                k <= 4,
                expected@ == full_quad_spec(x as int, y as int).0,
                mesh.vertices@.len() == 4,
                forall|kk: int| 0 <= kk < k ==> mesh.vertices@.contains(#[trigger] expected@[kk]),
            decreases 4 - k,
        {
            let e = expected[k];
            let mut found = false;
            let mut j: usize = 0;
            while j < 4
                invariant
                    j <= 4,
                    mesh.vertices@.len() == 4,
                    found == (exists|jj: int| 0 <= jj < j && mesh.vertices@[jj] == e),
                decreases 4 - j,
            {
                let v = mesh.vertices[j];
                if v.0 == e.0 && v.1 == e.1 {
                    found = true;
                }
                j = j + 1;
            }
            if !found {
                proof {
                    assert(!mesh.vertices@.contains(expected@[k as int]));
                }
                return false;
            }
            k = k + 1;
        }
        true
    }
}

} // verus!
