use crate::foreign::{vertex_map_clear, vertex_map_contents, vertex_map_entries, vertex_map_get, vertex_map_insert, vertex_map_new};
use crate::foreign::chunk_map_get;
use crate::planet::world::chunk::{ChunkModel, CHUNK_SIZE};
use crate::planet::world::chunk_world::{chunk_key, voxel_in, World};
use vstd::arithmetic::div_mod::lemma_fundamental_div_mod_converse;
use bevy::math::Vec2;
use bevy::platform::collections::HashMap;
use vstd::prelude::*;

verus! {

// =============================================================================
// CORE DATA STRUCTURES
// =============================================================================

/// Represents a contour cell with an interior vertex for dual contouring
#[derive(Debug, Clone, Copy)]
pub struct ContourCell {
    pub x: usize,
    pub y: usize,
    /// Corner solid/empty states
    pub corner_values: [bool; 4],
    /// Optimally placed vertex within cell
    pub interior_vertex: Vec2,
    /// Surface normal at vertex
    pub normal: Vec2,
}

/// Intersection data for an edge where surface crosses
#[derive(Debug, Clone, Copy)]
pub struct EdgeIntersection {
    /// Local position within cell (0.0-1.0)
    pub position: Vec2,
    /// Surface normal at intersection
    pub normal: Vec2,
}

/// Information about an intersection on a chunk border
#[derive(Debug, Clone, Copy)]
pub struct ChunkBorderIntersection {
    pub world_position: Vec2,
}

/// The chunk edge that a cell edge lies on.
#[derive(Debug, Clone, Copy, PartialEq, Eq, Structural)]
pub enum ChunkEdgeType {
    /// x = 0
    Left,
    /// x = CHUNK_SIZE
    Right,
    /// y = 0
    Bottom,
    /// y = CHUNK_SIZE
    Top,
}

// =============================================================================
// SHARED VERTEX SYSTEM
// =============================================================================

/// Fixed-point coordinate for consistent vertex positioning across chunks
/// (world coordinates multiplied by 1000), used as the key of shared vertices.
#[derive(Debug, Clone, Copy, PartialEq, Eq, Structural, Hash)]
pub struct SnappedCoord {
    pub x: i32,
    pub y: i32,
}

/// A vertex on a chunk border that can be shared between chunks
#[derive(Debug, Clone, Copy, PartialEq, Eq, Structural)]
pub struct ChunkBorderVertex {
    pub vertex_id: usize,
}

/// Registry for managing shared vertices across chunk boundaries
#[derive(Debug)]
pub struct SharedVertexRegistry {
    vertices: HashMap<(i32, i32), ChunkBorderVertex>,
    next_vertex_id: usize,
}

impl SharedVertexRegistry {
    /// The vertex id registered for each snapped coordinate.
    pub closed spec fn ids(&self) -> Map<(i32, i32), usize> {
        vertex_map_contents(self.vertices).map_values(|v: ChunkBorderVertex| v.vertex_id)
    }

    /// The id that the next new coordinate receives.
    pub closed spec fn next_id(&self) -> usize {
        self.next_vertex_id
    }

    /// The registry hands out ids `0, 1, 2, ...` in order: the registered ids
    /// are exactly `0..next_id`, each given to exactly one coordinate.
    pub closed spec fn wf(&self) -> bool {
        let m = vertex_map_contents(self.vertices);
        &&& m.dom().finite()
        &&& m.dom().len() == self.next_vertex_id
        &&& forall|k: (i32, i32)| #[trigger] m.dom().contains(k) ==> m[k].vertex_id < self.next_vertex_id
        &&& forall|k1: (i32, i32), k2: (i32, i32)|
            #[trigger] m.dom().contains(k1) && #[trigger] m.dom().contains(k2) && k1 != k2
                ==> m[k1].vertex_id != m[k2].vertex_id
    }

    /// Each registered coordinate has its own vertex id: no two coordinates
    /// share one, every id is below the next id to hand out, and there are as
    /// many coordinates as ids handed out.
    pub proof fn law_vertex_ids_distinct(&self)
        requires
            self.wf(),
        ensures
            self.ids().dom().finite(),
            self.ids().len() == self.next_id(),
            forall|k: (i32, i32)| #[trigger] self.ids().dom().contains(k) ==> self.ids()[k] < self.next_id(),
            forall|k1: (i32, i32), k2: (i32, i32)|
                #[trigger] self.ids().dom().contains(k1) && #[trigger] self.ids().dom().contains(k2) && k1 != k2
                    ==> self.ids()[k1] != self.ids()[k2],
    {
        let m = vertex_map_contents(self.vertices);
        assert(self.ids().dom() =~= m.dom());
    }

    /// An empty registry.
    pub fn new() -> (r: Self)
        ensures
            r.wf(),
            r.ids() == Map::<(i32, i32), usize>::empty(),
            r.next_id() == 0,
    {
        let r = Self { vertices: vertex_map_new(), next_vertex_id: 0 };
        proof {
            assert(r.ids() =~= Map::<(i32, i32), usize>::empty());
        }
        r
    }

    /// Get or create a shared vertex at the given snapped coordinate: a
    /// coordinate seen before gets its id back; a new one gets the next id.
    pub fn get_or_create_vertex(&mut self, coord: SnappedCoord) -> (r: usize)
        requires
            old(self).wf(),
            old(self).ids().dom().contains((coord.x, coord.y)) || old(self).next_id() < usize::MAX,
        ensures
            final(self).wf(),
            old(self).ids().dom().contains((coord.x, coord.y)) ==> r == old(self).ids()[(coord.x, coord.y)],
            old(self).ids().dom().contains((coord.x, coord.y)) ==> final(self).ids() == old(self).ids(),
            old(self).ids().dom().contains((coord.x, coord.y)) ==> final(self).next_id() == old(self).next_id(),
            !old(self).ids().dom().contains((coord.x, coord.y)) ==> r == old(self).next_id(),
            !old(self).ids().dom().contains((coord.x, coord.y)) ==> final(self).ids() == old(self).ids().insert((coord.x, coord.y), r),
            !old(self).ids().dom().contains((coord.x, coord.y)) ==> final(self).next_id() == old(self).next_id() + 1,
            // a new id differs from every id handed out before
            forall|k: (i32, i32)|
                #[trigger] old(self).ids().dom().contains(k) && k != (coord.x, coord.y)
                    ==> old(self).ids()[k] != r,
    {
        let key = (coord.x, coord.y);
        match vertex_map_get(&self.vertices, key) {
            Some(vertex) => vertex.vertex_id,
            None => {
                let vertex_id = self.next_vertex_id;
                self.next_vertex_id = self.next_vertex_id + 1;

                vertex_map_insert(&mut self.vertices, key, ChunkBorderVertex { vertex_id });
                proof {
                    let m0 = vertex_map_contents(old(self).vertices);
                    let m1 = vertex_map_contents(self.vertices);
                    assert(m1.dom() =~= m0.dom().insert(key));
                    assert(self.ids() =~= old(self).ids().insert(key, vertex_id));
                }
                vertex_id
            },
        }
    }

    /// Every registered vertex with its coordinate, each once, in no particular order.
    pub fn get_all_vertices(&self) -> (r: Vec<(SnappedCoord, ChunkBorderVertex)>)
        ensures
            r@.len() == self.ids().len(),
            forall|i: int| #![trigger r@[i]] 0 <= i < r@.len() ==> self.ids().dom().contains((r@[i].0.x, r@[i].0.y)),
            forall|i: int| #![trigger r@[i]] 0 <= i < r@.len() ==> self.ids()[(r@[i].0.x, r@[i].0.y)] == r@[i].1.vertex_id,
            forall|i: int, j: int| 0 <= i < j < r@.len() ==> r@[i].0 != r@[j].0,
            forall|k: (i32, i32)| #[trigger] self.ids().dom().contains(k)
                ==> (exists|i: int| 0 <= i < r@.len() && r@[i].0 == (SnappedCoord { x: k.0, y: k.1 })),
    {
        let entries = vertex_map_entries(&self.vertices);
        let ghost keys = entries@.map_values(|e: ((i32, i32), ChunkBorderVertex)| e.0);
        let ghost m = vertex_map_contents(self.vertices);
        let mut r: Vec<(SnappedCoord, ChunkBorderVertex)> = Vec::new();
        let mut i: usize = 0;
        while i < entries.len()
            invariant
                i <= entries@.len(),
                r@.len() == i,
                keys == entries@.map_values(|e: ((i32, i32), ChunkBorderVertex)| e.0),
                m == vertex_map_contents(self.vertices),
                forall|j: int| 0 <= j < i ==> r@[j] == (SnappedCoord { x: entries@[j].0.0, y: entries@[j].0.1 }, entries@[j].1),
            decreases entries@.len() - i,
        {
            let e = entries[i];
            r.push((SnappedCoord { x: e.0.0, y: e.0.1 }, e.1));
            i = i + 1;
        }
        proof {
            assert(keys.len() == entries@.len());
            keys.unique_seq_to_set();
            assert(self.ids().dom() =~= m.dom());
            assert forall|i: int| #![trigger r@[i]] 0 <= i < r@.len() implies
                self.ids().dom().contains((r@[i].0.x, r@[i].0.y))
                && self.ids()[(r@[i].0.x, r@[i].0.y)] == r@[i].1.vertex_id by {
                assert(keys[i] == entries@[i].0);
                assert(keys.to_set().contains(keys[i]));
            }
            assert forall|i: int, j: int| 0 <= i < j < r@.len() implies r@[i].0 != r@[j].0 by {
                assert(keys[i] == entries@[i].0);
                assert(keys[j] == entries@[j].0);
            }
            assert forall|k: (i32, i32)| #[trigger] self.ids().dom().contains(k)
                implies (exists|i: int| 0 <= i < r@.len() && r@[i].0 == (SnappedCoord { x: k.0, y: k.1 })) by {
                assert(keys.to_set().contains(k));
                let i = choose|i: int| 0 <= i < keys.len() && keys[i] == k;
                assert(r@[i].0 == (SnappedCoord { x: k.0, y: k.1 }));
            }
        }
        r
    }

    /// Forgets every shared vertex and restarts the ids at zero.
    pub fn clear(&mut self)
        ensures
            final(self).wf(),
            final(self).ids() == Map::<(i32, i32), usize>::empty(),
            final(self).next_id() == 0,
    {
        vertex_map_clear(&mut self.vertices);
        self.next_vertex_id = 0;
        proof {
            assert(self.ids() =~= Map::<(i32, i32), usize>::empty());
        }
    }
}

impl Default for SharedVertexRegistry {
    fn default() -> (r: Self)
        ensures
            r.wf(),
            r.ids() == Map::<(i32, i32), usize>::empty(),
            r.next_id() == 0,
    {
        Self::new()
    }
}

} // verus!

verus! {

// =============================================================================
// DUAL CONTOURING: THE DISCRETE PART
// =============================================================================

pub struct DualContouring;

/// A local coordinate that may leave the chunk by one chunk at most, mapped
/// to (chunk coordinate, local coordinate in that chunk).
pub open spec fn neighbor_coords(chunk_coord: int, local_coord: int) -> (int, int) {
    if local_coord < 0 {
        (chunk_coord - 1, CHUNK_SIZE + local_coord)
    } else if local_coord >= CHUNK_SIZE {
        (chunk_coord + 1, local_coord - CHUNK_SIZE)
    } else {
        (chunk_coord, local_coord)
    }
}

/// Whether the voxel at local `(lx, ly)` of chunk `(cx, cy)` is solid, looked
/// up in the neighboring chunk when it lies outside; `None` when that chunk is
/// not loaded.
pub open spec fn solid_at(chunks: Map<(i32, i32), ChunkModel>, cx: int, cy: int, lx: int, ly: int) -> Option<bool> {
    let (ncx, nlx) = neighbor_coords(cx, lx);
    let (ncy, nly) = neighbor_coords(cy, ly);
    let k = (ncx as i32, ncy as i32);
    if chunks.dom().contains(k) {
        Some(chunks[k].voxel_at(nlx, nly).spec_is_solid())
    } else {
        None
    }
}

/// Looking a voxel up from a chunk, across its borders as well, sees the
/// world's voxel at that position (and `None` exactly where its chunk is not
/// loaded): neighbouring chunks agree on every voxel along their shared
/// border, so the cells and corners they share get the same states.
pub proof fn law_lookup_matches_world(chunks: Map<(i32, i32), ChunkModel>, cx: i32, cy: i32, lx: int, ly: int)
    requires
        i32::MIN < cx < i32::MAX,
        i32::MIN < cy < i32::MAX,
        -(CHUNK_SIZE as int) <= lx < 2 * CHUNK_SIZE,
        -(CHUNK_SIZE as int) <= ly < 2 * CHUNK_SIZE,
    ensures
        solid_at(chunks, cx as int, cy as int, lx, ly) == (if chunks.dom().contains(chunk_key(16 * cx + lx, 16 * cy + ly)) {
            Some(voxel_in(chunks, 16 * cx + lx, 16 * cy + ly).spec_is_solid())
        } else {
            None
        }),
{
    let x = 16 * cx + lx;
    let y = 16 * cy + ly;
    let (ncx, nlx) = neighbor_coords(cx as int, lx);
    let (ncy, nly) = neighbor_coords(cy as int, ly);
    lemma_fundamental_div_mod_converse(x, 16, ncx, nlx);
    lemma_fundamental_div_mod_converse(y, 16, ncy, nly);
    assert(chunk_key(x, y) == (ncx as i32, ncy as i32));
}

/// The corners of cell `(x, y)` in the order bottom-left, bottom-right,
/// top-left, top-right, when all four are known and the surface passes
/// through the cell (they are not all equal).
pub open spec fn sign_change_corners(chunks: Map<(i32, i32), ChunkModel>, cx: int, cy: int, x: int, y: int) -> Option<[bool; 4]> {
    let a = solid_at(chunks, cx, cy, x, y);
    let b = solid_at(chunks, cx, cy, x + 1, y);
    let c = solid_at(chunks, cx, cy, x, y + 1);
    let d = solid_at(chunks, cx, cy, x + 1, y + 1);
    if a is Some && b is Some && c is Some && d is Some {
        let corners = [a->0, b->0, c->0, d->0];
        if corners[1] != corners[0] || corners[2] != corners[0] || corners[3] != corners[0] {
            Some(corners)
        } else {
            None
        }
    } else {
        None
    }
}

/// The contour cells among the first `n` cells of the chunk (row by row),
/// each with its corners.
pub open spec fn contour_cells(chunks: Map<(i32, i32), ChunkModel>, cx: int, cy: int, n: nat) -> Seq<(usize, usize, [bool; 4])>
    decreases n,
{
    if n == 0 {
        Seq::empty()
    } else {
        let prev = contour_cells(chunks, cx, cy, (n - 1) as nat);
        let x = (n - 1) % 16;
        let y = (n - 1) / 16;
        match sign_change_corners(chunks, cx, cy, x, y) {
            Some(corners) => prev.push((x as usize, y as usize, corners)),
            None => prev,
        }
    }
}

/// The contour cells of a chunk depend on which chunks are loaded and on
/// their voxels only.
pub proof fn lemma_contour_cells_voxels_only(a: Map<(i32, i32), ChunkModel>, b: Map<(i32, i32), ChunkModel>, cx: int, cy: int, n: nat)
    requires
        a.dom() == b.dom(),
        forall|k: (i32, i32)| #[trigger] a.dom().contains(k) ==> a[k].voxels == b[k].voxels,
    ensures
        contour_cells(a, cx, cy, n) == contour_cells(b, cx, cy, n),
    decreases n,
{
    if n > 0 {
        lemma_contour_cells_voxels_only(a, b, cx, cy, (n - 1) as nat);
        let x = (n - 1) % 16;
        let y = (n - 1) / 16;
        assert(solid_at(a, cx, cy, x, y) == solid_at(b, cx, cy, x, y));
        assert(solid_at(a, cx, cy, x + 1, y) == solid_at(b, cx, cy, x + 1, y));
        assert(solid_at(a, cx, cy, x, y + 1) == solid_at(b, cx, cy, x, y + 1));
        assert(solid_at(a, cx, cy, x + 1, y + 1) == solid_at(b, cx, cy, x + 1, y + 1));
    }
}

/// The cell edges, as pairs of corner indices, in edge order bottom, right,
/// top, left.
pub open spec fn edge_corners(edge_idx: int) -> (int, int) {
    if edge_idx == 0 {
        (0, 1)
    } else if edge_idx == 1 {
        (1, 3)
    } else if edge_idx == 2 {
        (3, 2)
    } else {
        (2, 0)
    }
}

/// The edges among the first `n` (in edge order) whose corners differ.
pub open spec fn crossing_edges_spec(corners: [bool; 4], n: nat) -> Seq<usize>
    decreases n,
{
    if n == 0 {
        Seq::empty()
    } else {
        let prev = crossing_edges_spec(corners, (n - 1) as nat);
        let e = edge_corners(n - 1);
        if corners[e.0] != corners[e.1] {
            prev.push((n - 1) as usize)
        } else {
            prev
        }
    }
}

/// The chunk edge that edge `edge_idx` of cell `(cell_x, cell_y)` lies on, if any.
pub open spec fn border_type(cell_x: int, cell_y: int, edge_idx: int) -> Option<ChunkEdgeType> {
    if edge_idx == 0 {
        if cell_y == 0 { Some(ChunkEdgeType::Bottom) } else { None }
    } else if edge_idx == 1 {
        if cell_x == CHUNK_SIZE - 1 { Some(ChunkEdgeType::Right) } else { None }
    } else if edge_idx == 2 {
        if cell_y == CHUNK_SIZE - 1 { Some(ChunkEdgeType::Top) } else { None }
    } else if edge_idx == 3 {
        if cell_x == 0 { Some(ChunkEdgeType::Left) } else { None }
    } else {
        None
    }
}

/// The four chunk corners in local coordinates: bottom-left, bottom-right,
/// top-left, top-right.
pub open spec fn chunk_corner(k: int) -> (i32, i32) {
    if k == 0 {
        (0, 0)
    } else if k == 1 {
        (CHUNK_SIZE as i32, 0)
    } else if k == 2 {
        (0, CHUNK_SIZE as i32)
    } else {
        (CHUNK_SIZE as i32, CHUNK_SIZE as i32)
    }
}

/// The chunk corners among the first `n` that sit in solid material.
pub open spec fn solid_corners_spec(chunks: Map<(i32, i32), ChunkModel>, cx: int, cy: int, n: nat) -> Seq<(i32, i32)>
    decreases n,
{
    if n == 0 {
        Seq::empty()
    } else {
        let prev = solid_corners_spec(chunks, cx, cy, (n - 1) as nat);
        let p = chunk_corner(n - 1);
        if solid_at(chunks, cx, cy, p.0 as int, p.1 as int) == Some(true) {
            prev.push(p)
        } else {
            prev
        }
    }
}

impl DualContouring {
    /// Clear the shared vertex registry (useful when regenerating large areas)
    pub fn clear_vertex_registry(world: &mut World)
        ensures
            final(world).vertex_registry.wf(),
            final(world).vertex_registry.ids().dom().is_empty(),
            final(world).vertex_registry.next_id() == 0,
            final(world).chunks() == old(world).chunks(),
            final(world).noise == old(world).noise,
            final(world).seed == old(world).seed,
    {
        let registry = world.get_vertex_registry_mut();
        registry.clear();
    }

    /// Calculate neighbor chunk coordinates and local position
    pub fn calculate_neighbor_coords(chunk_coord: i32, local_coord: i32) -> (r: (i32, usize))
        requires
            i32::MIN < chunk_coord < i32::MAX,
            -(CHUNK_SIZE as int) <= local_coord < 2 * CHUNK_SIZE,
        ensures
            r.0 == neighbor_coords(chunk_coord as int, local_coord as int).0,
            r.1 == neighbor_coords(chunk_coord as int, local_coord as int).1,
    {
        let size = CHUNK_SIZE as i32;
        if local_coord < 0 {
            (chunk_coord - 1, (size + local_coord) as usize)
        } else if local_coord >= size {
            (chunk_coord + 1, (local_coord - size) as usize)
        } else {
            (chunk_coord, local_coord as usize)
        }
    }

    /// Get voxel state at given position, handling chunk boundaries
    /// Returns None if the voxel would be in an unloaded chunk
    pub fn try_get_voxel(world: &World, chunk_x: i32, chunk_y: i32, local_x: i32, local_y: i32) -> (r: Option<bool>)
        requires
            i32::MIN < chunk_x < i32::MAX,
            i32::MIN < chunk_y < i32::MAX,
            -(CHUNK_SIZE as int) <= local_x < 2 * CHUNK_SIZE,
            -(CHUNK_SIZE as int) <= local_y < 2 * CHUNK_SIZE,
        ensures
            r == solid_at(world.chunks(), chunk_x as int, chunk_y as int, local_x as int, local_y as int),
    {
        let size = CHUNK_SIZE as i32;
        // Check if position is within current chunk
        if local_x >= 0 && local_x < size && local_y >= 0 && local_y < size {
            if let Some(chunk) = chunk_map_get(&world.loaded_chunks, (chunk_x, chunk_y)) {
                return Some(chunk.get_voxel(local_x as usize, local_y as usize).is_solid());
            }
        } else {
            // Handle neighbor chunk access
            let (neighbor_chunk_x, neighbor_local_x) = Self::calculate_neighbor_coords(chunk_x, local_x);
            let (neighbor_chunk_y, neighbor_local_y) = Self::calculate_neighbor_coords(chunk_y, local_y);

            if let Some(neighbor_chunk) = chunk_map_get(&world.loaded_chunks, (neighbor_chunk_x, neighbor_chunk_y)) {
                return Some(neighbor_chunk.get_voxel(neighbor_local_x, neighbor_local_y).is_solid());
            }
        }
        None  // Chunk not loaded
    }

    /// The corners of cell `x` between two rows of corner states (bottom-left,
    /// bottom-right, top-left, top-right), when all are known and not all equal.
    pub fn cell_sign_change(prev_row: &[Option<bool>], curr_row: &[Option<bool>], x: usize) -> (r: Option<[bool; 4]>)
        requires
            x + 1 < prev_row@.len(),
            x + 1 < curr_row@.len(),
        ensures
            r == (if prev_row@[x as int] is Some && prev_row@[x + 1] is Some && curr_row@[x as int] is Some && curr_row@[x + 1] is Some {
                let corners = [prev_row@[x as int]->0, prev_row@[x + 1]->0, curr_row@[x as int]->0, curr_row@[x + 1]->0];
                if corners[1] != corners[0] || corners[2] != corners[0] || corners[3] != corners[0] {
                    Some(corners)
                } else {
                    None
                }
            } else {
                None
            }),
    {
        let corner_opts = [prev_row[x], prev_row[x + 1], curr_row[x], curr_row[x + 1]];

        // Skip if any corner is in an unloaded chunk
        match (corner_opts[0], corner_opts[1], corner_opts[2], corner_opts[3]) {
            (Some(a), Some(b), Some(c), Some(d)) => {
                let corners = [a, b, c, d];
                // Check if there's a sign change (surface crossing)
                let first_corner = corners[0];
                let has_sign_change = corners[1] != first_corner || corners[2] != first_corner || corners[3] != first_corner;
                if has_sign_change {
                    Some(corners)
                } else {
                    None
                }
            },
            _ => None,
        }
    }

    /// The cells of chunk `(chunk_x, chunk_y)` through which the surface passes,
    /// row by row, each with its corners. Corner states are read one row of
    /// corners at a time, so each is looked up once.
    pub fn find_sign_change_cells(world: &World, chunk_x: i32, chunk_y: i32) -> (r: Vec<(usize, usize, [bool; 4])>)
        requires
            i32::MIN < chunk_x < i32::MAX,
            i32::MIN < chunk_y < i32::MAX,
        ensures
            r@ == contour_cells(world.chunks(), chunk_x as int, chunk_y as int, 256),
    {
        let ghost cs = world.chunks();
        let mut cells: Vec<(usize, usize, [bool; 4])> = Vec::new();

        // Initialize first row
        let mut prev_row: Vec<Option<bool>> = Vec::new();
        let mut x: usize = 0;
        while x <= CHUNK_SIZE
            invariant
                x <= CHUNK_SIZE + 1,
                i32::MIN < chunk_x < i32::MAX,
                i32::MIN < chunk_y < i32::MAX,
                cs == world.chunks(),
                prev_row@.len() == x,
                forall|i: int| 0 <= i < x ==> #[trigger] prev_row@[i] == solid_at(cs, chunk_x as int, chunk_y as int, i, 0),
            decreases CHUNK_SIZE + 1 - x,
        {
            prev_row.push(Self::try_get_voxel(world, chunk_x, chunk_y, x as i32, 0));
            x = x + 1;
        }

        // Process each row
        let mut y: usize = 0;
        while y < CHUNK_SIZE
            invariant
                y <= CHUNK_SIZE,
                i32::MIN < chunk_x < i32::MAX,
                i32::MIN < chunk_y < i32::MAX,
                cs == world.chunks(),
                prev_row@.len() == CHUNK_SIZE + 1,
                forall|i: int| 0 <= i <= CHUNK_SIZE ==> #[trigger] prev_row@[i] == solid_at(cs, chunk_x as int, chunk_y as int, i, y as int),
                cells@ == contour_cells(cs, chunk_x as int, chunk_y as int, (16 * y) as nat),
            decreases CHUNK_SIZE - y,
        {
            // Load current row
            let mut curr_row: Vec<Option<bool>> = Vec::new();
            let mut x: usize = 0;
            while x <= CHUNK_SIZE
                invariant
                    x <= CHUNK_SIZE + 1,
                    y < CHUNK_SIZE,
                    i32::MIN < chunk_x < i32::MAX,
                    i32::MIN < chunk_y < i32::MAX,
                    cs == world.chunks(),
                    curr_row@.len() == x,
                    forall|i: int| 0 <= i < x ==> #[trigger] curr_row@[i] == solid_at(cs, chunk_x as int, chunk_y as int, i, y + 1),
                decreases CHUNK_SIZE + 1 - x,
            {
                curr_row.push(Self::try_get_voxel(world, chunk_x, chunk_y, x as i32, (y + 1) as i32));
                x = x + 1;
            }

            // Process each cell in the row
            let mut x: usize = 0;
            while x < CHUNK_SIZE
                invariant
                    x <= CHUNK_SIZE,
                    y < CHUNK_SIZE,
                    cs == world.chunks(),
                    prev_row@.len() == CHUNK_SIZE + 1,
                    curr_row@.len() == CHUNK_SIZE + 1,
                    forall|i: int| 0 <= i <= CHUNK_SIZE ==> #[trigger] prev_row@[i] == solid_at(cs, chunk_x as int, chunk_y as int, i, y as int),
                    forall|i: int| 0 <= i <= CHUNK_SIZE ==> #[trigger] curr_row@[i] == solid_at(cs, chunk_x as int, chunk_y as int, i, y + 1),
                    cells@ == contour_cells(cs, chunk_x as int, chunk_y as int, (16 * y + x) as nat),
                decreases CHUNK_SIZE - x,
            {
                proof {
                    vstd::arithmetic::div_mod::lemma_fundamental_div_mod_converse(16 * y + x, 16, y as int, x as int);
                    assert(prev_row@[x as int] == solid_at(cs, chunk_x as int, chunk_y as int, x as int, y as int));
                    assert(prev_row@[x + 1] == solid_at(cs, chunk_x as int, chunk_y as int, x + 1, y as int));
                    assert(curr_row@[x as int] == solid_at(cs, chunk_x as int, chunk_y as int, x as int, y + 1));
                    assert(curr_row@[x + 1] == solid_at(cs, chunk_x as int, chunk_y as int, x + 1, y + 1));
                }
                if let Some(corners) = Self::cell_sign_change(prev_row.as_slice(), curr_row.as_slice(), x) {
                    cells.push((x, y, corners));
                }
                proof {
                    let n = (16 * y + x + 1) as nat;
                    assert(((n - 1) as int) == 16 * y + x);
                }
                x = x + 1;
            }

            prev_row = curr_row;
            y = y + 1;
        }
        cells
    }

    /// The edges of a cell (0 bottom, 1 right, 2 top, 3 left) across which its
    /// corners differ, in that order.
    pub fn crossing_edges(corners: &[bool; 4]) -> (r: Vec<usize>)
        ensures
            r@ == crossing_edges_spec(*corners, 4),
    {
        let mut crossings: Vec<usize> = Vec::new();
        let mut edge_idx: usize = 0;
        while edge_idx < 4
            invariant
                edge_idx <= 4,
                crossings@ == crossing_edges_spec(*corners, edge_idx as nat),
            decreases 4 - edge_idx,
        {
            let (corner1_idx, corner2_idx): (usize, usize) = if edge_idx == 0 {
                (0, 1)
            } else if edge_idx == 1 {
                (1, 3)
            } else if edge_idx == 2 {
                (3, 2)
            } else {
                (2, 0)
            };
            // Check if this edge has a sign change (surface crossing)
            if corners[corner1_idx] != corners[corner2_idx] {
                crossings.push(edge_idx);
            }
            proof {
                let n = (edge_idx + 1) as nat;
                assert(((n - 1) as int) == edge_idx);
            }
            edge_idx = edge_idx + 1;
        }
        crossings
    }

    /// Determine if an edge crosses a chunk boundary and return the border type
    pub fn get_border_type(cell_x: usize, cell_y: usize, edge_idx: usize) -> (r: Option<ChunkEdgeType>)
        ensures
            r == border_type(cell_x as int, cell_y as int, edge_idx as int),
    {
        match edge_idx {
            0 => if cell_y == 0 { Some(ChunkEdgeType::Bottom) } else { None },
            1 => if cell_x == CHUNK_SIZE - 1 { Some(ChunkEdgeType::Right) } else { None },
            2 => if cell_y == CHUNK_SIZE - 1 { Some(ChunkEdgeType::Top) } else { None },
            3 => if cell_x == 0 { Some(ChunkEdgeType::Left) } else { None },
            _ => None,
        }
    }

    /// The corners of chunk `(chunk_x, chunk_y)` (in local coordinates:
    /// bottom-left, bottom-right, top-left, top-right) that sit in solid
    /// material, in that order; these get shared vertices.
    pub fn solid_chunk_corners(world: &World, chunk_x: i32, chunk_y: i32) -> (r: Vec<(i32, i32)>)
        requires
            i32::MIN < chunk_x < i32::MAX,
            i32::MIN < chunk_y < i32::MAX,
        ensures
            r@ == solid_corners_spec(world.chunks(), chunk_x as int, chunk_y as int, 4),
    {
        let size = CHUNK_SIZE as i32;
        let mut r: Vec<(i32, i32)> = Vec::new();
        let mut k: usize = 0;
        while k < 4
            invariant
                k <= 4,
                size == 16,
                i32::MIN < chunk_x < i32::MAX,
                i32::MIN < chunk_y < i32::MAX,
                r@ == solid_corners_spec(world.chunks(), chunk_x as int, chunk_y as int, k as nat),
            decreases 4 - k,
        {
            let (local_x, local_y) = if k == 0 {
                (0, 0)  // Bottom-left
            } else if k == 1 {
                (size, 0)  // Bottom-right
            } else if k == 2 {
                (0, size)  // Top-left
            } else {
                (size, size)  // Top-right
            };
            // Sample voxel at the exact corner coordinate
            if let Some(is_solid) = Self::try_get_voxel(world, chunk_x, chunk_y, local_x, local_y) {
                if is_solid {
                    r.push((local_x, local_y));
                }
            }
            proof {
                let n = (k + 1) as nat;
                assert(((n - 1) as int) == k);
            }
            k = k + 1;
        }
        r
    }
}

} // verus!
