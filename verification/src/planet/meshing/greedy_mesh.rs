use crate::planet::meshing::render_voxels::VOXEL_SIZE;
use crate::planet::meshing::valid_triangle_list;
use vstd::prelude::*;

verus! {

/// An axis-aligned rectangle of grid cells: `width` cells to the right and
/// `height` cells up from the cell `(x, y)`.
#[derive(Debug, Clone, Copy, PartialEq, Eq, Structural)]
pub struct GreedyQuad {
    pub x: i32,
    pub y: i32,
    pub width: i32,
    pub height: i32,
}

pub struct GreedyMeshHandler;

/// Whether grid cell `(x, y)` is one of the `quads` and lies inside the bounds
/// `b = (min_x, min_y, max_x, max_y)` (minimums inclusive, maximums exclusive).
pub open spec fn cell_marked(quads: Seq<(i32, i32)>, b: (int, int, int, int), x: int, y: int) -> bool {
    &&& b.0 <= x < b.2
    &&& b.1 <= y < b.3
    &&& quads.contains((x as i32, y as i32))
}

/// The first column right of the rectangle.
pub open spec fn col_after(q: GreedyQuad) -> int {
    q.x + q.width
}

/// The first row above the rectangle.
pub open spec fn row_after(q: GreedyQuad) -> int {
    q.y + q.height
}

pub open spec fn quad_covers(q: GreedyQuad, x: int, y: int) -> bool {
    q.x <= x < col_after(q) && q.y <= y < row_after(q)
}

/// Whether one of the rectangles `rs` covers cell `(x, y)`.
pub open spec fn covered_by(rs: Seq<GreedyQuad>, x: int, y: int) -> bool {
    exists|i: int| 0 <= i < rs.len() && quad_covers(#[trigger] rs[i], x, y)
}

/// A marked cell that none of the rectangles `prev` covers yet.
pub open spec fn free_cell(quads: Seq<(i32, i32)>, b: (int, int, int, int), prev: Seq<GreedyQuad>, x: int, y: int) -> bool {
    cell_marked(quads, b, x, y) && !covered_by(prev, x, y)
}

/// Row-major order of cells: lower rows first, then left to right.
pub open spec fn scans_before(x1: int, y1: int, x2: int, y2: int) -> bool {
    y1 < y2 || (y1 == y2 && x1 < x2)
}

/// The `i`-th rectangle is the one greedy meshing takes after the first `i`:
/// it starts at the first free cell in row-major order, is as wide as the run
/// of free cells starting there, then grows up while the whole next row of
/// that width is free, and covers free cells only.
pub open spec fn greedy_step(quads: Seq<(i32, i32)>, b: (int, int, int, int), rs: Seq<GreedyQuad>, i: int) -> bool {
    let q = rs[i];
    let prev = rs.take(i);
    &&& q.width >= 1
    &&& q.height >= 1
    &&& forall|x: int, y: int| #[trigger] quad_covers(q, x, y) ==> free_cell(quads, b, prev, x, y)
    &&& forall|x: int, y: int|
        scans_before(x, y, q.x as int, q.y as int) && #[trigger] cell_marked(quads, b, x, y) ==> covered_by(prev, x, y)
    &&& (col_after(q) == b.2 || !free_cell(quads, b, prev, col_after(q), q.y as int))
    &&& (row_after(q) == b.3 || exists|x: int| q.x <= x < col_after(q) && !#[trigger] free_cell(quads, b, prev, x, row_after(q)))
}

/// `rs` is the greedy meshing of the marked cells: each rectangle is the
/// greedy choice after the ones before it, and together they cover every
/// marked cell. (Each cell is then covered exactly once.)
pub open spec fn is_greedy_meshing(quads: Seq<(i32, i32)>, b: (int, int, int, int), rs: Seq<GreedyQuad>) -> bool {
    &&& forall|i: int| 0 <= i < rs.len() ==> #[trigger] greedy_step(quads, b, rs, i)
    &&& forall|x: int, y: int| #[trigger] cell_marked(quads, b, x, y) ==> covered_by(rs, x, y)
}

/// Greedy meshing covers exactly the marked cells, each by one rectangle
/// only: a cell is covered if and only if it is marked, and no two of the
/// rectangles overlap.
pub proof fn law_greedy_meshing_partitions(quads: Seq<(i32, i32)>, b: (int, int, int, int), rs: Seq<GreedyQuad>)
    requires
        is_greedy_meshing(quads, b, rs),
    ensures
        forall|x: int, y: int| covered_by(rs, x, y) <==> #[trigger] cell_marked(quads, b, x, y),
        forall|i: int, j: int, x: int, y: int|
            0 <= i < j < rs.len() && #[trigger] quad_covers(rs[i], x, y) ==> !#[trigger] quad_covers(rs[j], x, y),
{
    assert forall|x: int, y: int| covered_by(rs, x, y) implies #[trigger] cell_marked(quads, b, x, y) by {
        let i = choose|i: int| 0 <= i < rs.len() && quad_covers(#[trigger] rs[i], x, y);
        assert(greedy_step(quads, b, rs, i));
    }
    assert forall|i: int, j: int, x: int, y: int|
        0 <= i < j < rs.len() && #[trigger] quad_covers(rs[i], x, y) implies !#[trigger] quad_covers(rs[j], x, y) by {
        assert(greedy_step(quads, b, rs, j));
        let prev = rs.take(j);
        assert(prev[i] == rs[i]);
        assert(covered_by(prev, x, y));
    }
}

/// The greedy choice after the same earlier rectangles is one rectangle only.
proof fn lemma_greedy_step_unique(
    quads: Seq<(i32, i32)>,
    b: (int, int, int, int),
    rs1: Seq<GreedyQuad>,
    rs2: Seq<GreedyQuad>,
    i: int,
)
    requires
        0 <= i < rs1.len(),
        0 <= i < rs2.len(),
        rs1.take(i) == rs2.take(i),
        greedy_step(quads, b, rs1, i),
        greedy_step(quads, b, rs2, i),
    ensures
        rs1[i] == rs2[i],
{
    let q1 = rs1[i];
    let q2 = rs2[i];
    let prev = rs1.take(i);
    // each start is a free cell
    assert(quad_covers(q1, q1.x as int, q1.y as int));
    assert(quad_covers(q2, q2.x as int, q2.y as int));
    assert(free_cell(quads, b, prev, q1.x as int, q1.y as int));
    assert(free_cell(quads, b, prev, q2.x as int, q2.y as int));
    // neither start comes before the other
    if scans_before(q2.x as int, q2.y as int, q1.x as int, q1.y as int) {
        assert(cell_marked(quads, b, q2.x as int, q2.y as int));
        assert(false);
    }
    if scans_before(q1.x as int, q1.y as int, q2.x as int, q2.y as int) {
        assert(cell_marked(quads, b, q1.x as int, q1.y as int));
        assert(false);
    }
    assert(q1.x == q2.x && q1.y == q2.y);
    // the widths are the same run of free cells
    if q1.width < q2.width {
        assert(quad_covers(q2, col_after(q1), q1.y as int));
        assert(free_cell(quads, b, prev, col_after(q1), q1.y as int));
        assert(false);
    }
    if q2.width < q1.width {
        assert(quad_covers(q1, col_after(q2), q2.y as int));
        assert(free_cell(quads, b, prev, col_after(q2), q2.y as int));
        assert(false);
    }
    // and the heights the same stack of free rows
    if q1.height < q2.height {
        if row_after(q1) == b.3 {
            assert(quad_covers(q2, q1.x as int, row_after(q1)));
            assert(free_cell(quads, b, prev, q1.x as int, row_after(q1)));
            assert(false);
        } else {
            let x = choose|x: int| q1.x <= x < col_after(q1) && !#[trigger] free_cell(quads, b, prev, x, row_after(q1));
            assert(quad_covers(q2, x, row_after(q1)));
            assert(false);
        }
    }
    if q2.height < q1.height {
        if row_after(q2) == b.3 {
            assert(quad_covers(q1, q2.x as int, row_after(q2)));
            assert(free_cell(quads, b, prev, q2.x as int, row_after(q2)));
            assert(false);
        } else {
            let x = choose|x: int| q2.x <= x < col_after(q2) && !#[trigger] free_cell(quads, b, prev, x, row_after(q2));
            assert(quad_covers(q1, x, row_after(q2)));
            assert(false);
        }
    }
}

/// Two greedy meshings of the same cells agree on their first `i` rectangles.
proof fn lemma_greedy_prefixes_equal(
    quads: Seq<(i32, i32)>,
    b: (int, int, int, int),
    rs1: Seq<GreedyQuad>,
    rs2: Seq<GreedyQuad>,
    i: int,
)
    requires
        0 <= i <= rs1.len(),
        i <= rs2.len(),
        is_greedy_meshing(quads, b, rs1),
        is_greedy_meshing(quads, b, rs2),
    ensures
        rs1.take(i) == rs2.take(i),
    decreases i,
{
    if i > 0 {
        lemma_greedy_prefixes_equal(quads, b, rs1, rs2, i - 1);
        assert(greedy_step(quads, b, rs1, i - 1));
        assert(greedy_step(quads, b, rs2, i - 1));
        lemma_greedy_step_unique(quads, b, rs1, rs2, i - 1);
        assert(rs1.take(i) =~= rs1.take(i - 1).push(rs1[i - 1]));
        assert(rs2.take(i) =~= rs2.take(i - 1).push(rs2[i - 1]));
    } else {
        assert(rs1.take(0) =~= rs2.take(0));
    }
}

/// Greedy meshing is deterministic: the marked cells and the bounds fix the
/// rectangles, their number and their order.
pub proof fn law_greedy_meshing_unique(
    quads: Seq<(i32, i32)>,
    b: (int, int, int, int),
    rs1: Seq<GreedyQuad>,
    rs2: Seq<GreedyQuad>,
)
    requires
        is_greedy_meshing(quads, b, rs1),
        is_greedy_meshing(quads, b, rs2),
    ensures
        rs1 == rs2,
{
    let n: int = if rs1.len() < rs2.len() { rs1.len() as int } else { rs2.len() as int };
    lemma_greedy_prefixes_equal(quads, b, rs1, rs2, n);
    // a longer meshing would have a rectangle starting at a cell the shorter one covers
    if rs1.len() < rs2.len() {
        assert(rs1.take(n) =~= rs1);
        let q = rs2[n];
        assert(greedy_step(quads, b, rs2, n));
        assert(quad_covers(q, q.x as int, q.y as int));
        assert(free_cell(quads, b, rs2.take(n), q.x as int, q.y as int));
        assert(covered_by(rs1, q.x as int, q.y as int));
        assert(false);
    }
    if rs2.len() < rs1.len() {
        assert(rs2.take(n) =~= rs2);
        let q = rs1[n];
        assert(greedy_step(quads, b, rs1, n));
        assert(quad_covers(q, q.x as int, q.y as int));
        assert(free_cell(quads, b, rs1.take(n), q.x as int, q.y as int));
        assert(covered_by(rs2, q.x as int, q.y as int));
        assert(false);
    }
    assert(rs1.take(n) =~= rs1);
    assert(rs2.take(n) =~= rs2);
}

/// The corners of a rectangle in world units: bottom-left, bottom-right,
/// top-right, top-left.
pub open spec fn quad_vertices(q: GreedyQuad) -> Seq<(i64, i64)> {
    let s = VOXEL_SIZE as int;
    seq![
        ((q.x * s) as i64, (q.y * s) as i64),
        ((col_after(q) * s) as i64, (q.y * s) as i64),
        ((col_after(q) * s) as i64, (row_after(q) * s) as i64),
        ((q.x * s) as i64, (row_after(q) * s) as i64),
    ]
}

/// The two triangles of a rectangle whose corners start at index `o`.
pub open spec fn quad_indices(o: u32) -> Seq<u32> {
    seq![o, (o + 1) as u32, (o + 2) as u32, o, (o + 2) as u32, (o + 3) as u32]
}

/// The mesh of a sequence of rectangles, added one after the other.
pub open spec fn quads_mesh(rs: Seq<GreedyQuad>) -> (Seq<(i64, i64)>, Seq<u32>)
    decreases rs.len(),
{
    if rs.len() == 0 {
        (Seq::empty(), Seq::empty())
    } else {
        let p = quads_mesh(rs.drop_last());
        (p.0 + quad_vertices(rs.last()), p.1 + quad_indices(p.0.len() as u32))
    }
}

/// The mesh of `k` rectangles has four corners and two triangles per
/// rectangle, and its triangles only name its own corners (while the corner
/// count fits the `u32` indices).
pub proof fn law_quads_mesh_valid(rs: Seq<GreedyQuad>)
    requires
        4 * rs.len() <= 0x1_0000_0000,
    ensures
        quads_mesh(rs).0.len() == 4 * rs.len(),
        quads_mesh(rs).1.len() == 6 * rs.len(),
        valid_triangle_list(quads_mesh(rs).0.len(), quads_mesh(rs).1),
    decreases rs.len(),
{
    if rs.len() > 0 {
        law_quads_mesh_valid(rs.drop_last());
        let p = quads_mesh(rs.drop_last());
        let m = quads_mesh(rs);
        let o = p.0.len();
        assert forall|i: int| 0 <= i < m.1.len() implies (#[trigger] m.1[i]) < m.0.len() by {
            if i < p.1.len() {
                assert(m.1[i] == p.1[i]);
            } else {
                assert(m.1[i] == quad_indices(o as u32)[i - p.1.len()]);
            }
        }
    }
}

/// `g` has `h` rows of `w` entries.
pub open spec fn grid_shape(g: Seq<Vec<bool>>, w: int, h: int) -> bool {
    g.len() == h && forall|r: int| 0 <= r < h ==> (#[trigger] g[r])@.len() == w
}

/// A cell that is marked and not yet processed, in local grid coordinates.
pub open spec fn available(grid: Seq<Vec<bool>>, processed: Seq<Vec<bool>>, r: int, c: int) -> bool {
    grid[r]@[c] && !processed[r]@[c]
}

/// A grid of `h` rows of `w` entries, all false.
fn false_grid(w: usize, h: usize) -> (g: Vec<Vec<bool>>)
    ensures
        grid_shape(g@, w as int, h as int),
        forall|r: int, c: int| 0 <= r < h && 0 <= c < w ==> !(#[trigger] g@[r]@[c]),
{
    let mut g: Vec<Vec<bool>> = Vec::new();
    let mut r: usize = 0;
    while r < h
        invariant
            r <= h,
            grid_shape(g@, w as int, r as int),
            forall|rr: int, c: int| 0 <= rr < r && 0 <= c < w ==> !(#[trigger] g@[rr]@[c]),
        decreases h - r,
    {
        let mut row: Vec<bool> = Vec::new();
        let mut c: usize = 0;
        while c < w
            invariant
                c <= w,
                row@.len() == c,
                forall|cc: int| 0 <= cc < c ==> !(#[trigger] row@[cc]),
            decreases w - c,
        {
            row.push(false);
            c = c + 1;
        }
        g.push(row);
        r = r + 1;
    }
    g
}

/// Sets entry `(r, c)` of the grid to true.
fn grid_set(g: &mut Vec<Vec<bool>>, r: usize, c: usize)
    requires
        r < old(g)@.len(),
        c < old(g)@[r as int]@.len(),
    ensures
        final(g)@.len() == old(g)@.len(),
        forall|rr: int| 0 <= rr < final(g)@.len() ==> (#[trigger] final(g)@[rr])@.len() == old(g)@[rr]@.len(),
        forall|rr: int, cc: int| 0 <= rr < final(g)@.len() && 0 <= cc < final(g)@[rr]@.len() ==>
            #[trigger] final(g)@[rr]@[cc] == (old(g)@[rr]@[cc] || (rr == r && cc == c)),
{
    let mut row = g[r].clone();
    row.set(c, true);
    g.set(r, row);
}

/// The length of the run of available cells in row `y` starting at column `x`.
fn extend_width(grid: &Vec<Vec<bool>>, processed: &Vec<Vec<bool>>, x: usize, y: usize, w: usize, h: usize) -> (qw: usize)
    requires
        grid_shape(grid@, w as int, h as int),
        grid_shape(processed@, w as int, h as int),
        x < w,
        y < h,
        available(grid@, processed@, y as int, x as int),
    ensures
        1 <= qw,
        x + qw <= w,
        forall|c: int| x <= c < x + qw ==> #[trigger] available(grid@, processed@, y as int, c),
        x + qw == w || !available(grid@, processed@, y as int, x + qw),
{
    let mut quad_width: usize = 1;
    while x + quad_width < w && !processed[y][x + quad_width] && grid[y][x + quad_width]
        invariant
            grid_shape(grid@, w as int, h as int),
            grid_shape(processed@, w as int, h as int),
            x < w,
            y < h,
            1 <= quad_width,
            x + quad_width <= w,
            forall|c: int| x <= c < x + quad_width ==> #[trigger] available(grid@, processed@, y as int, c),
        decreases w - x - quad_width,
    {
        quad_width = quad_width + 1;
    }
    quad_width
}

/// How many rows, from row `y` up, hold `qw` available cells from column `x`.
fn extend_height(grid: &Vec<Vec<bool>>, processed: &Vec<Vec<bool>>, x: usize, y: usize, qw: usize, w: usize, h: usize) -> (qh: usize)
    requires
        grid_shape(grid@, w as int, h as int),
        grid_shape(processed@, w as int, h as int),
        y < h,
        1 <= qw,
        x + qw <= w,
        forall|c: int| x <= c < x + qw ==> #[trigger] available(grid@, processed@, y as int, c),
    ensures
        1 <= qh,
        y + qh <= h,
        forall|r: int, c: int| y <= r < y + qh && x <= c < x + qw ==> #[trigger] available(grid@, processed@, r, c),
        y + qh == h || exists|c: int| x <= c < x + qw && !#[trigger] available(grid@, processed@, y + qh, c),
{
    let mut quad_height: usize = 1;
    let mut extending = true;
    while extending && y + quad_height < h
        invariant
            grid_shape(grid@, w as int, h as int),
            grid_shape(processed@, w as int, h as int),
            1 <= qw,
            x + qw <= w,
            1 <= quad_height,
            y + quad_height <= h,
            forall|r: int, c: int| y <= r < y + quad_height && x <= c < x + qw ==> #[trigger] available(grid@, processed@, r, c),
            !extending ==> y + quad_height < h
                && exists|c: int| x <= c < x + qw && !#[trigger] available(grid@, processed@, y + quad_height, c),
        decreases h - y - quad_height, if extending { 1int } else { 0int },
    {
        // Check if the entire horizontal strip is available
        let row = y + quad_height;
        let mut dx: usize = 0;
        let mut strip_free = true;
        while strip_free && dx < qw
            invariant
                grid_shape(grid@, w as int, h as int),
                grid_shape(processed@, w as int, h as int),
                row < h,
                x + qw <= w,
                dx <= qw,
                forall|c: int| x <= c < x + dx ==> #[trigger] available(grid@, processed@, row as int, c),
                !strip_free ==> dx < qw && !available(grid@, processed@, row as int, x + dx),
            decreases qw - dx, if strip_free { 1int } else { 0int },
        {
            if processed[row][x + dx] || !grid[row][x + dx] {
                strip_free = false;
            } else {
                dx = dx + 1;
            }
        }
        if strip_free {
            quad_height = quad_height + 1;
        } else {
            extending = false;
            assert(!available(grid@, processed@, (y + quad_height) as int, x + dx));
        }
    }
    quad_height
}

impl GreedyMeshHandler {
    /// Generates a greedy mesh from a list of quads defined by their coordinates.
    /// The quads are defined by their corner (x, y) and the function
    /// will create larger rectangles where possible to optimize the mesh.
    /// Cells outside `[min_x, max_x) x [min_y, max_y)` are ignored.
    pub fn greedy_mesh_quads(quads: &[(i32, i32)], min_x: i32, min_y: i32, max_x: i32, max_y: i32) -> (r: Vec<GreedyQuad>)
        requires
            min_x <= max_x,
            min_y <= max_y,
            max_x - min_x <= i32::MAX,
            max_y - min_y <= i32::MAX,
        ensures
            is_greedy_meshing(quads@, (min_x as int, min_y as int, max_x as int, max_y as int), r@),
            r@.len() <= (max_x - min_x) * (max_y - min_y),
    {
        let ghost b = (min_x as int, min_y as int, max_x as int, max_y as int);
        let width = (max_x - min_x) as usize;
        let height = (max_y - min_y) as usize;

        // Create a grid to mark which quads have been processed
        let mut processed = false_grid(width, height);
        let mut quad_grid = false_grid(width, height);

        // Mark existing quads in the grid
        let mut i: usize = 0;
        while i < quads.len()
            invariant
                i <= quads@.len(),
                width == b.2 - b.0,
                height == b.3 - b.1,
                b == (min_x as int, min_y as int, max_x as int, max_y as int),
                grid_shape(quad_grid@, width as int, height as int),
                forall|r: int, c: int| 0 <= r < height && 0 <= c < width ==>
                    (#[trigger] quad_grid@[r]@[c] <==> cell_marked(quads@.take(i as int), b, b.0 + c, b.1 + r)),
            decreases quads@.len() - i,
        {
            let (qx, qy) = quads[i];
            let gx = qx as i64 - min_x as i64;
            let gy = qy as i64 - min_y as i64;
            if 0 <= gx && gx < width as i64 && 0 <= gy && gy < height as i64 {
                grid_set(&mut quad_grid, gy as usize, gx as usize);
            }
            proof {
                let t0 = quads@.take(i as int);
                let t1 = quads@.take(i as int + 1);
                assert(t1 =~= t0.push((qx, qy)));
                assert forall|r: int, c: int| 0 <= r < height && 0 <= c < width implies
                    (#[trigger] quad_grid@[r]@[c] <==> cell_marked(t1, b, b.0 + c, b.1 + r)) by {
                    let p = ((b.0 + c) as i32, (b.1 + r) as i32);
                    if t1.contains(p) && p != (qx, qy) {
                        let j = choose|j: int| 0 <= j < t1.len() && t1[j] == p;
                        assert(t0[j] == p);
                    }
                    if t0.contains(p) {
                        let j = choose|j: int| 0 <= j < t0.len() && t0[j] == p;
                        assert(t1[j] == p);
                    }
                    if p == (qx, qy) {
                        assert(t1[i as int] == p);
                    }
                }
            }
            i = i + 1;
        }
        proof {
            assert(quads@.take(quads@.len() as int) =~= quads@);
        }

        let mut result: Vec<GreedyQuad> = Vec::new();

        // Greedy meshing algorithm
        let mut y: usize = 0;
        while y < height
            invariant
                y <= height,
                width == b.2 - b.0,
                height == b.3 - b.1,
                width <= i32::MAX,
                height <= i32::MAX,
                b == (min_x as int, min_y as int, max_x as int, max_y as int),
                grid_shape(quad_grid@, width as int, height as int),
                grid_shape(processed@, width as int, height as int),
                forall|r: int, c: int| 0 <= r < height && 0 <= c < width ==>
                    (#[trigger] quad_grid@[r]@[c] <==> cell_marked(quads@, b, b.0 + c, b.1 + r)),
                forall|r: int, c: int| 0 <= r < height && 0 <= c < width ==>
                    (#[trigger] processed@[r]@[c] <==> covered_by(result@, b.0 + c, b.1 + r)),
                forall|k: int| 0 <= k < result@.len() ==> #[trigger] greedy_step(quads@, b, result@, k),
                forall|xx: int, yy: int| #[trigger] covered_by(result@, xx, yy) ==> cell_marked(quads@, b, xx, yy),
                forall|xx: int, yy: int| scans_before(xx, yy, b.0, b.1 + y) && #[trigger] cell_marked(quads@, b, xx, yy)
                    ==> covered_by(result@, xx, yy),
                result@.len() <= y * width,
            decreases height - y,
        {
            let mut x: usize = 0;
            while x < width
                invariant
                    y < height,
                    x <= width,
                    width == b.2 - b.0,
                    height == b.3 - b.1,
                    width <= i32::MAX,
                    height <= i32::MAX,
                    b == (min_x as int, min_y as int, max_x as int, max_y as int),
                    grid_shape(quad_grid@, width as int, height as int),
                    grid_shape(processed@, width as int, height as int),
                    forall|r: int, c: int| 0 <= r < height && 0 <= c < width ==>
                        (#[trigger] quad_grid@[r]@[c] <==> cell_marked(quads@, b, b.0 + c, b.1 + r)),
                    forall|r: int, c: int| 0 <= r < height && 0 <= c < width ==>
                        (#[trigger] processed@[r]@[c] <==> covered_by(result@, b.0 + c, b.1 + r)),
                    forall|k: int| 0 <= k < result@.len() ==> #[trigger] greedy_step(quads@, b, result@, k),
                    forall|xx: int, yy: int| #[trigger] covered_by(result@, xx, yy) ==> cell_marked(quads@, b, xx, yy),
                    forall|xx: int, yy: int| scans_before(xx, yy, b.0 + x, b.1 + y) && #[trigger] cell_marked(quads@, b, xx, yy)
                        ==> covered_by(result@, xx, yy),
                    result@.len() <= y * width + x,
                decreases width - x,
            {
                if !processed[y][x] && quad_grid[y][x] {
                    // Start a new greedy quad, extend it horizontally, then vertically
                    let quad_width = extend_width(&quad_grid, &processed, x, y, width, height);
                    let quad_height = extend_height(&quad_grid, &processed, x, y, quad_width, width, height);
                    let ghost before = processed@;

                    // Mark all quads in this rectangle as processed
                    let mut dy: usize = 0;
                    while dy < quad_height
                        invariant
                            y + quad_height <= height,
                            x + quad_width <= width,
                            dy <= quad_height,
                            grid_shape(before, width as int, height as int),
                            grid_shape(processed@, width as int, height as int),
                            forall|r: int, c: int| 0 <= r < height && 0 <= c < width ==>
                                #[trigger] processed@[r]@[c] == (before[r]@[c]
                                    || (y <= r < y + dy && x <= c < x + quad_width)),
                        decreases quad_height - dy,
                    {
                        let mut dx: usize = 0;
                        while dx < quad_width
                            invariant
                                y + quad_height <= height,
                                x + quad_width <= width,
                                dy < quad_height,
                                dx <= quad_width,
                                grid_shape(before, width as int, height as int),
                                grid_shape(processed@, width as int, height as int),
                                forall|r: int, c: int| 0 <= r < height && 0 <= c < width ==>
                                    #[trigger] processed@[r]@[c] == (before[r]@[c]
                                        || (y <= r < y + dy && x <= c < x + quad_width)
                                        || (r == y + dy && x <= c < x + dx)),
                            decreases quad_width - dx,
                        {
                            grid_set(&mut processed, y + dy, x + dx);
                            dx = dx + 1;
                        }
                        dy = dy + 1;
                    }

                    let q = GreedyQuad {
                        x: min_x + x as i32,
                        y: min_y + y as i32,
                        width: quad_width as i32,
                        height: quad_height as i32,
                    };
                    let ghost prev = result@;
                    result.push(q);
                    proof {
                        Self::lemma_push_keeps_steps(quads@, b, prev, q);
                        assert(result@.take(prev.len() as int) =~= prev);
                        assert forall|xx: int, yy: int| #[trigger] covered_by(result@, xx, yy)
                            <==> covered_by(prev, xx, yy) || quad_covers(q, xx, yy) by {
                            if covered_by(result@, xx, yy) {
                                let k = choose|k: int| 0 <= k < result@.len() && quad_covers(#[trigger] result@[k], xx, yy);
                                if k < prev.len() {
                                    assert(prev[k] == result@[k]);
                                }
                            }
                            if covered_by(prev, xx, yy) {
                                let k = choose|k: int| 0 <= k < prev.len() && quad_covers(#[trigger] prev[k], xx, yy);
                                assert(result@[k] == prev[k]);
                            }
                            if quad_covers(q, xx, yy) {
                                assert(result@[prev.len() as int] == q);
                            }
                        }
                        // the new rectangle covers available cells only
                        assert forall|xx: int, yy: int| #[trigger] quad_covers(q, xx, yy)
                            implies free_cell(quads@, b, prev, xx, yy) by {
                            let r = yy - b.1;
                            let c = xx - b.0;
                            assert(available(quad_grid@, before, r, c));
                        }
                        // cells before the start are covered already
                        assert forall|xx: int, yy: int|
                            scans_before(xx, yy, q.x as int, q.y as int) && #[trigger] cell_marked(quads@, b, xx, yy)
                            implies covered_by(prev, xx, yy) by {}
                        // the rectangle could not be wider
                        if col_after(q) != b.2 {
                            assert(!available(quad_grid@, before, y as int, (x + quad_width) as int));
                        }
                        // the rectangle could not be higher
                        if row_after(q) != b.3 {
                            let c = choose|c: int| x <= c < x + quad_width && !#[trigger] available(quad_grid@, before, (y + quad_height) as int, c);
                            assert(!free_cell(quads@, b, prev, b.0 + c, row_after(q)));
                        }
                        assert(greedy_step(quads@, b, result@, prev.len() as int));
                        assert forall|r: int, c: int| 0 <= r < height && 0 <= c < width implies
                            (#[trigger] processed@[r]@[c] <==> covered_by(result@, b.0 + c, b.1 + r)) by {
                            assert(covered_by(result@, b.0 + c, b.1 + r) <==> covered_by(prev, b.0 + c, b.1 + r) || quad_covers(q, b.0 + c, b.1 + r));
                        }
                    }
                }
                proof {
                    assert forall|xx: int, yy: int| scans_before(xx, yy, b.0 + x + 1, b.1 + y) && #[trigger] cell_marked(quads@, b, xx, yy)
                        implies covered_by(result@, xx, yy) by {
                        if xx == b.0 + x && yy == b.1 + y {
                            assert(processed@[y as int]@[x as int]);
                        }
                    }
                }
                x = x + 1;
            }
            proof {
                assert(y * width + width == (y + 1) * width) by (nonlinear_arith);
                assert forall|xx: int, yy: int| scans_before(xx, yy, b.0, b.1 + y + 1) && #[trigger] cell_marked(quads@, b, xx, yy)
                    implies covered_by(result@, xx, yy) by {
                    if yy == b.1 + y {
                        assert(scans_before(xx, yy, b.0 + width, b.1 + y));
                    }
                }
            }
            y = y + 1;
        }
        proof {
            assert forall|xx: int, yy: int| #[trigger] cell_marked(quads@, b, xx, yy) implies covered_by(result@, xx, yy) by {
                assert(scans_before(xx, yy, b.0, b.1 + height));
            }
            assert(height * width == (max_x - min_x) * (max_y - min_y)) by (nonlinear_arith)
                requires width == max_x - min_x, height == max_y - min_y;
        }

        result
    }

    /// Add a greedy quad to the mesh, aka. a bigger rectangle: its four
    /// corners (in world units) and the two triangles that fill it.
    pub fn add_quad_to_mesh(vertices: &mut Vec<(i64, i64)>, indices: &mut Vec<u32>, quad: GreedyQuad)
        requires
            old(vertices)@.len() + 3 <= u32::MAX,
        ensures
            final(vertices)@ == old(vertices)@ + quad_vertices(quad),
            final(indices)@ == old(indices)@ + quad_indices(old(vertices)@.len() as u32),
    {
        let vertex_offset = vertices.len() as u32;

        // Add vertices for the rectangle
        let x = quad.x as i64;
        let y = quad.y as i64;
        let w = quad.width as i64;
        let h = quad.height as i64;

        vertices.push((x * VOXEL_SIZE, y * VOXEL_SIZE));  // bottom-left
        vertices.push(((x + w) * VOXEL_SIZE, y * VOXEL_SIZE));  // bottom-right
        vertices.push(((x + w) * VOXEL_SIZE, (y + h) * VOXEL_SIZE));  // top-right
        vertices.push((x * VOXEL_SIZE, (y + h) * VOXEL_SIZE));  // top-left

        // Add indices for two triangles
        indices.push(vertex_offset + 0);
        indices.push(vertex_offset + 1);
        indices.push(vertex_offset + 2);  // first triangle
        indices.push(vertex_offset + 0);
        indices.push(vertex_offset + 2);
        indices.push(vertex_offset + 3);  // second triangle
        proof {
            assert(vertices@ =~= old(vertices)@ + quad_vertices(quad));
            assert(indices@ =~= old(indices)@ + quad_indices(vertex_offset));
        }
    }

    /// Appending a rectangle leaves the earlier rectangles' greedy steps unchanged.
    proof fn lemma_push_keeps_steps(quads: Seq<(i32, i32)>, b: (int, int, int, int), prev: Seq<GreedyQuad>, q: GreedyQuad)
        requires
            forall|k: int| 0 <= k < prev.len() ==> #[trigger] greedy_step(quads, b, prev, k),
        ensures
            forall|k: int| 0 <= k < prev.len() ==> #[trigger] greedy_step(quads, b, prev.push(q), k),
    {
        assert forall|k: int| 0 <= k < prev.len() implies #[trigger] greedy_step(quads, b, prev.push(q), k) by {
            assert(prev.push(q).take(k) =~= prev.take(k));
            assert(prev.push(q)[k] == prev[k]);
            assert(greedy_step(quads, b, prev, k));
        }
    }
}

} // verus!
