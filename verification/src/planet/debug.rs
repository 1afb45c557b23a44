use crate::planet::meshing::dual_contouring::ContourCell;
use vstd::prelude::*;

verus! {

/// Which debug visualizations are shown.
pub struct DebugState {
    pub show_contour_cells: bool,
    pub show_normals: bool,
    pub show_interior_vertices: bool,
    pub show_contour_lines: bool,
    pub show_voxels: bool,
    pub show_chunk_borders: bool,
    pub show_border_intersections: bool,
}

/// The keys that toggle the debug visualizations.
#[derive(Clone, Copy, PartialEq, Eq, Structural, Debug)]
pub enum DebugKey {
    /// Contour cells
    F1,
    /// Normals
    F2,
    /// Interior vertices
    F3,
    /// Contour lines
    F4,
    /// Voxels
    F5,
    /// Chunk borders
    F6,
    /// Border intersections
    F7,
}

impl Default for DebugState {
    /// Everything hidden but the voxels.
    fn default() -> (r: Self)
        ensures
            !r.show_contour_cells,
            !r.show_normals,
            !r.show_interior_vertices,
            !r.show_contour_lines,
            r.show_voxels,
            !r.show_chunk_borders,
            !r.show_border_intersections,
    {
        Self {
            show_contour_cells: false,
            show_normals: false,
            show_interior_vertices: false,
            show_contour_lines: false,
            show_voxels: true,  // Show voxels by default
            show_chunk_borders: false,
            show_border_intersections: false,
        }
    }
}

/// The state after the toggle that `key` triggers.
pub open spec fn toggled(s: DebugState, key: DebugKey) -> DebugState {
    match key {
        DebugKey::F1 => DebugState { show_contour_cells: !s.show_contour_cells, ..s },
        DebugKey::F2 => DebugState { show_normals: !s.show_normals, ..s },
        DebugKey::F3 => DebugState { show_interior_vertices: !s.show_interior_vertices, ..s },
        DebugKey::F4 => DebugState { show_contour_lines: !s.show_contour_lines, ..s },
        DebugKey::F5 => DebugState { show_voxels: !s.show_voxels, ..s },
        DebugKey::F6 => DebugState { show_chunk_borders: !s.show_chunk_borders, ..s },
        DebugKey::F7 => DebugState { show_border_intersections: !s.show_border_intersections, ..s },
    }
}

/// Pressing the same key twice brings every visualization back to how it
/// was, and every single press changes something.
pub proof fn law_toggle_twice_restores(s: DebugState, key: DebugKey)
    ensures
        toggled(toggled(s, key), key) == s,
        toggled(s, key) != s,
{
}

/// Flag `i` of a debug state, in the order of the fields: 0 contour cells,
/// 1 normals, 2 interior vertices, 3 contour lines, 4 voxels, 5 chunk
/// borders, 6 border intersections.
pub open spec fn flag(s: DebugState, i: int) -> bool {
    if i == 0 {
        s.show_contour_cells
    } else if i == 1 {
        s.show_normals
    } else if i == 2 {
        s.show_interior_vertices
    } else if i == 3 {
        s.show_contour_lines
    } else if i == 4 {
        s.show_voxels
    } else if i == 5 {
        s.show_chunk_borders
    } else {
        s.show_border_intersections
    }
}

/// The flag that a key is for, as the keys' help reads: F1 contour cells,
/// F2 normals, F3 interior vertices, F4 contour lines, F5 voxels, F6 chunk
/// borders, F7 border intersections.
pub open spec fn key_flag(key: DebugKey) -> int {
    match key {
        DebugKey::F1 => 0,
        DebugKey::F2 => 1,
        DebugKey::F3 => 2,
        DebugKey::F4 => 3,
        DebugKey::F5 => 4,
        DebugKey::F6 => 5,
        DebugKey::F7 => 6,
    }
}

/// Each key flips exactly its own flag and leaves every other flag as it
/// was; the keys map one-to-one onto the seven flags.
pub proof fn law_each_key_flips_its_own_flag(s: DebugState, key: DebugKey, other: DebugKey, i: int)
    requires
        0 <= i < 7,
    ensures
        0 <= key_flag(key) < 7,
        key_flag(key) == key_flag(other) ==> key == other,
        flag(toggled(s, key), i) == (if i == key_flag(key) { !flag(s, i) } else { flag(s, i) }),
{
}

impl DebugState {
    /// Toggles the visualization that `key` controls. Returns whether the
    /// voxels were just switched on, in which case every loaded chunk must be
    /// re-meshed.
    pub fn handle_key(&mut self, key: DebugKey) -> (r: bool)
        ensures
            *final(self) == toggled(*old(self), key),
            r == (key == DebugKey::F5 && !old(self).show_voxels),
            // as `law_each_key_flips_its_own_flag` states it
            forall|i: int| 0 <= i < 7 ==> #[trigger] flag(*final(self), i)
                == (if i == key_flag(key) { !flag(*old(self), i) } else { flag(*old(self), i) }),
    {
        match key {
            DebugKey::F1 => {
                self.show_contour_cells = !self.show_contour_cells;
                false
            },
            DebugKey::F2 => {
                self.show_normals = !self.show_normals;
                false
            },
            DebugKey::F3 => {
                self.show_interior_vertices = !self.show_interior_vertices;
                false
            },
            DebugKey::F4 => {
                self.show_contour_lines = !self.show_contour_lines;
                false
            },
            DebugKey::F5 => {
                let was_enabled = self.show_voxels;
                self.show_voxels = !self.show_voxels;
                // If voxels were just enabled, all chunks need updating
                !was_enabled && self.show_voxels
            },
            DebugKey::F6 => {
                self.show_chunk_borders = !self.show_chunk_borders;
                false
            },
            DebugKey::F7 => {
                self.show_border_intersections = !self.show_border_intersections;
                false
            },
        }
    }

    /// Whether any of the contour visualizations is shown.
    pub fn shows_contours(&self) -> (r: bool)
        ensures
            r == (self.show_contour_cells || self.show_normals || self.show_interior_vertices
                || self.show_contour_lines || self.show_border_intersections),
    {
        self.show_contour_cells || self.show_normals || self.show_interior_vertices || self.show_contour_lines
            || self.show_border_intersections
    }
}

/// A line segment between two points in world units.
pub type Segment = ((i64, i64), (i64, i64));

/// Side `i` of the square of chunk `k` in world units (96 per chunk): 0 left,
/// 1 right, 2 bottom, 3 top.
pub open spec fn chunk_side(k: (i32, i32), i: int) -> Segment {
    let x0 = (k.0 * 96) as i64;
    let y0 = (k.1 * 96) as i64;
    let x1 = (k.0 * 96 + 96) as i64;
    let y1 = (k.1 * 96 + 96) as i64;
    if i == 0 {
        ((x0, y0), (x0, y1))
    } else if i == 1 {
        ((x1, y0), (x1, y1))
    } else if i == 2 {
        ((x0, y0), (x1, y0))
    } else {
        ((x0, y1), (x1, y1))
    }
}

/// Whether `s` is a side of one of the chunks before chunk `j` of `keys`, or
/// one of the first `i` sides of chunk `j`.
pub open spec fn side_seen(keys: Seq<(i32, i32)>, j: int, i: int, s: Segment) -> bool {
    exists|jj: int, ii: int|
        0 <= jj < keys.len() && 0 <= ii < 4 && (jj < j || (jj == j && ii < i)) && #[trigger] chunk_side(keys[jj], ii) == s
}

pub struct DebugPlugin;

impl DebugPlugin {
    /// The sides of the squares of the chunks at `keys`, each segment once
    /// (a side that two chunks share is drawn once), in the order met.
    pub fn chunk_border_segments(keys: &Vec<(i32, i32)>) -> (r: Vec<Segment>)
        ensures
            r@.no_duplicates(),
            forall|s: Segment| r@.contains(s) <==> exists|j: int, i: int|
                0 <= j < keys@.len() && 0 <= i < 4 && #[trigger] chunk_side(keys@[j], i) == s,
    {
        let mut r: Vec<Segment> = Vec::new();
        let mut j: usize = 0;
        while j < keys.len()
            invariant
                j <= keys@.len(),
                r@.no_duplicates(),
                forall|s: Segment| r@.contains(s) <==> side_seen(keys@, j as int, 0, s),
            decreases keys@.len() - j,
        {
            let (cx, cy) = keys[j];
            let x0 = cx as i64 * 96;
            let y0 = cy as i64 * 96;
            let x1 = x0 + 96;
            let y1 = y0 + 96;
            proof {
                assert forall|s: Segment| side_seen(keys@, j as int, 0, s) <==> side_seen(keys@, j as int - 1, 4, s) by {
                    if side_seen(keys@, j as int, 0, s) {
                        let (jj, ii) = choose|jj: int, ii: int|
                            0 <= jj < keys@.len() && 0 <= ii < 4 && (jj < j || (jj == j && ii < 0)) && #[trigger] chunk_side(keys@[jj], ii) == s;
                        assert(chunk_side(keys@[jj], ii) == s);
                    }
                    if side_seen(keys@, j as int - 1, 4, s) {
                        let (jj, ii) = choose|jj: int, ii: int|
                            0 <= jj < keys@.len() && 0 <= ii < 4 && (jj < j - 1 || (jj == j - 1 && ii < 4)) && #[trigger] chunk_side(keys@[jj], ii) == s;
                        assert(chunk_side(keys@[jj], ii) == s);
                    }
                }
            }
            let mut i: usize = 0;
            while i < 4
                invariant
                    j < keys@.len(),
                    i <= 4,
                    (cx, cy) == keys@[j as int],
                    x0 == cx * 96,
                    y0 == cy * 96,
                    x1 == cx * 96 + 96,
                    y1 == cy * 96 + 96,
                    r@.no_duplicates(),
                    forall|s: Segment| r@.contains(s) <==> side_seen(keys@, j as int, i as int, s),
                decreases 4 - i,
            {
                let seg: Segment = if i == 0 {
                    ((x0, y0), (x0, y1))  // left
                } else if i == 1 {
                    ((x1, y0), (x1, y1))  // right
                } else if i == 2 {
                    ((x0, y0), (x1, y0))  // bottom
                } else {
                    ((x0, y1), (x1, y1))  // top
                };
                assert(seg == chunk_side(keys@[j as int], i as int));
                let ghost before = r@;
                assert(forall|s: Segment| before.contains(s) <==> side_seen(keys@, j as int, i as int, s));
                if !Self::contains_segment(&r, seg) {
                    r.push(seg);
                    proof {
                        assert forall|a: int, b: int| 0 <= a < r@.len() && 0 <= b < r@.len() && a != b implies r@[a] != r@[b] by {
                            if a < before.len() && b < before.len() {
                            } else if a < before.len() {
                                assert(before.contains(r@[a]));
                            } else {
                                assert(before.contains(r@[b]));
                            }
                        }
                    }
                }
                proof {
                    assert forall|s: Segment| r@.contains(s) <==> side_seen(keys@, j as int, i + 1, s) by {
                        if r@.contains(s) {
                            let t = choose|t: int| 0 <= t < r@.len() && r@[t] == s;
                            if t < before.len() {
                                assert(before.contains(s));
                                let (jj, ii) = choose|jj: int, ii: int|
                                    0 <= jj < keys@.len() && 0 <= ii < 4 && (jj < j || (jj == j && ii < i)) && #[trigger] chunk_side(keys@[jj], ii) == s;
                                assert(chunk_side(keys@[jj], ii) == s);
                            } else {
                                assert(chunk_side(keys@[j as int], i as int) == s);
                            }
                        }
                        if side_seen(keys@, j as int, i + 1, s) {
                            let (jj, ii) = choose|jj: int, ii: int|
                                0 <= jj < keys@.len() && 0 <= ii < 4 && (jj < j || (jj == j && ii < i + 1)) && #[trigger] chunk_side(keys@[jj], ii) == s;
                            if jj == j && ii == i {
                                if !before.contains(s) {
                                    assert(r@[before.len() as int] == s);
                                }
                            } else {
                                assert(chunk_side(keys@[jj], ii) == s);
                                assert(jj < j || (jj == j && ii < i));
                                assert(side_seen(keys@, j as int, i as int, s));
                                assert(before.contains(s));
                                let t = choose|t: int| 0 <= t < before.len() && before[t] == s;
                                assert(r@[t] == s);
                            }
                        }
                    }
                }
                i = i + 1;
            }
            proof {
                assert forall|s: Segment| side_seen(keys@, j as int, 4, s) <==> side_seen(keys@, j + 1, 0, s) by {
                    if side_seen(keys@, j as int, 4, s) {
                        let (jj, ii) = choose|jj: int, ii: int|
                            0 <= jj < keys@.len() && 0 <= ii < 4 && (jj < j || (jj == j && ii < 4)) && #[trigger] chunk_side(keys@[jj], ii) == s;
                        assert(chunk_side(keys@[jj], ii) == s);
                    }
                    if side_seen(keys@, j + 1, 0, s) {
                        let (jj, ii) = choose|jj: int, ii: int|
                            0 <= jj < keys@.len() && 0 <= ii < 4 && (jj < j + 1 || (jj == j + 1 && ii < 0)) && #[trigger] chunk_side(keys@[jj], ii) == s;
                        assert(chunk_side(keys@[jj], ii) == s);
                    }
                }
            }
            j = j + 1;
        }
        proof {
            assert forall|s: Segment| r@.contains(s) <==> exists|j: int, i: int|
                0 <= j < keys@.len() && 0 <= i < 4 && #[trigger] chunk_side(keys@[j], i) == s by {
                if side_seen(keys@, keys@.len() as int, 0, s) {
                    let (jj, ii) = choose|jj: int, ii: int|
                        0 <= jj < keys@.len() && 0 <= ii < 4 && (jj < keys@.len() || (jj == keys@.len() && ii < 0)) && #[trigger] chunk_side(keys@[jj], ii) == s;
                    assert(chunk_side(keys@[jj], ii) == s);
                }
                if exists|j: int, i: int| 0 <= j < keys@.len() && 0 <= i < 4 && #[trigger] chunk_side(keys@[j], i) == s {
                    let (jj, ii) = choose|j: int, i: int| 0 <= j < keys@.len() && 0 <= i < 4 && #[trigger] chunk_side(keys@[j], i) == s;
                    assert(chunk_side(keys@[jj], ii) == s);
                    assert(side_seen(keys@, keys@.len() as int, 0, s));
                }
            }
        }
        r
    }

    /// Whether `s` is one of the segments of `v`.
    fn contains_segment(v: &Vec<Segment>, s: Segment) -> (r: bool)
        ensures
            r == v@.contains(s),
    {
        let mut i: usize = 0;
        while i < v.len()
            invariant
                i <= v@.len(),
                forall|t: int| 0 <= t < i ==> v@[t] != s,
            decreases v@.len() - i,
        {
            let e = v[i];
            if e.0.0 == s.0.0 && e.0.1 == s.0.1 && e.1.0 == s.1.0 && e.1.1 == s.1.1 {
                proof {
                    assert(v@[i as int] == s);
                }
                return true;
            }
            i = i + 1;
        }
        false
    }

    /// Check if two adjacent cells should be connected with a contour line:
    /// when a contour cell exists at `(adj_x, adj_y)` and it lies directly
    /// right of or above `cell`.
    pub fn should_connect_vertices(cell: &ContourCell, adj_x: usize, adj_y: usize, all_cells: &[ContourCell]) -> (r: bool)
        requires
            cell.x < usize::MAX,
            cell.y < usize::MAX,
        ensures
            r == ((exists|i: int| 0 <= i < all_cells@.len() && #[trigger] all_cells@[i].x == adj_x && all_cells@[i].y == adj_y)
                && ((adj_x == cell.x + 1 && adj_y == cell.y) || (adj_x == cell.x && adj_y == cell.y + 1))),
    {
        let mut found = false;
        let mut i: usize = 0;
        while i < all_cells.len() && !found
            invariant
                i <= all_cells@.len(),
                found == (exists|j: int| 0 <= j < i && #[trigger] all_cells@[j].x == adj_x && all_cells@[j].y == adj_y),
            decreases all_cells@.len() - i,
        {
            if all_cells[i].x == adj_x && all_cells[i].y == adj_y {
                found = true;
            }
            i = i + 1;
        }
        if found {
            if adj_x == cell.x + 1 && adj_y == cell.y {
                true
            } else if adj_x == cell.x && adj_y == cell.y + 1 {
                true
            } else {
                false
            }
        } else {
            false
        }
    }
}

} // verus!
