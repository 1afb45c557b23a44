pub mod dual_contouring;
pub mod greedy_mesh;
pub mod mesh_renderer;
pub mod render_voxels;

use vstd::prelude::*;

verus! {

/// A triangle list over `n` vertices: whole triangles only, and every index
/// names one of the vertices.
pub open spec fn valid_triangle_list(n: nat, indices: Seq<u32>) -> bool {
    &&& indices.len() % 3 == 0
    &&& forall|i: int| 0 <= i < indices.len() ==> (#[trigger] indices[i]) < n
}

/// A line list over `n` vertices: whole lines only, and every index names one
/// of the vertices.
pub open spec fn valid_line_list(n: nat, indices: Seq<u32>) -> bool {
    &&& indices.len() % 2 == 0
    &&& forall|i: int| 0 <= i < indices.len() ==> (#[trigger] indices[i]) < n
}

} // verus!
