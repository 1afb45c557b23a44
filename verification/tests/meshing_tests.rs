use bevy::math::Vec2;
use planet_voxels::planet::meshing::dual_contouring::{
    ChunkBorderVertex, ChunkEdgeType, DualContouring, SharedVertexRegistry, SnappedCoord,
};
use planet_voxels::planet::meshing::greedy_mesh::{GreedyMeshHandler, GreedyQuad};
use planet_voxels::planet::meshing::render_voxels::{VoxelRenderer, VOXEL_SIZE};
use planet_voxels::planet::world::chunk::Chunk;
use planet_voxels::planet::world::chunk_world::World;
use planet_voxels::planet::world::voxel::VoxelType;

fn world_with_rock_at_origin() -> World {
    let mut world = World::new();
    world.load_chunks_in_box(
        &vec![(0, 0)],
        |_x, _y| {
            let mut voxels = vec![VoxelType::Air; 256];
            voxels[0] = VoxelType::Rock;
            voxels
        },
        |w: &World, x: i32, y: i32| vec![(Vec2::ZERO, Vec2::Y); DualContouring::find_sign_change_cells(w, x, y).len()],
        |_n: &[(Vec2, Vec2)], _x: i32, _y: i32, _s: u64| Vec::new(),
    );
    world
}

#[test]
fn registry_hands_out_ids_in_order() {
    let mut registry = SharedVertexRegistry::new();
    assert_eq!(registry.get_or_create_vertex(SnappedCoord { x: 6000, y: 0 }), 0);
    assert_eq!(registry.get_or_create_vertex(SnappedCoord { x: 0, y: 6000 }), 1);
    // a coordinate seen before keeps its id
    assert_eq!(registry.get_or_create_vertex(SnappedCoord { x: 6000, y: 0 }), 0);
    assert_eq!(registry.get_or_create_vertex(SnappedCoord { x: -1, y: -1 }), 2);
    let mut all = registry.get_all_vertices();
    all.sort_by_key(|(_, v)| v.vertex_id);
    assert_eq!(
        all,
        vec![
            (SnappedCoord { x: 6000, y: 0 }, ChunkBorderVertex { vertex_id: 0 }),
            (SnappedCoord { x: 0, y: 6000 }, ChunkBorderVertex { vertex_id: 1 }),
            (SnappedCoord { x: -1, y: -1 }, ChunkBorderVertex { vertex_id: 2 }),
        ]
    );
    registry.clear();
    assert!(registry.get_all_vertices().is_empty());
    assert_eq!(registry.get_or_create_vertex(SnappedCoord { x: 0, y: 6000 }), 0);
    let fresh = SharedVertexRegistry::default();
    assert!(fresh.get_all_vertices().is_empty());
}

#[test]
fn neighbor_coordinates() {
    assert_eq!(DualContouring::calculate_neighbor_coords(0, -1), (-1, 15));
    assert_eq!(DualContouring::calculate_neighbor_coords(0, 16), (1, 0));
    assert_eq!(DualContouring::calculate_neighbor_coords(3, 5), (3, 5));
    assert_eq!(DualContouring::calculate_neighbor_coords(-2, -16), (-3, 0));
}

#[test]
fn voxel_lookup_across_chunks() {
    let world = world_with_rock_at_origin();
    assert_eq!(DualContouring::try_get_voxel(&world, 0, 0, 0, 0), Some(true));
    assert_eq!(DualContouring::try_get_voxel(&world, 0, 0, 1, 0), Some(false));
    // the same voxel seen from the chunk to the right
    assert_eq!(DualContouring::try_get_voxel(&world, 1, 0, -16, 0), Some(true));
    assert_eq!(DualContouring::try_get_voxel(&world, 0, 0, 16, 0), None);
    assert_eq!(DualContouring::try_get_voxel(&world, 5, 5, 0, 0), None);
}

#[test]
fn cell_sign_change_needs_known_differing_corners() {
    let prev = [Some(true), Some(false), None];
    let curr = [Some(true), Some(true), Some(true)];
    assert_eq!(DualContouring::cell_sign_change(&prev, &curr, 0), Some([true, false, true, true]));
    assert_eq!(DualContouring::cell_sign_change(&prev, &curr, 1), None);
    let same = [Some(false), Some(false)];
    assert_eq!(DualContouring::cell_sign_change(&same, &same, 0), None);
}

#[test]
fn sign_change_cells_of_a_single_rock() {
    let world = world_with_rock_at_origin();
    let cells = DualContouring::find_sign_change_cells(&world, 0, 0);
    assert_eq!(cells, vec![(0, 0, [true, false, false, false])]);
    let none = DualContouring::find_sign_change_cells(&world, 4, 4);
    assert!(none.is_empty());
}

#[test]
fn crossing_edges_of_cells() {
    assert_eq!(DualContouring::crossing_edges(&[true, false, false, false]), vec![0, 3]);
    assert_eq!(DualContouring::crossing_edges(&[true, true, false, false]), vec![1, 3]);
    assert_eq!(DualContouring::crossing_edges(&[true, false, false, true]), vec![0, 1, 2, 3]);
    assert!(DualContouring::crossing_edges(&[true, true, true, true]).is_empty());
}

#[test]
fn border_types_of_cell_edges() {
    assert_eq!(DualContouring::get_border_type(0, 0, 0), Some(ChunkEdgeType::Bottom));
    assert_eq!(DualContouring::get_border_type(0, 0, 3), Some(ChunkEdgeType::Left));
    assert_eq!(DualContouring::get_border_type(15, 3, 1), Some(ChunkEdgeType::Right));
    assert_eq!(DualContouring::get_border_type(3, 15, 2), Some(ChunkEdgeType::Top));
    assert_eq!(DualContouring::get_border_type(3, 3, 0), None);
    assert_eq!(DualContouring::get_border_type(0, 0, 7), None);
}

#[test]
fn solid_chunk_corners_of_a_single_rock() {
    let world = world_with_rock_at_origin();
    assert_eq!(DualContouring::solid_chunk_corners(&world, 0, 0), vec![(0, 0)]);
    // seen from the chunk below-left, the rock is its top-right corner
    assert_eq!(DualContouring::solid_chunk_corners(&world, -1, -1), vec![(16, 16)]);
    assert!(DualContouring::solid_chunk_corners(&world, 3, 3).is_empty());
}

#[test]
fn greedy_merges_a_block_into_one_quad() {
    let quads = vec![(0, 0), (1, 0), (0, 1), (1, 1)];
    let result = GreedyMeshHandler::greedy_mesh_quads(&quads, 0, 0, 4, 4);
    assert_eq!(result, vec![GreedyQuad { x: 0, y: 0, width: 2, height: 2 }]);
}

#[test]
fn greedy_l_shape_and_bounds() {
    // an L: a row of three, and one cell above its left end
    let quads = vec![(0, 0), (1, 0), (2, 0), (0, 1), (9, 9)];
    let result = GreedyMeshHandler::greedy_mesh_quads(&quads, 0, 0, 4, 4);
    assert_eq!(
        result,
        vec![
            GreedyQuad { x: 0, y: 0, width: 3, height: 1 },
            GreedyQuad { x: 0, y: 1, width: 1, height: 1 },
        ]
    );
    assert!(GreedyMeshHandler::greedy_mesh_quads(&[], 0, 0, 4, 4).is_empty());
    let shifted = GreedyMeshHandler::greedy_mesh_quads(&[(-3, 5), (-3, 6)], -4, 4, 0, 8);
    assert_eq!(shifted, vec![GreedyQuad { x: -3, y: 5, width: 1, height: 2 }]);
}

#[test]
fn greedy_quad_mesh_in_world_units() {
    let mut vertices = vec![(100, 100)];
    let mut indices = vec![];
    GreedyMeshHandler::add_quad_to_mesh(&mut vertices, &mut indices, GreedyQuad { x: 1, y: 2, width: 3, height: 1 });
    assert_eq!(vertices, vec![(100, 100), (6, 12), (24, 12), (24, 18), (6, 18)]);
    assert_eq!(indices, vec![1, 2, 3, 1, 3, 4]);
}

#[test]
fn voxel_mesh_of_one_material() {
    let mut voxels = vec![VoxelType::Air; 256];
    voxels[17] = VoxelType::Rock; // local (1, 1)
    let chunk = Chunk::from_voxels(voxels);
    let (vertices, indices) = VoxelRenderer::generate_voxel_mesh(&chunk, 1, 0, VoxelType::Rock);
    // world voxel (17, 1), six units per voxel, centred
    assert_eq!(vertices, vec![(99, 3), (105, 3), (105, 9), (99, 9)]);
    assert_eq!(indices, vec![0, 1, 2, 0, 2, 3]);
    assert_eq!(VOXEL_SIZE, 6);
    assert!(VoxelRenderer::render_voxels(&chunk, 1, 0, VoxelType::Dirt).is_none());
    assert!(VoxelRenderer::render_voxels(&chunk, 1, 0, VoxelType::Rock).is_some());
}

#[test]
fn air_gets_no_voxel_mesh() {
    let chunk = Chunk::from_voxels(vec![VoxelType::Air; 256]);
    let (vertices, indices) = VoxelRenderer::generate_voxel_mesh(&chunk, 0, 0, VoxelType::Air);
    assert!(vertices.is_empty());
    assert!(indices.is_empty());
    assert!(VoxelRenderer::render_voxels(&chunk, 0, 0, VoxelType::Air).is_none());
}

fn assert_triangle_list(vertex_count: usize, indices: &[u32]) {
    assert_eq!(indices.len() % 3, 0);
    for &i in indices {
        assert!((i as usize) < vertex_count);
    }
}

#[test]
fn greedy_rectangles_cover_marked_cells_once() {
    let quads = vec![(0, 0), (1, 0), (2, 0), (0, 1), (2, 1), (0, 2), (1, 2), (2, 2), (7, 7)];
    let result = GreedyMeshHandler::greedy_mesh_quads(&quads, 0, 0, 3, 3);
    let mut covered = vec![vec![0; 3]; 3];
    for q in &result {
        for y in q.y..q.y + q.height {
            for x in q.x..q.x + q.width {
                covered[y as usize][x as usize] += 1;
            }
        }
    }
    for y in 0..3 {
        for x in 0..3 {
            let marked = quads.contains(&(x, y));
            assert_eq!(covered[y as usize][x as usize], if marked { 1 } else { 0 });
        }
    }
    // the same cells always give the same rectangles
    assert_eq!(result, GreedyMeshHandler::greedy_mesh_quads(&quads, 0, 0, 3, 3));
}

#[test]
fn generated_meshes_are_valid_triangle_lists() {
    let mut voxels = vec![VoxelType::Air; 256];
    for (i, v) in voxels.iter_mut().enumerate() {
        if i % 3 == 0 {
            *v = VoxelType::Dirt;
        }
    }
    let chunk = Chunk::from_voxels(voxels);
    let (vertices, indices) = VoxelRenderer::generate_voxel_mesh(&chunk, -2, 5, VoxelType::Dirt);
    assert_eq!(vertices.len(), 4 * 86);
    assert_eq!(indices.len(), 6 * 86);
    assert_triangle_list(vertices.len(), &indices);

    let mut mesh_vertices = Vec::new();
    let mut mesh_indices = Vec::new();
    for q in GreedyMeshHandler::greedy_mesh_quads(&[(0, 0), (1, 1), (2, 0)], 0, 0, 3, 3) {
        GreedyMeshHandler::add_quad_to_mesh(&mut mesh_vertices, &mut mesh_indices, q);
    }
    assert_eq!(mesh_vertices.len(), 12);
    assert_triangle_list(mesh_vertices.len(), &mesh_indices);
}

#[test]
fn loaded_chunk_bounds_of_the_world() {
    let mut world = World::new();
    assert_eq!(world.loaded_chunk_bounds(), None);
    world.load_chunks_in_box(&vec![(2, -1), (-3, 4), (0, 0)], |_x, _y| vec![VoxelType::Air; 256], |_w: &World, _x: i32, _y: i32| Vec::new(), |_n: &[(Vec2, Vec2)], _x: i32, _y: i32, _s: u64| Vec::new());
    assert_eq!(world.loaded_chunk_bounds(), Some((-3, 2, -1, 4)));
}
