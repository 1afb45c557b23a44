use noise::Seedable;
use planet_voxels::planet::mesh::chunk_world::ChunkWorld;
use planet_voxels::planet::mesh::dual_contourer::{CellConfiguration, CellMesh, DualContourer};
use planet_voxels::planet::mesh::{DualContourer as WorldContourer, MeshRenderer};
use planet_voxels::planet::startup::{Chunk, VoxelType, VoxelWorld, CHUNK_SIZE};

fn grid(fill: VoxelType) -> Vec<VoxelType> {
    vec![fill; CHUNK_SIZE * CHUNK_SIZE]
}

#[test]
fn classic_world_reads_back_writes() {
    let mut world = VoxelWorld::new();
    assert!(!world.is_chunk_loaded(0, 0));
    world.loaded_chunks.insert((0, 0), Chunk::from_voxels(grid(VoxelType::Air)));
    world.loaded_chunks.insert((-1, 0), Chunk::from_voxels(grid(VoxelType::Air)));
    world.set_voxel(3, 4, VoxelType::Rock);
    assert_eq!(world.get_voxel(3, 4), VoxelType::Rock);
    assert_eq!(world.get_voxel(4, 3), VoxelType::Air);
    world.set_voxel(-2, 1, VoxelType::Dirt);
    assert_eq!(world.get_voxel(-2, 1), VoxelType::Dirt);
    world.set_voxel(50, 50, VoxelType::Dirt);
    assert_eq!(world.get_voxel(50, 50), VoxelType::Air);
    assert_eq!(VoxelWorld::chunk_size(), 16);
}

#[test]
fn classic_world_dirty_flags() {
    let mut world = VoxelWorld::new();
    world.loaded_chunks.insert((0, 0), Chunk::from_voxels(grid(VoxelType::Air)));
    world.loaded_chunks.insert((1, 0), Chunk::from_voxels(grid(VoxelType::Air)));
    let mut dirty = world.get_dirty_chunks();
    dirty.sort();
    assert_eq!(dirty, vec![(0, 0), (1, 0)]);
    world.mark_chunk_clean(0, 0);
    world.mark_chunk_clean(1, 0);
    assert!(world.get_dirty_chunks().is_empty());
    // a write on the right edge of chunk (0, 0) dirties the chunk to its right
    world.set_voxel(15, 3, VoxelType::Rock);
    let mut dirty = world.get_dirty_chunks();
    dirty.sort();
    assert_eq!(dirty, vec![(0, 0), (1, 0)]);
    world.mark_chunk_clean(0, 0);
    world.mark_chunk_clean(1, 0);
    // on the left edge of chunk (1, 0) the chunk to its left is marked too
    world.set_voxel(16, 3, VoxelType::Rock);
    let mut dirty = world.get_dirty_chunks();
    dirty.sort();
    assert_eq!(dirty, vec![(0, 0), (1, 0)]);
    world.mark_all_chunks_dirty();
    assert_eq!(world.get_dirty_chunks().len(), 2);
}

#[test]
fn classic_edges_at_non_positive_chunks_dirty_their_neighbours() {
    let mut world = VoxelWorld::new();
    world.loaded_chunks.insert((0, 0), Chunk::from_voxels(grid(VoxelType::Air)));
    world.loaded_chunks.insert((-1, 0), Chunk::from_voxels(grid(VoxelType::Air)));
    world.loaded_chunks.insert((0, -1), Chunk::from_voxels(grid(VoxelType::Air)));
    world.mark_chunk_clean(0, 0);
    world.mark_chunk_clean(-1, 0);
    world.mark_chunk_clean(0, -1);
    world.set_voxel(0, 5, VoxelType::Rock);
    let mut dirty = world.get_dirty_chunks();
    dirty.sort();
    assert_eq!(dirty, vec![(-1, 0), (0, 0)]);
    world.mark_chunk_clean(0, 0);
    world.mark_chunk_clean(-1, 0);
    world.set_voxel(5, 0, VoxelType::Rock);
    let mut dirty = world.get_dirty_chunks();
    dirty.sort();
    assert_eq!(dirty, vec![(0, -1), (0, 0)]);
}

#[test]
fn chunk_world_left_edge_dirties_left_neighbour() {
    let mut world = ChunkWorld::new();
    world.loaded_chunks.insert((0, 0), Chunk::from_voxels(grid(VoxelType::Air)));
    world.loaded_chunks.insert((-1, 0), Chunk::from_voxels(grid(VoxelType::Air)));
    world.mark_chunk_clean(0, 0);
    world.mark_chunk_clean(-1, 0);
    world.set_voxel(0, 5, VoxelType::Dirt);
    assert_eq!(world.get_voxel(0, 5), VoxelType::Dirt);
    assert!(world.loaded_chunks.get(&(-1, 0)).unwrap().is_dirty());
}

#[test]
fn chunk_world_is_a_voxel_world_with_noise() {
    let mut world = ChunkWorld::new();
    assert_eq!(world.noise.seed(), 42);
    world.loaded_chunks.insert((0, 0), Chunk::from_voxels(grid(VoxelType::Air)));
    assert!(world.is_chunk_loaded(0, 0));
    world.set_voxel(1, 1, VoxelType::Dirt);
    assert_eq!(world.get_voxel(1, 1), VoxelType::Dirt);
    world.mark_chunk_clean(0, 0);
    assert!(world.get_dirty_chunks().is_empty());
    world.mark_all_chunks_dirty();
    assert_eq!(world.get_dirty_chunks(), vec![(0, 0)]);
    assert_eq!(ChunkWorld::chunk_size(), 16);
}

#[test]
fn classic_chunk_voxels() {
    let mut chunk = Chunk::from_voxels(grid(VoxelType::Air));
    assert!(chunk.is_dirty());
    chunk.mark_clean();
    chunk.set_voxel(4, 5, VoxelType::Rock);
    assert!(chunk.is_dirty());
    assert_eq!(chunk.get_voxel(4, 5), VoxelType::Rock);
    assert_eq!(chunk.get_voxel(20, 20), VoxelType::Air);
    chunk.mark_clean();
    assert!(!chunk.is_dirty());
    chunk.mark_dirty();
    assert!(chunk.is_dirty());
}

#[test]
fn full_quad_in_half_voxels() {
    let quad = DualContourer::create_full_quad(1, 2);
    assert_eq!(quad.vertices, vec![(2, 4), (4, 4), (4, 6), (2, 6)]);
    assert_eq!(quad.triangles, vec![(0, 1, 2), (0, 2, 3)]);
    assert!(DualContourer::is_full_quad_mesh(&quad, 1, 2));
    assert!(!DualContourer::is_full_quad_mesh(&quad, 2, 2));
}

#[test]
fn marching_square_cases() {
    let none = DualContourer::generate_cell_mesh(CellConfiguration { corners: [false; 4] }, 0, 0);
    assert!(none.is_none());
    let full = DualContourer::generate_cell_mesh(CellConfiguration { corners: [true; 4] }, 0, 0).unwrap();
    assert_eq!(full.vertices, vec![(0, 0), (2, 0), (2, 2), (0, 2)]);
    // only the bottom-left corner
    let corner = DualContourer::generate_cell_mesh(CellConfiguration { corners: [true, false, false, false] }, 0, 0).unwrap();
    assert_eq!(corner.vertices, vec![(0, 0), (1, 0), (0, 1)]);
    assert_eq!(corner.triangles, vec![(0, 1, 2)]);
    // bottom edge: bottom-left and bottom-right
    let edge = DualContourer::generate_cell_mesh(CellConfiguration { corners: [true, true, false, false] }, 0, 0).unwrap();
    assert_eq!(edge.vertices, vec![(0, 0), (2, 0), (2, 1), (0, 1)]);
    // everything but the bottom-left corner
    let inverse = DualContourer::generate_cell_mesh(CellConfiguration { corners: [false, true, true, true] }, 0, 0).unwrap();
    assert_eq!(inverse.vertices, vec![(1, 0), (2, 0), (2, 2), (0, 2), (0, 1)]);
    assert_eq!(inverse.triangles, vec![(0, 1, 2), (0, 2, 3), (0, 3, 4)]);
    // bottom-left and top-right
    let diagonal = DualContourer::generate_cell_mesh(CellConfiguration { corners: [true, false, true, false] }, 0, 0).unwrap();
    assert_eq!(diagonal.vertices.len(), 6);
    assert_eq!(diagonal.triangles, vec![(0, 1, 2), (3, 4, 5)]);
    assert!(!DualContourer::is_full_quad_mesh(&diagonal, 0, 0));
}

#[test]
fn cell_mesh_builders() {
    let c = DualContourer::create_corner_mesh(0, 0, 2);
    assert_eq!(c.vertices, vec![(2, 2), (2, 1), (1, 2)]);
    let e = DualContourer::create_edge_mesh(0, 0, 3);
    assert_eq!(e.vertices, vec![(0, 0), (1, 0), (1, 2), (0, 2)]);
    let i = DualContourer::create_inverse_corner_mesh(0, 0, 3);
    assert_eq!(i.vertices, vec![(0, 0), (2, 0), (2, 2), (1, 2), (0, 1)]);
    let d = DualContourer::create_diagonal_mesh(0, 0, true);
    assert_eq!(d.vertices, vec![(1, 0), (2, 0), (2, 1), (0, 1), (0, 2), (1, 2)]);
}

#[test]
fn generic_mesh_fallback() {
    let empty = DualContourer::create_generic_mesh(0, 0, [false; 4]);
    assert!(empty.vertices.is_empty() && empty.triangles.is_empty());
    let full: CellMesh = DualContourer::create_generic_mesh(0, 0, [true; 4]);
    assert_eq!(full.vertices.len(), 4);
    let two = DualContourer::create_generic_mesh(0, 0, [true, true, false, false]);
    assert_eq!(two.vertices, vec![(0, 0), (1, 0), (0, 1), (2, 0), (1, 0), (2, 1)]);
    // the second triangle is wound the other way round
    assert_eq!(two.triangles, vec![(0, 1, 2), (3, 5, 4)]);
}

#[test]
fn cell_sampling_needs_loaded_corners() {
    let mut world = ChunkWorld::new();
    world.loaded_chunks.insert((0, 0), Chunk::from_voxels(grid(VoxelType::Rock)));
    assert!(DualContourer::can_sample_cell(&world.loaded_chunks, 3, 3));
    assert!(!DualContourer::can_sample_cell(&world.loaded_chunks, 15, 3));
    let config = DualContourer::get_cell_configuration(&world.loaded_chunks, 15, 3, VoxelType::Rock);
    assert_eq!(config.corners, [true, false, false, true]);
}

#[test]
fn solid_chunk_merges_into_one_quad() {
    let mut world = ChunkWorld::new();
    world.loaded_chunks.insert((0, 0), Chunk::from_voxels(grid(VoxelType::Rock)));
    let (vertices, indices) = DualContourer::generate_chunk_mesh(&world, 0, 0, VoxelType::Rock);
    assert_eq!(vertices, vec![(0, 0), (90, 0), (90, 90), (0, 90)]);
    assert_eq!(indices, vec![0, 1, 2, 0, 2, 3]);
    let (dirt_vertices, dirt_indices) = DualContourer::generate_chunk_mesh(&world, 0, 0, VoxelType::Dirt);
    assert!(dirt_vertices.is_empty() && dirt_indices.is_empty());
    let (far, _) = DualContourer::generate_chunk_mesh(&world, 3, 3, VoxelType::Rock);
    assert!(far.is_empty());
}

#[test]
fn partial_cell_is_placed_in_the_world() {
    let mut world = ChunkWorld::new();
    let mut voxels = grid(VoxelType::Air);
    voxels[0] = VoxelType::Rock;
    world.loaded_chunks.insert((0, 0), Chunk::from_voxels(voxels));
    let (vertices, indices) = DualContourer::generate_chunk_mesh(&world, 0, 0, VoxelType::Rock);
    assert_eq!(vertices, vec![(-400, 300), (-397, 300), (-400, 297)]);
    assert_eq!(indices, vec![0, 1, 2]);
}

#[test]
fn classic_world_mesh_and_render() {
    let mut world = VoxelWorld::new();
    world.loaded_chunks.insert((0, 0), Chunk::from_voxels(grid(VoxelType::Rock)));
    let (vertices, indices) = WorldContourer::generate_chunk_mesh(&world, 0, 0, VoxelType::Rock);
    assert_eq!(vertices, vec![(0, 0), (90, 0), (90, 90), (0, 90)]);
    assert_eq!(indices, vec![0, 1, 2, 0, 2, 3]);
    let (empty, _) = WorldContourer::generate_chunk_mesh(&world, 1, 0, VoxelType::Rock);
    assert!(empty.is_empty());
    let (dirty, meshes) = MeshRenderer::render_mesh(&mut world);
    assert_eq!(dirty, vec![(0, 0)]);
    assert_eq!(meshes.len(), 1);
    assert_eq!(meshes[0].material, VoxelType::Rock);
    assert_eq!(meshes[0].vertices, vertices);
    assert_eq!(meshes[0].indices, indices);
    assert!(world.get_dirty_chunks().is_empty());
}

#[test]
fn wireframe_outlines_each_triangle() {
    let lines = MeshRenderer::generate_wireframe_indices(&[0, 1, 2, 0, 2, 3]);
    assert_eq!(lines, vec![0, 1, 1, 2, 2, 0, 0, 2, 2, 3, 3, 0]);
    // a trailing incomplete triangle is ignored
    let partial = MeshRenderer::generate_wireframe_indices(&[4, 5, 6, 7, 8]);
    assert_eq!(partial, vec![4, 5, 5, 6, 6, 4]);
    assert!(MeshRenderer::generate_wireframe_indices(&[]).is_empty());
}

#[test]
fn mixed_chunk_mesh_is_a_valid_triangle_list() {
    let mut world = ChunkWorld::new();
    let mut voxels = grid(VoxelType::Air);
    for (i, v) in voxels.iter_mut().enumerate() {
        if (i * 7) % 5 < 2 {
            *v = VoxelType::Dirt;
        }
    }
    world.loaded_chunks.insert((0, 0), Chunk::from_voxels(voxels));
    world.loaded_chunks.insert((1, 0), Chunk::from_voxels(grid(VoxelType::Dirt)));
    let (vertices, indices) = DualContourer::generate_chunk_mesh(&world, 0, 0, VoxelType::Dirt);
    assert!(!vertices.is_empty());
    assert_eq!(indices.len() % 3, 0);
    assert!(indices.iter().all(|&i| (i as usize) < vertices.len()));
    let lines = MeshRenderer::generate_wireframe_indices(&indices);
    assert_eq!(lines.len(), 2 * indices.len());
    assert!(lines.iter().all(|&i| (i as usize) < vertices.len()));
    // the same voxels always give the same mesh
    let (again_vertices, again_indices) = DualContourer::generate_chunk_mesh(&world, 0, 0, VoxelType::Dirt);
    assert_eq!((again_vertices, again_indices), (vertices, indices));
}
