use bevy::ecs::entity::Entity;
use bevy::math::Vec2;
use noise::Seedable;
use planet_voxels::planet::meshing::dual_contouring::{DualContouring, SnappedCoord};
use planet_voxels::planet::meshing::mesh_renderer::MeshRenderer;
use planet_voxels::planet::world::chunk::{Chunk, CHUNK_SIZE};
use planet_voxels::planet::world::chunk_world::World;
use planet_voxels::planet::world::voxel::VoxelType;

fn air_chunk() -> Chunk {
    Chunk::from_voxels(vec![VoxelType::Air; CHUNK_SIZE * CHUNK_SIZE])
}

fn air_voxels() -> Vec<VoxelType> {
    vec![VoxelType::Air; CHUNK_SIZE * CHUNK_SIZE]
}

fn one_normal_per_cell(world: &World, x: i32, y: i32) -> Vec<(Vec2, Vec2)> {
    let cells = DualContouring::find_sign_change_cells(world, x, y);
    vec![(Vec2::new(x as f32, y as f32), Vec2::Y); cells.len()]
}

fn no_foliage(_normals: &[(Vec2, Vec2)], _x: i32, _y: i32, _seed: u64) -> Vec<Entity> {
    Vec::new()
}

fn world_with(keys: &[(i32, i32)]) -> World {
    let mut world = World::new();
    let candidates: Vec<(i32, i32)> = keys.to_vec();
    world.load_chunks_in_box(&candidates, |_x, _y| air_voxels(), one_normal_per_cell, no_foliage);
    world
}

fn sorted_dirty(world: &World) -> Vec<(i32, i32)> {
    let mut dirty = world.get_dirty_chunks();
    dirty.sort();
    dirty
}

fn clean_all(world: &mut World) {
    for (x, y) in world.get_dirty_chunks() {
        world.mark_chunk_clean(x, y);
    }
}

#[test]
fn new_world_is_empty() {
    let world = World::new();
    assert_eq!(world.loaded_chunk_count(), 0);
    assert!(!world.is_chunk_loaded(0, 0));
    assert_eq!(world.get_voxel(5, -7), VoxelType::Air);
    assert!(world.get_dirty_chunks().is_empty());
    assert_eq!(world.noise.seed(), 42);
    assert!(world.get_vertex_registry().get_all_vertices().is_empty());
    assert_eq!(World::chunk_size(), 16);
}

#[test]
fn voxel_reads_back_what_was_written() {
    let mut world = world_with(&[(0, 0), (-1, 0)]);
    world.set_voxel(3, 4, VoxelType::Rock);
    assert_eq!(world.get_voxel(3, 4), VoxelType::Rock);
    assert_eq!(world.get_voxel(4, 4), VoxelType::Air);
    assert_eq!(world.get_voxel(3, 5), VoxelType::Air);
    // world x = -1 lies in chunk -1 at local 15
    world.set_voxel(-1, 5, VoxelType::Dirt);
    assert_eq!(world.get_voxel(-1, 5), VoxelType::Dirt);
    assert_eq!(world.get_voxel(-16, 5), VoxelType::Air);
    assert_eq!(world.get_voxel(3, 4), VoxelType::Rock);
    assert_eq!(world.loaded_chunk_count(), 2);
}

#[test]
fn write_to_unloaded_chunk_is_lost() {
    let mut world = world_with(&[(0, 0)]);
    world.set_voxel(100, 100, VoxelType::Rock);
    assert_eq!(world.get_voxel(100, 100), VoxelType::Air);
    assert!(!world.is_chunk_loaded(6, 6));
    assert_eq!(world.loaded_chunk_count(), 1);
}

#[test]
fn interior_write_dirties_only_its_chunk() {
    let mut world = world_with(&[(0, 0), (1, 0), (0, 1)]);
    clean_all(&mut world);
    assert!(world.get_dirty_chunks().is_empty());
    world.set_voxel(5, 5, VoxelType::Rock);
    assert_eq!(sorted_dirty(&world), vec![(0, 0)]);
}

#[test]
fn unchanged_interior_write_dirties_nothing() {
    let mut world = world_with(&[(0, 0)]);
    clean_all(&mut world);
    world.set_voxel(5, 5, VoxelType::Air);
    assert!(world.get_dirty_chunks().is_empty());
}

#[test]
fn corner_write_dirties_the_chunks_around_it() {
    let mut keys = Vec::new();
    for x in -1..=1 {
        for y in -1..=1 {
            keys.push((x, y));
        }
    }
    let mut world = world_with(&keys);
    clean_all(&mut world);
    world.set_voxel(0, 0, VoxelType::Rock);
    assert_eq!(sorted_dirty(&world), vec![(-1, -1), (-1, 0), (0, -1), (0, 0)]);
    clean_all(&mut world);
    // top-right corner of chunk (0, 0)
    world.set_voxel(15, 15, VoxelType::Rock);
    assert_eq!(sorted_dirty(&world), vec![(0, 0), (0, 1), (1, 0), (1, 1)]);
}

#[test]
fn unchanged_border_write_still_dirties_neighbours() {
    let mut world = world_with(&[(0, 0), (-1, 0)]);
    clean_all(&mut world);
    world.set_voxel(0, 7, VoxelType::Air);
    assert_eq!(sorted_dirty(&world), vec![(-1, 0)]);
}

#[test]
fn loading_skips_loaded_and_repeated_chunks() {
    let mut world = World::new();
    let candidates = vec![(0, 0), (1, 0), (0, 0)];
    let loaded = world.load_chunks_in_box(&candidates, |_x, _y| air_voxels(), one_normal_per_cell, no_foliage);
    assert_eq!(loaded, vec![(0, 0), (1, 0)]);
    assert_eq!(world.loaded_chunk_count(), 2);
    let again = world.load_chunks_in_box(&candidates, |_x, _y| air_voxels(), one_normal_per_cell, no_foliage);
    assert!(again.is_empty());
    assert_eq!(world.loaded_chunk_count(), 2);
}

#[test]
fn loaded_chunks_come_from_the_generator() {
    let mut world = World::new();
    let candidates = vec![(2, 3)];
    world.load_chunks_in_box(
        &candidates,
        |x, y| {
            let mut voxels = vec![VoxelType::Air; 256];
            if x == 2 && y == 3 {
                voxels[0] = VoxelType::Core;
            }
            voxels
        },
        one_normal_per_cell,
        no_foliage,
    );
    assert_eq!(world.get_voxel(32, 48), VoxelType::Core);
    assert_eq!(world.get_voxel(33, 48), VoxelType::Air);
    assert_eq!(sorted_dirty(&world), vec![(2, 3)]);
}

#[test]
fn unloading_dirties_side_neighbours() {
    let mut world = world_with(&[(0, 0), (1, 0), (2, 0), (1, 1), (2, 2)]);
    clean_all(&mut world);
    let removed = world.unload_chunks_outside_box(vec![(1, 0)]);
    assert_eq!(removed, vec![(1, 0)]);
    assert!(!world.is_chunk_loaded(1, 0));
    assert_eq!(world.loaded_chunk_count(), 4);
    assert_eq!(sorted_dirty(&world), vec![(0, 0), (1, 1), (2, 0)]);
}

#[test]
fn new_chunks_and_their_neighbours_get_dirty() {
    let mut world = world_with(&[(0, 0), (1, 0), (5, 5)]);
    clean_all(&mut world);
    world.mark_chunks_dirty_with_neighbors(&vec![(0, 0)]);
    assert_eq!(sorted_dirty(&world), vec![(0, 0), (1, 0)]);
}

#[test]
fn mark_dirty_and_clean() {
    let mut world = world_with(&[(0, 0), (1, 0)]);
    clean_all(&mut world);
    world.mark_chunk_dirty(1, 0);
    world.mark_chunk_dirty(7, 7);
    assert_eq!(sorted_dirty(&world), vec![(1, 0)]);
    world.mark_chunk_clean(1, 0);
    assert!(world.get_dirty_chunks().is_empty());
    world.mark_all_chunks_dirty();
    assert_eq!(sorted_dirty(&world), vec![(0, 0), (1, 0)]);
}

#[test]
fn vertex_registry_of_the_world() {
    let mut world = World::new();
    let a = world.get_vertex_registry_mut().get_or_create_vertex(SnappedCoord { x: 1, y: 2 });
    let b = world.get_vertex_registry_mut().get_or_create_vertex(SnappedCoord { x: 3, y: 4 });
    assert_eq!((a, b), (0, 1));
    assert_eq!(world.get_vertex_registry().get_all_vertices().len(), 2);
    DualContouring::clear_vertex_registry(&mut world);
    assert!(world.get_vertex_registry().get_all_vertices().is_empty());
    let c = world.get_vertex_registry_mut().get_or_create_vertex(SnappedCoord { x: 3, y: 4 });
    assert_eq!(c, 0);
}

#[test]
fn chunk_keeps_normals_and_foliage() {
    let mut chunk = air_chunk();
    assert!(chunk.surface_normals().is_empty());
    chunk.populate_surface_normals(vec![(Vec2::new(1.0, 2.0), Vec2::new(0.0, 1.0))]);
    assert_eq!(chunk.surface_normals().len(), 1);
    assert_eq!(chunk.surface_normals()[0].0, Vec2::new(1.0, 2.0));
    chunk.add_foliage(Entity::from_raw(7));
    chunk.add_foliage(Entity::from_raw(9));
    assert_eq!(chunk.foliage(), &[Entity::from_raw(7), Entity::from_raw(9)]);
    chunk.clear_foliage();
    assert!(chunk.foliage().is_empty());
}

#[test]
fn chunk_voxels_and_flags() {
    let mut chunk = air_chunk();
    assert!(chunk.is_dirty());
    chunk.mark_clean();
    assert!(!chunk.is_dirty());
    chunk.set_voxel(2, 3, VoxelType::Grass);
    assert!(chunk.is_dirty());
    assert_eq!(chunk.get_voxel(2, 3), VoxelType::Grass);
    assert_eq!(chunk.get_voxel(3, 2), VoxelType::Air);
    chunk.mark_clean();
    chunk.set_voxel(2, 3, VoxelType::Grass);
    assert!(!chunk.is_dirty());
    // outside the grid: ignored, reads as air
    chunk.set_voxel(0, 16, VoxelType::Rock);
    assert_eq!(chunk.get_voxel(0, 16), VoxelType::Air);
    assert!(!chunk.is_dirty());
    chunk.mark_dirty();
    assert!(chunk.is_dirty());
}

#[test]
fn render_mesh_builds_meshes_of_dirty_chunks() {
    let mut world = world_with(&[(0, 0), (1, 0)]);
    clean_all(&mut world);
    world.set_voxel(0, 0, VoxelType::Rock);
    world.set_voxel(1, 0, VoxelType::Dirt);
    let (dirty, meshes) = MeshRenderer::render_mesh(&mut world);
    assert_eq!(dirty, vec![(0, 0)]);
    assert_eq!(meshes.len(), 2);
    assert_eq!(meshes[0].material, VoxelType::Rock);
    assert_eq!((meshes[0].chunk.chunk_x, meshes[0].chunk.chunk_y), (0, 0));
    assert_eq!(meshes[0].vertices, vec![(-3, -3), (3, -3), (3, 3), (-3, 3)]);
    assert_eq!(meshes[0].indices, vec![0, 1, 2, 0, 2, 3]);
    assert_eq!(meshes[1].material, VoxelType::Dirt);
    assert_eq!(meshes[1].vertices, vec![(3, -3), (9, -3), (9, 3), (3, 3)]);
    assert!(world.get_dirty_chunks().is_empty());
    let (dirty_again, meshes_again) = MeshRenderer::render_mesh(&mut world);
    assert!(dirty_again.is_empty());
    assert!(meshes_again.is_empty());
}

#[test]
fn new_chunks_get_one_normal_per_contour_cell() {
    let mut world = World::new();
    // one rock voxel inside the chunk gives four contour cells around it
    let loaded = world.load_chunks_in_box(
        &vec![(0, 0), (1, 0)],
        |x, _y| {
            let mut voxels = vec![VoxelType::Air; 256];
            if x == 0 {
                voxels[5 * 16 + 5] = VoxelType::Rock;
            }
            voxels
        },
        one_normal_per_cell,
        no_foliage,
    );
    assert_eq!(loaded, vec![(0, 0), (1, 0)]);
    let chunk = world.loaded_chunks.get(&(0, 0)).unwrap();
    assert_eq!(chunk.surface_normals().len(), 4);
    assert_eq!(chunk.surface_normals()[0], (Vec2::new(0.0, 0.0), Vec2::Y));
    assert!(chunk.foliage().is_empty());
    assert!(chunk.is_dirty());
    let empty = world.loaded_chunks.get(&(1, 0)).unwrap();
    assert!(empty.surface_normals().is_empty());
    assert!(empty.foliage().is_empty());
}

#[test]
fn new_chunks_grow_foliage_on_their_normals() {
    let mut world = World::new();
    let seed = world.seed;
    let loaded = world.load_chunks_in_box(
        &vec![(0, 0), (3, 0)],
        |x, _y| {
            let mut voxels = vec![VoxelType::Air; 256];
            if x == 0 {
                voxels[5 * 16 + 5] = VoxelType::Rock;
            }
            voxels
        },
        one_normal_per_cell,
        |normals: &[(Vec2, Vec2)], x: i32, _y: i32, s: u64| {
            assert_eq!(s, seed);
            // one entity per normal, numbered by the chunk
            (0..normals.len() as u32).map(|n| Entity::from_raw(100 * x as u32 + n)).collect()
        },
    );
    assert_eq!(loaded, vec![(0, 0), (3, 0)]);
    let chunk = world.loaded_chunks.get(&(0, 0)).unwrap();
    assert_eq!(chunk.foliage(), &[Entity::from_raw(0), Entity::from_raw(1), Entity::from_raw(2), Entity::from_raw(3)]);
    let bare = world.loaded_chunks.get(&(3, 0)).unwrap();
    assert!(bare.foliage().is_empty());
}

#[test]
fn set_voxel_read_back_on_every_side() {
    let mut world = world_with(&[(-1, -1)]);
    for (x, y) in [(-16, -16), (-1, -1), (-16, -1), (-1, -16)] {
        world.set_voxel(x, y, VoxelType::Grass);
        assert_eq!(world.get_voxel(x, y), VoxelType::Grass);
    }
    assert_eq!(world.get_voxel(-2, -2), VoxelType::Air);
}
