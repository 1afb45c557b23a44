use bevy::math::Vec2;
use planet_voxels::foliage::{parse_stage_filename, Foliage, GrowthAction};
use planet_voxels::planet::debug::{DebugKey, DebugPlugin, DebugState};
use planet_voxels::planet::meshing::dual_contouring::ContourCell;
use planet_voxels::tiles::data::GenericTileData;
use planet_voxels::tiles::variants::debug::DebugTile;
use planet_voxels::tiles::variants::loudspeaker::{AnimationIndices, Loudspeaker};

fn cell(x: usize, y: usize) -> ContourCell {
    ContourCell {
        x,
        y,
        corner_values: [true, false, false, false],
        interior_vertex: Vec2::new(0.5, 0.5),
        normal: Vec2::new(0.0, 1.0),
    }
}

#[test]
fn foliage_grows_up_to_its_last_stage() {
    let mut tree = Foliage::new("tree", 0, 3);
    assert_eq!(tree.name(), "tree");
    assert_eq!(tree.growth_chance_percent(), 2);
    assert!(tree.grow());
    assert!(tree.grow());
    assert!(tree.grow());
    assert_eq!(tree.stage(), 3);
    assert!(!tree.grow());
    assert_eq!(tree.stage(), 3);
    assert_eq!(tree.max_stage(), 3);
}

#[test]
fn static_foliage_never_grows() {
    let mut rock = Foliage::new_static("rock");
    assert_eq!(rock.growth_chance_percent(), 0);
    assert!(!rock.grow());
    assert_eq!(rock.stage(), 0);
    assert_eq!(rock.max_stage(), 0);
}

#[test]
fn trees_start_at_stage_zero_of_three() {
    let mut tree = Foliage::tree();
    assert_eq!(tree.name(), "tree");
    assert_eq!((tree.stage(), tree.max_stage()), (0, 3));
    assert_eq!(tree.growth_chance_percent(), 2);
    assert!(tree.grow());
    assert_eq!(tree.stage(), 1);
    let mut bush = Foliage::new_static("bush");
    assert_eq!((bush.stage(), bush.max_stage()), (0, 0));
    assert!(!bush.grow());
    assert_eq!(bush.stage(), 0);
}

#[test]
fn foliage_names_are_checked() {
    assert!(Foliage::is_valid_name("tree"));
    assert!(Foliage::is_valid_name("oak_tree"));
    assert!(Foliage::is_valid_name("big_tree2"));
    assert!(!Foliage::is_valid_name(""));
    assert!(!Foliage::is_valid_name("Tree"));
    assert!(!Foliage::is_valid_name("tr ee"));
    assert!(!Foliage::is_valid_name("tree-1"));
    assert!(Foliage::try_new("Tree", 0, 1).is_none());
    let bush = Foliage::try_new("bush", 1, 2).unwrap();
    assert_eq!((bush.stage(), bush.max_stage()), (1, 2));
    let oak = Foliage::new("oak_tree", 0, 3);
    assert_eq!((oak.stage(), oak.max_stage()), (0, 3));
}

#[test]
fn growth_ticks() {
    let mut tree = Foliage::new("tree", 0, 2);
    assert_eq!(tree.growth_tick(false), GrowthAction::Skipped);
    assert_eq!(tree.stage(), 0);
    assert_eq!(tree.growth_tick(true), GrowthAction::Grew);
    assert_eq!(tree.stage(), 1);
    // the tick that reaches the last stage reports the foliage fully grown
    assert_eq!(tree.growth_tick(true), GrowthAction::GrewFully);
    assert_eq!(tree.stage(), 2);
    assert_eq!(tree.growth_tick(true), GrowthAction::FullyGrown);
    assert_eq!(tree.stage(), 2);
    let mut rock = Foliage::new_static("rock");
    assert_eq!(rock.growth_tick(true), GrowthAction::FullyGrown);
}

#[test]
fn chunk_borders_are_drawn_once() {
    let segments = DebugPlugin::chunk_border_segments(&vec![(0, 0), (1, 0)]);
    // two squares side by side share one side: 4 + 4 - 1 segments
    assert_eq!(segments.len(), 7);
    assert_eq!(segments[0], ((0, 0), (0, 96)));
    assert_eq!(segments[1], ((96, 0), (96, 96)));
    assert_eq!(segments.iter().filter(|s| **s == ((96, 0), (96, 96))).count(), 1);
    assert!(segments.contains(&((192, 0), (192, 96))));
    let negative = DebugPlugin::chunk_border_segments(&vec![(-1, -1), (-1, -1)]);
    assert_eq!(
        negative,
        vec![((-96, -96), (-96, 0)), ((0, -96), (0, 0)), ((-96, -96), (0, -96)), ((-96, 0), (0, 0))]
    );
    assert!(DebugPlugin::chunk_border_segments(&vec![]).is_empty());
}

#[test]
fn stage_file_names() {
    assert_eq!(parse_stage_filename(b"00.png"), Some(0));
    assert_eq!(parse_stage_filename(b"02.png"), Some(2));
    assert_eq!(parse_stage_filename(b"13.png"), Some(13));
    assert_eq!(parse_stage_filename(b"+7.png"), Some(7));
    assert_eq!(parse_stage_filename(b"4294967295.png"), Some(u32::MAX));
    assert_eq!(parse_stage_filename(b"4294967296.png"), None);
    assert_eq!(parse_stage_filename(b"abc.png"), None);
    assert_eq!(parse_stage_filename(b"1.jpg"), None);
    assert_eq!(parse_stage_filename(b".png"), None);
    assert_eq!(parse_stage_filename(b"+.png"), None);
    assert_eq!(parse_stage_filename(b"-1.png"), None);
    assert_eq!(parse_stage_filename(b"png"), None);
}

#[test]
fn debug_state_defaults_to_voxels_only() {
    let state = DebugState::default();
    assert!(state.show_voxels);
    assert!(!state.show_contour_cells);
    assert!(!state.show_normals);
    assert!(!state.show_interior_vertices);
    assert!(!state.show_contour_lines);
    assert!(!state.show_chunk_borders);
    assert!(!state.show_border_intersections);
    assert!(!state.shows_contours());
}

#[test]
fn debug_keys_toggle_and_toggle_back() {
    let mut state = DebugState::default();
    assert!(!state.handle_key(DebugKey::F1));
    assert!(state.show_contour_cells);
    assert!(state.shows_contours());
    assert!(!state.handle_key(DebugKey::F1));
    assert!(!state.show_contour_cells);
    assert!(!state.handle_key(DebugKey::F6));
    assert!(state.show_chunk_borders);
    assert!(!state.shows_contours());
}

#[test]
fn switching_voxels_back_on_asks_for_remeshing() {
    let mut state = DebugState::default();
    assert!(!state.handle_key(DebugKey::F5));
    assert!(!state.show_voxels);
    assert!(state.handle_key(DebugKey::F5));
    assert!(state.show_voxels);
}

#[test]
fn contour_lines_connect_right_and_up_only() {
    let cells = vec![cell(1, 1), cell(2, 1), cell(1, 2), cell(0, 1)];
    assert!(DebugPlugin::should_connect_vertices(&cells[0], 2, 1, &cells));
    assert!(DebugPlugin::should_connect_vertices(&cells[0], 1, 2, &cells));
    assert!(!DebugPlugin::should_connect_vertices(&cells[0], 0, 1, &cells));
    assert!(!DebugPlugin::should_connect_vertices(&cells[0], 1, 0, &cells));
    assert!(!DebugPlugin::should_connect_vertices(&cells[1], 3, 1, &cells));
}

#[test]
fn tiles_keep_their_data() {
    let data = GenericTileData::new(4, true);
    assert_eq!(data.position_index, 4);
    assert!(data.is_preview);
    let default = GenericTileData::default();
    assert_eq!(default.position_index, 0);
    assert!(!default.is_preview);
    let tile = DebugTile::new(GenericTileData::new(9, false));
    assert_eq!(tile.data().position_index, 9);
    let speaker = Loudspeaker::new(GenericTileData::new(2, true));
    assert!(speaker.data().is_preview);
}

#[test]
fn loudspeaker_animation_loops() {
    let frames = Loudspeaker::animation_indices();
    assert_eq!(frames, AnimationIndices { first: 0, last: 14 });
    let mut index = frames.first;
    for step in 1..=14 {
        index = frames.next_index(index);
        assert_eq!(index, step);
    }
    index = frames.next_index(index);
    assert_eq!(index, 0);
}
