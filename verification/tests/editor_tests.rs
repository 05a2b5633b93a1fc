use nether_earth::editor::{
    apply_tool, prepare_playtest, BrushSize, EditorAction, EditorState, EditorTool, MapSize,
    PlacedStructureKind, ToolInput, HISTORY_LIMIT,
};
use nether_earth::grid::{CellType, MapGrid};
use nether_earth::loader::{
    CellTypeDef, FactoryDef, FactoryTypeDef, MapSpawnPoints, MapStructures, TeamDef, WarbaseDef,
};

fn click() -> ToolInput {
    ToolInput { z_pressed: false, ctrl_held: false, shift_held: false, left_clicked: true }
}

fn ctrl_z() -> ToolInput {
    ToolInput { z_pressed: true, ctrl_held: true, shift_held: false, left_clicked: false }
}

fn ctrl_shift_z() -> ToolInput {
    ToolInput { z_pressed: true, ctrl_held: true, shift_held: true, left_clicked: false }
}

fn idle() -> ToolInput {
    ToolInput { z_pressed: false, ctrl_held: false, shift_held: false, left_clicked: false }
}

fn click_at(e: &mut EditorState, g: &mut MapGrid, x: u32, y: u32) -> Vec<(u32, u32)> {
    e.hovered_cell = Some((x, y));
    apply_tool(e, g, click())
}

#[test]
fn default_editor_state() {
    let e = EditorState::default();
    assert_eq!(e.current_tool, EditorTool::TerrainBrush);
    assert_eq!(e.brush_cell_type, CellTypeDef::Rock);
    assert_eq!(e.brush_size, BrushSize::One);
    assert_eq!(e.factory_type, FactoryTypeDef::Chassis);
    assert_eq!(e.place_team, TeamDef::Neutral);
    assert_eq!(e.map_name, "custom");
    assert_eq!(e.file_name, "custom");
    assert_eq!(e.map_size, MapSize::Normal);
    assert_eq!(e.player_spawn, (5, 5));
    assert!(!e.dirty);
    assert!(e.undo_stack.is_empty() && e.redo_stack.is_empty());
}

#[test]
fn brush_and_map_sizes() {
    assert_eq!(BrushSize::One.radius(), 0);
    assert_eq!(BrushSize::Three.radius(), 1);
    assert_eq!(BrushSize::Five.radius(), 2);
    assert_eq!(BrushSize::Three.label(), "3×3");
    assert_eq!(MapSize::Small.value(), 32);
    assert_eq!(MapSize::Normal.value(), 64);
    assert_eq!(MapSize::Large.value(), 96);
    assert_eq!(MapSize::Large.label(), "96×96");
}

#[test]
fn paint_undo_redo_one_cell() {
    let mut e = EditorState::default();
    let mut g = MapGrid::new(64, 64);
    g.set(3, 3, CellType::Sand);
    let touched = click_at(&mut e, &mut g, 3, 3);
    assert_eq!(touched, vec![(3, 3)]);
    assert_eq!(g.get(3, 3), Some(CellType::Rock));
    assert_eq!(
        e.undo_stack,
        vec![EditorAction::CellChanged { x: 3, y: 3, from: CellTypeDef::Sand, to: CellTypeDef::Rock }]
    );
    assert!(e.dirty);

    let touched = apply_tool(&mut e, &mut g, ctrl_z());
    assert_eq!(touched, vec![(3, 3)]);
    assert_eq!(g.get(3, 3), Some(CellType::Sand));
    assert!(e.undo_stack.is_empty());
    assert_eq!(e.redo_stack.len(), 1);

    let touched = apply_tool(&mut e, &mut g, ctrl_shift_z());
    assert_eq!(touched, vec![(3, 3)]);
    assert_eq!(g.get(3, 3), Some(CellType::Rock));
    assert_eq!(e.undo_stack.len(), 1);
    assert!(e.redo_stack.is_empty());
}

#[test]
fn painting_the_same_terrain_records_nothing() {
    let mut e = EditorState::default();
    let mut g = MapGrid::new(64, 64);
    g.set(2, 2, CellType::Rock);
    let touched = click_at(&mut e, &mut g, 2, 2);
    assert!(touched.is_empty());
    assert!(e.undo_stack.is_empty());
    assert!(!e.dirty);
}

#[test]
fn undoing_paint_on_open_ground_leaves_a_blocked_cell() {
    // Open ground is written to the history as "blocked".
    let mut e = EditorState::default();
    let mut g = MapGrid::new(64, 64);
    click_at(&mut e, &mut g, 1, 1);
    assert_eq!(e.undo_stack[0], EditorAction::CellChanged { x: 1, y: 1, from: CellTypeDef::Blocked, to: CellTypeDef::Rock });
    apply_tool(&mut e, &mut g, ctrl_z());
    assert_eq!(g.get(1, 1), Some(CellType::Blocked));
}

#[test]
fn three_by_three_brush_in_a_corner() {
    let mut e = EditorState::default();
    e.brush_size = BrushSize::Three;
    e.brush_cell_type = CellTypeDef::Pit;
    let mut g = MapGrid::new(64, 64);
    g.set(1, 0, CellType::Pit);
    let touched = click_at(&mut e, &mut g, 0, 0);
    assert_eq!(touched, vec![(0, 0), (0, 1), (1, 1)]);
    assert_eq!(e.undo_stack.len(), 3);
    for (x, y) in [(0, 0), (1, 0), (0, 1), (1, 1)] {
        assert_eq!(g.get(x, y), Some(CellType::Pit));
    }
    assert_eq!(g.get(2, 0), Some(CellType::Open));
    assert_eq!(g.get(2, 2), Some(CellType::Open));
}

#[test]
fn five_by_five_brush_stays_on_the_map() {
    let mut e = EditorState::default();
    e.brush_size = BrushSize::Five;
    e.brush_cell_type = CellTypeDef::Sand;
    e.map_size = MapSize::Small;
    let mut g = MapGrid::new(32, 32);
    let touched = click_at(&mut e, &mut g, 31, 10);
    // Columns 29..=31, rows 8..=12.
    assert_eq!(touched.len(), 15);
    assert_eq!(touched[0], (29, 8));
    assert_eq!(touched[14], (31, 12));
    assert_eq!(g.get(28, 10), Some(CellType::Open));
    assert_eq!(g.get(30, 12), Some(CellType::Sand));
}

#[test]
fn history_keeps_the_newest_fifty_entries() {
    let mut e = EditorState::default();
    let mut g = MapGrid::new(64, 64);
    for x in 0..60u32 {
        click_at(&mut e, &mut g, x, 0);
    }
    assert_eq!(e.undo_stack.len(), HISTORY_LIMIT);
    assert_eq!(e.undo_stack[0], EditorAction::CellChanged { x: 10, y: 0, from: CellTypeDef::Blocked, to: CellTypeDef::Rock });
    for _ in 0..HISTORY_LIMIT {
        apply_tool(&mut e, &mut g, ctrl_z());
    }
    assert!(e.undo_stack.is_empty());
    assert_eq!(e.redo_stack.len(), HISTORY_LIMIT);
    let touched = apply_tool(&mut e, &mut g, ctrl_z());
    assert!(touched.is_empty());
    assert_eq!(e.redo_stack.len(), HISTORY_LIMIT);
    // A new edit clears what could be redone.
    click_at(&mut e, &mut g, 5, 5);
    assert!(e.redo_stack.is_empty());
    assert_eq!(e.undo_stack.len(), 1);
}

#[test]
fn toolbox_requests_are_served_and_consumed() {
    let mut e = EditorState::default();
    let mut g = MapGrid::new(64, 64);
    e.current_tool = EditorTool::PlacePlayerSpawn;
    click_at(&mut e, &mut g, 9, 9);
    assert_eq!(e.player_spawn, (9, 9));
    e.undo_requested = true;
    e.redo_requested = true;
    apply_tool(&mut e, &mut g, idle());
    assert_eq!(e.player_spawn, (5, 5));
    assert!(!e.undo_requested && !e.redo_requested);
    e.redo_requested = true;
    apply_tool(&mut e, &mut g, idle());
    assert_eq!(e.player_spawn, (9, 9));
    assert!(!e.redo_requested);
}

#[test]
fn place_factory_and_undo() {
    let mut e = EditorState::default();
    let mut g = MapGrid::new(64, 64);
    e.current_tool = EditorTool::PlaceFactory;
    e.factory_type = FactoryTypeDef::Cannon;
    e.place_team = TeamDef::Enemy;
    click_at(&mut e, &mut g, 4, 5);
    let f = FactoryDef { x: 4, y: 5, factory_type: FactoryTypeDef::Cannon, team: TeamDef::Enemy };
    assert_eq!(e.factories, vec![f]);
    assert_eq!(
        e.undo_stack,
        vec![EditorAction::StructurePlaced { kind: PlacedStructureKind::Factory(f), x: 4, y: 5 }]
    );
    apply_tool(&mut e, &mut g, ctrl_z());
    assert!(e.factories.is_empty());
    apply_tool(&mut e, &mut g, ctrl_shift_z());
    assert_eq!(e.factories, vec![f]);
}

#[test]
fn structures_need_open_ground() {
    let mut e = EditorState::default();
    let mut g = MapGrid::new(64, 64);
    g.set(6, 6, CellType::Sand);
    e.current_tool = EditorTool::PlaceWarbase;
    click_at(&mut e, &mut g, 6, 6);
    assert!(e.warbases.is_empty());
    assert!(e.undo_stack.is_empty());
    click_at(&mut e, &mut g, 6, 7);
    assert_eq!(e.warbases, vec![WarbaseDef { x: 6, y: 7, team: TeamDef::Neutral }]);
}

#[test]
fn erase_removes_first_factory_then_warbase() {
    let mut e = EditorState::default();
    let mut g = MapGrid::new(64, 64);
    let a = FactoryDef { x: 1, y: 1, factory_type: FactoryTypeDef::Nuclear, team: TeamDef::Player };
    let b = FactoryDef { x: 2, y: 2, factory_type: FactoryTypeDef::General, team: TeamDef::Enemy };
    let w = WarbaseDef { x: 2, y: 2, team: TeamDef::Player };
    e.factories = vec![a, b];
    e.warbases = vec![w];
    e.current_tool = EditorTool::Erase;
    click_at(&mut e, &mut g, 2, 2);
    assert_eq!(e.factories, vec![a]);
    assert_eq!(e.warbases, vec![w]);
    click_at(&mut e, &mut g, 2, 2);
    assert!(e.warbases.is_empty());
    apply_tool(&mut e, &mut g, ctrl_z());
    assert_eq!(e.warbases, vec![w]);
    apply_tool(&mut e, &mut g, ctrl_z());
    assert_eq!(e.factories, vec![a, b]);
    // Erasing where nothing stands records nothing.
    let before = e.undo_stack.len();
    click_at(&mut e, &mut g, 30, 30);
    assert_eq!(e.undo_stack.len(), before);
}

#[test]
fn erase_then_undo_puts_the_structure_last() {
    let mut e = EditorState::default();
    let mut g = MapGrid::new(64, 64);
    let a = FactoryDef { x: 1, y: 1, factory_type: FactoryTypeDef::Cannon, team: TeamDef::Player };
    let b = FactoryDef { x: 3, y: 1, factory_type: FactoryTypeDef::Missile, team: TeamDef::Player };
    e.factories = vec![a, b];
    e.current_tool = EditorTool::Erase;
    click_at(&mut e, &mut g, 1, 1);
    apply_tool(&mut e, &mut g, ctrl_z());
    assert_eq!(e.factories, vec![b, a]);
}

#[test]
fn spawn_move_and_undo() {
    let mut e = EditorState::default();
    let mut g = MapGrid::new(64, 64);
    e.current_tool = EditorTool::PlacePlayerSpawn;
    click_at(&mut e, &mut g, 40, 2);
    assert_eq!(e.player_spawn, (40, 2));
    assert_eq!(e.undo_stack, vec![EditorAction::PlayerSpawnMoved { from: (5, 5), to: (40, 2) }]);
    apply_tool(&mut e, &mut g, ctrl_z());
    assert_eq!(e.player_spawn, (5, 5));
}

#[test]
fn clicks_off_the_map_or_without_button_do_nothing() {
    let mut e = EditorState::default();
    let mut g = MapGrid::new(64, 64);
    e.current_tool = EditorTool::PlacePlayerSpawn;
    let t = click_at(&mut e, &mut g, 64, 0);
    assert!(t.is_empty());
    assert_eq!(e.player_spawn, (5, 5));
    e.hovered_cell = Some((1, 1));
    apply_tool(&mut e, &mut g, idle());
    assert_eq!(e.player_spawn, (5, 5));
    e.hovered_cell = None;
    apply_tool(&mut e, &mut g, click());
    assert_eq!(e.player_spawn, (5, 5));
    assert!(!e.dirty);
}

#[test]
fn validation_messages() {
    let mut e = EditorState::default();
    assert_eq!(e.validate(), Some("Необходим хотя бы один варбейс Игрока".to_string()));
    e.warbases.push(WarbaseDef { x: 1, y: 1, team: TeamDef::Player });
    assert_eq!(e.validate(), Some("Необходим хотя бы один варбейс Врага".to_string()));
    e.warbases.push(WarbaseDef { x: 9, y: 9, team: TeamDef::Enemy });
    assert_eq!(e.validate(), None);
    e.player_spawn = (70, 3);
    assert_eq!(e.validate(), Some("Точка спавна (70,3) за пределами карты 64×64".to_string()));
    e.map_size = MapSize::Large;
    assert_eq!(e.validate(), None);
}

#[test]
fn escape_asks_before_leaving_unsaved_changes() {
    let mut e = EditorState::default();
    assert!(e.escape_pressed());
    e.dirty = true;
    assert!(!e.escape_pressed());
    assert!(e.show_exit_dialog);
    assert!(!e.escape_pressed());
    assert!(!e.show_exit_dialog);
}

#[test]
fn reset_to_empty_map() {
    let mut e = EditorState::default();
    e.factories.push(FactoryDef { x: 1, y: 1, factory_type: FactoryTypeDef::Cannon, team: TeamDef::Player });
    e.dirty = true;
    e.show_new_map_dialog = true;
    e.undo_stack.push(EditorAction::PlayerSpawnMoved { from: (1, 1), to: (2, 2) });
    e.reset_to_empty(MapSize::Small);
    assert_eq!(e.map_size, MapSize::Small);
    assert_eq!(e.player_spawn, (2, 2));
    assert!(e.factories.is_empty() && e.warbases.is_empty());
    assert!(e.undo_stack.is_empty() && e.redo_stack.is_empty());
    assert!(!e.dirty && !e.show_new_map_dialog);
}

#[test]
fn push_action_caps_the_history() {
    let mut e = EditorState::default();
    e.redo_stack.push(EditorAction::PlayerSpawnMoved { from: (0, 0), to: (1, 1) });
    for i in 0..55u32 {
        e.push_action(EditorAction::PlayerSpawnMoved { from: (i, 0), to: (i + 1, 0) });
    }
    assert!(e.redo_stack.is_empty());
    assert_eq!(e.undo_stack.len(), 50);
    assert_eq!(e.undo_stack[0], EditorAction::PlayerSpawnMoved { from: (5, 0), to: (6, 0) });
    assert!(e.dirty);
}

#[test]
fn playtest_with_a_valid_map() {
    let mut e = EditorState::default();
    e.warbases = vec![WarbaseDef { x: 1, y: 1, team: TeamDef::Player }, WarbaseDef { x: 8, y: 8, team: TeamDef::Enemy }];
    e.factories = vec![FactoryDef { x: 4, y: 4, factory_type: FactoryTypeDef::Phasers, team: TeamDef::Neutral }];
    e.play_test_requested = true;
    let mut g = MapGrid::new(10, 10);
    g.set(2, 2, CellType::Structure(77));
    g.set(3, 3, CellType::Rock);
    let mut structures = MapStructures { factories: vec![], warbases: vec![] };
    let mut spawn = MapSpawnPoints { player_spawn: (0, 0) };
    assert!(prepare_playtest(&mut e, &mut g, &mut structures, &mut spawn));
    assert!(!e.play_test_requested);
    assert_eq!(g.get(2, 2), Some(CellType::Open));
    assert_eq!(g.get(3, 3), Some(CellType::Rock));
    assert_eq!(spawn.player_spawn, (5, 5));
    assert_eq!(structures.factories, e.factories);
    assert_eq!(structures.warbases, e.warbases);
}

#[test]
fn playtest_with_an_invalid_map_shows_why() {
    let mut e = EditorState::default();
    e.play_test_requested = true;
    let mut g = MapGrid::new(10, 10);
    g.set(2, 2, CellType::Structure(77));
    let mut structures = MapStructures { factories: vec![], warbases: vec![] };
    let mut spawn = MapSpawnPoints { player_spawn: (0, 0) };
    assert!(!prepare_playtest(&mut e, &mut g, &mut structures, &mut spawn));
    assert_eq!(e.show_validation_error, Some("Необходим хотя бы один варбейс Игрока".to_string()));
    assert_eq!(g.get(2, 2), Some(CellType::Structure(77)));
    assert_eq!(spawn.player_spawn, (0, 0));
    assert!(!prepare_playtest(&mut e, &mut g, &mut structures, &mut spawn));
}

#[test]
fn brush_preview_marks_the_square_around_the_cursor() {
    let mut e = EditorState::default();
    assert!(e.brush_preview_cells(5, 5).is_empty());
    e.brush_size = BrushSize::Three;
    assert_eq!(
        e.brush_preview_cells(0, 1),
        vec![(0, 0), (1, 0), (1, 1), (0, 2), (1, 2)]
    );
    assert_eq!(e.brush_preview_cells(10, 10).len(), 8);
    e.current_tool = EditorTool::Erase;
    assert!(e.brush_preview_cells(10, 10).is_empty());
}

#[test]
fn undoing_a_stroke_cell_by_cell_restores_the_terrain() {
    let mut e = EditorState::default();
    e.brush_size = BrushSize::Three;
    e.brush_cell_type = CellTypeDef::Sand;
    let mut g = MapGrid::new(64, 64);
    for y in 4..7u32 {
        for x in 4..7u32 {
            g.set(x, y, if (x + y) % 2 == 0 { CellType::Rock } else { CellType::Pit });
        }
    }
    g.set(5, 5, CellType::Sand);
    let before = g.iter_cells();
    let touched = click_at(&mut e, &mut g, 5, 5);
    assert_eq!(touched.len(), 8);
    for _ in 0..touched.len() {
        apply_tool(&mut e, &mut g, ctrl_z());
    }
    assert_eq!(g.iter_cells(), before);
    assert!(e.undo_stack.is_empty());
    assert_eq!(e.redo_stack.len(), 8);
}

#[test]
fn save_flow() {
    let mut e = EditorState::default();
    e.dirty = true;
    assert!(!e.start_save());
    assert_eq!(e.show_validation_error, Some("Необходим хотя бы один варбейс Игрока".to_string()));
    e.show_validation_error = None;
    e.warbases = vec![WarbaseDef { x: 1, y: 1, team: TeamDef::Player }, WarbaseDef { x: 2, y: 2, team: TeamDef::Enemy }];
    assert!(e.start_save());
    assert!(e.show_validation_error.is_none());
    e.finish_save(Err("disk full".to_string()));
    assert!(e.dirty);
    assert_eq!(e.show_validation_error, Some("disk full".to_string()));
    e.finish_save(Ok("data/maps/custom.ron".to_string()));
    assert!(!e.dirty);
}

#[test]
fn exit_and_open_dialogs() {
    let mut e = EditorState::default();
    e.dirty = true;
    e.show_exit_dialog = true;
    assert!(!e.finish_save_and_exit(Err("bad".to_string())));
    assert!(e.dirty && !e.show_exit_dialog);
    assert_eq!(e.show_validation_error, Some("bad".to_string()));
    e.show_exit_dialog = true;
    assert!(e.finish_save_and_exit(Ok("x".to_string())));
    assert!(!e.dirty && !e.show_exit_dialog);
    e.dirty = true;
    e.show_exit_dialog = true;
    e.discard_and_exit();
    assert!(!e.dirty && !e.show_exit_dialog);
    e.show_open_dialog = true;
    e.show_validation_error = None;
    e.finish_open(None);
    assert!(!e.show_open_dialog && e.show_validation_error.is_none());
    e.show_open_dialog = true;
    e.finish_open(Some("missing".to_string()));
    assert!(!e.show_open_dialog);
    assert_eq!(e.show_validation_error, Some("missing".to_string()));
}

#[test]
fn new_map_dialog_creates_an_empty_map() {
    let mut e = EditorState::default();
    let mut g = MapGrid::new(64, 64);
    g.set(1, 1, CellType::Rock);
    e.new_map_size = MapSize::Large;
    e.show_new_map_dialog = true;
    e.factories.push(FactoryDef { x: 1, y: 1, factory_type: FactoryTypeDef::Cannon, team: TeamDef::Player });
    nether_earth::editor::create_new_map(&mut e, &mut g);
    assert_eq!((g.width, g.height), (96, 96));
    assert_eq!(g.get(1, 1), Some(CellType::Open));
    assert_eq!(e.map_size, MapSize::Large);
    assert!(e.factories.is_empty());
    assert!(!e.show_new_map_dialog);
}

#[test]
fn push_action_accepts_any_redo_stack() {
    let mut e = EditorState::default();
    for i in 0..50u32 {
        e.undo_stack.push(EditorAction::PlayerSpawnMoved { from: (i, 0), to: (i, 1) });
    }
    for i in 0..70u32 {
        e.redo_stack.push(EditorAction::PlayerSpawnMoved { from: (i, 2), to: (i, 3) });
    }
    e.push_action(EditorAction::PlayerSpawnMoved { from: (9, 9), to: (8, 8) });
    assert_eq!(e.undo_stack.len(), 50);
    assert_eq!(e.undo_stack[0], EditorAction::PlayerSpawnMoved { from: (1, 0), to: (1, 1) });
    assert_eq!(e.undo_stack[49], EditorAction::PlayerSpawnMoved { from: (9, 9), to: (8, 8) });
    assert!(e.redo_stack.is_empty());
    assert!(e.dirty);
}
