use nether_earth::editor::{EditorAction, EditorState, MapSize};
use nether_earth::grid::{CellType, MapGrid};
use nether_earth::loader::{
    map_from_data, CellTypeDef, FactoryDef, FactoryTypeDef, GridPos, MapCellDef, MapData, MapSpawnPoints,
    MapStructures, TeamDef, WarbaseDef,
};
use nether_earth::save::{build_map_data, load_map_into_editor, map_size_for_width, serialize_map_data_ron};

fn sample_grid() -> MapGrid {
    let mut g = MapGrid::new(32, 32);
    g.set(1, 0, CellType::Rock);
    g.set(0, 2, CellType::Sand);
    g.set(5, 5, CellType::Structure(9));
    g.set(7, 3, CellType::Pit);
    g.set(8, 3, CellType::Blocked);
    g
}

#[test]
fn build_lists_every_non_open_cell_row_by_row() {
    let mut e = EditorState::default();
    e.map_size = MapSize::Small;
    e.player_spawn = (3, 4);
    e.warbases = vec![WarbaseDef { x: 2, y: 2, team: TeamDef::Enemy }];
    let g = sample_grid();
    let d = build_map_data(&e, &g);
    assert_eq!(d.width, 32);
    assert_eq!(d.height, 32);
    assert_eq!(
        d.cells,
        vec![
            MapCellDef { x: 1, y: 0, cell_type: CellTypeDef::Rock },
            MapCellDef { x: 0, y: 2, cell_type: CellTypeDef::Sand },
            MapCellDef { x: 7, y: 3, cell_type: CellTypeDef::Pit },
            MapCellDef { x: 8, y: 3, cell_type: CellTypeDef::Blocked },
            MapCellDef { x: 5, y: 5, cell_type: CellTypeDef::Blocked },
        ]
    );
    assert_eq!(d.player_spawn, GridPos { x: 3, y: 4 });
    assert_eq!(d.warbases, e.warbases);
    assert!(d.factories.is_empty());
}

#[test]
fn saved_map_loads_back() {
    let mut e = EditorState::default();
    e.map_size = MapSize::Small;
    let g = sample_grid();
    let d = build_map_data(&e, &g);
    let (g2, spawn, structures) = map_from_data(d);
    assert_eq!((g2.width, g2.height), (32, 32));
    for y in 0..32u32 {
        for x in 0..32u32 {
            let expected = match g.get(x, y).unwrap() {
                CellType::Structure(_) => CellType::Blocked,
                c => c,
            };
            assert_eq!(g2.get(x, y), Some(expected));
        }
    }
    assert_eq!(spawn.player_spawn, (5, 5));
    assert!(structures.factories.is_empty());
}

#[test]
fn ron_text_of_a_small_map() {
    let d = MapData {
        width: 2,
        height: 2,
        cells: vec![MapCellDef { x: 1, y: 0, cell_type: CellTypeDef::Rock }],
        player_spawn: GridPos { x: 0, y: 1 },
        factories: vec![FactoryDef { x: 1, y: 1, factory_type: FactoryTypeDef::Chassis, team: TeamDef::Neutral }],
        warbases: vec![],
    };
    let expected = "(\n    width: 2,\n    height: 2,\n    cells: [\n        (x: 1, y: 0, cell_type: Rock),\n    ],\n    player_spawn: (x: 0, y: 1),\n    factories: [\n        (x: 1, y: 1, factory_type: Chassis, team: Neutral),\n    ],\n    warbases: [\n    ],\n)\n";
    assert_eq!(serialize_map_data_ron(&d), expected);
}

#[test]
fn ron_text_with_many_digits() {
    let d = MapData {
        width: 96,
        height: 96,
        cells: vec![],
        player_spawn: GridPos { x: 4294967295, y: 10 },
        factories: vec![],
        warbases: vec![WarbaseDef { x: 95, y: 0, team: TeamDef::Enemy }],
    };
    let text = serialize_map_data_ron(&d);
    assert!(text.contains("    width: 96,\n"));
    assert!(text.contains("    player_spawn: (x: 4294967295, y: 10),\n"));
    assert!(text.contains("        (x: 95, y: 0, team: Enemy),\n"));
    assert!(text.contains("    cells: [\n    ],\n"));
}

#[test]
fn map_sizes_by_width() {
    assert_eq!(map_size_for_width(32), MapSize::Small);
    assert_eq!(map_size_for_width(96), MapSize::Large);
    assert_eq!(map_size_for_width(64), MapSize::Normal);
    assert_eq!(map_size_for_width(50), MapSize::Normal);
}

#[test]
fn loading_replaces_the_map_and_clears_history() {
    let mut e = EditorState::default();
    e.dirty = true;
    e.undo_stack.push(EditorAction::PlayerSpawnMoved { from: (1, 1), to: (2, 2) });
    e.redo_stack.push(EditorAction::PlayerSpawnMoved { from: (2, 2), to: (3, 3) });
    let mut g = MapGrid::new(64, 64);
    let mut loaded = MapGrid::new(96, 96);
    loaded.set(10, 10, CellType::Pit);
    let f = FactoryDef { x: 3, y: 3, factory_type: FactoryTypeDef::Electronics, team: TeamDef::Player };
    load_map_into_editor(
        "arena",
        &mut e,
        &mut g,
        (loaded, MapSpawnPoints { player_spawn: (7, 8) }, MapStructures { factories: vec![f], warbases: vec![] }),
    );
    assert_eq!(e.map_size, MapSize::Large);
    assert_eq!(e.file_name, "arena");
    assert_eq!(e.map_name, "arena");
    assert_eq!(e.player_spawn, (7, 8));
    assert_eq!(e.factories, vec![f]);
    assert!(e.undo_stack.is_empty() && e.redo_stack.is_empty());
    assert!(!e.dirty);
    assert_eq!(g.width, 96);
    assert_eq!(g.get(10, 10), Some(CellType::Pit));
}
