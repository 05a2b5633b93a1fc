use nether_earth::grid::CellType;
use nether_earth::loader::{
    cell_type_def_to_ct, ct_to_cell_type_def, map_from_data, CellTypeDef, FactoryDef, FactoryTypeDef, GridPos,
    MapCellDef, MapData, TeamDef, WarbaseDef,
};

#[test]
fn file_kinds_and_grid_kinds() {
    assert_eq!(cell_type_def_to_ct(&CellTypeDef::Rock), CellType::Rock);
    assert_eq!(cell_type_def_to_ct(&CellTypeDef::Pit), CellType::Pit);
    assert_eq!(cell_type_def_to_ct(&CellTypeDef::Sand), CellType::Sand);
    assert_eq!(cell_type_def_to_ct(&CellTypeDef::Blocked), CellType::Blocked);
    assert_eq!(ct_to_cell_type_def(CellType::Structure(3)), CellTypeDef::Blocked);
    assert_eq!(ct_to_cell_type_def(CellType::Open), CellTypeDef::Blocked);
    assert_eq!(ct_to_cell_type_def(CellType::Sand), CellTypeDef::Sand);
    for d in [CellTypeDef::Rock, CellTypeDef::Pit, CellTypeDef::Sand, CellTypeDef::Blocked] {
        assert_eq!(ct_to_cell_type_def(cell_type_def_to_ct(&d)), d);
    }
}

#[test]
fn map_file_builds_grid_and_structures() {
    let f = FactoryDef { x: 2, y: 1, factory_type: FactoryTypeDef::General, team: TeamDef::neutral() };
    let w = WarbaseDef { x: 0, y: 0, team: TeamDef::Player };
    let data = MapData {
        width: 4,
        height: 3,
        cells: vec![
            MapCellDef { x: 1, y: 1, cell_type: CellTypeDef::Rock },
            MapCellDef { x: 9, y: 9, cell_type: CellTypeDef::Rock },
            MapCellDef { x: 1, y: 1, cell_type: CellTypeDef::Sand },
            MapCellDef { x: 3, y: 2, cell_type: CellTypeDef::Pit },
        ],
        player_spawn: GridPos { x: 2, y: 2 },
        factories: vec![f],
        warbases: vec![w],
    };
    let (grid, spawn, structures) = map_from_data(data);
    assert_eq!((grid.width, grid.height), (4, 3));
    assert_eq!(grid.get(1, 1), Some(CellType::Sand));
    assert_eq!(grid.get(3, 2), Some(CellType::Pit));
    assert_eq!(grid.get(0, 0), Some(CellType::Open));
    assert_eq!(spawn.player_spawn, (2, 2));
    assert_eq!(structures.factories, vec![f]);
    assert_eq!(structures.warbases, vec![w]);
    assert_eq!(f.team, TeamDef::Neutral);
}
