use nether_earth::collision::{resolve_scout_move, ScoutMove};
use nether_earth::grid::{CellType, MapGrid};
use nether_earth::types::ChassisType;

#[test]
fn grid_world_roundtrip() {
    let grid = MapGrid::new(64, 64);
    // Centre of cell (10, 20) in world units, then rounded down again.
    let wx: f64 = 10.0 + 0.5;
    let wz: f64 = 20.0 + 0.5;
    let (gx, gy) = grid.world_to_grid(wx.floor() as i64, wz.floor() as i64).unwrap();
    assert_eq!((gx, gy), (10, 20));
}

#[test]
fn out_of_bounds_returns_none() {
    let grid = MapGrid::new(64, 64);
    assert!(grid.world_to_grid((-1.0f64).floor() as i64, 0).is_none());
    assert!(grid.world_to_grid((64.0f64).floor() as i64, 0).is_none());
    assert!(grid.get(64, 0).is_none());
}

#[test]
fn set_and_get_cell() {
    let mut grid = MapGrid::new(64, 64);
    grid.set(5, 7, CellType::Blocked);
    assert_eq!(grid.get(5, 7), Some(CellType::Blocked));
    assert_eq!(grid.get(5, 8), Some(CellType::Open));
}

#[test]
fn structure_cell_not_passable() {
    let mut grid = MapGrid::new(64, 64);
    grid.set(3, 3, CellType::Structure(42));
    assert!(!grid.is_passable(3, 3));
    assert!(grid.is_passable(3, 4));
}

#[test]
fn blocked_not_passable() {
    let mut grid = MapGrid::new(64, 64);
    grid.set(1, 1, CellType::Blocked);
    assert!(!grid.is_passable(1, 1));
}

#[test]
fn pit_passable_only_for_antigrav() {
    let mut grid = MapGrid::new(10, 10);
    grid.set(3, 3, CellType::Pit);
    assert!(!CellType::Pit.is_passable_for(ChassisType::Wheels));
    assert!(!CellType::Pit.is_passable_for(ChassisType::Bipod));
    assert!(!CellType::Pit.is_passable_for(ChassisType::Tracks));
    assert!(CellType::Pit.is_passable_for(ChassisType::AntiGrav));
}

#[test]
fn sand_costs_2_for_wheels_bipod() {
    assert_eq!(CellType::Sand.movement_cost(ChassisType::Wheels), Some(2));
    assert_eq!(CellType::Sand.movement_cost(ChassisType::Bipod), Some(2));
    assert_eq!(CellType::Sand.movement_cost(ChassisType::Tracks), Some(1));
    assert_eq!(CellType::Sand.movement_cost(ChassisType::AntiGrav), Some(1));
}

#[test]
fn rock_blocks_los() {
    let mut grid = MapGrid::new(10, 10);
    grid.set(5, 0, CellType::Rock);
    assert!(!grid.has_line_of_sight((0, 0), (9, 0)));
}

#[test]
fn open_path_has_los() {
    let grid = MapGrid::new(10, 10);
    assert!(grid.has_line_of_sight((0, 0), (9, 9)));
}

#[test]
fn cost_exists_exactly_when_passable() {
    let kinds = [
        CellType::Open,
        CellType::Blocked,
        CellType::Rock,
        CellType::Pit,
        CellType::Sand,
        CellType::Structure(7),
    ];
    let chassis = [ChassisType::Wheels, ChassisType::Bipod, ChassisType::Tracks, ChassisType::AntiGrav];
    for k in kinds {
        for c in chassis {
            assert_eq!(k.movement_cost(c).is_some(), k.is_passable_for(c));
        }
    }
    assert_eq!(CellType::Open.movement_cost(ChassisType::Wheels), Some(1));
    assert_eq!(CellType::Pit.movement_cost(ChassisType::AntiGrav), Some(1));
    assert_eq!(CellType::Rock.movement_cost(ChassisType::AntiGrav), None);
}

#[test]
fn blocking_kinds_block_sight() {
    assert!(CellType::Rock.blocks_los());
    assert!(CellType::Blocked.blocks_los());
    assert!(CellType::Structure(1).blocks_los());
    assert!(!CellType::Pit.blocks_los());
    assert!(!CellType::Sand.blocks_los());
    assert!(!CellType::Open.blocks_los());
}

#[test]
fn set_outside_changes_nothing() {
    let mut grid = MapGrid::new(4, 3);
    grid.set(4, 0, CellType::Rock);
    grid.set(0, 3, CellType::Rock);
    for (_, c) in grid.iter_cells() {
        assert_eq!(c, CellType::Open);
    }
}

#[test]
fn iter_cells_row_by_row() {
    let mut grid = MapGrid::new(3, 2);
    grid.set(2, 0, CellType::Sand);
    grid.set(0, 1, CellType::Pit);
    let cells = grid.iter_cells();
    assert_eq!(cells.len(), 6);
    assert_eq!(cells[0], ((0, 0), CellType::Open));
    assert_eq!(cells[2], ((2, 0), CellType::Sand));
    assert_eq!(cells[3], ((0, 1), CellType::Pit));
    assert_eq!(cells[5], ((2, 1), CellType::Open));
}

#[test]
fn neighbours_always_see_each_other() {
    let mut grid = MapGrid::new(5, 5);
    grid.set(2, 2, CellType::Rock);
    grid.set(3, 2, CellType::Rock);
    assert!(grid.has_line_of_sight((2, 2), (3, 2)));
    assert!(grid.has_line_of_sight((1, 1), (2, 2)));
}

#[test]
fn clear_rectangle_gives_sight() {
    let mut grid = MapGrid::new(10, 10);
    grid.set(8, 8, CellType::Rock);
    assert!(grid.has_line_of_sight((1, 1), (6, 3)));
    assert!(grid.has_line_of_sight((6, 3), (1, 1)));
}

#[test]
fn rock_off_the_line_does_not_block() {
    let mut grid = MapGrid::new(10, 10);
    grid.set(5, 5, CellType::Rock);
    assert!(grid.has_line_of_sight((0, 0), (9, 0)));
    assert!(!grid.has_line_of_sight((0, 0), (9, 9)));
}

#[test]
fn world_to_grid_edges() {
    let grid = MapGrid::new(8, 4);
    assert_eq!(grid.world_to_grid(0, 0), Some((0, 0)));
    assert_eq!(grid.world_to_grid(7, 3), Some((7, 3)));
    assert_eq!(grid.world_to_grid(7, 4), None);
    assert_eq!(grid.world_to_grid(0, -1), None);
}

#[test]
fn destroyed_structure_frees_only_its_own_cell() {
    let mut grid = MapGrid::new(8, 8);
    grid.set(2, 3, CellType::Structure(11));
    assert!(!grid.free_structure_cell(2, 3, 12));
    assert_eq!(grid.get(2, 3), Some(CellType::Structure(11)));
    assert!(grid.free_structure_cell(2, 3, 11));
    assert_eq!(grid.get(2, 3), Some(CellType::Open));
    grid.set(4, 4, CellType::Rock);
    assert!(!grid.free_structure_cell(4, 4, 11));
    assert_eq!(grid.get(4, 4), Some(CellType::Rock));
    assert!(!grid.free_structure_cell(9, 9, 11));
}

#[test]
fn scout_keeps_what_part_of_its_move_it_can() {
    let mut grid = MapGrid::new(6, 6);
    grid.set(2, 2, CellType::Rock);
    grid.set(1, 2, CellType::Rock);
    assert_eq!(resolve_scout_move(&grid, Some((3, 3)), Some((2, 3)), Some((3, 2))), ScoutMove::Clamped);
    assert_eq!(resolve_scout_move(&grid, Some((2, 2)), Some((1, 3)), Some((2, 1))), ScoutMove::OnlyZ);
    assert_eq!(resolve_scout_move(&grid, Some((2, 2)), Some((1, 2)), Some((2, 1))), ScoutMove::OnlyX);
    assert_eq!(resolve_scout_move(&grid, Some((2, 2)), Some((1, 2)), None), ScoutMove::Stay);
    assert_eq!(resolve_scout_move(&grid, None, Some((0, 0)), Some((0, 0))), ScoutMove::Stay);
    // Pits and sand do not stop the scout.
    grid.set(4, 4, CellType::Pit);
    assert_eq!(resolve_scout_move(&grid, Some((4, 4)), None, None), ScoutMove::Clamped);
}
