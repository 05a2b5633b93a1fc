use nether_earth::grid::{CellType, MapGrid};
use nether_earth::pathfinding::{find_path, heuristic, GridCell};
use nether_earth::types::ChassisType;

#[test]
fn straight_path() {
    let map = MapGrid::new(10, 10);
    let path = find_path(&map, GridCell::new(0, 0), GridCell::new(3, 0), ChassisType::Wheels).unwrap();
    assert_eq!(path.len(), 3);
    assert_eq!(path.last().unwrap(), &GridCell::new(3, 0));
}

#[test]
fn path_around_wall() {
    let mut map = MapGrid::new(10, 10);
    for y in 0..4 {
        map.set(2, y, CellType::Rock);
    }
    let path = find_path(&map, GridCell::new(0, 0), GridCell::new(4, 0), ChassisType::Wheels).unwrap();
    assert!(!path.is_empty());
    for cell in &path {
        assert!(CellType::Rock != map.get(cell.x, cell.y).unwrap());
    }
}

#[test]
fn pit_blocks_wheels_not_antigrav() {
    let mut map = MapGrid::new(10, 10);
    for x in 0..10 {
        map.set(x, 3, CellType::Pit);
    }
    assert!(find_path(&map, GridCell::new(5, 0), GridCell::new(5, 6), ChassisType::Wheels).is_none());
    assert!(find_path(&map, GridCell::new(5, 0), GridCell::new(5, 6), ChassisType::AntiGrav).is_some());
}

#[test]
fn sand_prefers_open_for_wheels() {
    let mut map = MapGrid::new(10, 10);
    for x in 0..10 {
        map.set(x, 5, CellType::Sand);
    }
    let path = find_path(&map, GridCell::new(5, 0), GridCell::new(5, 9), ChassisType::Wheels);
    assert!(path.is_some());
}

#[test]
fn unreachable_goal_returns_none() {
    let mut map = MapGrid::new(5, 5);
    map.set(3, 2, CellType::Rock);
    map.set(2, 3, CellType::Rock);
    map.set(4, 3, CellType::Rock);
    map.set(3, 4, CellType::Rock);
    let result = find_path(&map, GridCell::new(0, 0), GridCell::new(3, 3), ChassisType::Wheels);
    assert!(result.is_none());
}

#[test]
fn same_start_and_goal() {
    let map = MapGrid::new(10, 10);
    let path = find_path(&map, GridCell::new(2, 2), GridCell::new(2, 2), ChassisType::Tracks).unwrap();
    assert!(path.is_empty());
}

#[test]
fn heuristic_is_manhattan_distance() {
    assert_eq!(heuristic(GridCell::new(1, 5), GridCell::new(4, 1)), 7);
    assert_eq!(heuristic(GridCell::new(4, 1), GridCell::new(1, 5)), 7);
    assert_eq!(heuristic(GridCell::new(3, 3), GridCell::new(3, 3)), 0);
}

#[test]
fn grid_cell_new_keeps_coordinates() {
    let c = GridCell::new(7, 9);
    assert_eq!((c.x, c.y), (7, 9));
}

#[test]
fn path_is_a_walk_of_side_steps() {
    let mut map = MapGrid::new(8, 8);
    for y in 0..6 {
        map.set(4, y, CellType::Rock);
    }
    let start = GridCell::new(1, 1);
    let path = find_path(&map, start, GridCell::new(6, 1), ChassisType::Tracks).unwrap();
    let mut prev = start;
    for c in &path {
        let dx = (c.x as i64 - prev.x as i64).abs();
        let dy = (c.y as i64 - prev.y as i64).abs();
        assert_eq!(dx + dy, 1);
        assert!(map.get(c.x, c.y).unwrap().movement_cost(ChassisType::Tracks).is_some());
        prev = *c;
    }
    assert_eq!(prev, GridCell::new(6, 1));
}

#[test]
fn goal_on_structure_aims_at_a_neighbour() {
    let mut map = MapGrid::new(6, 6);
    map.set(3, 3, CellType::Structure(5));
    let path = find_path(&map, GridCell::new(0, 3), GridCell::new(3, 3), ChassisType::Wheels).unwrap();
    // The left neighbour (2, 3) is enterable, so the route ends there.
    assert_eq!(path.last().unwrap(), &GridCell::new(2, 3));
    assert_eq!(path.len(), 2);
}

#[test]
fn goal_off_the_map_returns_none() {
    let map = MapGrid::new(4, 4);
    assert!(find_path(&map, GridCell::new(0, 0), GridCell::new(9, 9), ChassisType::Wheels).is_none());
}

fn route_cost(map: &MapGrid, path: &[GridCell], chassis: ChassisType) -> u32 {
    path.iter().map(|c| map.get(c.x, c.y).unwrap().movement_cost(chassis).unwrap()).sum()
}

#[test]
fn route_is_a_cheapest_one() {
    let mut map = MapGrid::new(7, 3);
    // Sand across the middle row except one open gap at x = 6.
    for x in 0..6 {
        map.set(x, 1, CellType::Sand);
    }
    let path = find_path(&map, GridCell::new(0, 0), GridCell::new(0, 2), ChassisType::Wheels).unwrap();
    // Straight down through sand costs 2 + 1 = 3; the detour through the gap costs more.
    assert_eq!(route_cost(&map, &path, ChassisType::Wheels), 3);
    let path = find_path(&map, GridCell::new(0, 0), GridCell::new(0, 2), ChassisType::Tracks).unwrap();
    assert_eq!(route_cost(&map, &path, ChassisType::Tracks), 2);
}

#[test]
fn route_avoids_a_costly_sand_field() {
    let mut map = MapGrid::new(5, 5);
    for y in 0..5 {
        for x in 1..4 {
            map.set(x, y, CellType::Sand);
        }
    }
    // Crossing sand costs 2 per cell for wheels: 3 sand cells and the goal.
    let path = find_path(&map, GridCell::new(0, 2), GridCell::new(4, 2), ChassisType::Wheels).unwrap();
    assert_eq!(route_cost(&map, &path, ChassisType::Wheels), 7);
    assert_eq!(path.len(), 4);
}

#[test]
fn antigrav_never_pays_more_than_wheels() {
    let mut map = MapGrid::new(8, 6);
    for y in 0..5 {
        map.set(3, y, CellType::Pit);
    }
    for x in 0..8 {
        map.set(x, 2, CellType::Sand);
    }
    let start = GridCell::new(0, 0);
    let goal = GridCell::new(7, 0);
    let p = find_path(&map, start, goal, ChassisType::Wheels).unwrap();
    let q = find_path(&map, start, goal, ChassisType::AntiGrav).unwrap();
    assert!(route_cost(&map, &q, ChassisType::AntiGrav) <= route_cost(&map, &p, ChassisType::Wheels));
    assert_eq!(route_cost(&map, &q, ChassisType::AntiGrav), 7);
    assert!(!p.contains(&start) && !q.contains(&start));
}

#[test]
fn route_never_returns_to_the_start() {
    let mut map = MapGrid::new(5, 5);
    map.set(2, 2, CellType::Structure(1));
    // The goal cannot be entered and its left neighbour is the start itself.
    let start = GridCell::new(1, 2);
    let path = find_path(&map, start, GridCell::new(2, 2), ChassisType::Wheels).unwrap();
    assert!(path.is_empty());
}
