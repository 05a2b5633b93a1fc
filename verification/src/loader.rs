use vstd::prelude::*;

use crate::grid::{CellType, MapGrid};

verus! {

/// Cell position in a map file.
#[derive(Debug, Clone, Copy, PartialEq, Eq, Structural)]
pub struct GridPos {
    pub x: u32,
    pub y: u32,
}

/// Terrain kinds a map file can give to a cell (open is the default).
#[derive(Debug, Clone, Copy, PartialEq, Eq, Structural)]
pub enum CellTypeDef {
    Blocked,
    /// Impassable for everyone, blocks sight.
    Rock,
    /// Impassable for wheels, bipods and tracks.
    Pit,
    /// Slows wheels and bipods.
    Sand,
}

/// One non-open cell of a map file.
#[derive(Debug, Clone, Copy, PartialEq, Eq, Structural)]
pub struct MapCellDef {
    pub x: u32,
    pub y: u32,
    pub cell_type: CellTypeDef,
}

#[derive(Debug, Clone, Copy, PartialEq, Eq, Structural)]
pub enum FactoryTypeDef {
    General,
    Chassis,
    Cannon,
    Missile,
    Phasers,
    Electronics,
    Nuclear,
}

#[derive(Debug, Clone, Copy, PartialEq, Eq, Structural)]
pub enum TeamDef {
    Player,
    Enemy,
    Neutral,
}

impl TeamDef {
    /// Owner of a factory whose file entry names none.
    pub fn neutral() -> (t: TeamDef)
        ensures
            t == TeamDef::Neutral,
    {
        TeamDef::Neutral
    }
}

#[derive(Debug, Clone, Copy, PartialEq, Eq, Structural)]
pub struct FactoryDef {
    pub x: u32,
    pub y: u32,
    pub factory_type: FactoryTypeDef,
    pub team: TeamDef,
}

#[derive(Debug, Clone, Copy, PartialEq, Eq, Structural)]
pub struct WarbaseDef {
    pub x: u32,
    pub y: u32,
    pub team: TeamDef,
}

/// Contents of a map file.
#[derive(Debug, Clone, PartialEq, Eq)]
pub struct MapData {
    pub width: u32,
    pub height: u32,
    pub cells: Vec<MapCellDef>,
    pub player_spawn: GridPos,
    pub factories: Vec<FactoryDef>,
    pub warbases: Vec<WarbaseDef>,
}

/// Where the player's scout starts.
#[derive(Debug, Clone, Copy, PartialEq, Eq)]
pub struct MapSpawnPoints {
    pub player_spawn: (u32, u32),
}

/// Structures of a map, spawned when a game starts.
#[derive(Debug, Clone, PartialEq, Eq)]
pub struct MapStructures {
    pub factories: Vec<FactoryDef>,
    pub warbases: Vec<WarbaseDef>,
}

/// Grid content of a terrain kind of the map file.
pub open spec fn def_to_cell(d: CellTypeDef) -> CellType {
    match d {
        CellTypeDef::Blocked => CellType::Blocked,
        CellTypeDef::Rock => CellType::Rock,
        CellTypeDef::Pit => CellType::Pit,
        CellTypeDef::Sand => CellType::Sand,
    }
}

/// File kind of a grid cell; structures are written as blocked, and open
/// cells (never written) map to blocked as well.
pub open spec fn cell_to_def(c: CellType) -> CellTypeDef {
    match c {
        CellType::Rock => CellTypeDef::Rock,
        CellType::Pit => CellTypeDef::Pit,
        CellType::Sand => CellTypeDef::Sand,
        _ => CellTypeDef::Blocked,
    }
}

pub fn cell_type_def_to_ct(def: &CellTypeDef) -> (c: CellType)
    ensures
        c == def_to_cell(*def),
{
    match def {
        CellTypeDef::Blocked => CellType::Blocked,
        CellTypeDef::Rock => CellType::Rock,
        CellTypeDef::Pit => CellType::Pit,
        CellTypeDef::Sand => CellType::Sand,
    }
}

pub fn ct_to_cell_type_def(ct: CellType) -> (d: CellTypeDef)
    ensures
        d == cell_to_def(ct),
{
    match ct {
        CellType::Blocked | CellType::Structure(_) => CellTypeDef::Blocked,
        CellType::Rock => CellTypeDef::Rock,
        CellType::Pit => CellTypeDef::Pit,
        CellType::Sand => CellTypeDef::Sand,
        CellType::Open => CellTypeDef::Blocked,
    }
}

/// A file kind survives the trip to the grid and back; a grid cell survives
/// the trip to the file and back exactly when it is rock, pit, sand or blocked.
pub proof fn lemma_cell_def_round_trip(d: CellTypeDef, c: CellType)
    ensures
        cell_to_def(def_to_cell(d)) == d,
        def_to_cell(cell_to_def(c)) == c <==> (c is Rock || c is Pit || c is Sand || c is Blocked),
{
}

/// Kind the map file gives to cell `(x, y)`: the last entry naming it.
pub open spec fn listed_kind(cells: Seq<MapCellDef>, x: int, y: int) -> Option<CellTypeDef>
    decreases cells.len(),
{
    if cells.len() == 0 {
        None
    } else if cells.last().x == x && cells.last().y == y {
        Some(cells.last().cell_type)
    } else {
        listed_kind(cells.drop_last(), x, y)
    }
}

/// Terrain the loader gives cell `(x, y)` of a file listing `cells`: the
/// kind of the last entry naming the cell, open if none does.
pub open spec fn loaded_kind(cells: Seq<MapCellDef>, x: int, y: int) -> CellType {
    match listed_kind(cells, x, y) {
        Some(d) => def_to_cell(d),
        None => CellType::Open,
    }
}

/// Builds the grid, spawn point and structures of a map file. Entries outside
/// the grid are ignored; a later entry for the same cell wins; unlisted cells
/// are open.
pub fn map_from_data(data: MapData) -> (r: (MapGrid, MapSpawnPoints, MapStructures))
    requires
        data.width * data.height <= u32::MAX,
    ensures
        r.0.wf(),
        r.0.width == data.width,
        r.0.height == data.height,
        forall|x: int, y: int|
            r.0.in_bounds(x, y) ==> #[trigger] r.0.get_spec(x, y) == Some(loaded_kind(data.cells@, x, y)),
        r.1.player_spawn == (data.player_spawn.x, data.player_spawn.y),
        r.2.factories@ == data.factories@,
        r.2.warbases@ == data.warbases@,
{
    let mut grid = MapGrid::new(data.width, data.height);
    let mut i: usize = 0;
    while i < data.cells.len()
        invariant
            grid.wf(),
            grid.width == data.width,
            grid.height == data.height,
            i <= data.cells@.len(),
            forall|x: int, y: int|
                grid.in_bounds(x, y) ==> #[trigger] grid.get_spec(x, y) == Some(
                    loaded_kind(data.cells@.take(i as int), x, y),
                ),
        decreases data.cells@.len() - i,
    {
        let cell = data.cells[i];
        let ct = cell_type_def_to_ct(&cell.cell_type);
        grid.set(cell.x, cell.y, ct);
        proof {
            let pre = data.cells@.take(i as int);
            let post = data.cells@.take(i + 1);
            assert(post.drop_last() =~= pre);
            assert(post.last() == cell);
        }
        i = i + 1;
    }
    proof {
        assert(data.cells@.take(i as int) =~= data.cells@);
    }
    let spawn = MapSpawnPoints { player_spawn: (data.player_spawn.x, data.player_spawn.y) };
    let structures = MapStructures { factories: data.factories, warbases: data.warbases };
    (grid, spawn, structures)
}

} // verus!
