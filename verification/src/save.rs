use vstd::prelude::*;

use crate::editor::{map_side, EditorState, MapSize};
use crate::grid::{CellType, MapGrid};
use crate::loader::{
    cell_to_def, ct_to_cell_type_def, def_to_cell, listed_kind, loaded_kind, CellTypeDef, FactoryDef,
    FactoryTypeDef, GridPos, MapCellDef, MapData, MapSpawnPoints, MapStructures, TeamDef,
    WarbaseDef,
};
use crate::text::{dec, push_decimal};

verus! {

/// The cells of a `size × size` map, row by row.
pub open spec fn map_positions(size: int) -> Seq<(int, int)> {
    Seq::new((size * size) as nat, |k: int| (k % size, k / size))
}

/// Whether the grid holds something other than open ground at `p`.
pub open spec fn worth_saving(g: MapGrid, p: (int, int)) -> bool {
    g.get_spec(p.0, p.1) matches Some(c) && c != CellType::Open
}

pub open spec fn saved_pred(g: MapGrid) -> spec_fn((int, int)) -> bool {
    |p: (int, int)| worth_saving(g, p)
}

/// File entry for the cell at `p`.
pub open spec fn cell_entry(g: MapGrid, p: (int, int)) -> MapCellDef {
    MapCellDef { x: p.0 as u32, y: p.1 as u32, cell_type: cell_to_def(g.get_spec(p.0, p.1)->0) }
}

pub open spec fn entry_fn(g: MapGrid) -> spec_fn((int, int)) -> MapCellDef {
    |p: (int, int)| cell_entry(g, p)
}

/// File entries of the first `i` cells of a `size × size` map: every cell
/// that is not open ground, row by row.
pub open spec fn saved_cells_upto(g: MapGrid, size: int, i: int) -> Seq<MapCellDef> {
    map_positions(size).take(i).filter(saved_pred(g)).map_values(entry_fn(g))
}

/// File entries of a `size × size` map.
pub open spec fn saved_cells(g: MapGrid, size: int) -> Seq<MapCellDef> {
    saved_cells_upto(g, size, size * size)
}

/// The map file contents for the editor's map: its size, every non-open
/// cell row by row, the spawn point and the structures.
pub fn build_map_data(editor: &EditorState, grid: &MapGrid) -> (d: MapData)
    requires
        grid.wf(),
    ensures
        d.width == map_side(editor.map_size),
        d.height == map_side(editor.map_size),
        d.cells@ == saved_cells(*grid, map_side(editor.map_size) as int),
        d.player_spawn == (GridPos { x: editor.player_spawn.0, y: editor.player_spawn.1 }),
        d.factories@ == editor.factories@,
        d.warbases@ == editor.warbases@,
{
    let size = editor.map_size.value();
    let n: u32 = size * size;
    let ghost pos = map_positions(size as int);
    let mut cells: Vec<MapCellDef> = Vec::new();
    let mut k: u32 = 0;
    proof {
        reveal(Seq::filter);
        assert(pos.take(0) =~= Seq::<(int, int)>::empty());
        assert(cells@ =~= saved_cells_upto(*grid, size as int, 0));
    }
    while k < n
        invariant
            size == map_side(editor.map_size),
            n == size * size,
            pos == map_positions(size as int),
            grid.wf(),
            k <= n,
            cells@ == saved_cells_upto(*grid, size as int, k as int),
        decreases n - k,
    {
        let x = k % size;
        let y = k / size;
        let ghost p = pos[k as int];
        proof {
            assert(p == (x as int, y as int));
            assert(pos.take(k + 1) =~= pos.take(k as int).push(p));
            pos.take(k as int).lemma_filter_push(p, saved_pred(*grid));
        }
        match grid.get(x, y) {
            Some(ct) => {
                if ct != CellType::Open {
                    let entry = MapCellDef { x, y, cell_type: ct_to_cell_type_def(ct) };
                    proof {
                        assert(entry == cell_entry(*grid, p));
                        assert(cells@.push(entry) =~= pos.take(k as int).filter(saved_pred(*grid)).push(p).map_values(entry_fn(*grid)));
                    }
                    cells.push(entry);
                }
            },
            None => {},
        }
        k = k + 1;
    }
    let factories = crate::editor::copy_factories(&editor.factories);
    let warbases = crate::editor::copy_warbases(&editor.warbases);
    MapData {
        width: size,
        height: size,
        cells,
        player_spawn: GridPos { x: editor.player_spawn.0, y: editor.player_spawn.1 },
        factories,
        warbases,
    }
}

/// Terrain a cell has after its map is saved and loaded again: structure
/// cells come back blocked, everything else as it was.
pub open spec fn saved_kind(c: CellType) -> CellType {
    match c {
        CellType::Structure(_) => CellType::Blocked,
        _ => c,
    }
}

proof fn lemma_saved_prefix(g: MapGrid, size: int, i: int, x: int, y: int)
    requires
        g.wf(),
        g.width == size,
        g.height == size,
        0 <= x < size,
        0 <= y < size,
        0 <= i <= size * size,
    ensures
        listed_kind(saved_cells_upto(g, size, i), x, y) == if y * size + x < i && worth_saving(g, (x, y)) {
            Some(cell_to_def(g.cell(x, y)))
        } else {
            None
        },
    decreases i,
{
    let pos = map_positions(size);
    if i == 0 {
        reveal(Seq::filter);
        assert(pos.take(0) =~= Seq::<(int, int)>::empty());
        assert(saved_cells_upto(g, size, 0) =~= Seq::<MapCellDef>::empty());
    } else {
        lemma_saved_prefix(g, size, i - 1, x, y);
        let p = pos[i - 1];
        crate::grid::lemma_index_of_position(size, i - 1);
        assert(p == ((i - 1) % size, (i - 1) / size));
        assert(pos.take(i) =~= pos.take(i - 1).push(p));
        pos.take(i - 1).lemma_filter_push(p, saved_pred(g));
        let before = pos.take(i - 1).filter(saved_pred(g));
        assert((i - 1) / size < size) by {
            if (i - 1) / size >= size {
                assert(((i - 1) / size) * size >= size * size) by (nonlinear_arith)
                    requires
                        (i - 1) / size >= size,
                        size >= 0,
                ;
            }
        }
        if worth_saving(g, p) {
            assert(saved_cells_upto(g, size, i) =~= before.map_values(entry_fn(g)).push(cell_entry(g, p)));
            let s = before.map_values(entry_fn(g)).push(cell_entry(g, p));
            assert(s.drop_last() =~= before.map_values(entry_fn(g)));
            if y * size + x == i - 1 {
                crate::grid::lemma_index_injective(size, x, y, p.0, p.1);
            } else if p.0 == x && p.1 == y {
            }
        } else {
            assert(saved_cells_upto(g, size, i) =~= before.map_values(entry_fn(g)));
            if y * size + x == i - 1 {
                crate::grid::lemma_index_injective(size, x, y, p.0, p.1);
            }
        }
    }
}

/// Saving a map and loading the file again gives back its terrain, cell for
/// cell, structure cells turned blocked (the editor's grid has the map's size).
pub proof fn lemma_saved_map_reloads(g: MapGrid, size: int, x: int, y: int)
    requires
        g.wf(),
        g.width == size,
        g.height == size,
        0 <= x < size,
        0 <= y < size,
    ensures
        loaded_kind(saved_cells(g, size), x, y) == saved_kind(g.cell(x, y)),
{
    crate::grid::lemma_index_in_range(size, size, x, y);
    lemma_saved_prefix(g, size, size * size, x, y);
    crate::loader::lemma_cell_def_round_trip(CellTypeDef::Blocked, g.cell(x, y));
}

/// Name of a terrain kind in a map file.
pub open spec fn cell_type_name(d: CellTypeDef) -> Seq<char> {
    match d {
        CellTypeDef::Blocked => "Blocked"@,
        CellTypeDef::Rock => "Rock"@,
        CellTypeDef::Pit => "Pit"@,
        CellTypeDef::Sand => "Sand"@,
    }
}

/// Name of a factory kind in a map file.
pub open spec fn factory_type_name(f: FactoryTypeDef) -> Seq<char> {
    match f {
        FactoryTypeDef::General => "General"@,
        FactoryTypeDef::Chassis => "Chassis"@,
        FactoryTypeDef::Cannon => "Cannon"@,
        FactoryTypeDef::Missile => "Missile"@,
        FactoryTypeDef::Phasers => "Phasers"@,
        FactoryTypeDef::Electronics => "Electronics"@,
        FactoryTypeDef::Nuclear => "Nuclear"@,
    }
}

/// Name of a side in a map file.
pub open spec fn team_name(t: TeamDef) -> Seq<char> {
    match t {
        TeamDef::Player => "Player"@,
        TeamDef::Enemy => "Enemy"@,
        TeamDef::Neutral => "Neutral"@,
    }
}

/// Each terrain kind is written under its own variant name, so a saved
/// kind reads back as itself: `Blocked`, `Rock`, `Pit` and `Sand`.
pub proof fn lemma_cell_type_names(a: CellTypeDef, b: CellTypeDef)
    ensures
        cell_type_name(CellTypeDef::Blocked) == "Blocked"@,
        cell_type_name(CellTypeDef::Rock) == "Rock"@,
        cell_type_name(CellTypeDef::Pit) == "Pit"@,
        cell_type_name(CellTypeDef::Sand) == "Sand"@,
        cell_type_name(a) == cell_type_name(b) ==> a == b,
{
    reveal_strlit("Blocked");
    reveal_strlit("Rock");
    reveal_strlit("Pit");
    reveal_strlit("Sand");
    if a != b {
        assert(cell_type_name(a).len() != cell_type_name(b).len() || cell_type_name(a)[0] != cell_type_name(b)[0]);
    }
}

/// Each factory kind is written under its own variant name.
pub proof fn lemma_factory_type_names(a: FactoryTypeDef, b: FactoryTypeDef)
    ensures
        factory_type_name(FactoryTypeDef::General) == "General"@,
        factory_type_name(FactoryTypeDef::Chassis) == "Chassis"@,
        factory_type_name(FactoryTypeDef::Cannon) == "Cannon"@,
        factory_type_name(FactoryTypeDef::Missile) == "Missile"@,
        factory_type_name(FactoryTypeDef::Phasers) == "Phasers"@,
        factory_type_name(FactoryTypeDef::Electronics) == "Electronics"@,
        factory_type_name(FactoryTypeDef::Nuclear) == "Nuclear"@,
        factory_type_name(a) == factory_type_name(b) ==> a == b,
{
    reveal_strlit("General");
    reveal_strlit("Chassis");
    reveal_strlit("Cannon");
    reveal_strlit("Missile");
    reveal_strlit("Phasers");
    reveal_strlit("Electronics");
    reveal_strlit("Nuclear");
    if a != b {
        assert(factory_type_name(a).len() != factory_type_name(b).len() || factory_type_name(a)[0] != factory_type_name(
            b,
        )[0] || factory_type_name(a)[1] != factory_type_name(b)[1]);
    }
}

/// Each side is written under its own variant name.
pub proof fn lemma_team_names(a: TeamDef, b: TeamDef)
    ensures
        team_name(TeamDef::Player) == "Player"@,
        team_name(TeamDef::Enemy) == "Enemy"@,
        team_name(TeamDef::Neutral) == "Neutral"@,
        team_name(a) == team_name(b) ==> a == b,
{
    reveal_strlit("Player");
    reveal_strlit("Enemy");
    reveal_strlit("Neutral");
    if a != b {
        assert(team_name(a)[0] != team_name(b)[0]);
    }
}

pub open spec fn cell_line(c: MapCellDef) -> Seq<char> {
    "        (x: "@ + dec(c.x as nat) + ", y: "@ + dec(c.y as nat) + ", cell_type: "@ + cell_type_name(c.cell_type) + "),\n"@
}

/// A cell's line in the map file ends with the name of its terrain kind
/// and the closing of its entry.
pub proof fn lemma_cell_line_names_kind(c: MapCellDef)
    ensures
        ({
            let line = cell_line(c);
            let tail = cell_type_name(c.cell_type) + "),\n"@;
            line.len() >= tail.len() && line.subrange(line.len() - tail.len(), line.len() as int) == tail
        }),
{
    let tail = cell_type_name(c.cell_type) + "),\n"@;
    let head = "        (x: "@ + dec(c.x as nat) + ", y: "@ + dec(c.y as nat) + ", cell_type: "@;
    assert(cell_line(c) =~= head + tail);
    assert((head + tail).subrange(head.len() as int, (head + tail).len() as int) =~= tail);
}

pub open spec fn factory_line(f: FactoryDef) -> Seq<char> {
    "        (x: "@ + dec(f.x as nat) + ", y: "@ + dec(f.y as nat) + ", factory_type: "@ + factory_type_name(f.factory_type)
        + ", team: "@ + team_name(f.team) + "),\n"@
}

pub open spec fn warbase_line(w: WarbaseDef) -> Seq<char> {
    "        (x: "@ + dec(w.x as nat) + ", y: "@ + dec(w.y as nat) + ", team: "@ + team_name(w.team) + "),\n"@
}

pub open spec fn cell_line_fn() -> spec_fn(MapCellDef) -> Seq<char> {
    |c: MapCellDef| cell_line(c)
}

pub open spec fn factory_line_fn() -> spec_fn(FactoryDef) -> Seq<char> {
    |f: FactoryDef| factory_line(f)
}

pub open spec fn warbase_line_fn() -> spec_fn(WarbaseDef) -> Seq<char> {
    |w: WarbaseDef| warbase_line(w)
}

/// The lines of `s`, one after another.
pub open spec fn lines<T>(s: Seq<T>, line: spec_fn(T) -> Seq<char>) -> Seq<char>
    decreases s.len(),
{
    if s.len() == 0 {
        Seq::empty()
    } else {
        lines(s.drop_last(), line) + line(s.last())
    }
}

/// A map file in RON: one entry per line inside each list.
pub open spec fn map_data_ron(d: MapData) -> Seq<char> {
    "(\n"@ + "    width: "@ + dec(d.width as nat) + ",\n"@ + "    height: "@ + dec(d.height as nat) + ",\n"@
        + "    cells: [\n"@ + lines(d.cells@, cell_line_fn()) + "    ],\n"@
        + "    player_spawn: (x: "@ + dec(d.player_spawn.x as nat) + ", y: "@ + dec(d.player_spawn.y as nat) + "),\n"@
        + "    factories: [\n"@ + lines(d.factories@, factory_line_fn()) + "    ],\n"@
        + "    warbases: [\n"@ + lines(d.warbases@, warbase_line_fn()) + "    ],\n"@ + ")\n"@
}

fn push_cell_type_name(out: &mut String, d: CellTypeDef)
    ensures
        final(out)@ == old(out)@ + cell_type_name(d),
{
    match d {
        CellTypeDef::Blocked => out.append("Blocked"),
        CellTypeDef::Rock => out.append("Rock"),
        CellTypeDef::Pit => out.append("Pit"),
        CellTypeDef::Sand => out.append("Sand"),
    }
}

fn push_factory_type_name(out: &mut String, f: FactoryTypeDef)
    ensures
        final(out)@ == old(out)@ + factory_type_name(f),
{
    match f {
        FactoryTypeDef::General => out.append("General"),
        FactoryTypeDef::Chassis => out.append("Chassis"),
        FactoryTypeDef::Cannon => out.append("Cannon"),
        FactoryTypeDef::Missile => out.append("Missile"),
        FactoryTypeDef::Phasers => out.append("Phasers"),
        FactoryTypeDef::Electronics => out.append("Electronics"),
        FactoryTypeDef::Nuclear => out.append("Nuclear"),
    }
}

fn push_team_name(out: &mut String, t: TeamDef)
    ensures
        final(out)@ == old(out)@ + team_name(t),
{
    match t {
        TeamDef::Player => out.append("Player"),
        TeamDef::Enemy => out.append("Enemy"),
        TeamDef::Neutral => out.append("Neutral"),
    }
}

fn push_cell_line(out: &mut String, c: MapCellDef)
    ensures
        final(out)@ == old(out)@ + cell_line(c),
{
    out.append("        (x: ");
    push_decimal(out, c.x);
    out.append(", y: ");
    push_decimal(out, c.y);
    out.append(", cell_type: ");
    push_cell_type_name(out, c.cell_type);
    out.append("),\n");
    assert(out@ =~= old(out)@ + cell_line(c));
}

fn push_factory_line(out: &mut String, f: FactoryDef)
    ensures
        final(out)@ == old(out)@ + factory_line(f),
{
    out.append("        (x: ");
    push_decimal(out, f.x);
    out.append(", y: ");
    push_decimal(out, f.y);
    out.append(", factory_type: ");
    push_factory_type_name(out, f.factory_type);
    out.append(", team: ");
    push_team_name(out, f.team);
    out.append("),\n");
    assert(out@ =~= old(out)@ + factory_line(f));
}

fn push_warbase_line(out: &mut String, w: WarbaseDef)
    ensures
        final(out)@ == old(out)@ + warbase_line(w),
{
    out.append("        (x: ");
    push_decimal(out, w.x);
    out.append(", y: ");
    push_decimal(out, w.y);
    out.append(", team: ");
    push_team_name(out, w.team);
    out.append("),\n");
    assert(out@ =~= old(out)@ + warbase_line(w));
}

proof fn lemma_lines_step<T>(s: Seq<T>, line: spec_fn(T) -> Seq<char>, i: int)
    requires
        0 <= i < s.len(),
    ensures
        lines(s.take(i + 1), line) == lines(s.take(i), line) + line(s[i]),
{
    assert(s.take(i + 1).drop_last() =~= s.take(i));
}

/// Writes the map file for `data`, as RON.
pub fn serialize_map_data_ron(data: &MapData) -> (out: String)
    ensures
        out@ == map_data_ron(*data),
{
    let mut out = String::from_str("(\n");
    out.append("    width: ");
    push_decimal(&mut out, data.width);
    out.append(",\n");
    out.append("    height: ");
    push_decimal(&mut out, data.height);
    out.append(",\n");
    out.append("    cells: [\n");
    let ghost head = out@;
    let mut i: usize = 0;
    proof {
        assert(data.cells@.take(0) =~= Seq::<MapCellDef>::empty());
        assert(out@ =~= head + lines(data.cells@.take(0), cell_line_fn()));
    }
    while i < data.cells.len()
        invariant
            i <= data.cells@.len(),
            out@ == head + lines(data.cells@.take(i as int), cell_line_fn()),
        decreases data.cells@.len() - i,
    {
        push_cell_line(&mut out, data.cells[i]);
        proof {
            lemma_lines_step(data.cells@, cell_line_fn(), i as int);
            let item = data.cells@[i as int];
            assert(cell_line_fn()(item) == cell_line(item));
            let prev = lines(data.cells@.take(i as int), cell_line_fn());
            assert(head + prev + cell_line(item) =~= head + (prev + cell_line(item)));
            assert(out@ =~= head + lines(data.cells@.take(i + 1), cell_line_fn()));
        }
        i = i + 1;
    }
    proof {
        assert(data.cells@.take(i as int) =~= data.cells@);
    }
    out.append("    ],\n");
    out.append("    player_spawn: (x: ");
    push_decimal(&mut out, data.player_spawn.x);
    out.append(", y: ");
    push_decimal(&mut out, data.player_spawn.y);
    out.append("),\n");
    out.append("    factories: [\n");
    let ghost head = out@;
    let mut i: usize = 0;
    proof {
        assert(data.factories@.take(0) =~= Seq::<FactoryDef>::empty());
        assert(out@ =~= head + lines(data.factories@.take(0), factory_line_fn()));
    }
    while i < data.factories.len()
        invariant
            i <= data.factories@.len(),
            out@ == head + lines(data.factories@.take(i as int), factory_line_fn()),
        decreases data.factories@.len() - i,
    {
        push_factory_line(&mut out, data.factories[i]);
        proof {
            lemma_lines_step(data.factories@, factory_line_fn(), i as int);
            let item = data.factories@[i as int];
            assert(factory_line_fn()(item) == factory_line(item));
            let prev = lines(data.factories@.take(i as int), factory_line_fn());
            assert(head + prev + factory_line(item) =~= head + (prev + factory_line(item)));
            assert(out@ =~= head + lines(data.factories@.take(i + 1), factory_line_fn()));
        }
        i = i + 1;
    }
    proof {
        assert(data.factories@.take(i as int) =~= data.factories@);
    }
    out.append("    ],\n");
    out.append("    warbases: [\n");
    let ghost head = out@;
    let mut i: usize = 0;
    proof {
        assert(data.warbases@.take(0) =~= Seq::<WarbaseDef>::empty());
        assert(out@ =~= head + lines(data.warbases@.take(0), warbase_line_fn()));
    }
    while i < data.warbases.len()
        invariant
            i <= data.warbases@.len(),
            out@ == head + lines(data.warbases@.take(i as int), warbase_line_fn()),
        decreases data.warbases@.len() - i,
    {
        push_warbase_line(&mut out, data.warbases[i]);
        proof {
            lemma_lines_step(data.warbases@, warbase_line_fn(), i as int);
            let item = data.warbases@[i as int];
            assert(warbase_line_fn()(item) == warbase_line(item));
            let prev = lines(data.warbases@.take(i as int), warbase_line_fn());
            assert(head + prev + warbase_line(item) =~= head + (prev + warbase_line(item)));
            assert(out@ =~= head + lines(data.warbases@.take(i + 1), warbase_line_fn()));
        }
        i = i + 1;
    }
    proof {
        assert(data.warbases@.take(i as int) =~= data.warbases@);
    }
    out.append("    ],\n");
    out.append(")\n");
    out
}

/// Editor size for a loaded map of width `w`: 32 and 96 are small and large,
/// anything else counts as normal.
pub open spec fn size_for_width(w: u32) -> MapSize {
    if w == 32 {
        MapSize::Small
    } else if w == 96 {
        MapSize::Large
    } else {
        MapSize::Normal
    }
}

pub fn map_size_for_width(w: u32) -> (m: MapSize)
    ensures
        m == size_for_width(w),
{
    if w == 32 {
        MapSize::Small
    } else if w == 96 {
        MapSize::Large
    } else {
        MapSize::Normal
    }
}

/// Puts a map read from file `file_stem` into the editor: its grid, spawn
/// point and structures replace the current ones, the map and file take the
/// file's name, the history is emptied and nothing counts as unsaved.
pub fn load_map_into_editor(
    file_stem: &str,
    editor: &mut EditorState,
    grid: &mut MapGrid,
    loaded: (MapGrid, MapSpawnPoints, MapStructures),
)
    ensures
        *final(grid) == loaded.0,
        final(editor).map_size == size_for_width(loaded.0.width),
        final(editor).file_name@ == file_stem@,
        final(editor).map_name@ == file_stem@,
        final(editor).player_spawn == loaded.1.player_spawn,
        final(editor).factories == loaded.2.factories,
        final(editor).warbases == loaded.2.warbases,
        final(editor).undo_stack@.len() == 0,
        final(editor).redo_stack@.len() == 0,
        !final(editor).dirty,
        final(editor).wf(),
        *final(editor) == (EditorState {
            map_size: final(editor).map_size,
            file_name: final(editor).file_name,
            map_name: final(editor).map_name,
            player_spawn: final(editor).player_spawn,
            factories: final(editor).factories,
            warbases: final(editor).warbases,
            undo_stack: final(editor).undo_stack,
            redo_stack: final(editor).redo_stack,
            dirty: false,
            ..*old(editor)
        }),
{
    let (new_grid, spawn, structures) = loaded;
    editor.map_size = map_size_for_width(new_grid.width);
    *grid = new_grid;
    editor.file_name = String::from_str(file_stem);
    editor.map_name = String::from_str(file_stem);
    editor.player_spawn = spawn.player_spawn;
    editor.factories = structures.factories;
    editor.warbases = structures.warbases;
    editor.undo_stack.clear();
    editor.redo_stack.clear();
    editor.dirty = false;
}

} // verus!
