use vstd::prelude::*;

use crate::grid::{CellType, MapGrid};
use crate::loader::{
    cell_to_def, cell_type_def_to_ct, ct_to_cell_type_def, def_to_cell, CellTypeDef, FactoryDef,
    FactoryTypeDef, MapSpawnPoints, MapStructures, TeamDef, WarbaseDef,
};
use crate::text::{dec, push_decimal};

verus! {

/// Tool the left mouse button applies in the map editor.
#[derive(Debug, Clone, Copy, PartialEq, Eq, Structural)]
pub enum EditorTool {
    TerrainBrush,
    PlaceFactory,
    PlaceWarbase,
    PlacePlayerSpawn,
    Erase,
}

impl Default for EditorTool {
    fn default() -> (t: EditorTool)
        ensures
            t == EditorTool::TerrainBrush,
    {
        EditorTool::TerrainBrush
    }
}

/// Side length of the square the terrain brush paints: 1, 3 or 5 cells.
#[derive(Debug, Clone, Copy, PartialEq, Eq, Structural)]
pub enum BrushSize {
    One,
    Three,
    Five,
}

impl Default for BrushSize {
    fn default() -> (b: BrushSize)
        ensures
            b == BrushSize::One,
    {
        BrushSize::One
    }
}

/// Cells the brush reaches on each side of the clicked cell.
pub open spec fn brush_radius(b: BrushSize) -> int {
    match b {
        BrushSize::One => 0,
        BrushSize::Three => 1,
        BrushSize::Five => 2,
    }
}

impl BrushSize {
    pub fn radius(self) -> (r: i32)
        ensures
            r == brush_radius(self),
    {
        match self {
            BrushSize::One => 0,
            BrushSize::Three => 1,
            BrushSize::Five => 2,
        }
    }

    pub fn label(self) -> (s: &'static str)
        ensures
            s@ == match self {
                BrushSize::One => "1×1"@,
                BrushSize::Three => "3×3"@,
                BrushSize::Five => "5×5"@,
            },
    {
        match self {
            BrushSize::One => "1×1",
            BrushSize::Three => "3×3",
            BrushSize::Five => "5×5",
        }
    }
}

/// Map sizes offered by the editor (square maps).
#[derive(Debug, Clone, Copy, PartialEq, Eq, Structural)]
pub enum MapSize {
    Small,
    Normal,
    Large,
}

impl Default for MapSize {
    fn default() -> (m: MapSize)
        ensures
            m == MapSize::Normal,
    {
        MapSize::Normal
    }
}

/// Side length in cells of a map of size `m`.
pub open spec fn map_side(m: MapSize) -> u32 {
    match m {
        MapSize::Small => 32,
        MapSize::Normal => 64,
        MapSize::Large => 96,
    }
}

impl MapSize {
    pub fn value(self) -> (v: u32)
        ensures
            v == map_side(self),
    {
        match self {
            MapSize::Small => 32,
            MapSize::Normal => 64,
            MapSize::Large => 96,
        }
    }

    pub fn label(self) -> (s: &'static str)
        ensures
            s@ == match self {
                MapSize::Small => "32×32"@,
                MapSize::Normal => "64×64"@,
                MapSize::Large => "96×96"@,
            },
    {
        match self {
            MapSize::Small => "32×32",
            MapSize::Normal => "64×64",
            MapSize::Large => "96×96",
        }
    }
}

/// A structure placed on or removed from the map.
#[derive(Debug, Clone, Copy, PartialEq, Eq, Structural)]
pub enum PlacedStructureKind {
    Factory(FactoryDef),
    Warbase(WarbaseDef),
}

/// One entry of the editor's undo/redo history.
#[allow(inconsistent_fields)]
#[derive(Debug, Clone, Copy, PartialEq, Eq)]
pub enum EditorAction {
    CellChanged { x: u32, y: u32, from: CellTypeDef, to: CellTypeDef },
    StructurePlaced { kind: PlacedStructureKind, x: u32, y: u32 },
    StructureRemoved { kind: PlacedStructureKind, x: u32, y: u32 },
    PlayerSpawnMoved { from: (u32, u32), to: (u32, u32) },
}

/// Most history entries the editor keeps, undo and redo together.
pub const HISTORY_LIMIT: usize = 50;

/// Everything the map editor holds: tool settings, the map being edited
/// (terrain lives in the `MapGrid` beside it), file data, history and
/// dialog flags.
pub struct EditorState {
    pub current_tool: EditorTool,
    pub brush_cell_type: CellTypeDef,
    pub brush_size: BrushSize,
    /// Kind of factory the factory tool places.
    pub factory_type: FactoryTypeDef,
    /// Owner of the structures the factory and warbase tools place.
    pub place_team: TeamDef,
    pub map_name: String,
    pub map_description: String,
    pub map_size: MapSize,
    pub player_spawn: (u32, u32),
    pub factories: Vec<FactoryDef>,
    pub warbases: Vec<WarbaseDef>,
    pub file_name: String,
    /// Changed since the last save or load.
    pub dirty: bool,
    pub undo_stack: Vec<EditorAction>,
    pub redo_stack: Vec<EditorAction>,
    pub undo_requested: bool,
    pub redo_requested: bool,
    pub play_test_requested: bool,
    /// Cell under the cursor.
    pub hovered_cell: Option<(u32, u32)>,
    pub show_new_map_dialog: bool,
    pub show_open_dialog: bool,
    pub show_exit_dialog: bool,
    pub show_validation_error: Option<String>,
    /// Map files offered by the open dialog.
    pub available_maps: Vec<String>,
    pub new_map_size: MapSize,
}

impl Default for EditorState {
    fn default() -> (e: EditorState)
        ensures
            e.current_tool == EditorTool::TerrainBrush,
            e.brush_cell_type == CellTypeDef::Rock,
            e.brush_size == BrushSize::One,
            e.factory_type == FactoryTypeDef::Chassis,
            e.place_team == TeamDef::Neutral,
            e.map_name@ == "custom"@,
            e.map_description@ == Seq::<char>::empty(),
            e.map_size == MapSize::Normal,
            e.player_spawn == (5u32, 5u32),
            e.factories@ == Seq::<FactoryDef>::empty(),
            e.warbases@ == Seq::<WarbaseDef>::empty(),
            e.file_name@ == "custom"@,
            !e.dirty,
            e.undo_stack@ == Seq::<EditorAction>::empty(),
            e.redo_stack@ == Seq::<EditorAction>::empty(),
            !e.undo_requested,
            !e.redo_requested,
            !e.play_test_requested,
            e.hovered_cell.is_none(),
            !e.show_new_map_dialog,
            !e.show_open_dialog,
            !e.show_exit_dialog,
            e.show_validation_error.is_none(),
            e.available_maps@ == Seq::<String>::empty(),
            e.new_map_size == MapSize::Normal,
            e.wf(),
    {
        EditorState {
            current_tool: EditorTool::TerrainBrush,
            brush_cell_type: CellTypeDef::Rock,
            brush_size: BrushSize::One,
            factory_type: FactoryTypeDef::Chassis,
            place_team: TeamDef::Neutral,
            map_name: String::from_str("custom"),
            map_description: String::new(),
            map_size: MapSize::Normal,
            player_spawn: (5, 5),
            factories: Vec::new(),
            warbases: Vec::new(),
            file_name: String::from_str("custom"),
            dirty: false,
            undo_stack: Vec::new(),
            redo_stack: Vec::new(),
            undo_requested: false,
            redo_requested: false,
            play_test_requested: false,
            hovered_cell: None,
            show_new_map_dialog: false,
            show_open_dialog: false,
            show_exit_dialog: false,
            show_validation_error: None,
            available_maps: Vec::new(),
            new_map_size: MapSize::Normal,
        }
    }
}

/// The map as the editor sees it: terrain, spawn point and structures.
#[verifier::ext_equal]
pub struct EditorDoc {
    pub cells: Seq<CellType>,
    pub spawn: (u32, u32),
    pub factories: Seq<FactoryDef>,
    pub warbases: Seq<WarbaseDef>,
}

pub open spec fn doc_of(e: EditorState, g: MapGrid) -> EditorDoc {
    EditorDoc { cells: g.cells@, spawn: e.player_spawn, factories: e.factories@, warbases: e.warbases@ }
}

impl EditorState {
    /// The history never holds more than `HISTORY_LIMIT` entries, undo and
    /// redo together.
    pub open spec fn wf(&self) -> bool {
        self.undo_stack@.len() + self.redo_stack@.len() <= HISTORY_LIMIT
    }
}

/// Tool settings, file data and dialogs: everything an edit, an undo or a
/// redo leaves alone (the request flags and `dirty` aside).
pub open spec fn same_settings(a: EditorState, b: EditorState) -> bool {
    &&& a.current_tool == b.current_tool
    &&& a.brush_cell_type == b.brush_cell_type
    &&& a.brush_size == b.brush_size
    &&& a.factory_type == b.factory_type
    &&& a.place_team == b.place_team
    &&& a.map_name == b.map_name
    &&& a.map_description == b.map_description
    &&& a.map_size == b.map_size
    &&& a.file_name == b.file_name
    &&& a.play_test_requested == b.play_test_requested
    &&& a.hovered_cell == b.hovered_cell
    &&& a.show_new_map_dialog == b.show_new_map_dialog
    &&& a.show_open_dialog == b.show_open_dialog
    &&& a.show_exit_dialog == b.show_exit_dialog
    &&& a.show_validation_error == b.show_validation_error
    &&& a.available_maps == b.available_maps
    &&& a.new_map_size == b.new_map_size
}

pub open spec fn factory_not_at(x: u32, y: u32) -> spec_fn(FactoryDef) -> bool {
    |f: FactoryDef| !(f.x == x && f.y == y)
}

pub open spec fn warbase_not_at(x: u32, y: u32) -> spec_fn(WarbaseDef) -> bool {
    |w: WarbaseDef| !(w.x == x && w.y == y)
}

/// Factories left once the structure `k` is taken off: a factory `k` takes
/// every factory on its cell with it.
pub open spec fn factories_without(s: Seq<FactoryDef>, k: PlacedStructureKind) -> Seq<FactoryDef> {
    match k {
        PlacedStructureKind::Factory(f) => s.filter(factory_not_at(f.x, f.y)),
        PlacedStructureKind::Warbase(_) => s,
    }
}

/// Warbases left once the structure `k` is taken off.
pub open spec fn warbases_without(s: Seq<WarbaseDef>, k: PlacedStructureKind) -> Seq<WarbaseDef> {
    match k {
        PlacedStructureKind::Warbase(w) => s.filter(warbase_not_at(w.x, w.y)),
        PlacedStructureKind::Factory(_) => s,
    }
}

pub open spec fn factories_with(s: Seq<FactoryDef>, k: PlacedStructureKind) -> Seq<FactoryDef> {
    match k {
        PlacedStructureKind::Factory(f) => s.push(f),
        PlacedStructureKind::Warbase(_) => s,
    }
}

pub open spec fn warbases_with(s: Seq<WarbaseDef>, k: PlacedStructureKind) -> Seq<WarbaseDef> {
    match k {
        PlacedStructureKind::Warbase(w) => s.push(w),
        PlacedStructureKind::Factory(_) => s,
    }
}

/// The map with the structure `k` (and any other of its kind on its cell) removed.
pub open spec fn without_structure(d: EditorDoc, k: PlacedStructureKind) -> EditorDoc {
    EditorDoc { factories: factories_without(d.factories, k), warbases: warbases_without(d.warbases, k), ..d }
}

/// The map with `k` appended to the list of its kind.
pub open spec fn with_structure(d: EditorDoc, k: PlacedStructureKind) -> EditorDoc {
    EditorDoc { factories: factories_with(d.factories, k), warbases: warbases_with(d.warbases, k), ..d }
}

/// What undoing `a` does to a `w × h` map.
pub open spec fn undo_doc(d: EditorDoc, w: int, h: int, a: EditorAction) -> EditorDoc {
    match a {
        EditorAction::CellChanged { x, y, from, to } => EditorDoc {
            cells: crate::grid::cells_with(d.cells, w, h, x as int, y as int, def_to_cell(from)),
            ..d
        },
        EditorAction::StructurePlaced { kind, x, y } => without_structure(d, kind),
        EditorAction::StructureRemoved { kind, x, y } => with_structure(d, kind),
        EditorAction::PlayerSpawnMoved { from, to } => EditorDoc { spawn: from, ..d },
    }
}

/// What redoing `a` does to a `w × h` map.
pub open spec fn redo_doc(d: EditorDoc, w: int, h: int, a: EditorAction) -> EditorDoc {
    match a {
        EditorAction::CellChanged { x, y, from, to } => EditorDoc {
            cells: crate::grid::cells_with(d.cells, w, h, x as int, y as int, def_to_cell(to)),
            ..d
        },
        EditorAction::StructurePlaced { kind, x, y } => with_structure(d, kind),
        EditorAction::StructureRemoved { kind, x, y } => without_structure(d, kind),
        EditorAction::PlayerSpawnMoved { from, to } => EditorDoc { spawn: to, ..d },
    }
}

/// Terrain cell whose mesh must be rebuilt after undoing or redoing `a`.
pub open spec fn touched_cells(a: EditorAction) -> Seq<(u32, u32)> {
    match a {
        EditorAction::CellChanged { x, y, from, to } => seq![(x, y)],
        _ => Seq::empty(),
    }
}

/// `s` with `a` pushed, dropping the oldest entry beyond the history limit.
pub open spec fn pushed_capped(s: Seq<EditorAction>, a: EditorAction) -> Seq<EditorAction> {
    if s.len() + 1 > HISTORY_LIMIT {
        s.push(a).drop_first()
    } else {
        s.push(a)
    }
}

/// One undo: the newest history entry is taken back and moves to the redo
/// stack; with nothing to undo, nothing changes.
pub open spec fn undo_step(e0: EditorState, g0: MapGrid, e1: EditorState, g1: MapGrid, touched: Seq<(u32, u32)>) -> bool {
    &&& same_settings(e0, e1)
    &&& e1.dirty == e0.dirty
    &&& g1.width == g0.width
    &&& g1.height == g0.height
    &&& if e0.undo_stack@.len() == 0 {
        &&& doc_of(e1, g1) == doc_of(e0, g0)
        &&& e1.undo_stack@ == e0.undo_stack@
        &&& e1.redo_stack@ == e0.redo_stack@
        &&& touched.len() == 0
    } else {
        let a = e0.undo_stack@.last();
        &&& doc_of(e1, g1) == undo_doc(doc_of(e0, g0), g0.width as int, g0.height as int, a)
        &&& e1.undo_stack@ == e0.undo_stack@.drop_last()
        &&& e1.redo_stack@ == e0.redo_stack@.push(a)
        &&& touched == touched_cells(a)
    }
}

/// One redo: the newest redo entry is applied again and moves back to the
/// undo stack; with nothing to redo, nothing changes.
pub open spec fn redo_step(e0: EditorState, g0: MapGrid, e1: EditorState, g1: MapGrid, touched: Seq<(u32, u32)>) -> bool {
    &&& same_settings(e0, e1)
    &&& e1.dirty == e0.dirty
    &&& g1.width == g0.width
    &&& g1.height == g0.height
    &&& if e0.redo_stack@.len() == 0 {
        &&& doc_of(e1, g1) == doc_of(e0, g0)
        &&& e1.undo_stack@ == e0.undo_stack@
        &&& e1.redo_stack@ == e0.redo_stack@
        &&& touched.len() == 0
    } else {
        let a = e0.redo_stack@.last();
        &&& doc_of(e1, g1) == redo_doc(doc_of(e0, g0), g0.width as int, g0.height as int, a)
        &&& e1.redo_stack@ == e0.redo_stack@.drop_last()
        &&& e1.undo_stack@ == e0.undo_stack@.push(a)
        &&& touched == touched_cells(a)
    }
}

/// Drops every factory standing on `(x, y)`, keeping the others in order.
fn retain_factories_not_at(v: &mut Vec<FactoryDef>, x: u32, y: u32)
    ensures
        final(v)@ == old(v)@.filter(factory_not_at(x, y)),
{
    let mut kept: Vec<FactoryDef> = Vec::new();
    let mut i: usize = 0;
    while i < v.len()
        invariant
            i <= v@.len(),
            v@ == old(v)@,
            kept@ == v@.take(i as int).filter(factory_not_at(x, y)),
        decreases v@.len() - i,
    {
        let f = v[i];
        proof {
            assert(v@.take(i + 1) =~= v@.take(i as int).push(f));
            v@.take(i as int).lemma_filter_push(f, factory_not_at(x, y));
        }
        if !(f.x == x && f.y == y) {
            kept.push(f);
        }
        i = i + 1;
    }
    proof {
        assert(v@.take(i as int) =~= v@);
    }
    *v = kept;
}

/// Drops every warbase standing on `(x, y)`, keeping the others in order.
fn retain_warbases_not_at(v: &mut Vec<WarbaseDef>, x: u32, y: u32)
    ensures
        final(v)@ == old(v)@.filter(warbase_not_at(x, y)),
{
    let mut kept: Vec<WarbaseDef> = Vec::new();
    let mut i: usize = 0;
    while i < v.len()
        invariant
            i <= v@.len(),
            v@ == old(v)@,
            kept@ == v@.take(i as int).filter(warbase_not_at(x, y)),
        decreases v@.len() - i,
    {
        let w = v[i];
        proof {
            assert(v@.take(i + 1) =~= v@.take(i as int).push(w));
            v@.take(i as int).lemma_filter_push(w, warbase_not_at(x, y));
        }
        if !(w.x == x && w.y == y) {
            kept.push(w);
        }
        i = i + 1;
    }
    proof {
        assert(v@.take(i as int) =~= v@);
    }
    *v = kept;
}

/// Same map and history fields, as far as an edit of structures is concerned.
pub open spec fn same_except_structures(a: EditorState, b: EditorState) -> bool {
    &&& same_settings(a, b)
    &&& a.dirty == b.dirty
    &&& a.player_spawn == b.player_spawn
    &&& a.undo_stack == b.undo_stack
    &&& a.redo_stack == b.redo_stack
    &&& a.undo_requested == b.undo_requested
    &&& a.redo_requested == b.redo_requested
}

impl EditorState {
    /// Removes the structures of `k`'s kind that stand on `k`'s cell.
    fn remove_structure(&mut self, k: PlacedStructureKind)
        ensures
            same_except_structures(*old(self), *final(self)),
            final(self).factories@ == factories_without(old(self).factories@, k),
            final(self).warbases@ == warbases_without(old(self).warbases@, k),
    {
        match k {
            PlacedStructureKind::Factory(f) => retain_factories_not_at(&mut self.factories, f.x, f.y),
            PlacedStructureKind::Warbase(w) => retain_warbases_not_at(&mut self.warbases, w.x, w.y),
        }
    }

    /// Appends `k` to the list of its kind.
    fn add_structure(&mut self, k: PlacedStructureKind)
        ensures
            same_except_structures(*old(self), *final(self)),
            final(self).factories@ == factories_with(old(self).factories@, k),
            final(self).warbases@ == warbases_with(old(self).warbases@, k),
    {
        match k {
            PlacedStructureKind::Factory(f) => self.factories.push(f),
            PlacedStructureKind::Warbase(w) => self.warbases.push(w),
        }
    }
}

impl EditorState {
    /// Records `action` as the newest history entry: the redo stack is
    /// cleared, the oldest entry goes once more than `HISTORY_LIMIT` are held,
    /// and the map counts as changed.
    pub fn push_action(&mut self, action: EditorAction)
        requires
            old(self).undo_stack@.len() <= HISTORY_LIMIT,
        ensures
            final(self).wf(),
            final(self).undo_stack@ == pushed_capped(old(self).undo_stack@, action),
            final(self).redo_stack@.len() == 0,
            final(self).dirty,
            same_settings(*old(self), *final(self)),
            final(self).player_spawn == old(self).player_spawn,
            final(self).factories == old(self).factories,
            final(self).warbases == old(self).warbases,
            final(self).undo_requested == old(self).undo_requested,
            final(self).redo_requested == old(self).redo_requested,
    {
        self.undo_stack.push(action);
        self.redo_stack.clear();
        if self.undo_stack.len() > HISTORY_LIMIT {
            self.undo_stack.remove(0);
            proof {
                assert(self.undo_stack@ =~= old(self).undo_stack@.push(action).drop_first());
            }
        }
        self.dirty = true;
    }

    /// Starts an empty map of `size`: spawn at `(2, 2)`, no structures, no
    /// history, nothing to save, the new-map dialog closed. The terrain grid
    /// is replaced by the caller.
    pub fn reset_to_empty(&mut self, size: MapSize)
        ensures
            final(self).wf(),
            final(self).map_size == size,
            final(self).player_spawn == (2u32, 2u32),
            final(self).factories@.len() == 0,
            final(self).warbases@.len() == 0,
            final(self).undo_stack@.len() == 0,
            final(self).redo_stack@.len() == 0,
            !final(self).dirty,
            !final(self).show_new_map_dialog,
            final(self).current_tool == old(self).current_tool,
            final(self).brush_cell_type == old(self).brush_cell_type,
            final(self).brush_size == old(self).brush_size,
            final(self).factory_type == old(self).factory_type,
            final(self).place_team == old(self).place_team,
            final(self).map_name == old(self).map_name,
            final(self).map_description == old(self).map_description,
            final(self).file_name == old(self).file_name,
            final(self).undo_requested == old(self).undo_requested,
            final(self).redo_requested == old(self).redo_requested,
            final(self).play_test_requested == old(self).play_test_requested,
            final(self).hovered_cell == old(self).hovered_cell,
            final(self).show_open_dialog == old(self).show_open_dialog,
            final(self).show_exit_dialog == old(self).show_exit_dialog,
            final(self).show_validation_error == old(self).show_validation_error,
            final(self).available_maps == old(self).available_maps,
            final(self).new_map_size == old(self).new_map_size,
    {
        self.map_size = size;
        self.player_spawn = (2, 2);
        self.factories.clear();
        self.warbases.clear();
        self.undo_stack.clear();
        self.redo_stack.clear();
        self.dirty = false;
        self.show_new_map_dialog = false;
    }
}

/// History, request flags and the changed mark are equal.
pub open spec fn same_history(a: EditorState, b: EditorState) -> bool {
    &&& a.undo_stack == b.undo_stack
    &&& a.redo_stack == b.redo_stack
    &&& a.dirty == b.dirty
    &&& a.undo_requested == b.undo_requested
    &&& a.redo_requested == b.redo_requested
}

/// Applies `action` backwards (`forward == false`) or forwards to the map.
fn apply_action(editor: &mut EditorState, grid: &mut MapGrid, action: EditorAction, forward: bool) -> (touched: Vec<(u32, u32)>)
    requires
        old(grid).wf(),
    ensures
        final(grid).wf(),
        final(grid).width == old(grid).width,
        final(grid).height == old(grid).height,
        same_settings(*old(editor), *final(editor)),
        same_history(*old(editor), *final(editor)),
        doc_of(*final(editor), *final(grid)) == if forward {
            redo_doc(doc_of(*old(editor), *old(grid)), old(grid).width as int, old(grid).height as int, action)
        } else {
            undo_doc(doc_of(*old(editor), *old(grid)), old(grid).width as int, old(grid).height as int, action)
        },
        touched@ == touched_cells(action),
{
    let mut touched: Vec<(u32, u32)> = Vec::new();
    match action {
        EditorAction::CellChanged { x, y, from, to } => {
            let ct = if forward {
                cell_type_def_to_ct(&to)
            } else {
                cell_type_def_to_ct(&from)
            };
            grid.set(x, y, ct);
            touched.push((x, y));
            proof {
                assert(touched@ =~= touched_cells(action));
            }
        },
        EditorAction::StructurePlaced { kind, x: _, y: _ } => {
            if forward {
                editor.add_structure(kind);
            } else {
                editor.remove_structure(kind);
            }
        },
        EditorAction::StructureRemoved { kind, x: _, y: _ } => {
            if forward {
                editor.remove_structure(kind);
            } else {
                editor.add_structure(kind);
            }
        },
        EditorAction::PlayerSpawnMoved { from, to } => {
            editor.player_spawn = if forward {
                to
            } else {
                from
            };
        },
    }
    touched
}

/// Takes back the newest history entry and moves it to the redo stack.
/// Returns the terrain cells whose look changed.
fn undo(editor: &mut EditorState, grid: &mut MapGrid) -> (touched: Vec<(u32, u32)>)
    requires
        old(editor).wf(),
        old(grid).wf(),
    ensures
        final(editor).wf(),
        final(grid).wf(),
        undo_step(*old(editor), *old(grid), *final(editor), *final(grid), touched@),
        final(editor).undo_requested == old(editor).undo_requested,
        final(editor).redo_requested == old(editor).redo_requested,
{
    match editor.undo_stack.pop() {
        None => Vec::new(),
        Some(action) => {
            let touched = apply_action(editor, grid, action, false);
            editor.redo_stack.push(action);
            touched
        },
    }
}

/// Applies the newest redo entry again and moves it back to the undo stack.
/// Returns the terrain cells whose look changed.
fn redo(editor: &mut EditorState, grid: &mut MapGrid) -> (touched: Vec<(u32, u32)>)
    requires
        old(editor).wf(),
        old(grid).wf(),
    ensures
        final(editor).wf(),
        final(grid).wf(),
        redo_step(*old(editor), *old(grid), *final(editor), *final(grid), touched@),
        final(editor).undo_requested == old(editor).undo_requested,
        final(editor).redo_requested == old(editor).redo_requested,
{
    match editor.redo_stack.pop() {
        None => Vec::new(),
        Some(action) => {
            let touched = apply_action(editor, grid, action, true);
            editor.undo_stack.push(action);
            touched
        },
    }
}

/// The newest `HISTORY_LIMIT` entries of `t`.
pub open spec fn keep_last(t: Seq<EditorAction>) -> Seq<EditorAction> {
    if t.len() > HISTORY_LIMIT {
        t.subrange(t.len() - HISTORY_LIMIT, t.len() as int)
    } else {
        t
    }
}

/// Pushing one entry at a time, each push capped, keeps the newest
/// `HISTORY_LIMIT` entries of everything pushed.
pub proof fn lemma_capped_push_keeps_newest(t: Seq<EditorAction>, a: EditorAction)
    ensures
        pushed_capped(keep_last(t), a) == keep_last(t.push(a)),
{
    let k = keep_last(t);
    if t.len() > HISTORY_LIMIT {
        assert(k.push(a).drop_first() =~= t.push(a).subrange(t.push(a).len() - HISTORY_LIMIT, t.push(a).len() as int));
    } else if t.len() == HISTORY_LIMIT {
        assert(k.push(a).drop_first() =~= t.push(a).subrange(t.push(a).len() - HISTORY_LIMIT, t.push(a).len() as int));
    }
}

/// An edit that records `a`: it becomes the newest undo entry, the redo
/// stack empties and the map counts as changed.
pub open spec fn recorded(e0: EditorState, e1: EditorState, a: EditorAction) -> bool {
    &&& e1.undo_stack@ == pushed_capped(e0.undo_stack@, a)
    &&& e1.redo_stack@.len() == 0
    &&& e1.dirty
}

/// Nothing the user can see or undo changed.
pub open spec fn untouched(e0: EditorState, g0: MapGrid, e1: EditorState, g1: MapGrid, touched: Seq<(u32, u32)>) -> bool {
    &&& same_settings(e0, e1)
    &&& e1.dirty == e0.dirty
    &&& doc_of(e1, g1) == doc_of(e0, g0)
    &&& g1.width == g0.width
    &&& g1.height == g0.height
    &&& e1.undo_stack@ == e0.undo_stack@
    &&& e1.redo_stack@ == e0.redo_stack@
    &&& touched.len() == 0
}

/// Placing structure `k` on cell `(cx, cy)`: allowed only on an open grid
/// cell; the structure joins its list and the placement is recorded.
pub open spec fn place_step(
    e0: EditorState,
    g0: MapGrid,
    e1: EditorState,
    g1: MapGrid,
    k: PlacedStructureKind,
    cx: u32,
    cy: u32,
    touched: Seq<(u32, u32)>,
) -> bool {
    if g0.get_spec(cx as int, cy as int) == Some(CellType::Open) {
        &&& same_settings(e0, e1)
        &&& doc_of(e1, g1) == with_structure(doc_of(e0, g0), k)
        &&& g1.width == g0.width
        &&& g1.height == g0.height
        &&& recorded(e0, e1, EditorAction::StructurePlaced { kind: k, x: cx, y: cy })
        &&& touched.len() == 0
    } else {
        untouched(e0, g0, e1, g1, touched)
    }
}

/// Moving the player's spawn point to `(cx, cy)`, recorded.
pub open spec fn spawn_step(e0: EditorState, g0: MapGrid, e1: EditorState, g1: MapGrid, cx: u32, cy: u32, touched: Seq<(u32, u32)>) -> bool {
    &&& same_settings(e0, e1)
    &&& doc_of(e1, g1) == EditorDoc { spawn: (cx, cy), ..doc_of(e0, g0) }
    &&& g1.width == g0.width
    &&& g1.height == g0.height
    &&& recorded(e0, e1, EditorAction::PlayerSpawnMoved { from: e0.player_spawn, to: (cx, cy) })
    &&& touched.len() == 0
}

/// Index of the first element of `s` that satisfies `at`.
pub open spec fn first_at<T>(s: Seq<T>, at: spec_fn(T) -> bool) -> Option<int>
    decreases s.len(),
{
    if s.len() == 0 {
        None
    } else {
        match first_at(s.drop_last(), at) {
            Some(i) => Some(i),
            None => if at(s.last()) {
                Some(s.len() - 1)
            } else {
                None
            },
        }
    }
}

/// `first_at` finds the first match, or reports that there is none.
pub proof fn lemma_first_at<T>(s: Seq<T>, at: spec_fn(T) -> bool)
    ensures
        match first_at(s, at) {
            Some(i) => 0 <= i < s.len() && at(s[i]) && forall|j: int| 0 <= j < i ==> !at(#[trigger] s[j]),
            None => forall|j: int| 0 <= j < s.len() ==> !at(#[trigger] s[j]),
        },
    decreases s.len(),
{
    if s.len() > 0 {
        lemma_first_at(s.drop_last(), at);
        assert forall|j: int| 0 <= j < s.len() - 1 implies s.drop_last()[j] == s[j] by {}
    }
}

pub open spec fn factory_at(x: u32, y: u32) -> spec_fn(FactoryDef) -> bool {
    |f: FactoryDef| f.x == x && f.y == y
}

pub open spec fn warbase_at(x: u32, y: u32) -> spec_fn(WarbaseDef) -> bool {
    |w: WarbaseDef| w.x == x && w.y == y
}

/// Erasing at `(cx, cy)`: the first factory there goes, or else the first
/// warbase there; the removal is recorded. With neither, nothing changes.
pub open spec fn erase_step(e0: EditorState, g0: MapGrid, e1: EditorState, g1: MapGrid, cx: u32, cy: u32, touched: Seq<(u32, u32)>) -> bool {
    match first_at(e0.factories@, factory_at(cx, cy)) {
        Some(i) => {
            &&& same_settings(e0, e1)
            &&& doc_of(e1, g1) == EditorDoc { factories: e0.factories@.remove(i), ..doc_of(e0, g0) }
            &&& g1.width == g0.width
            &&& g1.height == g0.height
            &&& recorded(e0, e1, EditorAction::StructureRemoved {
                kind: PlacedStructureKind::Factory(e0.factories@[i]),
                x: cx,
                y: cy,
            })
            &&& touched.len() == 0
        },
        None => match first_at(e0.warbases@, warbase_at(cx, cy)) {
            Some(i) => {
                &&& same_settings(e0, e1)
                &&& doc_of(e1, g1) == EditorDoc { warbases: e0.warbases@.remove(i), ..doc_of(e0, g0) }
                &&& g1.width == g0.width
                &&& g1.height == g0.height
                &&& recorded(e0, e1, EditorAction::StructureRemoved {
                    kind: PlacedStructureKind::Warbase(e0.warbases@[i]),
                    x: cx,
                    y: cy,
                })
                &&& touched.len() == 0
            },
            None => untouched(e0, g0, e1, g1, touched),
        },
    }
}

/// Places `k` on `(cx, cy)` if that grid cell is open.
fn place_structure(editor: &mut EditorState, grid: &MapGrid, k: PlacedStructureKind, cx: u32, cy: u32)
    requires
        old(editor).wf(),
        grid.wf(),
    ensures
        final(editor).wf(),
        place_step(*old(editor), *grid, *final(editor), *grid, k, cx, cy, Seq::empty()),
        final(editor).undo_requested == old(editor).undo_requested,
        final(editor).redo_requested == old(editor).redo_requested,
{
    match grid.get(cx, cy) {
        Some(CellType::Open) => {
            editor.push_action(EditorAction::StructurePlaced { kind: k, x: cx, y: cy });
            editor.add_structure(k);
        },
        _ => {},
    }
}

/// Moves the player's spawn point to `(cx, cy)`.
fn move_spawn(editor: &mut EditorState, grid: &MapGrid, cx: u32, cy: u32)
    requires
        old(editor).wf(),
    ensures
        final(editor).wf(),
        spawn_step(*old(editor), *grid, *final(editor), *grid, cx, cy, Seq::empty()),
        final(editor).undo_requested == old(editor).undo_requested,
        final(editor).redo_requested == old(editor).redo_requested,
{
    let from = editor.player_spawn;
    editor.push_action(EditorAction::PlayerSpawnMoved { from, to: (cx, cy) });
    editor.player_spawn = (cx, cy);
}

/// Removes the first factory on `(cx, cy)`, or else the first warbase there.
fn erase_at(editor: &mut EditorState, grid: &MapGrid, cx: u32, cy: u32)
    requires
        old(editor).wf(),
    ensures
        final(editor).wf(),
        erase_step(*old(editor), *grid, *final(editor), *grid, cx, cy, Seq::empty()),
        final(editor).undo_requested == old(editor).undo_requested,
        final(editor).redo_requested == old(editor).redo_requested,
{
    let mut i: usize = 0;
    while i < editor.factories.len()
        invariant
            i <= editor.factories@.len(),
            *editor == *old(editor),
            old(editor).wf(),
            forall|j: int| 0 <= j < i ==> !(#[trigger] factory_at(cx, cy)(editor.factories@[j])),
        decreases editor.factories@.len() - i,
    {
        if editor.factories[i].x == cx && editor.factories[i].y == cy {
            proof {
                lemma_first_at(editor.factories@, factory_at(cx, cy));
                assert(first_at(editor.factories@, factory_at(cx, cy)) == Some(i as int));
            }
            let removed = editor.factories.remove(i);
            editor.push_action(EditorAction::StructureRemoved {
                kind: PlacedStructureKind::Factory(removed),
                x: cx,
                y: cy,
            });
            return;
        }
        i = i + 1;
    }
    proof {
        lemma_first_at(editor.factories@, factory_at(cx, cy));
        assert(first_at(editor.factories@, factory_at(cx, cy)) is None);
    }
    let mut i: usize = 0;
    while i < editor.warbases.len()
        invariant
            i <= editor.warbases@.len(),
            *editor == *old(editor),
            old(editor).wf(),
            first_at(editor.factories@, factory_at(cx, cy)) is None,
            forall|j: int| 0 <= j < i ==> !(#[trigger] warbase_at(cx, cy)(editor.warbases@[j])),
        decreases editor.warbases@.len() - i,
    {
        if editor.warbases[i].x == cx && editor.warbases[i].y == cy {
            proof {
                lemma_first_at(editor.warbases@, warbase_at(cx, cy));
                assert(first_at(editor.warbases@, warbase_at(cx, cy)) == Some(i as int));
            }
            let removed = editor.warbases.remove(i);
            editor.push_action(EditorAction::StructureRemoved {
                kind: PlacedStructureKind::Warbase(removed),
                x: cx,
                y: cy,
            });
            return;
        }
        i = i + 1;
    }
    proof {
        lemma_first_at(editor.warbases@, warbase_at(cx, cy));
        assert(first_at(editor.warbases@, warbase_at(cx, cy)) is None);
    }
}

/// Side length of the brush square of radius `r`.
pub open spec fn brush_side(r: int) -> int {
    2 * r + 1
}

/// The cells of the brush square centred on `(cx, cy)`, row by row.
pub open spec fn brush_square(cx: int, cy: int, r: int) -> Seq<(int, int)> {
    Seq::new(
        (brush_side(r) * brush_side(r)) as nat,
        |i: int| (cx - r + i % brush_side(r), cy - r + i / brush_side(r)),
    )
}

/// Terrain of `(x, y)`, open off the grid.
pub open spec fn kind_or_open(g: MapGrid, x: int, y: int) -> CellType {
    match g.get_spec(x, y) {
        Some(c) => c,
        None => CellType::Open,
    }
}

/// Whether the brush changes cell `p`: it lies on the map and its terrain
/// differs from the brush's.
pub open spec fn repaints(e: EditorState, g: MapGrid, p: (int, int)) -> bool {
    &&& 0 <= p.0 < map_side(e.map_size)
    &&& 0 <= p.1 < map_side(e.map_size)
    &&& kind_or_open(g, p.0, p.1) != def_to_cell(e.brush_cell_type)
}

/// History entry for repainting cell `p`.
pub open spec fn paint_action(e: EditorState, g: MapGrid, p: (int, int)) -> EditorAction {
    EditorAction::CellChanged {
        x: p.0 as u32,
        y: p.1 as u32,
        from: cell_to_def(kind_or_open(g, p.0, p.1)),
        to: e.brush_cell_type,
    }
}

pub open spec fn repaint_pred(e: EditorState, g: MapGrid) -> spec_fn((int, int)) -> bool {
    |p: (int, int)| repaints(e, g, p)
}

pub open spec fn paint_fn(e: EditorState, g: MapGrid) -> spec_fn((int, int)) -> EditorAction {
    |p: (int, int)| paint_action(e, g, p)
}

pub open spec fn cell_fn() -> spec_fn((int, int)) -> (u32, u32) {
    |p: (int, int)| (p.0 as u32, p.1 as u32)
}

/// The cells a brush stroke on `(cx, cy)` repaints, in painting order.
pub open spec fn brush_targets(e: EditorState, g: MapGrid, cx: int, cy: int) -> Seq<(int, int)> {
    brush_square(cx, cy, brush_radius(e.brush_size)).filter(repaint_pred(e, g))
}

/// Whether `(x, y)` lies under the brush on `(cx, cy)` and on the map.
pub open spec fn under_brush(e: EditorState, cx: int, cy: int, x: int, y: int) -> bool {
    let r = brush_radius(e.brush_size);
    &&& cx - r <= x <= cx + r
    &&& cy - r <= y <= cy + r
    &&& 0 <= x < map_side(e.map_size)
    &&& 0 <= y < map_side(e.map_size)
}

/// A brush stroke on `(cx, cy)`: every grid cell under the brush takes the
/// brush's terrain; each cell that changed is recorded as its own history
/// entry, in painting order.
pub open spec fn brush_step(
    e0: EditorState,
    g0: MapGrid,
    e1: EditorState,
    g1: MapGrid,
    cx: int,
    cy: int,
    touched: Seq<(u32, u32)>,
) -> bool {
    let acts = brush_targets(e0, g0, cx, cy).map_values(paint_fn(e0, g0));
    &&& same_settings(e0, e1)
    &&& e1.player_spawn == e0.player_spawn
    &&& e1.factories == e0.factories
    &&& e1.warbases == e0.warbases
    &&& g1.width == g0.width
    &&& g1.height == g0.height
    &&& forall|x: int, y: int| #[trigger] g1.get_spec(x, y) == if under_brush(e0, cx, cy, x, y) && g0.in_bounds(x, y) {
        Some(def_to_cell(e0.brush_cell_type))
    } else {
        g0.get_spec(x, y)
    }
    &&& touched == brush_targets(e0, g0, cx, cy).map_values(cell_fn())
    &&& e1.undo_stack@ == keep_last(e0.undo_stack@ + acts)
    &&& if acts.len() == 0 {
        &&& e1.redo_stack@ == e0.redo_stack@
        &&& e1.dirty == e0.dirty
    } else {
        &&& e1.redo_stack@.len() == 0
        &&& e1.dirty
    }
}

/// Whether the brush on `(cx, cy)` has reached cell `(x, y)` after its first
/// `i` steps.
pub open spec fn painted_before(e: EditorState, cx: int, cy: int, x: int, y: int, i: int) -> bool {
    let r = brush_radius(e.brush_size);
    &&& under_brush(e, cx, cy, x, y)
    &&& (y - cy + r) * brush_side(r) + (x - cx + r) < i
}

/// The grid `g` is `g0` with the first `i` brush steps painted in terrain `ct`.
pub open spec fn grid_painted(e0: EditorState, g0: MapGrid, g: MapGrid, cx: int, cy: int, i: int, ct: CellType) -> bool {
    forall|x: int, y: int| #[trigger] g.get_spec(x, y) == if painted_before(e0, cx, cy, x, y, i) && g0.in_bounds(x, y) {
        Some(ct)
    } else {
        g0.get_spec(x, y)
    }
}

proof fn lemma_brush_cell_index(e0: EditorState, cx: int, cy: int, i: int)
    requires
        0 <= i < brush_side(brush_radius(e0.brush_size)) * brush_side(brush_radius(e0.brush_size)),
    ensures
        ({
            let r = brush_radius(e0.brush_size);
            let p = brush_square(cx, cy, r)[i];
            &&& (p.1 - cy + r) * brush_side(r) + (p.0 - cx + r) == i
            &&& cx - r <= p.0 <= cx + r
            &&& cy - r <= p.1 <= cy + r
        }),
{
    let r = brush_radius(e0.brush_size);
    let side = brush_side(r);
    crate::grid::lemma_index_of_position(side, i);
    assert(i / side < side) by {
        vstd::arithmetic::div_mod::lemma_div_by_multiple_is_strongly_ordered(i, side * side, side, side);
        vstd::arithmetic::div_mod::lemma_div_by_multiple(side, side);
    }
}

proof fn lemma_paint_next(e0: EditorState, g0: MapGrid, g: MapGrid, g2: MapGrid, cx: int, cy: int, i: int, ct: CellType)
    requires
        grid_painted(e0, g0, g, cx, cy, i, ct),
        0 <= i < brush_side(brush_radius(e0.brush_size)) * brush_side(brush_radius(e0.brush_size)),
        g.width == g0.width,
        g.height == g0.height,
        ({
            let p = brush_square(cx, cy, brush_radius(e0.brush_size))[i];
            if under_brush(e0, cx, cy, p.0, p.1) && kind_or_open(g0, p.0, p.1) != ct {
                forall|x: int, y: int| #[trigger] g2.get_spec(x, y) == if x == p.0 && y == p.1 && g.in_bounds(x, y) {
                    Some(ct)
                } else {
                    g.get_spec(x, y)
                }
            } else {
                forall|x: int, y: int| #[trigger] g2.get_spec(x, y) == g.get_spec(x, y)
            }
        }),
    ensures
        grid_painted(e0, g0, g2, cx, cy, i + 1, ct),
{
    let r = brush_radius(e0.brush_size);
    let side = brush_side(r);
    let p = brush_square(cx, cy, r)[i];
    lemma_brush_cell_index(e0, cx, cy, i);
    assert forall|x: int, y: int| #[trigger] g2.get_spec(x, y) == if painted_before(e0, cx, cy, x, y, i + 1) && g0.in_bounds(x, y) {
        Some(ct)
    } else {
        g0.get_spec(x, y)
    } by {
        assert(g.get_spec(x, y) == if painted_before(e0, cx, cy, x, y, i) && g0.in_bounds(x, y) {
            Some(ct)
        } else {
            g0.get_spec(x, y)
        });
        if under_brush(e0, cx, cy, x, y) && (y - cy + r) * side + (x - cx + r) == i {
            crate::grid::lemma_index_injective(side, x - cx + r, y - cy + r, p.0 - cx + r, p.1 - cy + r);
        }
        if x == p.0 && y == p.1 {
            assert(!painted_before(e0, cx, cy, x, y, i));
        }
    }
}

/// State of a brush stroke on `(cx, cy)` after its first `i` steps.
pub open spec fn brush_progress(
    e0: EditorState,
    g0: MapGrid,
    e: EditorState,
    g: MapGrid,
    touched: Seq<(u32, u32)>,
    cx: int,
    cy: int,
    i: int,
) -> bool {
    let done = brush_square(cx, cy, brush_radius(e0.brush_size)).take(i).filter(repaint_pred(e0, g0));
    &&& e.wf()
    &&& g.wf()
    &&& same_settings(e0, e)
    &&& e.player_spawn == e0.player_spawn
    &&& e.factories == e0.factories
    &&& e.warbases == e0.warbases
    &&& e.undo_requested == e0.undo_requested
    &&& e.redo_requested == e0.redo_requested
    &&& g.width == g0.width
    &&& g.height == g0.height
    &&& grid_painted(e0, g0, g, cx, cy, i, def_to_cell(e0.brush_cell_type))
    &&& touched == done.map_values(cell_fn())
    &&& e.undo_stack@ == keep_last(e0.undo_stack@ + done.map_values(paint_fn(e0, g0)))
    &&& if done.len() == 0 {
        &&& e.redo_stack@ == e0.redo_stack@
        &&& e.dirty == e0.dirty
    } else {
        &&& e.redo_stack@.len() == 0
        &&& e.dirty
    }
}

/// Step `i` of a brush stroke: repaints the `i`-th cell of the square if it
/// lies on the map and differs from the brush.
#[verifier::rlimit(60)]
fn brush_visit(
    editor: &mut EditorState,
    grid: &mut MapGrid,
    touched: &mut Vec<(u32, u32)>,
    Ghost(e0): Ghost<EditorState>,
    Ghost(g0): Ghost<MapGrid>,
    cx: u32,
    cy: u32,
    i: i64,
    r: i64,
    side: i64,
    size: i64,
    brush_def: CellTypeDef,
    brush_ct: CellType,
)
    requires
        brush_progress(e0, g0, *old(editor), *old(grid), old(touched)@, cx as int, cy as int, i as int),
        0 <= r <= 2,
        side == 2 * r + 1,
        0 <= i < side * side,
        side * side <= 25,
        r == brush_radius(e0.brush_size),
        size == map_side(e0.map_size),
        cx < size,
        cy < size,
        brush_def == e0.brush_cell_type,
        brush_ct == def_to_cell(e0.brush_cell_type),
        e0.wf(),
        g0.wf(),
    ensures
        brush_progress(e0, g0, *final(editor), *final(grid), final(touched)@, cx as int, cy as int, i + 1),
{
    let ghost sq = brush_square(cx as int, cy as int, r as int);
    assert(0 <= i / side <= i) by (nonlinear_arith)
        requires
            0 <= i,
            side >= 1,
    ;
    let nx: i64 = cx as i64 - r + i % side;
    let ny: i64 = cy as i64 - r + i / side;
    let ghost p = sq[i as int];
    let ghost before = sq.take(i as int).filter(repaint_pred(e0, g0));
    let ghost g_before = *grid;
    proof {
        assert(p == (nx as int, ny as int));
        assert(sq.take(i + 1) =~= sq.take(i as int).push(p));
        sq.take(i as int).lemma_filter_push(p, repaint_pred(e0, g0));
        lemma_brush_cell_index(e0, cx as int, cy as int, i as int);
        assert(!painted_before(e0, cx as int, cy as int, p.0, p.1, i as int));
        assert(grid.get_spec(p.0, p.1) == g0.get_spec(p.0, p.1));
    }
    if 0 <= nx && 0 <= ny && nx < size && ny < size {
        let ux: u32 = nx as u32;
        let uy: u32 = ny as u32;
        let from_ct = match grid.get(ux, uy) {
            Some(c) => c,
            None => CellType::Open,
        };
        if from_ct != brush_ct {
            let from_def = ct_to_cell_type_def(from_ct);
            let action = EditorAction::CellChanged { x: ux, y: uy, from: from_def, to: brush_def };
            proof {
                assert(repaints(e0, g0, p));
                assert(action == paint_action(e0, g0, p));
                lemma_capped_push_keeps_newest(e0.undo_stack@ + before.map_values(paint_fn(e0, g0)), action);
                assert((e0.undo_stack@ + before.map_values(paint_fn(e0, g0))).push(action) =~= e0.undo_stack@
                    + before.push(p).map_values(paint_fn(e0, g0)));
                assert(touched@.push((ux, uy)) =~= before.push(p).map_values(cell_fn()));
            }
            editor.push_action(action);
            grid.set(ux, uy, brush_ct);
            touched.push((ux, uy));
            proof {
                lemma_paint_next(e0, g0, g_before, *grid, cx as int, cy as int, i as int, brush_ct);
            }
        } else {
            proof {
                assert(!repaints(e0, g0, p));
                lemma_paint_next(e0, g0, g_before, *grid, cx as int, cy as int, i as int, brush_ct);
            }
        }
    } else {
        proof {
            assert(!repaints(e0, g0, p));
            assert(!under_brush(e0, cx as int, cy as int, p.0, p.1));
            lemma_paint_next(e0, g0, g_before, *grid, cx as int, cy as int, i as int, brush_ct);
        }
    }
}

/// Paints the brush square around `(cx, cy)` with the brush's terrain, one
/// recorded history entry per cell that changes. Returns those cells.
fn apply_brush(editor: &mut EditorState, grid: &mut MapGrid, cx: u32, cy: u32) -> (touched: Vec<(u32, u32)>)
    requires
        old(editor).wf(),
        old(grid).wf(),
        cx < map_side(old(editor).map_size),
        cy < map_side(old(editor).map_size),
    ensures
        final(editor).wf(),
        final(grid).wf(),
        brush_step(*old(editor), *old(grid), *final(editor), *final(grid), cx as int, cy as int, touched@),
        final(editor).undo_requested == old(editor).undo_requested,
        final(editor).redo_requested == old(editor).redo_requested,
{
    let ghost e0 = *editor;
    let ghost g0 = *grid;
    let r: i64 = editor.brush_size.radius() as i64;
    let side: i64 = 2 * r + 1;
    let brush_def = editor.brush_cell_type;
    let brush_ct = cell_type_def_to_ct(&brush_def);
    let size: i64 = editor.map_size.value() as i64;
    assert(side * side <= 25) by (nonlinear_arith)
        requires
            1 <= side <= 5,
    ;
    let n: i64 = side * side;
    let ghost sq = brush_square(cx as int, cy as int, r as int);
    let mut touched: Vec<(u32, u32)> = Vec::new();
    let mut i: i64 = 0;
    proof {
        assert(sq.take(0) =~= Seq::<(int, int)>::empty());
        reveal(Seq::filter);
        assert(e0.undo_stack@ + Seq::<(int, int)>::empty().filter(repaint_pred(e0, g0)).map_values(paint_fn(e0, g0)) =~= e0.undo_stack@);
        assert(touched@ =~= Seq::<(int, int)>::empty().filter(repaint_pred(e0, g0)).map_values(cell_fn()));
    }
    while i < n
        invariant
            0 <= r <= 2,
            side == 2 * r + 1,
            n == side * side,
            n <= 25,
            r == brush_radius(e0.brush_size),
            size == map_side(e0.map_size),
            brush_def == e0.brush_cell_type,
            brush_ct == def_to_cell(e0.brush_cell_type),
            sq == brush_square(cx as int, cy as int, r as int),
            cx < size,
            cy < size,
            0 <= i <= n,
            e0.wf(),
            g0.wf(),
            brush_progress(e0, g0, *editor, *grid, touched@, cx as int, cy as int, i as int),
        decreases n - i,
    {
        brush_visit(editor, grid, &mut touched, Ghost(e0), Ghost(g0), cx, cy, i, r, side, size, brush_def, brush_ct);
        i = i + 1;
    }
    proof {
        assert(sq.take(i as int) =~= sq);
        assert forall|x: int, y: int| painted_before(e0, cx as int, cy as int, x, y, i as int) == under_brush(e0, cx as int, cy as int, x, y) by {
            if under_brush(e0, cx as int, cy as int, x, y) {
                crate::grid::lemma_index_in_range(side as int, side as int, x - cx + r, y - cy + r);
            }
        }
    }
    touched
}

/// Input the editor reads in one frame.
#[derive(Debug, Clone, Copy, PartialEq, Eq, Structural)]
pub struct ToolInput {
    /// Z went down this frame.
    pub z_pressed: bool,
    /// Left Ctrl is held.
    pub ctrl_held: bool,
    /// Left Shift is held.
    pub shift_held: bool,
    /// The left mouse button went down this frame.
    pub left_clicked: bool,
}

/// The hovered cell, if it lies on the map.
pub open spec fn click_cell(e: EditorState) -> Option<(u32, u32)> {
    match e.hovered_cell {
        Some(c) => if c.0 < map_side(e.map_size) && c.1 < map_side(e.map_size) {
            Some(c)
        } else {
            None
        },
        None => None,
    }
}

/// What a click on cell `(cx, cy)` does with the current tool.
pub open spec fn click_step(e0: EditorState, g0: MapGrid, e1: EditorState, g1: MapGrid, cx: u32, cy: u32, touched: Seq<(u32, u32)>) -> bool {
    match e0.current_tool {
        EditorTool::TerrainBrush => brush_step(e0, g0, e1, g1, cx as int, cy as int, touched),
        EditorTool::PlaceFactory => place_step(
            e0,
            g0,
            e1,
            g1,
            PlacedStructureKind::Factory(FactoryDef { x: cx, y: cy, factory_type: e0.factory_type, team: e0.place_team }),
            cx,
            cy,
            touched,
        ),
        EditorTool::PlaceWarbase => place_step(
            e0,
            g0,
            e1,
            g1,
            PlacedStructureKind::Warbase(WarbaseDef { x: cx, y: cy, team: e0.place_team }),
            cx,
            cy,
            touched,
        ),
        EditorTool::PlacePlayerSpawn => spawn_step(e0, g0, e1, g1, cx, cy, touched),
        EditorTool::Erase => erase_step(e0, g0, e1, g1, cx, cy, touched),
    }
}

/// One frame of the editor: Ctrl+Shift+Z redoes, Ctrl+Z undoes; otherwise a
/// pending undo or redo request from the toolbox is served (both requests
/// are consumed); otherwise a left click on a map cell applies the current
/// tool there. Returns the terrain cells whose look changed.
pub fn apply_tool(editor: &mut EditorState, grid: &mut MapGrid, input: ToolInput) -> (touched: Vec<(u32, u32)>)
    requires
        old(editor).wf(),
        old(grid).wf(),
    ensures
        final(editor).wf(),
        final(grid).wf(),
        if input.z_pressed && input.ctrl_held {
            &&& final(editor).undo_requested == old(editor).undo_requested
            &&& final(editor).redo_requested == old(editor).redo_requested
            &&& if input.shift_held {
                redo_step(*old(editor), *old(grid), *final(editor), *final(grid), touched@)
            } else {
                undo_step(*old(editor), *old(grid), *final(editor), *final(grid), touched@)
            }
        } else {
            &&& !final(editor).undo_requested
            &&& !final(editor).redo_requested
            &&& if old(editor).undo_requested {
                undo_step(*old(editor), *old(grid), *final(editor), *final(grid), touched@)
            } else if old(editor).redo_requested {
                redo_step(*old(editor), *old(grid), *final(editor), *final(grid), touched@)
            } else if input.left_clicked && click_cell(*old(editor)) is Some {
                click_step(
                    *old(editor),
                    *old(grid),
                    *final(editor),
                    *final(grid),
                    click_cell(*old(editor)).unwrap().0,
                    click_cell(*old(editor)).unwrap().1,
                    touched@,
                )
            } else {
                untouched(*old(editor), *old(grid), *final(editor), *final(grid), touched@)
            }
        },
        ({
            let c = old(editor).hovered_cell.unwrap();
            let plain_click = !(input.z_pressed && input.ctrl_held) && !old(editor).undo_requested
                && !old(editor).redo_requested && input.left_clicked && old(editor).hovered_cell is Some
                && c.0 < map_side(old(editor).map_size) && c.1 < map_side(old(editor).map_size);
            let placing = old(editor).current_tool == EditorTool::PlaceFactory || old(editor).current_tool
                == EditorTool::PlaceWarbase;
            plain_click && placing ==> if old(grid).get_spec(c.0 as int, c.1 as int) == Some(CellType::Open) {
                &&& old(editor).current_tool == EditorTool::PlaceFactory ==> final(editor).factories@ == old(
                    editor,
                ).factories@.push(
                    FactoryDef { x: c.0, y: c.1, factory_type: old(editor).factory_type, team: old(editor).place_team },
                ) && final(editor).warbases@ == old(editor).warbases@
                &&& old(editor).current_tool == EditorTool::PlaceWarbase ==> final(editor).warbases@ == old(
                    editor,
                ).warbases@.push(WarbaseDef { x: c.0, y: c.1, team: old(editor).place_team })
                    && final(editor).factories@ == old(editor).factories@
                &&& final(grid).cells@ == old(grid).cells@
            } else {
                &&& final(editor).factories@ == old(editor).factories@
                &&& final(editor).warbases@ == old(editor).warbases@
                &&& final(editor).undo_stack@ == old(editor).undo_stack@
                &&& final(editor).redo_stack@ == old(editor).redo_stack@
                &&& final(editor).dirty == old(editor).dirty
                &&& final(grid).cells@ == old(grid).cells@
            }
        }),
{
    if input.z_pressed && input.ctrl_held && input.shift_held {
        return redo(editor, grid);
    }
    if input.z_pressed && input.ctrl_held {
        return undo(editor, grid);
    }
    let do_undo = editor.undo_requested;
    let do_redo = editor.redo_requested;
    editor.undo_requested = false;
    editor.redo_requested = false;
    if do_undo {
        return undo(editor, grid);
    }
    if do_redo {
        return redo(editor, grid);
    }
    if !input.left_clicked {
        return Vec::new();
    }
    let (cx, cy) = match editor.hovered_cell {
        Some(c) => c,
        None => {
            return Vec::new();
        },
    };
    let size = editor.map_size.value();
    if cx >= size || cy >= size {
        return Vec::new();
    }
    match editor.current_tool {
        EditorTool::TerrainBrush => apply_brush(editor, grid, cx, cy),
        EditorTool::PlaceFactory => {
            let def = FactoryDef { x: cx, y: cy, factory_type: editor.factory_type, team: editor.place_team };
            place_structure(editor, grid, PlacedStructureKind::Factory(def), cx, cy);
            Vec::new()
        },
        EditorTool::PlaceWarbase => {
            let def = WarbaseDef { x: cx, y: cy, team: editor.place_team };
            place_structure(editor, grid, PlacedStructureKind::Warbase(def), cx, cy);
            Vec::new()
        },
        EditorTool::PlacePlayerSpawn => {
            move_spawn(editor, grid, cx, cy);
            Vec::new()
        },
        EditorTool::Erase => {
            erase_at(editor, grid, cx, cy);
            Vec::new()
        },
    }
}

/// The map already shows what `a` does: the state right after `a` was
/// applied (and nothing on its cell changed since).
pub open spec fn shows_effect(d: EditorDoc, w: int, h: int, a: EditorAction) -> bool {
    match a {
        EditorAction::CellChanged { x, y, from, to } => (0 <= x < w && 0 <= y < h) ==> d.cells[y * w + x] == def_to_cell(to),
        EditorAction::StructurePlaced { kind, x, y } => match kind {
            PlacedStructureKind::Factory(f) => {
                &&& d.factories.len() > 0
                &&& d.factories.last() == f
                &&& forall|j: int| 0 <= j < d.factories.len() - 1 ==> !(#[trigger] factory_at(f.x, f.y)(d.factories[j]))
            },
            PlacedStructureKind::Warbase(b) => {
                &&& d.warbases.len() > 0
                &&& d.warbases.last() == b
                &&& forall|j: int| 0 <= j < d.warbases.len() - 1 ==> !(#[trigger] warbase_at(b.x, b.y)(d.warbases[j]))
            },
        },
        EditorAction::StructureRemoved { kind, x, y } => match kind {
            PlacedStructureKind::Factory(f) => forall|j: int| 0 <= j < d.factories.len() ==> !(#[trigger] factory_at(f.x, f.y)(d.factories[j])),
            PlacedStructureKind::Warbase(b) => forall|j: int| 0 <= j < d.warbases.len() ==> !(#[trigger] warbase_at(b.x, b.y)(d.warbases[j])),
        },
        EditorAction::PlayerSpawnMoved { from, to } => d.spawn == to,
    }
}

/// Filtering keeps a sequence whose every element passes.
pub(crate) proof fn lemma_filter_keeps_all<T>(s: Seq<T>, pred: spec_fn(T) -> bool)
    requires
        forall|j: int| 0 <= j < s.len() ==> pred(#[trigger] s[j]),
    ensures
        s.filter(pred) == s,
    decreases s.len(),
{
    reveal(Seq::filter);
    if s.len() > 0 {
        assert forall|j: int| 0 <= j < s.drop_last().len() implies pred(#[trigger] s.drop_last()[j]) by {
            assert(s.drop_last()[j] == s[j]);
        }
        lemma_filter_keeps_all(s.drop_last(), pred);
        assert(s.drop_last().push(s.last()) =~= s);
    }
}

/// Redo undoes an undo: on a map that shows the effect of the newest
/// history entry, undoing it and redoing it gives back the same map and the
/// same history.
pub proof fn lemma_redo_after_undo_restores(
    e0: EditorState,
    g0: MapGrid,
    e1: EditorState,
    g1: MapGrid,
    t1: Seq<(u32, u32)>,
    e2: EditorState,
    g2: MapGrid,
    t2: Seq<(u32, u32)>,
)
    requires
        g0.wf(),
        e0.undo_stack@.len() > 0,
        shows_effect(doc_of(e0, g0), g0.width as int, g0.height as int, e0.undo_stack@.last()),
        undo_step(e0, g0, e1, g1, t1),
        redo_step(e1, g1, e2, g2, t2),
    ensures
        doc_of(e2, g2) == doc_of(e0, g0),
        e2.undo_stack@ == e0.undo_stack@,
        e2.redo_stack@ == e0.redo_stack@,
        t2 == t1,
        same_settings(e0, e2),
        e2.dirty == e0.dirty,
{
    let a = e0.undo_stack@.last();
    let d = doc_of(e0, g0);
    let w = g0.width as int;
    let h = g0.height as int;
    assert(e1.redo_stack@.last() == a);
    assert(e0.undo_stack@.drop_last().push(a) =~= e0.undo_stack@);
    match a {
        EditorAction::CellChanged { x, y, from, to } => {
            if 0 <= x < w && 0 <= y < h {
                crate::grid::lemma_index_in_range(w, h, x as int, y as int);
            }
            assert(doc_of(e2, g2).cells =~= d.cells);
        },
        EditorAction::StructurePlaced { kind, x, y } => match kind {
            PlacedStructureKind::Factory(f) => {
                let rest = d.factories.drop_last();
                assert(d.factories =~= rest.push(f));
                rest.lemma_filter_push(f, factory_not_at(f.x, f.y));
                assert forall|j: int| 0 <= j < rest.len() implies factory_not_at(f.x, f.y)(#[trigger] rest[j]) by {
                    assert(rest[j] == d.factories[j]);
                    assert(!factory_at(f.x, f.y)(d.factories[j]));
                }
                lemma_filter_keeps_all(rest, factory_not_at(f.x, f.y));
            },
            PlacedStructureKind::Warbase(b) => {
                let rest = d.warbases.drop_last();
                assert(d.warbases =~= rest.push(b));
                rest.lemma_filter_push(b, warbase_not_at(b.x, b.y));
                assert forall|j: int| 0 <= j < rest.len() implies warbase_not_at(b.x, b.y)(#[trigger] rest[j]) by {
                    assert(rest[j] == d.warbases[j]);
                    assert(!warbase_at(b.x, b.y)(d.warbases[j]));
                }
                lemma_filter_keeps_all(rest, warbase_not_at(b.x, b.y));
            },
        },
        EditorAction::StructureRemoved { kind, x, y } => match kind {
            PlacedStructureKind::Factory(f) => {
                d.factories.lemma_filter_push(f, factory_not_at(f.x, f.y));
                assert forall|j: int| 0 <= j < d.factories.len() implies factory_not_at(f.x, f.y)(#[trigger] d.factories[j]) by {
                    assert(!factory_at(f.x, f.y)(d.factories[j]));
                }
                lemma_filter_keeps_all(d.factories, factory_not_at(f.x, f.y));
            },
            PlacedStructureKind::Warbase(b) => {
                d.warbases.lemma_filter_push(b, warbase_not_at(b.x, b.y));
                assert forall|j: int| 0 <= j < d.warbases.len() implies warbase_not_at(b.x, b.y)(#[trigger] d.warbases[j]) by {
                    assert(!warbase_at(b.x, b.y)(d.warbases[j]));
                }
                lemma_filter_keeps_all(d.warbases, warbase_not_at(b.x, b.y));
            },
        },
        EditorAction::PlayerSpawnMoved { from, to } => {},
    }
    assert(doc_of(e2, g2) =~= d);
}

/// The undo history once the newest entry of an edit is taken back: as
/// before the edit, less the oldest entry if the history was full.
pub open spec fn history_after_edit_undone(s: Seq<EditorAction>) -> Seq<EditorAction> {
    if s.len() + 1 > HISTORY_LIMIT {
        s.drop_first()
    } else {
        s
    }
}

proof fn lemma_pushed_capped_last(s: Seq<EditorAction>, a: EditorAction)
    ensures
        pushed_capped(s, a).len() > 0,
        pushed_capped(s, a).last() == a,
        pushed_capped(s, a).drop_last() == history_after_edit_undone(s),
{
    if s.len() + 1 > HISTORY_LIMIT {
        assert(s.push(a).drop_first().drop_last() =~= s.drop_first());
    } else {
        assert(s.push(a).drop_last() =~= s);
    }
}

/// Undo takes back a move of the spawn point: the map is as before the move,
/// the move waits on the redo stack.
pub proof fn lemma_undo_after_spawn_move(
    e0: EditorState,
    g0: MapGrid,
    e1: EditorState,
    g1: MapGrid,
    t1: Seq<(u32, u32)>,
    cx: u32,
    cy: u32,
    e2: EditorState,
    g2: MapGrid,
    t2: Seq<(u32, u32)>,
)
    requires
        spawn_step(e0, g0, e1, g1, cx, cy, t1),
        undo_step(e1, g1, e2, g2, t2),
    ensures
        doc_of(e2, g2) == doc_of(e0, g0),
        e2.undo_stack@ == history_after_edit_undone(e0.undo_stack@),
        e2.redo_stack@ == seq![EditorAction::PlayerSpawnMoved { from: e0.player_spawn, to: (cx, cy) }],
{
    let a = EditorAction::PlayerSpawnMoved { from: e0.player_spawn, to: (cx, cy) };
    lemma_pushed_capped_last(e0.undo_stack@, a);
    assert(e1.redo_stack@.push(a) =~= seq![a]);
    assert(doc_of(e2, g2) =~= doc_of(e0, g0));
}

/// Undo takes back a placement on a cell where no structure of that kind
/// stood: the map is as before.
pub proof fn lemma_undo_after_place(
    e0: EditorState,
    g0: MapGrid,
    e1: EditorState,
    g1: MapGrid,
    t1: Seq<(u32, u32)>,
    k: PlacedStructureKind,
    cx: u32,
    cy: u32,
    e2: EditorState,
    g2: MapGrid,
    t2: Seq<(u32, u32)>,
)
    requires
        g0.get_spec(cx as int, cy as int) == Some(CellType::Open),
        match k {
            PlacedStructureKind::Factory(f) => forall|j: int| 0 <= j < e0.factories@.len() ==> !(#[trigger] factory_at(f.x, f.y)(e0.factories@[j])),
            PlacedStructureKind::Warbase(b) => forall|j: int| 0 <= j < e0.warbases@.len() ==> !(#[trigger] warbase_at(b.x, b.y)(e0.warbases@[j])),
        },
        place_step(e0, g0, e1, g1, k, cx, cy, t1),
        undo_step(e1, g1, e2, g2, t2),
    ensures
        doc_of(e2, g2) == doc_of(e0, g0),
        e2.undo_stack@ == history_after_edit_undone(e0.undo_stack@),
        e2.redo_stack@ == seq![EditorAction::StructurePlaced { kind: k, x: cx, y: cy }],
{
    let a = EditorAction::StructurePlaced { kind: k, x: cx, y: cy };
    lemma_pushed_capped_last(e0.undo_stack@, a);
    assert(e1.redo_stack@.push(a) =~= seq![a]);
    let d = doc_of(e0, g0);
    match k {
        PlacedStructureKind::Factory(f) => {
            d.factories.lemma_filter_push(f, factory_not_at(f.x, f.y));
            assert forall|j: int| 0 <= j < d.factories.len() implies factory_not_at(f.x, f.y)(#[trigger] d.factories[j]) by {
                assert(!factory_at(f.x, f.y)(d.factories[j]));
            }
            lemma_filter_keeps_all(d.factories, factory_not_at(f.x, f.y));
        },
        PlacedStructureKind::Warbase(b) => {
            d.warbases.lemma_filter_push(b, warbase_not_at(b.x, b.y));
            assert forall|j: int| 0 <= j < d.warbases.len() implies warbase_not_at(b.x, b.y)(#[trigger] d.warbases[j]) by {
                assert(!warbase_at(b.x, b.y)(d.warbases[j]));
            }
            lemma_filter_keeps_all(d.warbases, warbase_not_at(b.x, b.y));
        },
    }
    assert(doc_of(e2, g2) =~= d);
}

/// Undo takes back an erase: terrain and spawn are as before, and the lists
/// of structures hold the same entries (the restored one now last).
pub proof fn lemma_undo_after_erase(
    e0: EditorState,
    g0: MapGrid,
    e1: EditorState,
    g1: MapGrid,
    t1: Seq<(u32, u32)>,
    cx: u32,
    cy: u32,
    e2: EditorState,
    g2: MapGrid,
    t2: Seq<(u32, u32)>,
)
    requires
        first_at(e0.factories@, factory_at(cx, cy)) is Some || first_at(e0.warbases@, warbase_at(cx, cy)) is Some,
        erase_step(e0, g0, e1, g1, cx, cy, t1),
        undo_step(e1, g1, e2, g2, t2),
    ensures
        doc_of(e2, g2).cells == doc_of(e0, g0).cells,
        e2.player_spawn == e0.player_spawn,
        e2.factories@.to_multiset() == e0.factories@.to_multiset(),
        e2.warbases@.to_multiset() == e0.warbases@.to_multiset(),
        e2.undo_stack@ == history_after_edit_undone(e0.undo_stack@),
        e2.redo_stack@.len() == 1,
{
    broadcast use vstd::multiset::group_multiset_axioms;
    lemma_first_at(e0.factories@, factory_at(cx, cy));
    lemma_first_at(e0.warbases@, warbase_at(cx, cy));
    match first_at(e0.factories@, factory_at(cx, cy)) {
        Some(i) => {
            let s = e0.factories@;
            let a = EditorAction::StructureRemoved { kind: PlacedStructureKind::Factory(s[i]), x: cx, y: cy };
            lemma_pushed_capped_last(e0.undo_stack@, a);
            vstd::seq_lib::to_multiset_remove(s, i);
            vstd::seq_lib::to_multiset_build(s.remove(i), s[i]);
            s.to_multiset_ensures();
            assert(s.to_multiset().remove(s[i]).insert(s[i]) =~= s.to_multiset());
        },
        None => {
            let i = first_at(e0.warbases@, warbase_at(cx, cy))->0;
            let s = e0.warbases@;
            let a = EditorAction::StructureRemoved { kind: PlacedStructureKind::Warbase(s[i]), x: cx, y: cy };
            lemma_pushed_capped_last(e0.undo_stack@, a);
            vstd::seq_lib::to_multiset_remove(s, i);
            vstd::seq_lib::to_multiset_build(s.remove(i), s[i]);
            s.to_multiset_ensures();
            assert(s.to_multiset().remove(s[i]).insert(s[i]) =~= s.to_multiset());
        },
    }
}

/// Undo takes back a one-cell brush stroke that changed a rock, pit, sand
/// or blocked cell: the terrain is as before.
pub proof fn lemma_undo_after_single_cell_paint(
    e0: EditorState,
    g0: MapGrid,
    e1: EditorState,
    g1: MapGrid,
    t1: Seq<(u32, u32)>,
    cx: u32,
    cy: u32,
    e2: EditorState,
    g2: MapGrid,
    t2: Seq<(u32, u32)>,
)
    requires
        e0.wf(),
        g0.wf(),
        g1.wf(),
        e0.brush_size == BrushSize::One,
        repaints(e0, g0, (cx as int, cy as int)),
        ({
            let c = kind_or_open(g0, cx as int, cy as int);
            c is Rock || c is Pit || c is Sand || c is Blocked
        }),
        brush_step(e0, g0, e1, g1, cx as int, cy as int, t1),
        undo_step(e1, g1, e2, g2, t2),
    ensures
        doc_of(e2, g2) == doc_of(e0, g0),
        e2.undo_stack@ == history_after_edit_undone(e0.undo_stack@),
        t1 == seq![(cx, cy)],
        t2 == seq![(cx, cy)],
{
    let p = (cx as int, cy as int);
    let w = g0.width as int;
    let h = g0.height as int;
    let sq = brush_square(cx as int, cy as int, 0);
    assert(brush_side(0) == 1);
    assert(sq.len() == 1);
    assert(sq[0] == p);
    assert(sq =~= seq![p]);
    assert(seq![p] =~= Seq::<(int, int)>::empty().push(p));
    Seq::<(int, int)>::empty().lemma_filter_push(p, repaint_pred(e0, g0));
    assert(Seq::<(int, int)>::empty().filter(repaint_pred(e0, g0)) =~= Seq::<(int, int)>::empty()) by {
        reveal(Seq::filter);
    }
    let targets = brush_targets(e0, g0, cx as int, cy as int);
    assert(targets =~= seq![p]);
    let a = paint_action(e0, g0, p);
    assert(targets.map_values(paint_fn(e0, g0)) =~= seq![a]);
    assert(targets.map_values(cell_fn()) =~= seq![(cx, cy)]);
    assert(e0.undo_stack@ + seq![a] =~= e0.undo_stack@.push(a));
    lemma_capped_push_keeps_newest(e0.undo_stack@, a);
    if e0.undo_stack@.len() > HISTORY_LIMIT {
    } else {
        assert(keep_last(e0.undo_stack@) == e0.undo_stack@);
    }
    lemma_pushed_capped_last(e0.undo_stack@, a);
    assert(e1.undo_stack@.last() == a);
    let c0 = kind_or_open(g0, p.0, p.1);
    assert(g0.in_bounds(p.0, p.1));
    crate::grid::lemma_index_in_range(w, h, p.0, p.1);
    let idx = p.1 * w + p.0;
    let painted = crate::grid::cells_with(g0.cells@, w, h, p.0, p.1, def_to_cell(e0.brush_cell_type));
    assert forall|x: int, y: int| g1.in_bounds(x, y) implies #[trigger] g1.get_spec(x, y) == Some(painted[y * g1.width + x]) by {
        crate::grid::lemma_index_in_range(w, h, x, y);
        if x != p.0 || y != p.1 {
            if y * w + x == idx {
                crate::grid::lemma_index_injective(w, x, y, p.0, p.1);
            }
        }
    }
    crate::grid::lemma_cells_from_get(g1, painted);
    crate::loader::lemma_cell_def_round_trip(e0.brush_cell_type, c0);
    assert(g0.cells@[idx] == c0);
    assert(painted.update(idx, c0) =~= g0.cells@);
    assert(doc_of(e2, g2) =~= doc_of(e0, g0));
}

/// Whether some warbase in `ws` belongs to `team`.
pub open spec fn has_warbase_of(ws: Seq<WarbaseDef>, team: TeamDef) -> bool {
    exists|j: int| 0 <= j < ws.len() && (#[trigger] ws[j]).team == team
}

/// Why the map cannot be saved or tested yet, if anything stops it.
pub open spec fn validation_error(e: EditorState) -> Option<Seq<char>> {
    let size = map_side(e.map_size);
    if !has_warbase_of(e.warbases@, TeamDef::Player) {
        Some("Необходим хотя бы один варбейс Игрока"@)
    } else if !has_warbase_of(e.warbases@, TeamDef::Enemy) {
        Some("Необходим хотя бы один варбейс Врага"@)
    } else if e.player_spawn.0 >= size || e.player_spawn.1 >= size {
        Some(
            "Точка спавна ("@ + dec(e.player_spawn.0 as nat) + ","@ + dec(e.player_spawn.1 as nat)
                + ") за пределами карты "@ + dec(size as nat) + "×"@ + dec(size as nat),
        )
    } else {
        None
    }
}

/// A map passes the check exactly when the player and the enemy each own a
/// warbase and the spawn point lies on the map.
pub proof fn lemma_validation_accepts(e: EditorState)
    ensures
        validation_error(e) is None <==> {
            &&& exists|j: int| 0 <= j < e.warbases@.len() && (#[trigger] e.warbases@[j]).team == TeamDef::Player
            &&& exists|j: int| 0 <= j < e.warbases@.len() && (#[trigger] e.warbases@[j]).team == TeamDef::Enemy
            &&& e.player_spawn.0 < map_side(e.map_size)
            &&& e.player_spawn.1 < map_side(e.map_size)
        },
{
}

/// The sides of the three map sizes, in cells.
pub proof fn lemma_map_sides()
    ensures
        map_side(MapSize::Small) == 32,
        map_side(MapSize::Normal) == 64,
        map_side(MapSize::Large) == 96,
{
}

fn any_warbase_of(ws: &Vec<WarbaseDef>, team: TeamDef) -> (b: bool)
    ensures
        b == has_warbase_of(ws@, team),
{
    let mut i: usize = 0;
    while i < ws.len()
        invariant
            i <= ws@.len(),
            forall|j: int| 0 <= j < i ==> (#[trigger] ws@[j]).team != team,
        decreases ws@.len() - i,
    {
        if ws[i].team == team {
            return true;
        }
        i = i + 1;
    }
    false
}

impl EditorState {
    /// Checks the map before saving or testing: it needs a warbase of the
    /// player and one of the enemy, and the spawn point on the map. Returns
    /// the message for the first rule broken, or `None`.
    pub fn validate(&self) -> (r: Option<String>)
        ensures
            r.is_some() == validation_error(*self).is_some(),
            r matches Some(m) ==> m@ == validation_error(*self)->0,
            r is None <==> {
                &&& exists|j: int| 0 <= j < self.warbases@.len() && (#[trigger] self.warbases@[j]).team == TeamDef::Player
                &&& exists|j: int| 0 <= j < self.warbases@.len() && (#[trigger] self.warbases@[j]).team == TeamDef::Enemy
                &&& self.player_spawn.0 < map_side(self.map_size)
                &&& self.player_spawn.1 < map_side(self.map_size)
            },
    {
        if !any_warbase_of(&self.warbases, TeamDef::Player) {
            return Some(String::from_str("Необходим хотя бы один варбейс Игрока"));
        }
        if !any_warbase_of(&self.warbases, TeamDef::Enemy) {
            return Some(String::from_str("Необходим хотя бы один варбейс Врага"));
        }
        let size = self.map_size.value();
        let (sx, sy) = self.player_spawn;
        if sx >= size || sy >= size {
            let mut m = String::from_str("Точка спавна (");
            push_decimal(&mut m, sx);
            m.append(",");
            push_decimal(&mut m, sy);
            m.append(") за пределами карты ");
            push_decimal(&mut m, size);
            m.append("×");
            push_decimal(&mut m, size);
            return Some(m);
        }
        None
    }

    /// Escape in the editor: closes the exit dialog if it is open; else opens
    /// it when there are unsaved changes. Returns whether to leave for the
    /// main menu (no dialog open and nothing unsaved).
    pub fn escape_pressed(&mut self) -> (leave: bool)
        ensures
            leave == (!old(self).show_exit_dialog && !old(self).dirty),
            final(self).show_exit_dialog == (!old(self).show_exit_dialog && old(self).dirty),
            *final(self) == (EditorState { show_exit_dialog: final(self).show_exit_dialog, ..*old(self) }),
    {
        if self.show_exit_dialog {
            self.show_exit_dialog = false;
            return false;
        }
        if self.dirty {
            self.show_exit_dialog = true;
            false
        } else {
            true
        }
    }
}

/// Terrain kept for a play test: structure cells become open.
pub open spec fn without_structure_cells(cells: Seq<CellType>) -> Seq<CellType> {
    cells.map_values(|c: CellType| if c is Structure { CellType::Open } else { c })
}

pub(crate) fn copy_factories(v: &Vec<FactoryDef>) -> (r: Vec<FactoryDef>)
    ensures
        r@ == v@,
{
    let mut r: Vec<FactoryDef> = Vec::new();
    let mut i: usize = 0;
    while i < v.len()
        invariant
            i <= v@.len(),
            r@ == v@.take(i as int),
        decreases v@.len() - i,
    {
        r.push(v[i]);
        proof {
            assert(v@.take(i + 1) =~= v@.take(i as int).push(v@[i as int]));
        }
        i = i + 1;
    }
    proof {
        assert(v@.take(i as int) =~= v@);
    }
    r
}

pub(crate) fn copy_warbases(v: &Vec<WarbaseDef>) -> (r: Vec<WarbaseDef>)
    ensures
        r@ == v@,
{
    let mut r: Vec<WarbaseDef> = Vec::new();
    let mut i: usize = 0;
    while i < v.len()
        invariant
            i <= v@.len(),
            r@ == v@.take(i as int),
        decreases v@.len() - i,
    {
        r.push(v[i]);
        proof {
            assert(v@.take(i + 1) =~= v@.take(i as int).push(v@[i as int]));
        }
        i = i + 1;
    }
    proof {
        assert(v@.take(i as int) =~= v@);
    }
    r
}

/// Serves a play-test request: with a valid map, clears the structure cells
/// of the game grid and hands the editor's spawn point and structures to the
/// game, returning `true` (the caller then resets the game world and starts
/// it). An invalid map shows its validation message instead. The request is
/// consumed either way.
pub fn prepare_playtest(
    editor: &mut EditorState,
    map: &mut MapGrid,
    structures: &mut MapStructures,
    spawn: &mut MapSpawnPoints,
) -> (start: bool)
    ensures
        !final(editor).play_test_requested,
        start == (old(editor).play_test_requested && validation_error(*old(editor)) is None),
        start ==> old(editor).player_spawn.0 < map_side(old(editor).map_size) && old(editor).player_spawn.1 < map_side(
            old(editor).map_size,
        ),
        *final(editor) == (EditorState {
            play_test_requested: false,
            show_validation_error: final(editor).show_validation_error,
            ..*old(editor)
        }),
        if old(editor).play_test_requested && validation_error(*old(editor)) is Some {
            final(editor).show_validation_error matches Some(m) && m@ == validation_error(*old(editor))->0
        } else {
            final(editor).show_validation_error == old(editor).show_validation_error
        },
        if start {
            &&& final(map).width == old(map).width
            &&& final(map).height == old(map).height
            &&& final(map).cells@ == without_structure_cells(old(map).cells@)
            &&& final(spawn).player_spawn == old(editor).player_spawn
            &&& final(structures).factories@ == old(editor).factories@
            &&& final(structures).warbases@ == old(editor).warbases@
        } else {
            &&& *final(map) == *old(map)
            &&& *final(spawn) == *old(spawn)
            &&& *final(structures) == *old(structures)
        },
{
    let requested = editor.play_test_requested;
    editor.play_test_requested = false;
    if !requested {
        return false;
    }
    match editor.validate() {
        Some(err) => {
            editor.show_validation_error = Some(err);
            return false;
        },
        None => {},
    }
    let mut k: usize = 0;
    while k < map.cells.len()
        invariant
            k <= map.cells@.len(),
            map.width == old(map).width,
            map.height == old(map).height,
            map.cells@.len() == old(map).cells@.len(),
            forall|j: int| 0 <= j < k ==> #[trigger] map.cells@[j] == without_structure_cells(old(map).cells@)[j],
            forall|j: int| k <= j < map.cells@.len() ==> #[trigger] map.cells@[j] == old(map).cells@[j],
        decreases map.cells@.len() - k,
    {
        match map.cells[k] {
            CellType::Structure(_) => {
                map.cells.set(k, CellType::Open);
            },
            _ => {},
        }
        k = k + 1;
    }
    proof {
        assert(map.cells@ =~= without_structure_cells(old(map).cells@));
    }
    spawn.player_spawn = editor.player_spawn;
    structures.factories = copy_factories(&editor.factories);
    structures.warbases = copy_warbases(&editor.warbases);
    true
}

/// Whether the brush preview marks `p`: a cell of the brush square on the
/// map, other than the hovered cell itself (which is always marked).
pub open spec fn previewed(e: EditorState, cx: int, cy: int, p: (int, int)) -> bool {
    &&& 0 <= p.0 < map_side(e.map_size)
    &&& 0 <= p.1 < map_side(e.map_size)
    &&& !(p.0 == cx && p.1 == cy)
}

pub open spec fn preview_pred(e: EditorState, cx: int, cy: int) -> spec_fn((int, int)) -> bool {
    |p: (int, int)| previewed(e, cx, cy, p)
}

impl EditorState {
    /// Cells the brush preview marks around the hovered cell `(cx, cy)`,
    /// row by row: with the terrain brush wider than one cell, the other
    /// cells of its square that lie on the map; otherwise none.
    pub fn brush_preview_cells(&self, cx: u32, cy: u32) -> (cells: Vec<(u32, u32)>)
        ensures
            cells@ == if self.current_tool == EditorTool::TerrainBrush && brush_radius(self.brush_size) > 0 {
                brush_square(cx as int, cy as int, brush_radius(self.brush_size)).filter(preview_pred(*self, cx as int, cy as int)).map_values(
                    cell_fn(),
                )
            } else {
                Seq::empty()
            },
    {
        let mut cells: Vec<(u32, u32)> = Vec::new();
        let r: i64 = self.brush_size.radius() as i64;
        if self.current_tool != EditorTool::TerrainBrush || r == 0 {
            return cells;
        }
        let side: i64 = 2 * r + 1;
        let size: i64 = self.map_size.value() as i64;
        assert(side * side <= 25) by (nonlinear_arith)
            requires
                1 <= side <= 5,
        ;
        let n: i64 = side * side;
        let ghost sq = brush_square(cx as int, cy as int, r as int);
        let ghost pred = preview_pred(*self, cx as int, cy as int);
        let mut i: i64 = 0;
        proof {
            reveal(Seq::filter);
            assert(sq.take(0) =~= Seq::<(int, int)>::empty());
            assert(cells@ =~= sq.take(0).filter(pred).map_values(cell_fn()));
        }
        while i < n
            invariant
                0 < r <= 2,
                side == 2 * r + 1,
                n == side * side,
                n <= 25,
                size == map_side(self.map_size),
                sq == brush_square(cx as int, cy as int, r as int),
                pred == preview_pred(*self, cx as int, cy as int),
                0 <= i <= n,
                cells@ == sq.take(i as int).filter(pred).map_values(cell_fn()),
            decreases n - i,
        {
            assert(0 <= i / side <= i) by (nonlinear_arith)
                requires
                    0 <= i,
                    side >= 1,
            ;
            let nx: i64 = cx as i64 - r + i % side;
            let ny: i64 = cy as i64 - r + i / side;
            let ghost p = sq[i as int];
            proof {
                assert(p == (nx as int, ny as int));
                assert(sq.take(i + 1) =~= sq.take(i as int).push(p));
                sq.take(i as int).lemma_filter_push(p, pred);
            }
            if 0 <= nx && 0 <= ny && nx < size && ny < size && !(nx == cx as i64 && ny == cy as i64) {
                proof {
                    assert(cells@.push((nx as u32, ny as u32)) =~= sq.take(i as int).filter(pred).push(p).map_values(cell_fn()));
                }
                cells.push((nx as u32, ny as u32));
            }
            i = i + 1;
        }
        proof {
            assert(sq.take(i as int) =~= sq);
        }
        cells
    }
}

/// Cell an entry changes the terrain of, if it is a terrain entry.
pub open spec fn entry_cell(a: EditorAction) -> Option<(u32, u32)> {
    match a {
        EditorAction::CellChanged { x, y, from, to } => Some((x, y)),
        _ => None,
    }
}

/// Terrain kind a terrain entry had before.
pub open spec fn entry_from(a: EditorAction) -> CellTypeDef {
    match a {
        EditorAction::CellChanged { x, y, from, to } => from,
        _ => CellTypeDef::Blocked,
    }
}

/// Whether `a` changes the terrain at row-major index `idx` of a `w × h` grid.
pub open spec fn entry_at(a: EditorAction, w: int, h: int, idx: int) -> bool {
    match entry_cell(a) {
        Some(p) => 0 <= p.0 < w && 0 <= p.1 < h && p.1 * w + p.0 == idx,
        None => false,
    }
}

/// Terrain of a `w × h` grid after taking back the entries `acts`, newest
/// first, as successive undos do.
pub open spec fn undo_cells(cells: Seq<CellType>, w: int, h: int, acts: Seq<EditorAction>) -> Seq<CellType>
    decreases acts.len(),
{
    if acts.len() == 0 {
        cells
    } else {
        let a = acts.last();
        let back = match a {
            EditorAction::CellChanged { x, y, from, to } => crate::grid::cells_with(cells, w, h, x as int, y as int, def_to_cell(from)),
            _ => cells,
        };
        undo_cells(back, w, h, acts.drop_last())
    }
}

/// Taking back terrain entries sets each cell they name to the kind they
/// recorded (entries naming the same cell agree on it) and leaves the others.
proof fn lemma_undo_cells(cells: Seq<CellType>, w: int, h: int, acts: Seq<EditorAction>)
    requires
        w >= 0,
        h >= 0,
        cells.len() == w * h,
        forall|k1: int, k2: int, idx: int|
            0 <= k1 < acts.len() && 0 <= k2 < acts.len() && #[trigger] entry_at(acts[k1], w, h, idx)
                && #[trigger] entry_at(acts[k2], w, h, idx) ==> entry_from(acts[k1]) == entry_from(acts[k2]),
    ensures
        undo_cells(cells, w, h, acts).len() == cells.len(),
        forall|idx: int, k: int|
            0 <= idx < cells.len() && 0 <= k < acts.len() && #[trigger] entry_at(acts[k], w, h, idx) ==> #[trigger] undo_cells(
                cells,
                w,
                h,
                acts,
            )[idx] == def_to_cell(entry_from(acts[k])),
        forall|idx: int|
            0 <= idx < cells.len() && (forall|k: int| 0 <= k < acts.len() ==> !#[trigger] entry_at(acts[k], w, h, idx))
                ==> #[trigger] undo_cells(cells, w, h, acts)[idx] == cells[idx],
    decreases acts.len(),
{
    if acts.len() > 0 {
        let a = acts.last();
        let rest = acts.drop_last();
        let back = match a {
            EditorAction::CellChanged { x, y, from, to } => crate::grid::cells_with(cells, w, h, x as int, y as int, def_to_cell(from)),
            _ => cells,
        };
        assert forall|k1: int, k2: int, idx: int|
            0 <= k1 < rest.len() && 0 <= k2 < rest.len() && #[trigger] entry_at(rest[k1], w, h, idx)
                && #[trigger] entry_at(rest[k2], w, h, idx) implies entry_from(rest[k1]) == entry_from(rest[k2]) by {
            assert(rest[k1] == acts[k1] && rest[k2] == acts[k2]);
            assert(entry_at(acts[k1], w, h, idx) && entry_at(acts[k2], w, h, idx));
        }
        if let EditorAction::CellChanged { x, y, from, to } = a {
            if 0 <= x < w && 0 <= y < h {
                crate::grid::lemma_index_in_range(w, h, x as int, y as int);
            }
        }
        lemma_undo_cells(back, w, h, rest);
        let r = undo_cells(cells, w, h, acts);
        assert(r == undo_cells(back, w, h, rest));
        assert forall|idx: int, k: int|
            0 <= idx < cells.len() && 0 <= k < acts.len() && #[trigger] entry_at(acts[k], w, h, idx) implies #[trigger] undo_cells(
                cells,
                w,
                h,
                acts,
            )[idx] == def_to_cell(entry_from(acts[k])) by {
            if k < acts.len() - 1 {
                assert(rest[k] == acts[k]);
                assert(entry_at(rest[k], w, h, idx));
            } else {
                if exists|j: int| 0 <= j < rest.len() && #[trigger] entry_at(rest[j], w, h, idx) {
                    let j = choose|j: int| 0 <= j < rest.len() && #[trigger] entry_at(rest[j], w, h, idx);
                    assert(rest[j] == acts[j]);
                    assert(entry_at(acts[j], w, h, idx));
                } else {
                    assert(undo_cells(back, w, h, rest)[idx] == back[idx]);
                }
            }
        }
        assert forall|idx: int|
            0 <= idx < cells.len() && (forall|k: int| 0 <= k < acts.len() ==> !#[trigger] entry_at(acts[k], w, h, idx))
                implies #[trigger] undo_cells(cells, w, h, acts)[idx] == cells[idx] by {
            assert forall|k: int| 0 <= k < rest.len() implies !#[trigger] entry_at(rest[k], w, h, idx) by {
                assert(rest[k] == acts[k]);
                assert(!entry_at(acts[k], w, h, idx));
            }
            assert(!entry_at(acts[acts.len() - 1], w, h, idx));
        }
    }
}

/// Terrain kinds a map file can record.
pub open spec fn file_kind(c: CellType) -> bool {
    c is Rock || c is Pit || c is Sand || c is Blocked
}

proof fn lemma_brush_target_in_square(e0: EditorState, g0: MapGrid, cx: int, cy: int, k: int)
    requires
        0 <= k < brush_targets(e0, g0, cx, cy).len(),
    ensures
        ({
            let p = brush_targets(e0, g0, cx, cy)[k];
            under_brush(e0, cx, cy, p.0, p.1) && repaints(e0, g0, p)
        }),
{
    let r = brush_radius(e0.brush_size);
    let sq = brush_square(cx, cy, r);
    let t = brush_targets(e0, g0, cx, cy);
    let p = t[k];
    sq.filter_lemma(repaint_pred(e0, g0));
    assert(repaint_pred(e0, g0)(t[k]));
    assert(t.contains(p));
    sq.lemma_filter_contains_rev(repaint_pred(e0, g0), p);
    let i = choose|i: int| 0 <= i < sq.len() && sq[i] == p;
    lemma_brush_cell_index(e0, cx, cy, i);
}

proof fn lemma_repainted_cell_is_target(e0: EditorState, g0: MapGrid, cx: int, cy: int, x: int, y: int)
    requires
        under_brush(e0, cx, cy, x, y),
        kind_or_open(g0, x, y) != def_to_cell(e0.brush_cell_type),
    ensures
        brush_targets(e0, g0, cx, cy).contains((x, y)),
{
    let r = brush_radius(e0.brush_size);
    let side = brush_side(r);
    let sq = brush_square(cx, cy, r);
    let i = (y - cy + r) * side + (x - cx + r);
    vstd::arithmetic::div_mod::lemma_fundamental_div_mod_converse(i, side, y - cy + r, x - cx + r);
    crate::grid::lemma_index_in_range(side, side, x - cx + r, y - cy + r);
    assert(sq[i] == (x, y));
    assert(repaint_pred(e0, g0)(sq[i]));
    sq.filter_lemma(repaint_pred(e0, g0));
}

/// A brush stroke is taken back by as many undos as cells it changed, when
/// every cell it changed held rock, pit, sand or blocked ground: its
/// entries are the newest of the history, and taking them back, newest
/// first, gives the terrain before the stroke.
pub proof fn lemma_undo_brush_stroke(
    e0: EditorState,
    g0: MapGrid,
    e1: EditorState,
    g1: MapGrid,
    t: Seq<(u32, u32)>,
    cx: int,
    cy: int,
)
    requires
        e0.wf(),
        g0.wf(),
        g1.wf(),
        brush_step(e0, g0, e1, g1, cx, cy, t),
        forall|p: (int, int)| #[trigger] brush_targets(e0, g0, cx, cy).contains(p) ==> file_kind(kind_or_open(g0, p.0, p.1)),
    ensures
        ({
            let acts = brush_targets(e0, g0, cx, cy).map_values(paint_fn(e0, g0));
            let u = e1.undo_stack@;
            &&& acts.len() <= u.len()
            &&& u.subrange(u.len() - acts.len(), u.len() as int) == acts
            &&& undo_cells(g1.cells@, g1.width as int, g1.height as int, acts) == g0.cells@
        }),
{
    let targets = brush_targets(e0, g0, cx, cy);
    let acts = targets.map_values(paint_fn(e0, g0));
    let w = g0.width as int;
    let h = g0.height as int;
    let r = brush_radius(e0.brush_size);
    let sq = brush_square(cx, cy, r);
    sq.filter_lemma(repaint_pred(e0, g0));
    assert(sq.len() <= 25) by {
        assert(brush_side(r) * brush_side(r) <= 25) by (nonlinear_arith)
            requires
                1 <= brush_side(r) <= 5,
        ;
    }
    // The stroke's entries are the newest ones.
    let all = e0.undo_stack@ + acts;
    let u = e1.undo_stack@;
    if all.len() > HISTORY_LIMIT {
        assert(u.subrange(u.len() - acts.len(), u.len() as int) =~= acts);
    } else {
        assert(u.subrange(u.len() - acts.len(), u.len() as int) =~= acts);
    }
    // Where each entry sits.
    assert forall|k: int| 0 <= k < acts.len() implies entry_cell(#[trigger] acts[k]) == Some(
        ((targets[k].0 as u32), (targets[k].1 as u32)),
    ) && entry_from(acts[k]) == cell_to_def(kind_or_open(g0, targets[k].0, targets[k].1))
        && 0 <= targets[k].0 < map_side(e0.map_size) && 0 <= targets[k].1 < map_side(e0.map_size) by {
        lemma_brush_target_in_square(e0, g0, cx, cy, k);
    }
    // Entries naming the same cell agree on its former kind.
    assert forall|k1: int, k2: int, idx: int|
        0 <= k1 < acts.len() && 0 <= k2 < acts.len() && #[trigger] entry_at(acts[k1], w, h, idx)
            && #[trigger] entry_at(acts[k2], w, h, idx) implies entry_from(acts[k1]) == entry_from(acts[k2]) by {
        let p1 = targets[k1];
        let p2 = targets[k2];
        if p1 != p2 {
            crate::grid::lemma_index_injective(w, p1.0, p1.1, p2.0, p2.1);
        }
    }
    assert(g1.cells@.len() == w * h);
    lemma_undo_cells(g1.cells@, w, h, acts);
    let back = undo_cells(g1.cells@, w, h, acts);
    assert forall|idx: int| 0 <= idx < g0.cells@.len() implies back[idx] == g0.cells@[idx] by {
        crate::grid::lemma_index_of_position(w, idx);
        let x = idx % w;
        let y = idx / w;
        assert(y < h) by {
            if y >= h {
                assert(y * w >= h * w) by (nonlinear_arith)
                    requires
                        y >= h,
                        w >= 0,
                ;
                assert(h * w == w * h) by (nonlinear_arith);
            }
        }
        assert(g0.get_spec(x, y) == Some(g0.cells@[idx]));
        assert(g1.get_spec(x, y) == Some(g1.cells@[idx]));
        let c0 = g0.cells@[idx];
        if under_brush(e0, cx, cy, x, y) && c0 != def_to_cell(e0.brush_cell_type) {
            lemma_repainted_cell_is_target(e0, g0, cx, cy, x, y);
            let k = choose|k: int| 0 <= k < targets.len() && targets[k] == (x, y);
            assert(entry_at(acts[k], w, h, idx));
            assert(file_kind(c0));
            crate::loader::lemma_cell_def_round_trip(CellTypeDef::Blocked, c0);
        } else {
            assert forall|k: int| 0 <= k < acts.len() implies !#[trigger] entry_at(acts[k], w, h, idx) by {
                if entry_at(acts[k], w, h, idx) {
                    let p = targets[k];
                    lemma_brush_target_in_square(e0, g0, cx, cy, k);
                    crate::grid::lemma_index_injective(w, p.0, p.1, x, y);
                }
            }
        }
    }
    assert(back =~= g0.cells@);
}

impl EditorState {
    /// The save button: an invalid map shows why and is not saved (returns
    /// `false`); a valid one may be written (returns `true`).
    pub fn start_save(&mut self) -> (go: bool)
        ensures
            go == validation_error(*old(self)).is_none(),
            go ==> *final(self) == *old(self),
            !go ==> *final(self) == (EditorState { show_validation_error: final(self).show_validation_error, ..*old(self) }),
            !go ==> (final(self).show_validation_error matches Some(m) && m@ == validation_error(*old(self))->0),
    {
        match self.validate() {
            Some(err) => {
                self.show_validation_error = Some(err);
                false
            },
            None => true,
        }
    }

    /// Outcome of writing the map: saved, nothing is unsaved any more;
    /// failed, the error is shown.
    pub fn finish_save(&mut self, result: Result<String, String>)
        ensures
            result is Ok ==> *final(self) == (EditorState { dirty: false, ..*old(self) }),
            result matches Err(e) ==> *final(self) == (EditorState { show_validation_error: Some(e), ..*old(self) }),
    {
        match result {
            Ok(_) => {
                self.dirty = false;
            },
            Err(e) => {
                self.show_validation_error = Some(e);
            },
        }
    }

    /// Outcome of opening a map file chosen in the open dialog: the dialog
    /// closes either way; an error is shown.
    pub fn finish_open(&mut self, error: Option<String>)
        ensures
            error is None ==> *final(self) == (EditorState { show_open_dialog: false, ..*old(self) }),
            error matches Some(e) ==> *final(self) == (EditorState {
                show_open_dialog: false,
                show_validation_error: Some(e),
                ..*old(self)
            }),
    {
        self.show_open_dialog = false;
        if let Some(e) = error {
            self.show_validation_error = Some(e);
        }
    }

    /// "Leave without saving" in the exit dialog: the changes are dropped and
    /// the dialog closes.
    pub fn discard_and_exit(&mut self)
        ensures
            *final(self) == (EditorState { dirty: false, show_exit_dialog: false, ..*old(self) }),
    {
        self.dirty = false;
        self.show_exit_dialog = false;
    }

    /// "Save and leave" in the exit dialog, once the write was tried (or
    /// refused as invalid, `result` then holding the validation message):
    /// the dialog closes; on success nothing is unsaved and the editor is
    /// left (returns `true`), on failure the error is shown.
    pub fn finish_save_and_exit(&mut self, result: Result<String, String>) -> (leave: bool)
        ensures
            leave == result is Ok,
            result is Ok ==> *final(self) == (EditorState { dirty: false, show_exit_dialog: false, ..*old(self) }),
            result matches Err(e) ==> *final(self) == (EditorState {
                show_exit_dialog: false,
                show_validation_error: Some(e),
                ..*old(self)
            }),
    {
        self.show_exit_dialog = false;
        match result {
            Ok(_) => {
                self.dirty = false;
                true
            },
            Err(e) => {
                self.show_validation_error = Some(e);
                false
            },
        }
    }
}

/// "Create" in the new-map dialog: an empty grid of the chosen size and an
/// editor reset to it.
pub fn create_new_map(editor: &mut EditorState, grid: &mut MapGrid)
    ensures
        final(grid).wf(),
        final(grid).width == map_side(old(editor).new_map_size),
        final(grid).height == map_side(old(editor).new_map_size),
        forall|x: int, y: int| final(grid).in_bounds(x, y) ==> #[trigger] final(grid).get_spec(x, y) == Some(CellType::Open),
        final(editor).wf(),
        final(editor).map_size == old(editor).new_map_size,
        final(editor).player_spawn == (2u32, 2u32),
        final(editor).factories@.len() == 0,
        final(editor).warbases@.len() == 0,
        final(editor).undo_stack@.len() == 0,
        final(editor).redo_stack@.len() == 0,
        !final(editor).dirty,
        !final(editor).show_new_map_dialog,
{
    let size = editor.new_map_size;
    let side = size.value();
    *grid = MapGrid::new(side, side);
    editor.reset_to_empty(size);
}

} // verus!
