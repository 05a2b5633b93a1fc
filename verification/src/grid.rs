use vstd::prelude::*;

use crate::types::ChassisType;

verus! {

/// Content of one grid cell.
///
/// A structure cell carries the identifier bits of the entity that stands on it.
#[derive(Debug, Clone, Copy, PartialEq, Eq, Structural)]
pub enum CellType {
    Open,
    /// Former impassable kind, treated like rock.
    Blocked,
    /// Impassable for every chassis, blocks line of sight.
    Rock,
    /// Passable only for anti-gravity chassis.
    Pit,
    /// Passable for all; costs 2 for wheels and bipods.
    Sand,
    /// Occupied by a structure: impassable, blocks line of sight.
    Structure(u64),
}

/// Whether `chassis` may enter a cell of kind `c`.
pub open spec fn passable_for_spec(c: CellType, chassis: ChassisType) -> bool {
    match c {
        CellType::Open | CellType::Sand => true,
        CellType::Pit => chassis == ChassisType::AntiGrav,
        _ => false,
    }
}

/// Cost of entering a cell for a path search; `None` when impassable.
pub open spec fn movement_cost_spec(c: CellType, chassis: ChassisType) -> Option<u32> {
    match c {
        CellType::Open => Some(1u32),
        CellType::Sand => if chassis == ChassisType::Wheels || chassis == ChassisType::Bipod {
            Some(2u32)
        } else {
            Some(1u32)
        },
        CellType::Pit => if chassis == ChassisType::AntiGrav { Some(1u32) } else { None },
        _ => None,
    }
}

/// Whether a cell stops sight.
pub open spec fn blocks_los_spec(c: CellType) -> bool {
    c is Rock || c is Blocked || c is Structure
}

/// Passability for any chassis (used by the flying scout).
pub open spec fn passable_spec(c: CellType) -> bool {
    c is Open || c is Sand || c is Pit
}

impl CellType {
    pub fn is_passable_for(self, chassis: ChassisType) -> (r: bool)
        ensures
            r == passable_for_spec(self, chassis),
    {
        match self {
            CellType::Open | CellType::Sand => true,
            CellType::Blocked | CellType::Rock => false,
            CellType::Pit => chassis == ChassisType::AntiGrav,
            CellType::Structure(_) => false,
        }
    }

    pub fn movement_cost(self, chassis: ChassisType) -> (r: Option<u32>)
        ensures
            r == movement_cost_spec(self, chassis),
    {
        match self {
            CellType::Open => Some(1),
            CellType::Sand => match chassis {
                ChassisType::Wheels | ChassisType::Bipod => Some(2),
                _ => Some(1),
            },
            CellType::Pit => {
                if chassis == ChassisType::AntiGrav {
                    Some(1)
                } else {
                    None
                }
            },
            CellType::Blocked | CellType::Rock => None,
            CellType::Structure(_) => None,
        }
    }

    pub fn blocks_los(self) -> (r: bool)
        ensures
            r == blocks_los_spec(self),
    {
        matches!(self, CellType::Rock | CellType::Blocked | CellType::Structure(_))
    }

    pub fn is_passable(self) -> (r: bool)
        ensures
            r == passable_spec(self),
    {
        matches!(self, CellType::Open | CellType::Sand | CellType::Pit)
    }
}

/// A chassis may enter exactly the cells to which the path search gives a cost,
/// and every such cost is 1 or 2.
pub proof fn lemma_cost_matches_passability(c: CellType, chassis: ChassisType)
    ensures
        passable_for_spec(c, chassis) <==> movement_cost_spec(c, chassis) is Some,
        movement_cost_spec(c, chassis) matches Some(k) ==> 1 <= k <= 2,
{
}

} // verus!

verus! {

/// The playing field: `width × height` cells in row-major order.
/// Cell `(x, y)` has its centre at world point `(x + 0.5, 0, y + 0.5)`.
pub struct MapGrid {
    pub width: u32,
    pub height: u32,
    /// Row-major contents; `wf` ties its length to the dimensions.
    pub cells: Vec<CellType>,
}

/// `y * w + x` addresses distinct cells for distinct in-bound coordinates, and
/// stays below `w * h`.
pub proof fn lemma_index_in_range(w: int, h: int, x: int, y: int)
    requires
        0 <= x < w,
        0 <= y < h,
    ensures
        0 <= y * w + x < w * h,
{
    assert(0 <= y * w) by (nonlinear_arith)
        requires
            0 <= y,
            0 <= w,
    ;
    assert(y * w + x < w * h) by (nonlinear_arith)
        requires
            0 <= x < w,
            0 <= y < h,
    ;
}

pub proof fn lemma_index_injective(w: int, x1: int, y1: int, x2: int, y2: int)
    requires
        0 <= x1 < w,
        0 <= x2 < w,
        0 <= y1,
        0 <= y2,
        y1 * w + x1 == y2 * w + x2,
    ensures
        x1 == x2,
        y1 == y2,
{
    if y1 < y2 {
        assert(y1 * w + w <= y2 * w) by (nonlinear_arith)
            requires
                y1 < y2,
                0 <= w,
        ;
    } else if y2 < y1 {
        assert(y2 * w + w <= y1 * w) by (nonlinear_arith)
            requires
                y2 < y1,
                0 <= w,
        ;
    }
}

/// Row-major position of `(k % w, k / w)` is `k`.
pub proof fn lemma_index_of_position(w: int, k: int)
    requires
        0 < w,
        0 <= k,
    ensures
        (k / w) * w + (k % w) == k,
        0 <= k % w < w,
        0 <= k / w,
{
    vstd::arithmetic::div_mod::lemma_fundamental_div_mod(k, w);
    assert((k / w) * w == w * (k / w)) by (nonlinear_arith);
    vstd::arithmetic::div_mod::lemma_mod_bound(k, w);
    vstd::arithmetic::div_mod::lemma_div_pos_is_pos(k, w);
}

/// Row-major cells of a `w × h` grid after writing `c` at `(x, y)`; a write
/// outside the grid changes nothing.
pub open spec fn cells_with(cells: Seq<CellType>, w: int, h: int, x: int, y: int, c: CellType) -> Seq<CellType> {
    if 0 <= x < w && 0 <= y < h {
        cells.update(y * w + x, c)
    } else {
        cells
    }
}

/// A well-formed grid holds `cells` when `get` answers with them everywhere.
pub proof fn lemma_cells_from_get(g: MapGrid, cells: Seq<CellType>)
    requires
        g.wf(),
        cells.len() == g.width * g.height,
        forall|x: int, y: int| g.in_bounds(x, y) ==> #[trigger] g.get_spec(x, y) == Some(cells[y * g.width + x]),
    ensures
        g.cells@ == cells,
{
    assert forall|k: int| 0 <= k < g.cells@.len() implies g.cells@[k] == cells[k] by {
        let w = g.width as int;
        assert(w > 0) by {
            if w == 0 {
                assert(w * g.height == 0) by (nonlinear_arith)
                    requires
                        w == 0,
                ;
            }
        }
        lemma_index_of_position(w, k);
        let x = k % w;
        let y = k / w;
        assert(y < g.height) by {
            if y >= g.height {
                assert(y * w >= g.height * w) by (nonlinear_arith)
                    requires
                        y >= g.height,
                        w >= 0,
                ;
                assert(g.height * w == w * g.height) by (nonlinear_arith);
            }
        }
        assert(g.get_spec(x, y) == Some(cells[y * g.width + x]));
    }
    assert(g.cells@ =~= cells);
}

impl MapGrid {
    /// The cell vector has one entry per cell and the cell count fits in `u32`.
    pub open spec fn wf(&self) -> bool {
        &&& self.cells@.len() == self.width * self.height
        &&& self.width * self.height <= u32::MAX
    }

    pub open spec fn in_bounds(&self, x: int, y: int) -> bool {
        0 <= x < self.width && 0 <= y < self.height
    }

    /// Content of cell `(x, y)` (meaningful for in-bound coordinates).
    pub open spec fn cell(&self, x: int, y: int) -> CellType {
        self.cells@[y * self.width + x]
    }

    /// What `get` returns.
    pub open spec fn get_spec(&self, x: int, y: int) -> Option<CellType> {
        if self.in_bounds(x, y) {
            Some(self.cell(x, y))
        } else {
            None
        }
    }

    /// A `width × height` grid of open cells.
    pub fn new(width: u32, height: u32) -> (g: MapGrid)
        requires
            width * height <= u32::MAX,
        ensures
            g.wf(),
            g.width == width,
            g.height == height,
            forall|x: int, y: int| g.in_bounds(x, y) ==> #[trigger] g.get_spec(x, y) == Some(CellType::Open),
    {
        let n = width * height;
        let mut cells: Vec<CellType> = Vec::new();
        let mut i: u32 = 0;
        while i < n
            invariant
                i <= n,
                cells@.len() == i,
                forall|k: int| 0 <= k < i ==> cells@[k] == CellType::Open,
            decreases n - i,
        {
            cells.push(CellType::Open);
            i = i + 1;
        }
        let g = MapGrid { width, height, cells };
        assert forall|x: int, y: int| g.in_bounds(x, y) implies #[trigger] g.get_spec(x, y) == Some(
            CellType::Open,
        ) by {
            lemma_index_in_range(width as int, height as int, x, y);
        }
        g
    }

    pub fn get(&self, x: u32, y: u32) -> (r: Option<CellType>)
        requires
            self.wf(),
        ensures
            r == self.get_spec(x as int, y as int),
    {
        if x < self.width && y < self.height {
            proof {
                lemma_index_in_range(self.width as int, self.height as int, x as int, y as int);
            }
            Some(self.cells[(y * self.width + x) as usize])
        } else {
            None
        }
    }

    /// Overwrites cell `(x, y)`; coordinates outside the grid change nothing.
    pub fn set(&mut self, x: u32, y: u32, cell: CellType)
        requires
            old(self).wf(),
        ensures
            final(self).wf(),
            final(self).width == old(self).width,
            final(self).height == old(self).height,
            final(self).cells@ == cells_with(old(self).cells@, old(self).width as int, old(self).height as int, x as int, y as int, cell),
            forall|i: int, j: int| #[trigger]
                final(self).get_spec(i, j) == if i == x && j == y && old(self).in_bounds(i, j) {
                    Some(cell)
                } else {
                    old(self).get_spec(i, j)
                },
    {
        if x < self.width && y < self.height {
            proof {
                lemma_index_in_range(self.width as int, self.height as int, x as int, y as int);
            }
            let idx = (y * self.width + x) as usize;
            self.cells.set(idx, cell);
            proof {
                assert forall|i: int, j: int| #[trigger]
                    self.get_spec(i, j) == if i == x && j == y && old(self).in_bounds(i, j) {
                        Some(cell)
                    } else {
                        old(self).get_spec(i, j)
                    } by {
                    if self.in_bounds(i, j) {
                        lemma_index_in_range(self.width as int, self.height as int, i, j);
                        if i != x || j != y {
                            if j * self.width + i == y * self.width + x {
                                lemma_index_injective(self.width as int, i, j, x as int, y as int);
                            }
                        }
                    }
                }
            }
        }
    }

    /// A destroyed structure gives its cell back: cell `(x, y)` becomes open
    /// if it holds the structure `entity`, and is left alone otherwise (another
    /// structure may stand there by now). Returns whether the cell was freed.
    pub fn free_structure_cell(&mut self, x: u32, y: u32, entity: u64) -> (freed: bool)
        requires
            old(self).wf(),
        ensures
            final(self).wf(),
            final(self).width == old(self).width,
            final(self).height == old(self).height,
            freed == (old(self).get_spec(x as int, y as int) == Some(CellType::Structure(entity))),
            freed ==> final(self).cells@ == cells_with(old(self).cells@, old(self).width as int, old(self).height as int, x as int, y as int, CellType::Open),
            !freed ==> final(self).cells@ == old(self).cells@,
    {
        match self.get(x, y) {
            Some(CellType::Structure(e)) => {
                if e == entity {
                    self.set(x, y, CellType::Open);
                    true
                } else {
                    false
                }
            },
            _ => false,
        }
    }

    /// Cell under a world position, given the position's coordinates already
    /// rounded down to whole cells (`floor(x)`, `floor(z)`); `None` off the map.
    pub fn world_to_grid(&self, gx: i64, gy: i64) -> (r: Option<(u32, u32)>)
        ensures
            r == if self.in_bounds(gx as int, gy as int) {
                Some((gx as u32, gy as u32))
            } else {
                None::<(u32, u32)>
            },
    {
        if gx >= 0 && gy >= 0 {
            if gx < self.width as i64 && gy < self.height as i64 {
                return Some((gx as u32, gy as u32));
            }
        }
        None
    }

    /// Whether any chassis (or the scout) may stand on `(x, y)`; false off the map.
    pub fn is_passable(&self, x: u32, y: u32) -> (r: bool)
        requires
            self.wf(),
        ensures
            r == (self.get_spec(x as int, y as int) matches Some(c) && passable_spec(c)),
    {
        match self.get(x, y) {
            Some(c) => c.is_passable(),
            None => false,
        }
    }

    /// All cells with their coordinates, row by row.
    pub fn iter_cells(&self) -> (r: Vec<((u32, u32), CellType)>)
        requires
            self.wf(),
        ensures
            r@.len() == self.width * self.height,
            forall|k: int|
                0 <= k < r@.len() ==> {
                    let x = k % (self.width as int);
                    let y = k / (self.width as int);
                    &&& #[trigger] r@[k].0 == (x as u32, y as u32)
                    &&& self.in_bounds(x, y)
                    &&& self.get_spec(x, y) == Some(r@[k].1)
                },
    {
        let mut out: Vec<((u32, u32), CellType)> = Vec::new();
        let mut y: u32 = 0;
        while y < self.height
            invariant
                self.wf(),
                y <= self.height,
                out@.len() == y * self.width,
                forall|k: int|
                    0 <= k < out@.len() ==> {
                        let x = k % (self.width as int);
                        let yy = k / (self.width as int);
                        &&& #[trigger] out@[k].0 == (x as u32, yy as u32)
                        &&& self.in_bounds(x, yy)
                        &&& self.get_spec(x, yy) == Some(out@[k].1)
                    },
            decreases self.height - y,
        {
            let mut x: u32 = 0;
            proof {
                assert(y * self.width + self.width <= self.width * self.height) by (nonlinear_arith)
                    requires
                        y < self.height,
                ;
            }
            while x < self.width
                invariant
                    self.wf(),
                    y < self.height,
                    x <= self.width,
                    y * self.width + self.width <= self.width * self.height,
                    out@.len() == y * self.width + x,
                    forall|k: int|
                        0 <= k < out@.len() ==> {
                            let xx = k % (self.width as int);
                            let yy = k / (self.width as int);
                            &&& #[trigger] out@[k].0 == (xx as u32, yy as u32)
                            &&& self.in_bounds(xx, yy)
                            &&& self.get_spec(xx, yy) == Some(out@[k].1)
                        },
                decreases self.width - x,
            {
                let c = self.get(x, y).unwrap();
                proof {
                    let k = y * self.width + x;
                    vstd::arithmetic::div_mod::lemma_fundamental_div_mod_converse(
                        k as int,
                        self.width as int,
                        y as int,
                        x as int,
                    );
                }
                out.push(((x, y), c));
                x = x + 1;
            }
            proof {
                assert((y + 1) * self.width == y * self.width + self.width) by (nonlinear_arith);
            }
            y = y + 1;
        }
        proof {
            assert(y * self.width == self.width * self.height) by (nonlinear_arith)
                requires
                    y == self.height,
            ;
        }
        out
    }
}

} // verus!

verus! {

pub open spec fn abs_diff(a: int, b: int) -> int {
    if a <= b {
        b - a
    } else {
        a - b
    }
}

/// Direction of a coordinate step from `a` towards `b` (`-1` when they are equal).
pub open spec fn step_dir(a: int, b: int) -> int {
    if a < b {
        1
    } else {
        -1
    }
}

/// Sight passes cell `(x, y)` of the line from `(fx, fy)` to `(tx, ty)`: the two
/// end cells are never checked; any other cell must be on the map and not block.
pub open spec fn sight_cell_clear(g: MapGrid, fx: int, fy: int, tx: int, ty: int, x: int, y: int) -> bool {
    ||| (x == fx && y == fy)
    ||| (x == tx && y == ty)
    ||| (g.get_spec(x, y) matches Some(c) && !blocks_los_spec(c))
}

/// The Bresenham walk from state `(x, y, err)` towards `(tx, ty)`, for at most
/// `fuel` cells: true when every visited cell lets sight through.
pub open spec fn sight_walk(
    g: MapGrid,
    fx: int,
    fy: int,
    tx: int,
    ty: int,
    x: int,
    y: int,
    err: int,
    fuel: nat,
) -> bool
    decreases fuel,
{
    if fuel == 0 {
        true
    } else if !sight_cell_clear(g, fx, fy, tx, ty, x, y) {
        false
    } else if x == tx && y == ty {
        true
    } else {
        let dx = abs_diff(fx, tx);
        let dy = abs_diff(fy, ty);
        let e2 = 2 * err;
        let x1 = if e2 > -dy { x + step_dir(fx, tx) } else { x };
        let err1 = if e2 > -dy { err - dy } else { err };
        let y1 = if e2 < dx { y + step_dir(fy, ty) } else { y };
        let err2 = if e2 < dx { err1 + dx } else { err1 };
        sight_walk(g, fx, fy, tx, ty, x1, y1, err2, (fuel - 1) as nat)
    }
}

/// Line of sight between two cells along the Bresenham line.
pub open spec fn line_of_sight_spec(g: MapGrid, from: (u32, u32), to: (u32, u32)) -> bool {
    let fx = from.0 as int;
    let fy = from.1 as int;
    let tx = to.0 as int;
    let ty = to.1 as int;
    sight_walk(
        g,
        fx,
        fy,
        tx,
        ty,
        fx,
        fy,
        abs_diff(fx, tx) - abs_diff(fy, ty),
        (abs_diff(fx, tx) + abs_diff(fy, ty) + 1) as nat,
    )
}

/// One Bresenham step moves at least one coordinate and never past the target.
/// `mx`, `my` count the moves made so far on each axis, `px == dy * mx`,
/// `py == dx * my`.
proof fn lemma_sight_step(dx: int, dy: int, mx: int, my: int, px: int, py: int, err: int)
    requires
        0 <= dx,
        0 <= dy,
        0 <= mx <= dx,
        0 <= my <= dy,
        mx < dx || my < dy,
        px == dy * mx,
        py == dx * my,
        err == dx - dy - px + py,
    ensures
        2 * err > -dy ==> mx < dx,
        2 * err < dx ==> my < dy,
        2 * err > -dy || 2 * err < dx,
{
    if mx == dx {
        assert(px == dy * dx);
        assert(py <= dx * dy - dx) by (nonlinear_arith)
            requires
                py == dx * my,
                my <= dy - 1,
                0 <= dx,
        ;
        assert(dy * dx == dx * dy) by (nonlinear_arith);
    }
    if my == dy {
        assert(py == dx * dy);
        assert(px <= dy * dx - dy) by (nonlinear_arith)
            requires
                px == dy * mx,
                mx <= dx - 1,
                0 <= dy,
        ;
        assert(dy * dx == dx * dy) by (nonlinear_arith);
    }
}

proof fn lemma_product_bounds(dx: int, dy: int, mx: int, my: int)
    requires
        0 <= dx <= u32::MAX,
        0 <= dy <= u32::MAX,
        0 <= mx <= dx,
        0 <= my <= dy,
    ensures
        0 <= dy * mx <= dx * dy,
        0 <= dx * my <= dx * dy,
        dx * dy <= 0x1_0000_0000_0000_0000,
{
    assert(0 <= dy * mx <= dx * dy) by (nonlinear_arith)
        requires
            0 <= dy,
            0 <= mx <= dx,
    ;
    assert(0 <= dx * my <= dx * dy) by (nonlinear_arith)
        requires
            0 <= dx,
            0 <= my <= dy,
    ;
    assert(dx * dy <= 0x1_0000_0000_0000_0000) by (nonlinear_arith)
        requires
            0 <= dx <= u32::MAX,
            0 <= dy <= u32::MAX,
    ;
}

impl MapGrid {
    /// Line of sight between two cells (Bresenham's line). The end cells are not
    /// checked (units and structures stand there); false as soon as a cell in
    /// between blocks sight or lies off the map.
    pub fn has_line_of_sight(&self, from: (u32, u32), to: (u32, u32)) -> (r: bool)
        requires
            self.wf(),
        ensures
            r == line_of_sight_spec(*self, from, to),
    {
        let fx = from.0 as i128;
        let fy = from.1 as i128;
        let x1 = to.0 as i128;
        let y1 = to.1 as i128;
        let mut x0 = fx;
        let mut y0 = fy;
        let dx: i128 = if x0 <= x1 { x1 - x0 } else { x0 - x1 };
        let dy: i128 = if y0 <= y1 { y1 - y0 } else { y0 - y1 };
        let sx: i128 = if x0 < x1 { 1 } else { -1 };
        let sy: i128 = if y0 < y1 { 1 } else { -1 };
        let mut err: i128 = dx - dy;
        let ghost mut steps: int = 0;
        let ghost mut px: int = 0;
        let ghost mut py: int = 0;
        proof {
            lemma_product_bounds(dx as int, dy as int, 0, 0);
        }
        loop
            invariant_except_break
                self.wf(),
                dx == abs_diff(fx as int, x1 as int),
                dy == abs_diff(fy as int, y1 as int),
                sx == step_dir(fx as int, x1 as int),
                sy == step_dir(fy as int, y1 as int),
                fx == from.0,
                fy == from.1,
                x1 == to.0,
                y1 == to.1,
                if fx < x1 { fx <= x0 <= x1 } else { x1 <= x0 <= fx },
                if fy < y1 { fy <= y0 <= y1 } else { y1 <= y0 <= fy },
                px == dy * abs_diff(fx as int, x0 as int),
                py == dx * abs_diff(fy as int, y0 as int),
                0 <= px <= dx * dy,
                0 <= py <= dx * dy,
                dx * dy <= 0x1_0000_0000_0000_0000,
                err == dx - dy - px + py,
                0 <= steps <= abs_diff(fx as int, x0 as int) + abs_diff(fy as int, y0 as int),
                line_of_sight_spec(*self, from, to) == sight_walk(
                    *self,
                    fx as int,
                    fy as int,
                    x1 as int,
                    y1 as int,
                    x0 as int,
                    y0 as int,
                    err as int,
                    (dx + dy + 1 - steps) as nat,
                ),
            ensures
                line_of_sight_spec(*self, from, to),
            decreases (dx - abs_diff(fx as int, x0 as int)) + (dy - abs_diff(fy as int, y0 as int)),
        {
            if !((x0 == fx && y0 == fy) || (x0 == x1 && y0 == y1)) {
                if x0 < 0 || y0 < 0 {
                    return false;
                }
                match self.get(x0 as u32, y0 as u32) {
                    Some(cell) => {
                        if cell.blocks_los() {
                            return false;
                        }
                    },
                    None => {
                        return false;
                    },
                }
            }
            if x0 == x1 && y0 == y1 {
                break;
            }
            let ghost mx = abs_diff(fx as int, x0 as int);
            let ghost my = abs_diff(fy as int, y0 as int);
            proof {
                lemma_sight_step(dx as int, dy as int, mx, my, px, py, err as int);
            }
            let e2 = 2 * err;
            if e2 > -dy {
                err = err - dy;
                x0 = x0 + sx;
                proof {
                    assert(dy * (mx + 1) == dy * mx + dy) by (nonlinear_arith);
                    px = px + dy;
                }
            }
            if e2 < dx {
                err = err + dx;
                y0 = y0 + sy;
                proof {
                    assert(dx * (my + 1) == dx * my + dx) by (nonlinear_arith);
                    py = py + dx;
                }
            }
            proof {
                steps = steps + 1;
                lemma_product_bounds(
                    dx as int,
                    dy as int,
                    abs_diff(fx as int, x0 as int),
                    abs_diff(fy as int, y0 as int),
                );
            }
        }
        true
    }
}

} // verus!

verus! {

/// Every cell of the rectangle spanned by `(fx, fy)` and `(tx, ty)` is on the
/// map and lets sight through.
pub open spec fn sight_box_clear(g: MapGrid, fx: int, fy: int, tx: int, ty: int) -> bool {
    forall|i: int, j: int|
        (if fx <= tx { fx <= i <= tx } else { tx <= i <= fx }) && (if fy <= ty { fy <= j <= ty } else { ty <= j <= fy })
            ==> (#[trigger] g.get_spec(i, j) matches Some(c) && !blocks_los_spec(c))
}

proof fn lemma_walk_clear(
    g: MapGrid,
    fx: int,
    fy: int,
    tx: int,
    ty: int,
    x: int,
    y: int,
    err: int,
    fuel: nat,
    px: int,
    py: int,
)
    requires
        sight_box_clear(g, fx, fy, tx, ty),
        if fx < tx { fx <= x <= tx } else { tx <= x <= fx },
        if fy < ty { fy <= y <= ty } else { ty <= y <= fy },
        px == abs_diff(fy, ty) * abs_diff(fx, x),
        py == abs_diff(fx, tx) * abs_diff(fy, y),
        err == abs_diff(fx, tx) - abs_diff(fy, ty) - px + py,
    ensures
        sight_walk(g, fx, fy, tx, ty, x, y, err, fuel),
    decreases fuel,
{
    if fuel > 0 && !(x == tx && y == ty) {
        let dx = abs_diff(fx, tx);
        let dy = abs_diff(fy, ty);
        let mx = abs_diff(fx, x);
        let my = abs_diff(fy, y);
        assert(g.get_spec(x, y) matches Some(c) && !blocks_los_spec(c));
        lemma_sight_step(dx, dy, mx, my, px, py, err);
        let e2 = 2 * err;
        let x1 = if e2 > -dy { x + step_dir(fx, tx) } else { x };
        let err1 = if e2 > -dy { err - dy } else { err };
        let y1 = if e2 < dx { y + step_dir(fy, ty) } else { y };
        let err2 = if e2 < dx { err1 + dx } else { err1 };
        let px1 = if e2 > -dy { px + dy } else { px };
        let py1 = if e2 < dx { py + dx } else { py };
        assert(dy * (mx + 1) == dy * mx + dy) by (nonlinear_arith);
        assert(dx * (my + 1) == dx * my + dx) by (nonlinear_arith);
        lemma_walk_clear(g, fx, fy, tx, ty, x1, y1, err2, (fuel - 1) as nat, px1, py1);
    }
}

/// Sight between two cells is never blocked when no cell of the rectangle
/// they span blocks it and the whole rectangle lies on the map.
pub proof fn lemma_clear_rectangle_gives_sight(g: MapGrid, from: (u32, u32), to: (u32, u32))
    requires
        sight_box_clear(g, from.0 as int, from.1 as int, to.0 as int, to.1 as int),
    ensures
        line_of_sight_spec(g, from, to),
{
    let fx = from.0 as int;
    let fy = from.1 as int;
    let tx = to.0 as int;
    let ty = to.1 as int;
    lemma_walk_clear(
        g,
        fx,
        fy,
        tx,
        ty,
        fx,
        fy,
        abs_diff(fx, tx) - abs_diff(fy, ty),
        (abs_diff(fx, tx) + abs_diff(fy, ty) + 1) as nat,
        0,
        0,
    );
}

/// A cell always sees itself and the eight cells around it, whatever they hold.
pub proof fn lemma_touching_cells_see_each_other(g: MapGrid, from: (u32, u32), to: (u32, u32))
    requires
        abs_diff(from.0 as int, to.0 as int) <= 1,
        abs_diff(from.1 as int, to.1 as int) <= 1,
    ensures
        line_of_sight_spec(g, from, to),
{
    reveal_with_fuel(sight_walk, 3);
}

} // verus!
