use vstd::prelude::*;

use crate::grid::{abs_diff, lemma_index_in_range, lemma_index_injective, movement_cost_spec, MapGrid};
use crate::types::ChassisType;

verus! {

/// A cell of a path.
#[derive(Debug, Clone, Copy, PartialEq, Eq, Hash, Structural)]
pub struct GridCell {
    pub x: u32,
    pub y: u32,
}

impl GridCell {
    pub fn new(x: u32, y: u32) -> (c: GridCell)
        ensures
            c.x == x,
            c.y == y,
    {
        GridCell { x, y }
    }
}

/// Manhattan distance between two cells.
pub open spec fn manhattan(a: GridCell, b: GridCell) -> int {
    abs_diff(a.x as int, b.x as int) + abs_diff(a.y as int, b.y as int)
}

/// Manhattan distance, the search's estimate of the remaining cost.
pub fn heuristic(a: GridCell, b: GridCell) -> (h: u32)
    requires
        manhattan(a, b) <= u32::MAX,
    ensures
        h == manhattan(a, b),
{
    let dx = if a.x >= b.x { a.x - b.x } else { b.x - a.x };
    let dy = if a.y >= b.y { a.y - b.y } else { b.y - a.y };
    dx + dy
}

/// A chassis may enter `c`: it lies on the map and has a movement cost.
pub open spec fn walkable(map: MapGrid, chassis: ChassisType, c: GridCell) -> bool {
    map.get_spec(c.x as int, c.y as int) matches Some(ct) && movement_cost_spec(ct, chassis) is Some
}

/// Cost of entering a walkable cell.
pub open spec fn enter_cost(map: MapGrid, chassis: ChassisType, c: GridCell) -> int {
    movement_cost_spec(map.get_spec(c.x as int, c.y as int).unwrap(), chassis).unwrap() as int
}

/// The two cells share a side.
pub open spec fn adjacent(a: GridCell, b: GridCell) -> bool {
    ||| (a.x == b.x && (a.y + 1 == b.y || b.y + 1 == a.y))
    ||| (a.y == b.y && (a.x + 1 == b.x || b.x + 1 == a.x))
}

/// `p` is a walk that leaves `start` (not listed) one side-step at a time
/// through cells the chassis may enter.
pub open spec fn is_walk(map: MapGrid, chassis: ChassisType, start: GridCell, p: Seq<GridCell>) -> bool {
    forall|i: int|
        0 <= i < p.len() ==> walkable(map, chassis, #[trigger] p[i]) && adjacent(
            if i == 0 {
                start
            } else {
                p[i - 1]
            },
            p[i],
        )
}

/// The walk `p` from `start` ends in `t` (the empty walk ends where it starts).
pub open spec fn walk_ends_at(start: GridCell, p: Seq<GridCell>, t: GridCell) -> bool {
    if p.len() == 0 {
        start == t
    } else {
        p.last() == t
    }
}

/// Some walk leads from `start` to `t`.
pub open spec fn reachable(map: MapGrid, chassis: ChassisType, start: GridCell, t: GridCell) -> bool {
    exists|p: Seq<GridCell>| is_walk(map, chassis, start, p) && walk_ends_at(start, p, t)
}

/// Cost of the walk `p`: the cost of entering each of its cells.
pub open spec fn walk_cost(map: MapGrid, chassis: ChassisType, p: Seq<GridCell>) -> int
    decreases p.len(),
{
    if p.len() == 0 {
        0
    } else {
        walk_cost(map, chassis, p.drop_last()) + enter_cost(map, chassis, p.last())
    }
}

/// No walk from `start` to `t` costs less than `p`.
pub open spec fn cheapest(map: MapGrid, chassis: ChassisType, start: GridCell, t: GridCell, p: Seq<GridCell>) -> bool {
    forall|q: Seq<GridCell>|
        is_walk(map, chassis, start, q) && walk_ends_at(start, q, t) ==> walk_cost(map, chassis, p) <= #[trigger] walk_cost(
            map,
            chassis,
            q,
        )
}

/// `v.wrapping_sub(1)`.
pub open spec fn wrapping_dec(v: u32) -> u32 {
    if v == 0 {
        u32::MAX
    } else {
        (v - 1) as u32
    }
}

/// The cell a search aims at: the goal itself when it may be entered, else the
/// first enterable of its left, right, upper and lower neighbours.
pub open spec fn search_target(map: MapGrid, chassis: ChassisType, goal: GridCell) -> Option<GridCell> {
    let left = GridCell { x: wrapping_dec(goal.x), y: goal.y };
    let right = GridCell { x: (goal.x + 1) as u32, y: goal.y };
    let up = GridCell { x: goal.x, y: wrapping_dec(goal.y) };
    let down = GridCell { x: goal.x, y: (goal.y + 1) as u32 };
    if walkable(map, chassis, goal) {
        Some(goal)
    } else if walkable(map, chassis, left) {
        Some(left)
    } else if walkable(map, chassis, right) {
        Some(right)
    } else if walkable(map, chassis, up) {
        Some(up)
    } else if walkable(map, chassis, down) {
        Some(down)
    } else {
        None
    }
}

// ---------------------------------------------------------------------------
// Sums and counts over the table of best known costs
// ---------------------------------------------------------------------------

pub open spec fn seq_sum(s: Seq<u64>) -> int
    decreases s.len(),
{
    if s.len() == 0 {
        0
    } else {
        seq_sum(s.drop_last()) + s.last()
    }
}

/// Number of entries below `u64::MAX` (cells with a known cost).
pub open spec fn count_known(s: Seq<u64>) -> int
    decreases s.len(),
{
    if s.len() == 0 {
        0
    } else {
        count_known(s.drop_last()) + if s.last() < u64::MAX {
            1int
        } else {
            0
        }
    }
}

proof fn lemma_sum_nonneg(s: Seq<u64>)
    ensures
        seq_sum(s) >= 0,
    decreases s.len(),
{
    if s.len() > 0 {
        lemma_sum_nonneg(s.drop_last());
    }
}

proof fn lemma_sum_update(s: Seq<u64>, i: int, v: u64)
    requires
        0 <= i < s.len(),
    ensures
        seq_sum(s.update(i, v)) == seq_sum(s) - s[i] + v,
        count_known(s.update(i, v)) == count_known(s) - (if s[i] < u64::MAX {
            1int
        } else {
            0
        }) + (if v < u64::MAX {
            1int
        } else {
            0
        }),
    decreases s.len(),
{
    let t = s.update(i, v);
    if i == s.len() - 1 {
        assert(t.drop_last() =~= s.drop_last());
    } else {
        lemma_sum_update(s.drop_last(), i, v);
        assert(t.drop_last() =~= s.drop_last().update(i, v));
    }
}

proof fn lemma_count_bounds(s: Seq<u64>)
    ensures
        0 <= count_known(s) <= s.len(),
    decreases s.len(),
{
    if s.len() > 0 {
        lemma_count_bounds(s.drop_last());
    }
}

} // verus!

verus! {

/// Row-major index of an on-grid cell.
pub open spec fn cell_index(map: MapGrid, c: GridCell) -> int {
    c.y * map.width + c.x
}

pub open spec fn on_grid(map: MapGrid, c: GridCell) -> bool {
    map.in_bounds(c.x as int, c.y as int)
}

/// Best known cost of reaching `c` (`u64::MAX`: none yet). The start cell is
/// kept apart from the table: its cost is always 0.
pub open spec fn known(map: MapGrid, g: Seq<u64>, start: GridCell, c: GridCell) -> int {
    if c == start {
        0
    } else if on_grid(map, c) {
        g[cell_index(map, c)] as int
    } else {
        u64::MAX as int
    }
}

pub open spec fn in_open(open: Seq<(u64, GridCell)>, c: GridCell) -> bool {
    exists|k: int| 0 <= k < open.len() && (#[trigger] open[k]).1 == c
}

/// Every enterable neighbour of `c` has a known cost, at most that of
/// `c` plus the step into it.
pub open spec fn relaxed(map: MapGrid, chassis: ChassisType, g: Seq<u64>, start: GridCell, c: GridCell) -> bool {
    forall|n: GridCell|
        walkable(map, chassis, n) && adjacent(c, n) ==> #[trigger] known(map, g, start, n) < u64::MAX
            && known(map, g, start, n) <= known(map, g, start, c) + enter_cost(map, chassis, n)
}

/// The queue holds an entry for `c` with estimate `f`.
pub open spec fn has_entry(open: Seq<(u64, GridCell)>, c: GridCell, f: int) -> bool {
    exists|k: int| 0 <= k < open.len() && (#[trigger] open[k]).1 == c && open[k].0 == f
}

/// Estimate of the total cost through `c`: its best known cost plus the
/// Manhattan distance left to `tg`.
pub open spec fn estimate(map: MapGrid, g: Seq<u64>, start: GridCell, tg: GridCell, c: GridCell) -> int {
    known(map, g, start, c) + manhattan(c, tg)
}

/// No known cost can reach `u64::MAX`: a cost is at most 2 per cell.
pub open spec fn bounded(map: MapGrid) -> bool {
    2 * (map.width * map.height) + 2 < u64::MAX
}

/// Every well-formed map is bounded.
proof fn lemma_wf_bounded(map: MapGrid)
    requires
        map.wf(),
    ensures
        bounded(map),
{
}

/// Working tables of one search.
struct Search {
    /// Best known cost per cell (the start cell is kept apart).
    g: Vec<u64>,
    /// Predecessor of each cell on its best known route.
    came: Vec<Option<GridCell>>,
    /// Cells waiting to be expanded, with their estimated total cost.
    open: Vec<(u64, GridCell)>,
}

/// The bookkeeping that a search keeps throughout.
#[verifier::opaque]
pub open spec fn search_inv(
    map: MapGrid,
    chassis: ChassisType,
    start: GridCell,
    tg: GridCell,
    g: Seq<u64>,
    came: Seq<Option<GridCell>>,
    open: Seq<(u64, GridCell)>,
) -> bool {
    &&& map.wf()
    &&& g.len() == map.width * map.height
    &&& came.len() == map.width * map.height
    &&& start.x < u32::MAX
    &&& start.y < u32::MAX
    &&& walkable(map, chassis, tg)
    &&& forall|k: int|
        0 <= k < open.len() ==> {
            let c = (#[trigger] open[k]).1;
            &&& (c == start || on_grid(map, c))
            &&& known(map, g, start, c) < u64::MAX
            &&& open[k].0 >= estimate(map, g, start, tg, c)
        }
    &&& forall|c: GridCell|
        (c == start || on_grid(map, c)) && #[trigger] known(map, g, start, c) < u64::MAX
            ==> known(map, g, start, c) <= 2 * count_known(g)
    &&& forall|c: GridCell|
        on_grid(map, c) && c != start && (#[trigger] came[cell_index(map, c)]) is Some ==> {
            let p = came[cell_index(map, c)].unwrap();
            &&& known(map, g, start, c) < u64::MAX
            &&& walkable(map, chassis, c)
            &&& adjacent(p, c)
            &&& (p == start || on_grid(map, p))
            &&& known(map, g, start, p) + enter_cost(map, chassis, c) <= known(map, g, start, c)
        }
    &&& forall|c: GridCell|
        on_grid(map, c) && c != start && #[trigger] known(map, g, start, c) < u64::MAX
            ==> came[cell_index(map, c)] is Some
    &&& on_grid(map, start) ==> came[cell_index(map, start)] is None
    &&& known(map, g, start, tg) < u64::MAX ==> in_open(open, tg)
}

/// Every cell with a known cost, other than `exc`, either
/// waits in the queue with its current estimate or has been expanded.
#[verifier::opaque]
pub open spec fn expanded_except(
    map: MapGrid,
    chassis: ChassisType,
    start: GridCell,
    tg: GridCell,
    g: Seq<u64>,
    open: Seq<(u64, GridCell)>,
    exc: Option<GridCell>,
) -> bool {
    forall|c: GridCell|
        Some(c) != exc && (c == start || on_grid(map, c)) && #[trigger] known(map, g, start, c)
            < u64::MAX && !has_entry(open, c, estimate(map, g, start, tg, c)) ==> relaxed(
            map,
            chassis,
            g,
            start,
            c,
        )
}

impl Search {
    spec fn core_inv(&self, map: MapGrid, chassis: ChassisType, start: GridCell, tg: GridCell) -> bool {
        search_inv(map, chassis, start, tg, self.g@, self.came@, self.open@)
    }

    spec fn relaxed_except(&self, map: MapGrid, chassis: ChassisType, start: GridCell, tg: GridCell, exc: Option<GridCell>) -> bool {
        expanded_except(map, chassis, start, tg, self.g@, self.open@, exc)
    }

    fn index(map: &MapGrid, c: GridCell) -> (i: usize)
        requires
            map.wf(),
            on_grid(*map, c),
        ensures
            i == cell_index(*map, c),
            i < map.width * map.height,
    {
        proof {
            lemma_index_in_range(map.width as int, map.height as int, c.x as int, c.y as int);
        }
        (c.y * map.width + c.x) as usize
    }

    fn gscore(&self, map: &MapGrid, start: GridCell, c: GridCell) -> (r: u64)
        requires
            map.wf(),
            self.g@.len() == map.width * map.height,
        ensures
            r == known(*map, self.g@, start, c),
    {
        if c == start {
            0
        } else if c.x < map.width && c.y < map.height {
            self.g[Self::index(map, c)]
        } else {
            u64::MAX
        }
    }
}

proof fn lemma_known_other(map: MapGrid, g: Seq<u64>, start: GridCell, nb: GridCell, v: u64, c: GridCell)
    requires
        map.wf(),
        g.len() == map.width * map.height,
        on_grid(map, nb),
        nb != start,
    ensures
        known(map, g.update(cell_index(map, nb), v), start, c) == if c == nb {
            v as int
        } else {
            known(map, g, start, c)
        },
{
    lemma_index_in_range(map.width as int, map.height as int, nb.x as int, nb.y as int);
    if c != start && c != nb && on_grid(map, c) {
        lemma_index_in_range(map.width as int, map.height as int, c.x as int, c.y as int);
        if cell_index(map, c) == cell_index(map, nb) {
            lemma_index_injective(map.width as int, c.x as int, c.y as int, nb.x as int, nb.y as int);
        }
    }
}

proof fn lemma_index_other(map: MapGrid, a: GridCell, b: GridCell)
    requires
        on_grid(map, a),
        on_grid(map, b),
        a != b,
    ensures
        cell_index(map, a) != cell_index(map, b),
{
    if cell_index(map, a) == cell_index(map, b) {
        lemma_index_injective(map.width as int, a.x as int, a.y as int, b.x as int, b.y as int);
    }
}

} // verus!

verus! {

/// `g` is `g0` with the cost of `nb` lowered to `t`.
pub open spec fn lowered(map: MapGrid, start: GridCell, g0: Seq<u64>, g: Seq<u64>, nb: GridCell, t: u64) -> bool {
    &&& g.len() == g0.len()
    &&& forall|c: GridCell| #[trigger]
        known(map, g, start, c) == if c == nb {
            t as int
        } else {
            known(map, g0, start, c)
        }
}

proof fn lemma_relax_known(map: MapGrid, start: GridCell, g0: Seq<u64>, nb: GridCell, t: u64)
    requires
        map.wf(),
        g0.len() == map.width * map.height,
        on_grid(map, nb),
        nb != start,
    ensures
        lowered(map, start, g0, g0.update(cell_index(map, nb), t), nb, t),
{
    lemma_index_in_range(map.width as int, map.height as int, nb.x as int, nb.y as int);
    assert forall|c: GridCell| #[trigger]
        known(map, g0.update(cell_index(map, nb), t), start, c) == if c == nb {
            t as int
        } else {
            known(map, g0, start, c)
        } by {
        lemma_known_other(map, g0, start, nb, t, c);
    }
}

proof fn lemma_relax_open(
    map: MapGrid,
    start: GridCell,
    tg: GridCell,
    nb: GridCell,
    t: u64,
    f: u64,
    g0: Seq<u64>,
    g: Seq<u64>,
    open0: Seq<(u64, GridCell)>,
)
    requires
        lowered(map, start, g0, g, nb, t),
        t < known(map, g0, start, nb),
        on_grid(map, nb),
        f == t + manhattan(nb, tg),
        forall|k: int|
            0 <= k < open0.len() ==> {
                let c = (#[trigger] open0[k]).1;
                &&& (c == start || on_grid(map, c))
                &&& known(map, g0, start, c) < u64::MAX
                &&& open0[k].0 >= estimate(map, g0, start, tg, c)
            },
        known(map, g0, start, tg) < u64::MAX ==> in_open(open0, tg),
    ensures
        forall|c: GridCell| in_open(open0, c) ==> #[trigger] in_open(open0.push((f, nb)), c),
        forall|c: GridCell, v: int| has_entry(open0, c, v) ==> #[trigger] has_entry(open0.push((f, nb)), c, v),
        in_open(open0.push((f, nb)), nb),
        has_entry(open0.push((f, nb)), nb, estimate(map, g, start, tg, nb)),
        forall|k: int|
            0 <= k < open0.push((f, nb)).len() ==> {
                let c = (#[trigger] open0.push((f, nb))[k]).1;
                &&& (c == start || on_grid(map, c))
                &&& known(map, g, start, c) < u64::MAX
                &&& open0.push((f, nb))[k].0 >= estimate(map, g, start, tg, c)
            },
        known(map, g, start, tg) < u64::MAX ==> in_open(open0.push((f, nb)), tg),
{
    let open = open0.push((f, nb));
    assert(open[open.len() - 1].1 == nb);
    assert(open[open.len() - 1].0 == estimate(map, g, start, tg, nb));
    assert forall|c: GridCell| in_open(open0, c) implies #[trigger] in_open(open, c) by {
        let k = choose|k: int| 0 <= k < open0.len() && (#[trigger] open0[k]).1 == c;
        assert(open[k] == open0[k]);
    }
    assert forall|c: GridCell, v: int| has_entry(open0, c, v) implies #[trigger] has_entry(open, c, v) by {
        let k = choose|k: int| 0 <= k < open0.len() && (#[trigger] open0[k]).1 == c && open0[k].0 == v;
        assert(open[k] == open0[k]);
    }
    assert forall|k: int| 0 <= k < open.len() implies {
        let c = (#[trigger] open[k]).1;
        &&& (c == start || on_grid(map, c))
        &&& known(map, g, start, c) < u64::MAX
        &&& open[k].0 >= estimate(map, g, start, tg, c)
    } by {
        if k < open0.len() {
            assert(open[k] == open0[k]);
            assert(known(map, g, start, open[k].1) <= known(map, g0, start, open[k].1));
        }
    }
    if known(map, g, start, tg) < u64::MAX && tg != nb {
        assert(in_open(open0, tg));
    }
}

proof fn lemma_relax_bound(
    map: MapGrid,
    start: GridCell,
    cur: GridCell,
    nb: GridCell,
    t: u64,
    g0: Seq<u64>,
    g: Seq<u64>,
)
    requires
        map.wf(),
        g0.len() == map.width * map.height,
        on_grid(map, nb),
        nb != start,
        g == g0.update(cell_index(map, nb), t),
        lowered(map, start, g0, g, nb, t),
        t < known(map, g0, start, nb),
        t <= known(map, g0, start, cur) + 2,
        cur == start || on_grid(map, cur),
        known(map, g0, start, cur) < u64::MAX,
        forall|c: GridCell|
            (c == start || on_grid(map, c)) && #[trigger] known(map, g0, start, c) < u64::MAX
                ==> known(map, g0, start, c) <= 2 * count_known(g0),
    ensures
        forall|c: GridCell|
            (c == start || on_grid(map, c)) && #[trigger] known(map, g, start, c) < u64::MAX
                ==> known(map, g, start, c) <= 2 * count_known(g),
        seq_sum(g) < seq_sum(g0),
{
    let i = cell_index(map, nb);
    lemma_index_in_range(map.width as int, map.height as int, nb.x as int, nb.y as int);
    lemma_sum_update(g0, i, t);
    let cnt_old = count_known(g0);
    assert(known(map, g0, start, cur) <= 2 * cnt_old);
    assert forall|c: GridCell|
        (c == start || on_grid(map, c)) && #[trigger] known(map, g, start, c) < u64::MAX
            implies known(map, g, start, c) <= 2 * count_known(g) by {
        if c != nb {
            assert(known(map, g0, start, c) <= 2 * cnt_old);
        }
    }
}

proof fn lemma_relax_came(
    map: MapGrid,
    chassis: ChassisType,
    start: GridCell,
    cur: GridCell,
    nb: GridCell,
    t: u64,
    g0: Seq<u64>,
    g: Seq<u64>,
    came0: Seq<Option<GridCell>>,
)
    requires
        map.wf(),
        g0.len() == map.width * map.height,
        came0.len() == map.width * map.height,
        on_grid(map, nb),
        nb != start,
        walkable(map, chassis, nb),
        adjacent(cur, nb),
        cur == start || on_grid(map, cur),
        lowered(map, start, g0, g, nb, t),
        t < known(map, g0, start, nb),
        known(map, g0, start, cur) + enter_cost(map, chassis, nb) == t,
        forall|c: GridCell|
            on_grid(map, c) && c != start && (#[trigger] came0[cell_index(map, c)]) is Some ==> {
                let p = came0[cell_index(map, c)].unwrap();
                &&& known(map, g0, start, c) < u64::MAX
                &&& walkable(map, chassis, c)
                &&& adjacent(p, c)
                &&& (p == start || on_grid(map, p))
                &&& known(map, g0, start, p) + enter_cost(map, chassis, c) <= known(map, g0, start, c)
            },
        forall|c: GridCell|
            on_grid(map, c) && c != start && #[trigger] known(map, g0, start, c) < u64::MAX
                ==> came0[cell_index(map, c)] is Some,
        on_grid(map, start) ==> came0[cell_index(map, start)] is None,
    ensures
        ({
            let came = came0.update(cell_index(map, nb), Some(cur));
            &&& forall|c: GridCell|
                on_grid(map, c) && c != start && (#[trigger] came[cell_index(map, c)]) is Some ==> {
                    let p = came[cell_index(map, c)].unwrap();
                    &&& known(map, g, start, c) < u64::MAX
                    &&& walkable(map, chassis, c)
                    &&& adjacent(p, c)
                    &&& (p == start || on_grid(map, p))
                    &&& known(map, g, start, p) + enter_cost(map, chassis, c) <= known(map, g, start, c)
                }
            &&& forall|c: GridCell|
                on_grid(map, c) && c != start && #[trigger] known(map, g, start, c) < u64::MAX
                    ==> came[cell_index(map, c)] is Some
            &&& on_grid(map, start) ==> came[cell_index(map, start)] is None
        }),
{
    let i = cell_index(map, nb);
    let came = came0.update(i, Some(cur));
    lemma_index_in_range(map.width as int, map.height as int, nb.x as int, nb.y as int);
    assert forall|c: GridCell|
        on_grid(map, c) && c != start && (#[trigger] came[cell_index(map, c)]) is Some implies {
            let p = came[cell_index(map, c)].unwrap();
            &&& known(map, g, start, c) < u64::MAX
            &&& walkable(map, chassis, c)
            &&& adjacent(p, c)
            &&& (p == start || on_grid(map, p))
            &&& known(map, g, start, p) + enter_cost(map, chassis, c) <= known(map, g, start, c)
        } by {
        lemma_index_in_range(map.width as int, map.height as int, c.x as int, c.y as int);
        if c != nb {
            lemma_index_other(map, c, nb);
            assert(came[cell_index(map, c)] == came0[cell_index(map, c)]);
            let p = came[cell_index(map, c)].unwrap();
            assert(known(map, g, start, p) <= known(map, g0, start, p));
        }
    }
    assert forall|c: GridCell|
        on_grid(map, c) && c != start && #[trigger] known(map, g, start, c) < u64::MAX
            implies came[cell_index(map, c)] is Some by {
        lemma_index_in_range(map.width as int, map.height as int, c.x as int, c.y as int);
        if c != nb {
            lemma_index_other(map, c, nb);
        }
    }
    if on_grid(map, start) {
        lemma_index_in_range(map.width as int, map.height as int, start.x as int, start.y as int);
        lemma_index_other(map, start, nb);
        assert(came[cell_index(map, start)] == came0[cell_index(map, start)]);
    }
}

proof fn lemma_relax_expanded(
    map: MapGrid,
    chassis: ChassisType,
    start: GridCell,
    tg: GridCell,
    cur: GridCell,
    nb: GridCell,
    t: u64,
    f: u64,
    g0: Seq<u64>,
    g: Seq<u64>,
    open0: Seq<(u64, GridCell)>,
)
    requires
        lowered(map, start, g0, g, nb, t),
        expanded_except(map, chassis, start, tg, g0, open0, Some(cur)),
        t < known(map, g0, start, nb),
        has_entry(open0.push((f, nb)), nb, estimate(map, g, start, tg, nb)),
        forall|c: GridCell, v: int| has_entry(open0, c, v) ==> #[trigger] has_entry(open0.push((f, nb)), c, v),
    ensures
        expanded_except(map, chassis, start, tg, g, open0.push((f, nb)), Some(cur)),
{
    reveal(expanded_except);
    let open = open0.push((f, nb));
    assert forall|c: GridCell|
        Some(c) != Some(cur) && (c == start || on_grid(map, c)) && #[trigger] known(map, g, start, c)
            < u64::MAX && !has_entry(open, c, estimate(map, g, start, tg, c)) implies relaxed(map, chassis, g, start, c) by {
        assert(c != nb);
        assert(known(map, g, start, c) == known(map, g0, start, c));
        assert(!has_entry(open0, c, estimate(map, g0, start, tg, c)));
        assert(relaxed(map, chassis, g0, start, c));
        assert forall|n: GridCell|
            walkable(map, chassis, n) && adjacent(c, n) implies #[trigger] known(map, g, start, n)
                < u64::MAX && known(map, g, start, n) <= known(map, g, start, c) + enter_cost(map, chassis, n) by {
            assert(known(map, g0, start, n) < u64::MAX);
            assert(known(map, g, start, n) <= known(map, g0, start, n));
        }
    }
}

/// Recording the cheaper route `cur -> nb` (cost `t`) and queueing `nb` keeps
/// the bookkeeping.
proof fn lemma_relax_update(
    map: MapGrid,
    chassis: ChassisType,
    start: GridCell,
    tg: GridCell,
    cur: GridCell,
    nb: GridCell,
    t: u64,
    f: u64,
    g0: Seq<u64>,
    came0: Seq<Option<GridCell>>,
    open0: Seq<(u64, GridCell)>,
)
    requires
        search_inv(map, chassis, start, tg, g0, came0, open0),
        expanded_except(map, chassis, start, tg, g0, open0, Some(cur)),
        cur == start || on_grid(map, cur),
        walkable(map, chassis, nb),
        adjacent(cur, nb),
        nb != cur,
        t < known(map, g0, start, nb),
        t == known(map, g0, start, cur) + enter_cost(map, chassis, nb),
        1 <= enter_cost(map, chassis, nb) <= 2,
        f == t + manhattan(nb, tg),
    ensures
        ({
            let g = g0.update(cell_index(map, nb), t);
            let came = came0.update(cell_index(map, nb), Some(cur));
            let open = open0.push((f, nb));
            &&& search_inv(map, chassis, start, tg, g, came, open)
            &&& expanded_except(map, chassis, start, tg, g, open, Some(cur))
            &&& forall|c: GridCell| #[trigger] known(map, g, start, c) <= known(map, g0, start, c)
            &&& forall|c: GridCell| in_open(open0, c) ==> #[trigger] in_open(open, c)
            &&& known(map, g, start, nb) == t
            &&& known(map, g, start, cur) == known(map, g0, start, cur)
            &&& seq_sum(g) < seq_sum(g0)
        }),
{
    reveal(search_inv);
    reveal(expanded_except);
    let g = g0.update(cell_index(map, nb), t);
    assert(nb != start);
    lemma_relax_known(map, start, g0, nb, t);
    lemma_relax_open(map, start, tg, nb, t, f, g0, g, open0);
    lemma_relax_bound(map, start, cur, nb, t, g0, g);
    lemma_relax_came(map, chassis, start, cur, nb, t, g0, g, came0);
    lemma_relax_expanded(map, chassis, start, tg, cur, nb, t, f, g0, g, open0);
    lemma_index_in_range(map.width as int, map.height as int, nb.x as int, nb.y as int);
    assert(forall|c: GridCell| #[trigger] known(map, g, start, c) <= known(map, g0, start, c));
    assert(known(map, g, start, cur) == known(map, g0, start, cur));
    let came = came0.update(cell_index(map, nb), Some(cur));
    assert(came.len() == map.width * map.height);
    assert(search_inv(map, chassis, start, tg, g, came, open0.push((f, nb))));
}

impl Search {
    /// Tries the route to `nb` through `cur` (whose best known cost is `cur_g`);
    /// records it and queues `nb` when it is cheaper than what is known.
    fn relax(
        &mut self,
        map: &MapGrid,
        chassis: ChassisType,
        start: GridCell,
        tg: GridCell,
        cur: GridCell,
        cur_g: u64,
        nb: GridCell,
    )
        requires
            old(self).core_inv(*map, chassis, start, tg),
            old(self).relaxed_except(*map, chassis, start, tg, Some(cur)),
            cur == start || on_grid(*map, cur),
            known(*map, old(self).g@, start, cur) == cur_g,
            cur_g < u64::MAX,
            nb != cur,
            on_grid(*map, nb) ==> adjacent(cur, nb),
        ensures
            final(self).core_inv(*map, chassis, start, tg),
            final(self).relaxed_except(*map, chassis, start, tg, Some(cur)),
            final(self).g@.len() == old(self).g@.len(),
            final(self).came@.len() == old(self).came@.len(),
            forall|c: GridCell| #[trigger]
                known(*map, final(self).g@, start, c) <= known(*map, old(self).g@, start, c),
            forall|c: GridCell| in_open(old(self).open@, c) ==> #[trigger] in_open(final(self).open@, c),
            known(*map, final(self).g@, start, cur) == cur_g,
            5 * seq_sum(final(self).g@) + final(self).open@.len() <= 5 * seq_sum(old(self).g@)
                + old(self).open@.len(),
            walkable(*map, chassis, nb) ==> known(*map, final(self).g@, start, nb) < u64::MAX,
            walkable(*map, chassis, nb) ==> known(*map, final(self).g@, start, nb) <= cur_g + enter_cost(
                *map,
                chassis,
                nb,
            ),
    {
        proof {
            reveal(search_inv);
            reveal(expanded_except);
        }
        let ghost g0 = self.g@;
        let ghost came0 = self.came@;
        let ghost open0 = self.open@;
        let cell = match map.get(nb.x, nb.y) {
            Some(c) => c,
            None => {
                return ;
            },
        };
        let cost = match cell.movement_cost(chassis) {
            Some(k) => k,
            None => {
                return ;
            },
        };
        proof {
            crate::grid::lemma_cost_matches_passability(cell, chassis);
            lemma_wf_bounded(*map);
            lemma_count_bounds(g0);
            assert(cur_g <= 2 * count_known(g0));
        }
        let tentative = cur_g.saturating_add(cost as u64);
        let old_nb = self.gscore(map, start, nb);
        if tentative < old_nb {
            let i = Self::index(map, nb);
            proof {
                assert(on_grid(*map, tg));
                assert(abs_diff(nb.x as int, tg.x as int) < map.width);
                assert(abs_diff(nb.y as int, tg.y as int) < map.height);
                assert(map.width + map.height <= map.width * map.height + 1) by (nonlinear_arith)
                    requires
                        1 <= map.width,
                        1 <= map.height,
                ;
            }
            let h = heuristic(nb, tg);
            let f = tentative + h as u64;
            proof {
                lemma_relax_update(*map, chassis, start, tg, cur, nb, tentative, f, g0, came0, open0);
            }
            self.g.set(i, tentative);
            self.came.set(i, Some(cur));
            self.open.push((f, nb));
            proof {
                assert(self.g@ == g0.update(cell_index(*map, nb), tentative));
                assert(known(*map, self.g@, start, nb) == tentative);
            }
        } else {
            proof {
                assert(1 <= cost <= 2);
                assert(count_known(g0) <= map.width * map.height);
                assert(cur_g <= 2 * count_known(g0));
                assert(cur_g + cost < u64::MAX);
                assert(tentative < u64::MAX);
            }
        }
    }
}

} // verus!

verus! {

/// Takes out an entry of least estimated cost.
fn pop_min(open: &mut Vec<(u64, GridCell)>) -> (e: (u64, GridCell))
    requires
        old(open)@.len() > 0,
    ensures
        exists|k: int|
            0 <= k < old(open)@.len() && e == old(open)@[k] && final(open)@ == old(open)@.remove(k),
        forall|j: int| 0 <= j < old(open)@.len() ==> e.0 <= #[trigger] old(open)@[j].0,
{
    let mut best: usize = 0;
    let mut i: usize = 1;
    while i < open.len()
        invariant
            0 < open@.len(),
            best < open@.len(),
            1 <= i <= open@.len(),
            forall|j: int| 0 <= j < i ==> open@[best as int].0 <= #[trigger] open@[j].0,
        decreases open@.len() - i,
    {
        if open[i].0 < open[best].0 {
            best = i;
        }
        i = i + 1;
    }
    open.remove(best)
}

/// Walks along `p` from `start`: with every cell that has a known cost
/// expanded, every cell of the walk gets a known cost.
proof fn lemma_walk_known(
    map: MapGrid,
    chassis: ChassisType,
    g: Seq<u64>,
    start: GridCell,
    p: Seq<GridCell>,
    i: int,
)
    requires
        is_walk(map, chassis, start, p),
        0 <= i < p.len(),
        forall|c: GridCell|
            (c == start || on_grid(map, c)) && #[trigger] known(map, g, start, c) < u64::MAX
                ==> relaxed(map, chassis, g, start, c),
    ensures
        known(map, g, start, p[i]) < u64::MAX,
    decreases i,
{
    assert(walkable(map, chassis, p[i]));
    if i == 0 {
        assert(known(map, g, start, start) == 0);
        assert(relaxed(map, chassis, g, start, start));
    } else {
        lemma_walk_known(map, chassis, g, start, p, i - 1);
        assert(walkable(map, chassis, p[i - 1]));
        assert(known(map, g, start, p[i - 1]) < u64::MAX);
        assert(relaxed(map, chassis, g, start, p[i - 1]));
    }
}

impl Search {
    fn came_of(&self, map: &MapGrid, c: GridCell) -> (r: Option<GridCell>)
        requires
            map.wf(),
            self.came@.len() == map.width * map.height,
        ensures
            r == if on_grid(*map, c) {
                self.came@[cell_index(*map, c)]
            } else {
                None::<GridCell>
            },
    {
        if c.x < map.width && c.y < map.height {
            self.came[Self::index(map, c)]
        } else {
            None
        }
    }

    /// Follows predecessors back from `tg` to the start and returns the route
    /// in walking order, start excluded.
    #[verifier::rlimit(60)]
    fn reconstruct(
        &self,
        map: &MapGrid,
        chassis: ChassisType,
        start: GridCell,
        tg: GridCell,
        Ghost(queue): Ghost<Seq<(u64, GridCell)>>,
    ) -> (p: Vec<GridCell>)
        requires
            search_inv(*map, chassis, start, tg, self.g@, self.came@, queue),
            known(*map, self.g@, start, tg) < u64::MAX,
        ensures
            is_walk(*map, chassis, start, p@),
            walk_ends_at(start, p@, tg),
            walk_cost(*map, chassis, p@) <= known(*map, self.g@, start, tg),
            forall|i: int| 0 <= i < p@.len() ==> #[trigger] p@[i] != start,
    {
        let mut rev: Vec<GridCell> = Vec::new();
        rev.push(tg);
        let mut cur = tg;
        loop
            invariant_except_break
                search_inv(*map, chassis, start, tg, self.g@, self.came@, queue),
                rev@.len() >= 1,
                rev@[0] == tg,
                rev@[rev@.len() - 1] == cur,
                known(*map, self.g@, start, cur) < u64::MAX,
                cur == start || on_grid(*map, cur),
                forall|i: int|
                    0 <= i < rev@.len() - 1 ==> walkable(*map, chassis, #[trigger] rev@[i]) && adjacent(
                        rev@[i + 1],
                        rev@[i],
                    ),
                walk_cost(*map, chassis, rev@.drop_last()) + known(*map, self.g@, start, cur) <= known(
                    *map,
                    self.g@,
                    start,
                    tg,
                ),
                forall|i: int| 0 <= i < rev@.len() - 1 ==> #[trigger] rev@[i] != start,
            ensures
                forall|i: int| 0 <= i < rev@.len() - 1 ==> #[trigger] rev@[i] != start,
                rev@.len() >= 1,
                rev@[0] == tg,
                rev@[rev@.len() - 1] == start,
                walk_cost(*map, chassis, rev@.drop_last()) <= known(*map, self.g@, start, tg),
                forall|i: int|
                    0 <= i < rev@.len() - 1 ==> walkable(*map, chassis, #[trigger] rev@[i]) && adjacent(
                        rev@[i + 1],
                        rev@[i],
                    ),
            decreases known(*map, self.g@, start, cur),
        {
            proof {
                reveal(search_inv);
            }
            match self.came_of(map, cur) {
                Some(prev) => {
                    proof {
                        assert(cur != start);
                        lemma_index_in_range(map.width as int, map.height as int, cur.x as int, cur.y as int);
                    }
                    let ghost rev0 = rev@;
                    rev.push(prev);
                    proof {
                        assert(rev@.drop_last() =~= rev0);
                        assert(rev0.drop_last().push(cur) =~= rev0);
                    }
                    cur = prev;
                },
                None => {
                    proof {
                        if cur != start {
                            lemma_index_in_range(map.width as int, map.height as int, cur.x as int, cur.y as int);
                        }
                    }
                    break;
                },
            }
        }
        let mut out: Vec<GridCell> = Vec::new();
        let len = rev.len();
        let mut k: usize = len - 1;
        proof {
            assert(rev@.take(len - 1) =~= rev@.drop_last());
        }
        while k > 0
            invariant
                1 <= len == rev@.len(),
                k < len,
                out@.len() == len - 1 - k,
                forall|j: int| 0 <= j < out@.len() ==> #[trigger] out@[j] == rev@[len - 2 - j],
                walk_cost(*map, chassis, out@) + walk_cost(*map, chassis, rev@.take(k as int)) == walk_cost(
                    *map,
                    chassis,
                    rev@.take(len - 1),
                ),
            decreases k,
        {
            k = k - 1;
            let ghost out0 = out@;
            out.push(rev[k]);
            proof {
                assert(out@.drop_last() =~= out0);
                assert(rev@.take(k + 1).drop_last() =~= rev@.take(k as int));
            }
        }
        proof {
            assert(rev@.take(0) =~= Seq::<GridCell>::empty());
        }
        proof {
            assert forall|j: int| 0 <= j < out@.len() implies walkable(*map, chassis, #[trigger] out@[j])
                && adjacent(
                if j == 0 {
                    start
                } else {
                    out@[j - 1]
                },
                out@[j],
            ) by {
                let i = len - 2 - j;
                assert(walkable(*map, chassis, rev@[i]) && adjacent(rev@[i + 1], rev@[i]));
                if j > 0 {
                    assert(out@[j - 1] == rev@[i + 1]);
                }
            }
            if out@.len() > 0 {
                assert(out@[out@.len() - 1] == rev@[0]);
            }
            assert forall|j: int| 0 <= j < out@.len() implies #[trigger] out@[j] != start by {
                assert(out@[j] == rev@[len - 2 - j]);
            }
        }
        out
    }
}

/// Whether a chassis may enter `c`.
fn is_walkable(map: &MapGrid, c: GridCell, chassis: ChassisType) -> (r: bool)
    requires
        map.wf(),
    ensures
        r == walkable(*map, chassis, c),
{
    match map.get(c.x, c.y) {
        Some(ct) => ct.movement_cost(chassis).is_some(),
        None => false,
    }
}

} // verus!

verus! {

/// Removing the queue entry `k` (not the target's) keeps the bookkeeping,
/// except that its cell may now lack an expansion.
#[verifier::rlimit(90)]
proof fn lemma_pop_keeps(
    map: MapGrid,
    chassis: ChassisType,
    start: GridCell,
    tg: GridCell,
    g: Seq<u64>,
    came: Seq<Option<GridCell>>,
    open0: Seq<(u64, GridCell)>,
    k0: int,
)
    requires
        search_inv(map, chassis, start, tg, g, came, open0),
        expanded_except(map, chassis, start, tg, g, open0, None),
        0 <= k0 < open0.len(),
        open0[k0].1 != tg,
    ensures
        search_inv(map, chassis, start, tg, g, came, open0.remove(k0)),
        expanded_except(map, chassis, start, tg, g, open0.remove(k0), Some(open0[k0].1)),
        (open0[k0].1 == start || on_grid(map, open0[k0].1)),
        known(map, g, start, open0[k0].1) < u64::MAX,
{
    reveal(search_inv);
    reveal(expanded_except);
    let cur = open0[k0].1;
    let open = open0.remove(k0);
    assert forall|c: GridCell| c != cur implies #[trigger] in_open(open, c) == in_open(open0, c) by {
        if in_open(open0, c) {
            let k = choose|k: int| 0 <= k < open0.len() && (#[trigger] open0[k]).1 == c;
            assert(k != k0);
            if k < k0 {
                assert(open[k] == open0[k]);
            } else {
                assert(open[k - 1] == open0[k]);
            }
        }
        if in_open(open, c) {
            let k = choose|k: int| 0 <= k < open.len() && (#[trigger] open[k]).1 == c;
            if k < k0 {
                assert(open[k] == open0[k]);
            } else {
                assert(open[k] == open0[k + 1]);
            }
        }
    }
    assert forall|c: GridCell, v: int| c != cur && #[trigger] has_entry(open0, c, v) implies has_entry(open, c, v) by {
        let k = choose|k: int| 0 <= k < open0.len() && (#[trigger] open0[k]).1 == c && open0[k].0 == v;
        assert(k != k0);
        if k < k0 {
            assert(open[k] == open0[k]);
        } else {
            assert(open[k - 1] == open0[k]);
        }
    }
    assert forall|k: int| 0 <= k < open.len() implies {
        let c = (#[trigger] open[k]).1;
        &&& (c == start || on_grid(map, c))
        &&& known(map, g, start, c) < u64::MAX
        &&& open[k].0 >= estimate(map, g, start, tg, c)
    } by {
        if k < k0 {
            assert(open[k] == open0[k]);
        } else {
            assert(open[k] == open0[k + 1]);
        }
    }
    if known(map, g, start, tg) < u64::MAX {
        assert(in_open(open0, tg));
    }
    assert forall|c: GridCell|
        Some(c) != Some(cur) && (c == start || on_grid(map, c)) && #[trigger] known(map, g, start, c)
            < u64::MAX && !has_entry(open, c, estimate(map, g, start, tg, c)) implies relaxed(
        map,
        chassis,
        g,
        start,
        c,
    ) by {
        assert(!has_entry(open0, c, estimate(map, g, start, tg, c)));
    }
}

/// With nothing left to expand, the target is out of reach.
proof fn lemma_exhausted(
    map: MapGrid,
    chassis: ChassisType,
    start: GridCell,
    tg: GridCell,
    g: Seq<u64>,
    came: Seq<Option<GridCell>>,
    open: Seq<(u64, GridCell)>,
)
    requires
        search_inv(map, chassis, start, tg, g, came, open),
        expanded_except(map, chassis, start, tg, g, open, None),
        open.len() == 0,
    ensures
        !reachable(map, chassis, start, tg),
{
    reveal(search_inv);
    reveal(expanded_except);
    if reachable(map, chassis, start, tg) {
        let p = choose|p: Seq<GridCell>| is_walk(map, chassis, start, p) && walk_ends_at(start, p, tg);
        assert forall|c: GridCell|
            (c == start || on_grid(map, c)) && #[trigger] known(map, g, start, c) < u64::MAX
                implies relaxed(map, chassis, g, start, c) by {
            assert(!has_entry(open, c, estimate(map, g, start, tg, c)));
        }
        if p.len() == 0 {
            assert(known(map, g, start, tg) == 0);
        } else {
            lemma_walk_known(map, chassis, g, start, p, p.len() - 1);
        }
        assert(in_open(open, tg));
    }
}

/// Once the four side neighbours of `cur` have been tried, `cur` is expanded.
proof fn lemma_expanded(
    map: MapGrid,
    chassis: ChassisType,
    start: GridCell,
    tg: GridCell,
    g: Seq<u64>,
    open: Seq<(u64, GridCell)>,
    cur: GridCell,
    n1: GridCell,
    n2: GridCell,
    n3: GridCell,
    n4: GridCell,
)
    requires
        expanded_except(map, chassis, start, tg, g, open, Some(cur)),
        cur.x < u32::MAX,
        cur.y < u32::MAX,
        n1 == (GridCell { x: wrapping_dec(cur.x), y: cur.y }),
        n2 == (GridCell { x: (cur.x + 1) as u32, y: cur.y }),
        n3 == (GridCell { x: cur.x, y: wrapping_dec(cur.y) }),
        n4 == (GridCell { x: cur.x, y: (cur.y + 1) as u32 }),
        walkable(map, chassis, n1) ==> known(map, g, start, n1) < u64::MAX,
        walkable(map, chassis, n2) ==> known(map, g, start, n2) < u64::MAX,
        walkable(map, chassis, n3) ==> known(map, g, start, n3) < u64::MAX,
        walkable(map, chassis, n4) ==> known(map, g, start, n4) < u64::MAX,
        walkable(map, chassis, n1) ==> known(map, g, start, n1) <= known(map, g, start, cur) + enter_cost(map, chassis, n1),
        walkable(map, chassis, n2) ==> known(map, g, start, n2) <= known(map, g, start, cur) + enter_cost(map, chassis, n2),
        walkable(map, chassis, n3) ==> known(map, g, start, n3) <= known(map, g, start, cur) + enter_cost(map, chassis, n3),
        walkable(map, chassis, n4) ==> known(map, g, start, n4) <= known(map, g, start, cur) + enter_cost(map, chassis, n4),
    ensures
        expanded_except(map, chassis, start, tg, g, open, None),
{
    reveal(expanded_except);
    assert forall|nb: GridCell| walkable(map, chassis, nb) && adjacent(cur, nb) implies #[trigger] known(
        map,
        g,
        start,
        nb,
    ) < u64::MAX && known(map, g, start, nb) <= known(map, g, start, cur) + enter_cost(map, chassis, nb) by {
        assert(nb == n1 || nb == n2 || nb == n3 || nb == n4);
    }
    assert(relaxed(map, chassis, g, start, cur));
}

/// Cell reached after `i` steps of the walk `p` from `start`.
pub open spec fn walk_cell(start: GridCell, p: Seq<GridCell>, i: int) -> GridCell {
    if i == 0 {
        start
    } else {
        p[i - 1]
    }
}

proof fn lemma_walk_cost_step(map: MapGrid, chassis: ChassisType, p: Seq<GridCell>, i: int)
    requires
        0 <= i < p.len(),
    ensures
        walk_cost(map, chassis, p.take(i + 1)) == walk_cost(map, chassis, p.take(i)) + enter_cost(map, chassis, p[i]),
{
    assert(p.take(i + 1).drop_last() =~= p.take(i));
}

/// The Manhattan distance left to the end of a walk is at most the walk's
/// remaining cost: every step moves one cell and costs at least 1.
proof fn lemma_distance_within_cost(map: MapGrid, chassis: ChassisType, start: GridCell, p: Seq<GridCell>, tg: GridCell, i: int)
    requires
        is_walk(map, chassis, start, p),
        walk_ends_at(start, p, tg),
        0 <= i <= p.len(),
    ensures
        manhattan(walk_cell(start, p, i), tg) <= walk_cost(map, chassis, p) - walk_cost(map, chassis, p.take(i)),
    decreases p.len() - i,
{
    if i == p.len() {
        assert(p.take(i) =~= p);
    } else {
        lemma_distance_within_cost(map, chassis, start, p, tg, i + 1);
        lemma_walk_cost_step(map, chassis, p, i);
        assert(walkable(map, chassis, p[i]));
        crate::grid::lemma_cost_matches_passability(map.get_spec(p[i].x as int, p[i].y as int).unwrap(), chassis);
        assert(adjacent(walk_cell(start, p, i), p[i]));
    }
}

/// Walking along `q` from the start: either the target's cost is already at
/// most `q`'s, or the cell reached after `i` steps has a known cost at most
/// the cost of those steps.
proof fn lemma_walk_frontier(
    map: MapGrid,
    chassis: ChassisType,
    start: GridCell,
    tg: GridCell,
    g: Seq<u64>,
    came: Seq<Option<GridCell>>,
    open: Seq<(u64, GridCell)>,
    k0: int,
    q: Seq<GridCell>,
    i: int,
)
    requires
        search_inv(map, chassis, start, tg, g, came, open),
        expanded_except(map, chassis, start, tg, g, open, None),
        0 <= k0 < open.len(),
        open[k0].1 == tg,
        forall|j: int| 0 <= j < open.len() ==> open[k0].0 <= #[trigger] open[j].0,
        is_walk(map, chassis, start, q),
        walk_ends_at(start, q, tg),
        0 <= i <= q.len(),
    ensures
        known(map, g, start, tg) <= walk_cost(map, chassis, q) || known(map, g, start, walk_cell(start, q, i))
            <= walk_cost(map, chassis, q.take(i)),
    decreases i,
{
    reveal(search_inv);
    reveal(expanded_except);
    let w = walk_cost(map, chassis, q);
    assert(open[k0].0 >= estimate(map, g, start, tg, tg));
    if i == 0 {
        assert(q.take(0) =~= Seq::<GridCell>::empty());
    } else {
        lemma_walk_frontier(map, chassis, start, tg, g, came, open, k0, q, i - 1);
        let c = walk_cell(start, q, i - 1);
        lemma_distance_within_cost(map, chassis, start, q, tg, i - 1);
        lemma_walk_cost_step(map, chassis, q, i - 1);
        if known(map, g, start, tg) > w && known(map, g, start, c) <= walk_cost(map, chassis, q.take(i - 1)) {
            if i - 1 > 0 {
                assert(walkable(map, chassis, q[i - 2]));
            }
            assert(c == start || on_grid(map, c));
            if known(map, g, start, c) < u64::MAX {
                if has_entry(open, c, estimate(map, g, start, tg, c)) {
                    let k = choose|k: int|
                        0 <= k < open.len() && (#[trigger] open[k]).1 == c && open[k].0 == estimate(map, g, start, tg, c);
                    assert(open[k0].0 <= open[k].0);
                } else {
                    assert(relaxed(map, chassis, g, start, c));
                    assert(walkable(map, chassis, q[i - 1]) && adjacent(c, q[i - 1]));
                    assert(known(map, g, start, q[i - 1]) <= known(map, g, start, c) + enter_cost(map, chassis, q[i - 1]));
                }
            } else {
                assert(known(map, g, start, tg) < u64::MAX);
            }
        }
    }
}

/// When the target's queue entry has the least estimate, its known cost is
/// at most the cost of any walk to it.
proof fn lemma_target_cheapest(
    map: MapGrid,
    chassis: ChassisType,
    start: GridCell,
    tg: GridCell,
    g: Seq<u64>,
    came: Seq<Option<GridCell>>,
    open: Seq<(u64, GridCell)>,
    k0: int,
)
    requires
        search_inv(map, chassis, start, tg, g, came, open),
        expanded_except(map, chassis, start, tg, g, open, None),
        0 <= k0 < open.len(),
        open[k0].1 == tg,
        forall|j: int| 0 <= j < open.len() ==> open[k0].0 <= #[trigger] open[j].0,
    ensures
        forall|q: Seq<GridCell>|
            is_walk(map, chassis, start, q) && walk_ends_at(start, q, tg) ==> known(map, g, start, tg)
                <= #[trigger] walk_cost(map, chassis, q),
{
    assert forall|q: Seq<GridCell>| is_walk(map, chassis, start, q) && walk_ends_at(start, q, tg) implies known(
        map,
        g,
        start,
        tg,
    ) <= #[trigger] walk_cost(map, chassis, q) by {
        lemma_walk_frontier(map, chassis, start, tg, g, came, open, k0, q, q.len() as int);
        assert(q.take(q.len() as int) =~= q);
    }
}

/// Anti-gravity may enter every cell any chassis may enter, at cost 1.
proof fn lemma_antigrav_cell(map: MapGrid, chassis: ChassisType, c: GridCell)
    requires
        walkable(map, chassis, c),
    ensures
        walkable(map, ChassisType::AntiGrav, c),
        enter_cost(map, ChassisType::AntiGrav, c) == 1,
        1 <= enter_cost(map, chassis, c),
{
}

proof fn lemma_antigrav_walk_cost(map: MapGrid, chassis: ChassisType, p: Seq<GridCell>)
    requires
        forall|i: int| 0 <= i < p.len() ==> walkable(map, chassis, #[trigger] p[i]),
    ensures
        walk_cost(map, ChassisType::AntiGrav, p) <= walk_cost(map, chassis, p),
    decreases p.len(),
{
    if p.len() > 0 {
        let t = p.drop_last();
        assert forall|i: int| 0 <= i < t.len() implies walkable(map, chassis, #[trigger] t[i]) by {
            assert(t[i] == p[i]);
        }
        lemma_antigrav_walk_cost(map, chassis, t);
        lemma_antigrav_cell(map, chassis, p[p.len() - 1]);
    }
}

/// Anti-gravity never pays more: when some chassis has a walk to a goal it
/// may enter, anti-gravity aims at that same goal, reaches it, and a
/// cheapest anti-gravity route costs no more than that walk.
pub proof fn lemma_antigrav_never_costlier(
    map: MapGrid,
    chassis: ChassisType,
    start: GridCell,
    goal: GridCell,
    p: Seq<GridCell>,
    q: Seq<GridCell>,
)
    requires
        is_walk(map, chassis, start, p),
        walk_ends_at(start, p, goal),
        walkable(map, chassis, goal),
        cheapest(map, ChassisType::AntiGrav, start, goal, q),
    ensures
        search_target(map, chassis, goal) == Some(goal),
        search_target(map, ChassisType::AntiGrav, goal) == Some(goal),
        reachable(map, ChassisType::AntiGrav, start, goal),
        walk_cost(map, ChassisType::AntiGrav, q) <= walk_cost(map, chassis, p),
{
    lemma_antigrav_cell(map, chassis, goal);
    assert forall|i: int| 0 <= i < p.len() implies walkable(map, ChassisType::AntiGrav, #[trigger] p[i]) && adjacent(
        if i == 0 {
            start
        } else {
            p[i - 1]
        },
        p[i],
    ) by {
        lemma_antigrav_cell(map, chassis, p[i]);
    }
    assert(is_walk(map, ChassisType::AntiGrav, start, p));
    lemma_antigrav_walk_cost(map, chassis, p);
    assert(walk_cost(map, ChassisType::AntiGrav, q) <= walk_cost(map, ChassisType::AntiGrav, p));
}

/// A* search on the grid for the given chassis.
///
/// Rock and blocked cells stop every chassis, pits stop all but anti-gravity,
/// sand costs 2 for wheels and bipods. When the goal cannot be entered (a
/// structure stands there), its first enterable side neighbour (left, right,
/// up, down) is aimed at instead. Returns the route from `start` (excluded)
/// to that cell (included), or `None` when it cannot be reached; the route
/// is a cheapest one.
#[verifier::rlimit(60)]
pub fn find_path(map: &MapGrid, start: GridCell, goal: GridCell, chassis: ChassisType) -> (r: Option<Vec<GridCell>>)
    requires
        map.wf(),
        start != goal ==> start.x < u32::MAX && start.y < u32::MAX && goal.x < u32::MAX && goal.y
            < u32::MAX,
    ensures
        start == goal ==> (r matches Some(p) && p@.len() == 0),
        start != goal ==> match search_target(*map, chassis, goal) {
            None => r is None,
            Some(t) => {
                &&& r matches Some(p) ==> is_walk(*map, chassis, start, p@) && walk_ends_at(start, p@, t)
                &&& r is None <==> !reachable(*map, chassis, start, t)
                &&& r matches Some(p) ==> cheapest(*map, chassis, start, t, p@)
                &&& r matches Some(p) ==> forall|i: int| 0 <= i < p@.len() ==> #[trigger] p@[i] != start
                &&& r matches Some(p) ==> (p@.len() == 0 <==> t == start)
            },
        },
{
    if start == goal {
        return Some(Vec::new());
    }
    let tg = if is_walkable(map, goal, chassis) {
        goal
    } else {
        let left = GridCell::new(goal.x.wrapping_sub(1), goal.y);
        let right = GridCell::new(goal.x + 1, goal.y);
        let up = GridCell::new(goal.x, goal.y.wrapping_sub(1));
        let down = GridCell::new(goal.x, goal.y + 1);
        if is_walkable(map, left, chassis) {
            left
        } else if is_walkable(map, right, chassis) {
            right
        } else if is_walkable(map, up, chassis) {
            up
        } else if is_walkable(map, down, chassis) {
            down
        } else {
            return None;
        }
    };
    let ghost target = tg;
    assert(search_target(*map, chassis, goal) == Some(target));
    let n = map.width * map.height;
    let mut g: Vec<u64> = Vec::new();
    let mut came: Vec<Option<GridCell>> = Vec::new();
    let mut i: u32 = 0;
    while i < n
        invariant
            i <= n,
            n == map.width * map.height,
            g@.len() == i,
            came@.len() == i,
            forall|k: int| 0 <= k < i ==> #[trigger] g@[k] == u64::MAX,
            forall|k: int| 0 <= k < i ==> #[trigger] came@[k] is None,
        decreases n - i,
    {
        g.push(u64::MAX);
        came.push(None);
        i = i + 1;
    }
    let h0: u64 = (if start.x >= tg.x {
        start.x - tg.x
    } else {
        tg.x - start.x
    }) as u64 + (if start.y >= tg.y {
        start.y - tg.y
    } else {
        tg.y - start.y
    }) as u64;
    let mut open: Vec<(u64, GridCell)> = Vec::new();
    open.push((h0, start));
    let mut s = Search { g, came, open };
    proof {
        assert(s.open@[0].1 == start);
        assert(known(*map, s.g@, start, start) == 0);
        assert(in_open(s.open@, start));
        assert forall|c: GridCell| c != start && on_grid(*map, c) implies #[trigger] known(
            *map,
            s.g@,
            start,
            c,
        ) == u64::MAX by {
            lemma_index_in_range(map.width as int, map.height as int, c.x as int, c.y as int);
        }
        assert forall|c: GridCell|
            on_grid(*map, c) && c != start && (#[trigger] s.came@[cell_index(*map, c)]) is Some implies false by {
            lemma_index_in_range(map.width as int, map.height as int, c.x as int, c.y as int);
        }
        if on_grid(*map, start) {
            lemma_index_in_range(map.width as int, map.height as int, start.x as int, start.y as int);
        }
        lemma_count_bounds(s.g@);
        lemma_sum_nonneg(s.g@);
        reveal(search_inv);
        reveal(expanded_except);
        assert(s.core_inv(*map, chassis, start, tg));
        assert(s.relaxed_except(*map, chassis, start, tg, None));
    }
    loop
        invariant
            s.core_inv(*map, chassis, start, tg),
            s.relaxed_except(*map, chassis, start, tg, None),
            tg == target,
            search_target(*map, chassis, goal) == Some(target),
            seq_sum(s.g@) >= 0,
            map.wf(),
            start != goal,
            start.x < u32::MAX,
            start.y < u32::MAX,
            s.g@.len() == map.width * map.height,
            s.came@.len() == map.width * map.height,
        decreases 5 * seq_sum(s.g@) + s.open@.len(),
    {
        if s.open.len() == 0 {
            proof {
                lemma_exhausted(*map, chassis, start, tg, s.g@, s.came@, s.open@);
            }
            return None;
        }
        let ghost open0 = s.open@;
        let ghost g0 = s.g@;
        let (_f, cur) = pop_min(&mut s.open);
        let ghost k0 = choose|k: int|
            0 <= k < open0.len() && (_f, cur) == open0[k] && s.open@ == open0.remove(k);
        proof {
            assert(open0[k0].1 == cur);
        }
        if cur == tg {
            proof {
                reveal(search_inv);
                assert(known(*map, s.g@, start, open0[k0].1) < u64::MAX);
                lemma_target_cheapest(*map, chassis, start, tg, s.g@, s.came@, open0, k0);
            }
            let p = s.reconstruct(map, chassis, start, tg, Ghost(open0));
            return Some(p);
        }
        proof {
            lemma_pop_keeps(*map, chassis, start, tg, s.g@, s.came@, open0, k0);
        }
        let cur_g = s.gscore(map, start, cur);
        let n1 = GridCell::new(cur.x.wrapping_sub(1), cur.y);
        let n2 = GridCell::new(cur.x + 1, cur.y);
        let n3 = GridCell::new(cur.x, cur.y.wrapping_sub(1));
        let n4 = GridCell::new(cur.x, cur.y + 1);
        s.relax(map, chassis, start, tg, cur, cur_g, n1);
        let ghost g1 = s.g@;
        s.relax(map, chassis, start, tg, cur, cur_g, n2);
        let ghost g2 = s.g@;
        s.relax(map, chassis, start, tg, cur, cur_g, n3);
        let ghost g3 = s.g@;
        s.relax(map, chassis, start, tg, cur, cur_g, n4);
        proof {
            lemma_sum_nonneg(s.g@);
            assert(known(*map, s.g@, start, n1) <= known(*map, g1, start, n1));
            assert(known(*map, s.g@, start, n2) <= known(*map, g2, start, n2));
            assert(known(*map, s.g@, start, n3) <= known(*map, g3, start, n3));
            lemma_expanded(*map, chassis, start, tg, s.g@, s.open@, cur, n1, n2, n3, n4);
            assert(s.relaxed_except(*map, chassis, start, tg, None));
        }
    }
}

} // verus!
