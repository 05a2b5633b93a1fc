use vstd::prelude::*;

use crate::grid::{passable_spec, MapGrid};

verus! {

/// How the scout's move this step is kept.
#[derive(Debug, Clone, Copy, PartialEq, Eq, Structural)]
pub enum ScoutMove {
    /// The whole move, clamped to the map.
    Clamped,
    /// Only the move along z (x stays).
    OnlyZ,
    /// Only the move along x (z stays).
    OnlyX,
    /// No move at all.
    Stay,
}

/// Whether the scout may stand on the cell `c` (none: off the map).
pub open spec fn scout_may_stand(map: MapGrid, c: Option<(u32, u32)>) -> bool {
    match c {
        Some(p) => map.get_spec(p.0 as int, p.1 as int) matches Some(k) && passable_spec(k),
        None => false,
    }
}

/// Axis-separated collision of the scout with impassable cells, given the
/// cell under the clamped new position, the cell keeping the old x with the
/// new z, and the cell keeping the old z with the new x: the whole move if
/// its cell is passable, else the z part alone, else the x part alone, else
/// none. A new position off the grid keeps the scout where it was.
pub fn resolve_scout_move(
    map: &MapGrid,
    clamped: Option<(u32, u32)>,
    z_only: Option<(u32, u32)>,
    x_only: Option<(u32, u32)>,
) -> (m: ScoutMove)
    requires
        map.wf(),
    ensures
        m == match clamped {
            None => ScoutMove::Stay,
            Some(_) => if scout_may_stand(*map, clamped) {
                ScoutMove::Clamped
            } else if scout_may_stand(*map, z_only) {
                ScoutMove::OnlyZ
            } else if scout_may_stand(*map, x_only) {
                ScoutMove::OnlyX
            } else {
                ScoutMove::Stay
            },
        },
{
    let (gx, gy) = match clamped {
        Some(c) => c,
        None => {
            return ScoutMove::Stay;
        },
    };
    if map.is_passable(gx, gy) {
        return ScoutMove::Clamped;
    }
    if let Some((zx, zy)) = z_only {
        if map.is_passable(zx, zy) {
            return ScoutMove::OnlyZ;
        }
    }
    if let Some((xx, xy)) = x_only {
        if map.is_passable(xx, xy) {
            return ScoutMove::OnlyX;
        }
    }
    ScoutMove::Stay
}

} // verus!
