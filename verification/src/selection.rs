use vstd::prelude::*;

use crate::types::ChassisType;

verus! {

/// Robots the player has selected, by entity identifier, in selection order.
pub struct SelectionState {
    pub selected: Vec<u64>,
}

impl Default for SelectionState {
    fn default() -> (s: SelectionState)
        ensures
            s.selected@.len() == 0,
    {
        SelectionState { selected: Vec::new() }
    }
}

pub open spec fn other_than(entity: u64) -> spec_fn(u64) -> bool {
    |e: u64| e != entity
}

/// Selection after a plain or shift click on `entity`: a plain click starts
/// from nothing, a shift click from `before`; the robot then leaves the
/// selection if it was in it, else joins it at the end.
pub open spec fn clicked_selection(before: Seq<u64>, entity: u64, shift: bool) -> Seq<u64> {
    let base = if shift {
        before
    } else {
        Seq::empty()
    };
    if base.contains(entity) {
        base.filter(other_than(entity))
    } else {
        base.push(entity)
    }
}

pub open spec fn in_group(num: u8) -> spec_fn((u64, u8)) -> bool {
    |g: (u64, u8)| g.1 == num
}

pub open spec fn entity_of() -> spec_fn((u64, u8)) -> u64 {
    |g: (u64, u8)| g.0
}

/// Entities of group `num`, in the order they are listed.
pub open spec fn group_members(grouped: Seq<(u64, u8)>, num: u8) -> Seq<u64> {
    grouped.filter(in_group(num)).map_values(entity_of())
}

fn contains_entity(v: &Vec<u64>, entity: u64) -> (b: bool)
    ensures
        b == v@.contains(entity),
{
    let mut i: usize = 0;
    while i < v.len()
        invariant
            i <= v@.len(),
            forall|j: int| 0 <= j < i ==> v@[j] != entity,
        decreases v@.len() - i,
    {
        if v[i] == entity {
            proof {
                assert(v@[i as int] == entity);
            }
            return true;
        }
        i = i + 1;
    }
    false
}

impl SelectionState {
    /// A left click on robot `entity`. With Ctrl alone it toggles manual
    /// control: the selection becomes just that robot when it was not under
    /// manual control (returns `Some(true)`: take control of it), else empty
    /// (returns `Some(false)`: control released). Otherwise the selection is
    /// updated as `clicked_selection` says and `None` is returned.
    pub fn click_robot(&mut self, entity: u64, ctrl: bool, shift: bool, already_manual: bool) -> (manual: Option<bool>)
        ensures
            ctrl && !shift ==> {
                &&& manual == Some(!already_manual)
                &&& final(self).selected@ == if already_manual {
                    Seq::<u64>::empty()
                } else {
                    seq![entity]
                }
            },
            !(ctrl && !shift) ==> {
                &&& manual is None
                &&& final(self).selected@ == clicked_selection(old(self).selected@, entity, shift)
            },
    {
        if ctrl && !shift {
            self.selected.clear();
            if !already_manual {
                self.selected.push(entity);
                proof {
                    assert(self.selected@ =~= seq![entity]);
                }
            }
            return Some(!already_manual);
        }
        if !shift {
            self.selected.clear();
        }
        let ghost base = self.selected@;
        if contains_entity(&self.selected, entity) {
            let mut kept: Vec<u64> = Vec::new();
            let mut i: usize = 0;
            while i < self.selected.len()
                invariant
                    i <= self.selected@.len(),
                    self.selected@ == base,
                    kept@ == base.take(i as int).filter(other_than(entity)),
                decreases self.selected@.len() - i,
            {
                let e = self.selected[i];
                proof {
                    assert(base.take(i + 1) =~= base.take(i as int).push(e));
                    base.take(i as int).lemma_filter_push(e, other_than(entity));
                }
                if e != entity {
                    kept.push(e);
                }
                i = i + 1;
            }
            proof {
                assert(base.take(i as int) =~= base);
            }
            self.selected = kept;
        } else {
            self.selected.push(entity);
        }
        None
    }

    /// Recalls group `num`: the selection becomes the robots listed with
    /// that group in `grouped` (entity, group), in list order.
    pub fn recall_group(&mut self, grouped: &Vec<(u64, u8)>, num: u8)
        ensures
            final(self).selected@ == group_members(grouped@, num),
    {
        let mut out: Vec<u64> = Vec::new();
        let mut i: usize = 0;
        proof {
            reveal(Seq::filter);
            assert(grouped@.take(0) =~= Seq::<(u64, u8)>::empty());
            assert(out@ =~= grouped@.take(0).filter(in_group(num)).map_values(entity_of()));
        }
        while i < grouped.len()
            invariant
                i <= grouped@.len(),
                out@ == grouped@.take(i as int).filter(in_group(num)).map_values(entity_of()),
            decreases grouped@.len() - i,
        {
            let (e, g) = grouped[i];
            proof {
                assert(grouped@.take(i + 1) =~= grouped@.take(i as int).push((e, g)));
                grouped@.take(i as int).lemma_filter_push((e, g), in_group(num));
            }
            if g == num {
                proof {
                    assert(out@.push(e) =~= grouped@.take(i as int).filter(in_group(num)).push((e, g)).map_values(entity_of()));
                }
                out.push(e);
            }
            i = i + 1;
        }
        proof {
            assert(grouped@.take(i as int) =~= grouped@);
        }
        self.selected = out;
    }
}

/// Clicking the same robot twice with Shift leaves the selection without it
/// (and otherwise as it was when it did not hold the robot before).
pub proof fn lemma_shift_click_twice(before: Seq<u64>, entity: u64)
    requires
        !before.contains(entity),
    ensures
        clicked_selection(clicked_selection(before, entity, true), entity, true) == before,
{
    let once = before.push(entity);
    assert(once.contains(entity)) by {
        assert(once[once.len() - 1] == entity);
    }
    before.lemma_filter_push(entity, other_than(entity));
    assert forall|j: int| 0 <= j < before.len() implies other_than(entity)(#[trigger] before[j]) by {
        if before[j] == entity {
            assert(before.contains(entity));
        }
    }
    crate::editor::lemma_filter_keeps_all(before, other_than(entity));
}

/// Slot of a chassis in the selection panel's counts.
pub open spec fn chassis_slot(c: ChassisType) -> int {
    match c {
        ChassisType::Wheels => 0,
        ChassisType::Bipod => 1,
        ChassisType::Tracks => 2,
        ChassisType::AntiGrav => 3,
    }
}

/// Number of selected robots whose chassis sits in slot `k`.
pub open spec fn count_chassis(s: Seq<(ChassisType, u8, bool)>, k: int) -> int
    decreases s.len(),
{
    if s.len() == 0 {
        0
    } else {
        count_chassis(s.drop_last(), k) + if chassis_slot(s.last().0) == k {
            1int
        } else {
            0
        }
    }
}

/// Number of selected robots whose chassis is `ch`.
pub open spec fn count_with_chassis(s: Seq<(ChassisType, u8, bool)>, ch: ChassisType) -> int
    decreases s.len(),
{
    if s.len() == 0 {
        0
    } else {
        count_with_chassis(s.drop_last(), ch) + if s.last().0 == ch {
            1int
        } else {
            0
        }
    }
}

/// The panel's four chassis slots count, in order, wheeled, bipod, tracked
/// and anti-gravity robots.
pub proof fn lemma_slot_counts(s: Seq<(ChassisType, u8, bool)>)
    ensures
        count_chassis(s, 0) == count_with_chassis(s, ChassisType::Wheels),
        count_chassis(s, 1) == count_with_chassis(s, ChassisType::Bipod),
        count_chassis(s, 2) == count_with_chassis(s, ChassisType::Tracks),
        count_chassis(s, 3) == count_with_chassis(s, ChassisType::AntiGrav),
    decreases s.len(),
{
    if s.len() > 0 {
        lemma_slot_counts(s.drop_last());
    }
}

/// Every robot is counted under its chassis, once: the four counts add up
/// to the number of robots.
pub proof fn lemma_chassis_counts_cover(s: Seq<(ChassisType, u8, bool)>)
    ensures
        count_with_chassis(s, ChassisType::Wheels) + count_with_chassis(s, ChassisType::Bipod)
            + count_with_chassis(s, ChassisType::Tracks) + count_with_chassis(s, ChassisType::AntiGrav) == s.len(),
    decreases s.len(),
{
    if s.len() > 0 {
        lemma_chassis_counts_cover(s.drop_last());
    }
}

/// Number of selected robots carrying out the order of index `k`.
pub open spec fn count_command(s: Seq<(ChassisType, u8, bool)>, k: int) -> int
    decreases s.len(),
{
    if s.len() == 0 {
        0
    } else {
        count_command(s.drop_last(), k) + if s.last().1 == k {
            1int
        } else {
            0
        }
    }
}

/// Some selected robot carries a nuclear charge.
pub open spec fn any_nuclear(s: Seq<(ChassisType, u8, bool)>) -> bool {
    exists|i: int| 0 <= i < s.len() && (#[trigger] s[i]).2
}

proof fn lemma_counts_bounded(s: Seq<(ChassisType, u8, bool)>, k: int)
    ensures
        0 <= count_chassis(s, k) <= s.len(),
        0 <= count_command(s, k) <= s.len(),
    decreases s.len(),
{
    if s.len() > 0 {
        lemma_counts_bounded(s.drop_last(), k);
    }
}

fn chassis_index(c: ChassisType) -> (i: usize)
    ensures
        i == chassis_slot(c),
{
    match c {
        ChassisType::Wheels => 0,
        ChassisType::Bipod => 1,
        ChassisType::Tracks => 2,
        ChassisType::AntiGrav => 3,
    }
}

/// Summary of a selection of several robots, each given as its chassis, the
/// index of its order (Idle, MoveTo, SeekAndDestroy, SeekAndCapture,
/// DestroyEnemyBase, Defend, Patrol) and whether it carries a nuclear
/// charge: robots per chassis, robots per order (indices past the seven
/// orders are not counted) and whether any carries a charge.
pub fn selection_counts(robots: &Vec<(ChassisType, u8, bool)>) -> (c: ([usize; 4], [usize; 7], bool))
    ensures
        forall|k: int| 0 <= k < 4 ==> #[trigger] c.0@[k] == count_chassis(robots@, k),
        forall|k: int| 0 <= k < 7 ==> #[trigger] c.1@[k] == count_command(robots@, k),
        c.2 == any_nuclear(robots@),
        c.0@[0] == count_with_chassis(robots@, ChassisType::Wheels),
        c.0@[1] == count_with_chassis(robots@, ChassisType::Bipod),
        c.0@[2] == count_with_chassis(robots@, ChassisType::Tracks),
        c.0@[3] == count_with_chassis(robots@, ChassisType::AntiGrav),
{
    let mut chassis: [usize; 4] = [0, 0, 0, 0];
    let mut commands: [usize; 7] = [0, 0, 0, 0, 0, 0, 0];
    let mut nuclear = false;
    let mut i: usize = 0;
    while i < robots.len()
        invariant
            i <= robots@.len(),
            forall|k: int| 0 <= k < 4 ==> #[trigger] chassis@[k] == count_chassis(robots@.take(i as int), k),
            forall|k: int| 0 <= k < 7 ==> #[trigger] commands@[k] == count_command(robots@.take(i as int), k),
            nuclear == exists|j: int| 0 <= j < i && (#[trigger] robots@[j]).2,
        decreases robots@.len() - i,
    {
        let (ch, cmd, nuc) = robots[i];
        let ghost pre = robots@.take(i as int);
        proof {
            assert(robots@.take(i + 1).drop_last() =~= pre);
            assert(robots@.take(i + 1).last() == robots@[i as int]);
            lemma_counts_bounded(pre, chassis_slot(ch));
            lemma_counts_bounded(pre, cmd as int);
        }
        let ci = chassis_index(ch);
        chassis[ci] = chassis[ci] + 1;
        if (cmd as usize) < 7 {
            let k = cmd as usize;
            commands[k] = commands[k] + 1;
        }
        if nuc {
            nuclear = true;
        }
        i = i + 1;
    }
    proof {
        assert(robots@.take(i as int) =~= robots@);
        lemma_slot_counts(robots@);
    }
    (chassis, commands, nuclear)
}

} // verus!
