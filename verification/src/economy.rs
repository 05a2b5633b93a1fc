use vstd::prelude::*;

use crate::types::{FactType, ResourceType, Team};

verus! {

/// General stock a side's warbase yields per game day.
pub const WARBASE_GENERAL_PER_DAY: i32 = 5;

/// General bonus from each factory a side holds.
pub const FACTORY_GENERAL_BONUS: i32 = 2;

/// Specific stock each factory a side holds yields per game day.
pub const FACTORY_SPECIFIC_PER_DAY: i32 = 5;

/// Slot of a resource kind in a stock table.
pub open spec fn slot(rt: ResourceType) -> int {
    match rt {
        ResourceType::General => 0,
        ResourceType::Chassis => 1,
        ResourceType::Cannon => 2,
        ResourceType::Missile => 3,
        ResourceType::Phasers => 4,
        ResourceType::Electronics => 5,
        ResourceType::Nuclear => 6,
    }
}

/// Resource kind stored in a slot.
pub open spec fn kind_of_slot(i: int) -> ResourceType {
    if i == 0 {
        ResourceType::General
    } else if i == 1 {
        ResourceType::Chassis
    } else if i == 2 {
        ResourceType::Cannon
    } else if i == 3 {
        ResourceType::Missile
    } else if i == 4 {
        ResourceType::Phasers
    } else if i == 5 {
        ResourceType::Electronics
    } else {
        ResourceType::Nuclear
    }
}

pub proof fn lemma_slots(rt: ResourceType)
    ensures
        0 <= slot(rt) < 7,
        kind_of_slot(slot(rt)) == rt,
{
}

fn slot_of(rt: ResourceType) -> (i: usize)
    ensures
        i == slot(rt),
{
    match rt {
        ResourceType::General => 0,
        ResourceType::Chassis => 1,
        ResourceType::Cannon => 2,
        ResourceType::Missile => 3,
        ResourceType::Phasers => 4,
        ResourceType::Electronics => 5,
        ResourceType::Nuclear => 6,
    }
}

/// The stock kind that a factory of type `ft` yields.
pub open spec fn factory_resource(ft: FactType) -> ResourceType {
    match ft {
        FactType::Chassis => ResourceType::Chassis,
        FactType::Cannon => ResourceType::Cannon,
        FactType::Missile => ResourceType::Missile,
        FactType::Phasers => ResourceType::Phasers,
        FactType::Electronics => ResourceType::Electronics,
        FactType::Nuclear => ResourceType::Nuclear,
    }
}

pub fn factory_type_to_resource(ft: FactType) -> (rt: ResourceType)
    ensures
        rt == factory_resource(ft),
{
    match ft {
        FactType::Chassis => ResourceType::Chassis,
        FactType::Cannon => ResourceType::Cannon,
        FactType::Missile => ResourceType::Missile,
        FactType::Phasers => ResourceType::Phasers,
        FactType::Electronics => ResourceType::Electronics,
        FactType::Nuclear => ResourceType::Nuclear,
    }
}

/// Stocks of one side, one amount per resource kind.
pub struct PlayerResources {
    stocks: [i32; 7],
}

impl View for PlayerResources {
    type V = Seq<i32>;

    closed spec fn view(&self) -> Seq<i32> {
        self.stocks@
    }
}

/// Amount of `rt` in a stock table.
pub open spec fn amount(s: Seq<i32>, rt: ResourceType) -> int {
    s[slot(rt)] as int
}

/// The table after adding `a` to `rt`.
pub open spec fn added(s: Seq<i32>, rt: ResourceType, a: i32) -> Seq<i32> {
    s.update(slot(rt), (s[slot(rt)] + a) as i32)
}

/// Whether spending `a` of `rt` succeeds, and the table after it.
pub open spec fn spent(s: Seq<i32>, rt: ResourceType, a: i32) -> (bool, Seq<i32>) {
    if s[slot(rt)] >= a {
        (true, s.update(slot(rt), (s[slot(rt)] - a) as i32))
    } else {
        (false, s)
    }
}

impl PlayerResources {
    /// The table holds one amount per resource kind.
    pub proof fn lemma_stock_count(&self)
        ensures
            self@.len() == 7,
    {
    }

    pub fn with_starting_values() -> (r: PlayerResources)
        ensures
            r@.len() == 7,
            amount(r@, ResourceType::General) == 50,
            amount(r@, ResourceType::Chassis) == 20,
            amount(r@, ResourceType::Cannon) == 15,
            amount(r@, ResourceType::Missile) == 10,
            amount(r@, ResourceType::Phasers) == 10,
            amount(r@, ResourceType::Electronics) == 10,
            amount(r@, ResourceType::Nuclear) == 5,
    {
        PlayerResources { stocks: [50, 20, 15, 10, 10, 10, 5] }
    }

    pub fn get(&self, rt: ResourceType) -> (r: i32)
        ensures
            r == amount(self@, rt),
            self@.len() == 7,
    {
        self.stocks[slot_of(rt)]
    }

    pub fn add(&mut self, rt: ResourceType, a: i32)
        requires
            i32::MIN <= amount(old(self)@, rt) + a <= i32::MAX,
        ensures
            final(self)@.len() == 7,
            final(self)@ == added(old(self)@, rt, a),
    {
        let i = slot_of(rt);
        self.stocks[i] = self.stocks[i] + a;
    }

    /// Takes `a` of `rt` when at least that much is held; otherwise changes
    /// nothing and returns false.
    pub fn spend(&mut self, rt: ResourceType, a: i32) -> (ok: bool)
        requires
            amount(old(self)@, rt) >= a ==> amount(old(self)@, rt) - a <= i32::MAX,
        ensures
            final(self)@.len() == 7,
            (ok, final(self)@) == spent(old(self)@, rt, a),
            ok == (amount(old(self)@, rt) >= a),
    {
        let current = self.get(rt);
        if current >= a {
            let i = slot_of(rt);
            self.stocks[i] = current - a;
            true
        } else {
            false
        }
    }
}

/// Spending what was just added to a non-negative stock always succeeds and
/// gives the table back.
pub proof fn lemma_add_then_spend_restores(s: Seq<i32>, rt: ResourceType, a: i32)
    requires
        s.len() == 7,
        0 <= a,
        0 <= amount(s, rt),
        amount(s, rt) + a <= i32::MAX,
    ensures
        spent(added(s, rt, a), rt, a) == (true, s),
{
    lemma_slots(rt);
    let t = added(s, rt, a);
    assert(t[slot(rt)] == s[slot(rt)] + a);
    assert(spent(t, rt, a).1 =~= s);
}

/// A refused spending leaves the stocks as they were; an accepted one never
/// drives the stock below zero when it started at or above zero.
pub proof fn lemma_spend_never_overdraws(s: Seq<i32>, rt: ResourceType, a: i32)
    requires
        s.len() == 7,
        0 <= a,
    ensures
        !spent(s, rt, a).0 ==> spent(s, rt, a).1 == s,
        spent(s, rt, a).0 ==> amount(spent(s, rt, a).1, rt) >= 0,
{
}

} // verus!

verus! {

/// Stocks of the AI side (same economy as the player's).
pub struct EnemyResources(pub PlayerResources);

/// A side's stock of one kind changed.
#[derive(Debug, Clone, Copy, PartialEq, Eq, Structural)]
pub struct ResourceChanged {
    pub team: Team,
    pub resource_type: ResourceType,
    pub delta: i32,
    pub new_total: i32,
}

/// Number of warbases held by `team`.
pub open spec fn count_team(ws: Seq<Team>, team: Team) -> int
    decreases ws.len(),
{
    if ws.len() == 0 {
        0
    } else {
        count_team(ws.drop_last(), team) + if ws.last() == team {
            1int
        } else {
            0
        }
    }
}

/// What one factory held by `team` adds to the stock of kind `rt`.
pub open spec fn factory_yield(f: (FactType, Team), team: Team, rt: ResourceType) -> int {
    if f.1 == team {
        (if factory_resource(f.0) == rt {
            FACTORY_SPECIFIC_PER_DAY as int
        } else {
            0
        }) + (if rt == ResourceType::General {
            FACTORY_GENERAL_BONUS as int
        } else {
            0
        })
    } else {
        0
    }
}

pub open spec fn factories_yield(fs: Seq<(FactType, Team)>, team: Team, rt: ResourceType) -> int
    decreases fs.len(),
{
    if fs.len() == 0 {
        0
    } else {
        factories_yield(fs.drop_last(), team, rt) + factory_yield(fs.last(), team, rt)
    }
}

/// Daily gain of `team` in kind `rt`: 5 General per warbase it holds, and for
/// each factory it holds 5 of the factory's kind plus 2 General.
pub open spec fn daily_yield(ws: Seq<Team>, fs: Seq<(FactType, Team)>, team: Team, rt: ResourceType) -> int {
    (if rt == ResourceType::General {
        WARBASE_GENERAL_PER_DAY * count_team(ws, team)
    } else {
        0
    }) + factories_yield(fs, team, rt)
}

proof fn lemma_yield_nonneg(ws: Seq<Team>, fs: Seq<(FactType, Team)>, team: Team, rt: ResourceType)
    ensures
        count_team(ws, team) >= 0,
        factories_yield(fs, team, rt) >= 0,
    decreases ws.len() + fs.len(),
{
    if ws.len() > 0 {
        lemma_yield_nonneg(ws.drop_last(), fs, team, rt);
    }
    if fs.len() > 0 {
        lemma_yield_nonneg(ws, fs.drop_last(), team, rt);
    }
}

/// The daily gain of `team` in every kind, by slot.
fn daily_yields(warbases: &Vec<Team>, factories: &Vec<(FactType, Team)>, team: Team) -> (d: [i64; 7])
    requires
        warbases@.len() <= u32::MAX,
        factories@.len() <= u32::MAX,
    ensures
        forall|i: int| 0 <= i < 7 ==> #[trigger] d@[i] == daily_yield(warbases@, factories@, team, kind_of_slot(i)),
        forall|i: int| 0 <= i < 7 ==> #[trigger] d@[i] >= 0,
{
    let mut d: [i64; 7] = [0, 0, 0, 0, 0, 0, 0];
    let mut w: usize = 0;
    let mut general: i64 = 0;
    while w < warbases.len()
        invariant
            w <= warbases@.len() <= u32::MAX,
            general == WARBASE_GENERAL_PER_DAY * count_team(warbases@.take(w as int), team),
            0 <= general <= 5 * w,
        decreases warbases@.len() - w,
    {
        proof {
            assert(warbases@.take(w + 1).drop_last() =~= warbases@.take(w as int));
            lemma_yield_nonneg(warbases@.take(w as int), Seq::empty(), team, ResourceType::General);
        }
        if warbases[w] == team {
            general = general + 5;
        }
        w = w + 1;
    }
    proof {
        assert(warbases@.take(w as int) =~= warbases@);
    }
    d[0] = general;
    let mut k: usize = 0;
    while k < factories.len()
        invariant
            k <= factories@.len() <= u32::MAX,
            forall|i: int|
                0 <= i < 7 ==> #[trigger] d@[i] == (if i == 0 {
                    general as int
                } else {
                    0
                }) + factories_yield(factories@.take(k as int), team, kind_of_slot(i)),
            forall|i: int| 0 <= i < 7 ==> 0 <= #[trigger] d@[i] <= 5 * warbases@.len() + 7 * k,
            general == WARBASE_GENERAL_PER_DAY * count_team(warbases@, team),
            0 <= general <= 5 * warbases@.len(),
            warbases@.len() <= u32::MAX,
        decreases factories@.len() - k,
    {
        let (ft, t) = factories[k];
        proof {
            assert(factories@.take(k + 1).drop_last() =~= factories@.take(k as int));
            assert(factories@.take(k + 1).last() == factories@[k as int]);
        }
        if t == team {
            let s = slot_of(factory_type_to_resource(ft));
            assert(1 <= s < 7);
            assert(0 <= d@[s as int] <= 5 * warbases@.len() + 7 * k);
            assert(0 <= d@[0] <= 5 * warbases@.len() + 7 * k);
            let vs = d[s];
            assert(vs == d@[s as int]);
            d[s] = vs + 5;
            let v0 = d[0];
            d[0] = v0 + 2;
        }
        k = k + 1;
    }
    proof {
        assert(factories@.take(k as int) =~= factories@);
    }
    d
}

/// Kind of the slot, for executable code.
fn kind_at(i: usize) -> (rt: ResourceType)
    requires
        i < 7,
    ensures
        rt == kind_of_slot(i as int),
        slot(rt) == i,
{
    if i == 0 {
        ResourceType::General
    } else if i == 1 {
        ResourceType::Chassis
    } else if i == 2 {
        ResourceType::Cannon
    } else if i == 3 {
        ResourceType::Missile
    } else if i == 4 {
        ResourceType::Phasers
    } else if i == 5 {
        ResourceType::Electronics
    } else {
        ResourceType::Nuclear
    }
}

/// The stock table after the day's gains of `team`.
pub open spec fn after_yield(s: Seq<i32>, ws: Seq<Team>, fs: Seq<(FactType, Team)>, team: Team) -> Seq<i32> {
    Seq::new(7, |i: int| (s[i] + daily_yield(ws, fs, team, kind_of_slot(i))) as i32)
}

/// Stocks can take the day's gains of `team` without overflow.
pub open spec fn yield_fits(s: Seq<i32>, ws: Seq<Team>, fs: Seq<(FactType, Team)>, team: Team) -> bool {
    forall|i: int|
        0 <= i < 7 ==> #[trigger] s[i] + daily_yield(ws, fs, team, kind_of_slot(i)) <= i32::MAX
            && daily_yield(ws, fs, team, kind_of_slot(i)) <= i32::MAX
}

/// Credits the day's production once per new game day: every warbase of a
/// side yields 5 General, every factory it holds 5 of its kind and 2 General.
/// Returns, in resource order, one event for each player stock that grew.
/// A day already credited (`game_day <= last_day`) changes nothing.
pub fn tick_production(
    game_day: u32,
    last_day: &mut u32,
    warbases: &Vec<Team>,
    factories: &Vec<(FactType, Team)>,
    player: &mut PlayerResources,
    enemy: &mut EnemyResources,
) -> (events: Vec<ResourceChanged>)
    requires
        game_day > *old(last_day) ==> warbases@.len() <= u32::MAX,
        game_day > *old(last_day) ==> factories@.len() <= u32::MAX,
        game_day > *old(last_day) ==> yield_fits(old(player)@, warbases@, factories@, Team::Player),
        game_day > *old(last_day) ==> yield_fits(old(enemy).0@, warbases@, factories@, Team::Enemy),
    ensures
        game_day <= *old(last_day) ==> {
            &&& *final(last_day) == *old(last_day)
            &&& final(player)@ == old(player)@
            &&& final(enemy).0@ == old(enemy).0@
            &&& events@.len() == 0
        },
        game_day > *old(last_day) ==> {
            &&& *final(last_day) == game_day
            &&& final(player)@ == after_yield(old(player)@, warbases@, factories@, Team::Player)
            &&& final(enemy).0@ == after_yield(old(enemy).0@, warbases@, factories@, Team::Enemy)
            &&& forall|k: int| 0 <= k < events@.len() ==> {
                let e = #[trigger] events@[k];
                &&& e.team == Team::Player
                &&& e.delta == daily_yield(warbases@, factories@, Team::Player, e.resource_type)
                &&& e.delta > 0
                &&& e.new_total == amount(final(player)@, e.resource_type)
            }
            &&& forall|rt: ResourceType|
                daily_yield(warbases@, factories@, Team::Player, rt) > 0 <==> exists|k: int|
                    0 <= k < events@.len() && (#[trigger] events@[k]).resource_type == rt
            &&& forall|j: int, k: int|
                0 <= j < k < events@.len() ==> slot((#[trigger] events@[j]).resource_type) < slot(
                    (#[trigger] events@[k]).resource_type,
                )
        },
{
    if game_day <= *last_day {
        return Vec::new();
    }
    *last_day = game_day;
    let pd = daily_yields(warbases, factories, Team::Player);
    let ed = daily_yields(warbases, factories, Team::Enemy);
    let ghost p0 = player@;
    let ghost e0 = enemy.0@;
    assert(yield_fits(p0, warbases@, factories@, Team::Player));
    assert(yield_fits(e0, warbases@, factories@, Team::Enemy));
    assert(p0.len() == 7 && e0.len() == 7);
    assert forall|j: int| 0 <= j < 7 implies 0 <= #[trigger] pd@[j] && p0[j] + pd@[j] <= i32::MAX && pd@[j] <= i32::MAX by {
        assert(p0[j] + daily_yield(warbases@, factories@, Team::Player, kind_of_slot(j)) <= i32::MAX);
    }
    assert forall|j: int| 0 <= j < 7 implies 0 <= #[trigger] ed@[j] && e0[j] + ed@[j] <= i32::MAX && ed@[j] <= i32::MAX by {
        assert(e0[j] + daily_yield(warbases@, factories@, Team::Enemy, kind_of_slot(j)) <= i32::MAX);
    }
    let mut i: usize = 0;
    while i < 7
        invariant
            i <= 7,
            p0.len() == 7,
            e0.len() == 7,
            forall|j: int| 0 <= j < 7 ==> 0 <= #[trigger] pd@[j] && p0[j] + pd@[j] <= i32::MAX && pd@[j] <= i32::MAX,
            forall|j: int| 0 <= j < 7 ==> 0 <= #[trigger] ed@[j] && e0[j] + ed@[j] <= i32::MAX && ed@[j] <= i32::MAX,
            player@.len() == 7,
            enemy.0@.len() == 7,
            forall|j: int| 0 <= j < 7 ==> #[trigger] player@[j] == if j < i {
                (p0[j] + pd@[j]) as i32
            } else {
                p0[j]
            },
            forall|j: int| 0 <= j < 7 ==> #[trigger] enemy.0@[j] == if j < i {
                (e0[j] + ed@[j]) as i32
            } else {
                e0[j]
            },
        decreases 7 - i,
    {
        let rt = kind_at(i);
        let dp = pd[i];
        let de = ed[i];
        if dp > 0 {
            player.add(rt, dp as i32);
        }
        if de > 0 {
            enemy.0.add(rt, de as i32);
        }
        i = i + 1;
    }
    proof {
        assert(player@ =~= after_yield(p0, warbases@, factories@, Team::Player));
        assert(enemy.0@ =~= after_yield(e0, warbases@, factories@, Team::Enemy));
    }
    let mut events: Vec<ResourceChanged> = Vec::new();
    let mut i: usize = 0;
    while i < 7
        invariant
            i <= 7,
            player@.len() == 7,
            forall|j: int| 0 <= j < 7 ==> 0 <= #[trigger] pd@[j] <= i32::MAX,
            forall|k: int| 0 <= k < events@.len() ==> {
                let e = #[trigger] events@[k];
                &&& e.team == Team::Player
                &&& e.delta == pd@[slot(e.resource_type)]
                &&& e.delta > 0
                &&& slot(e.resource_type) < i
                &&& e.new_total == player@[slot(e.resource_type)]
            },
            forall|j: int|
                0 <= j < i ==> (pd@[j] > 0 <==> exists|k: int|
                    0 <= k < events@.len() && slot((#[trigger] events@[k]).resource_type) == j),
            forall|j: int, k: int|
                0 <= j < k < events@.len() ==> slot((#[trigger] events@[j]).resource_type) < slot(
                    (#[trigger] events@[k]).resource_type,
                ),
        decreases 7 - i,
    {
        let rt = kind_at(i);
        let dp = pd[i];
        let ghost ev0 = events@;
        if dp > 0 {
            let total = player.get(rt);
            events.push(ResourceChanged { team: Team::Player, resource_type: rt, delta: dp as i32, new_total: total });
        }
        proof {
            assert forall|j: int|
                0 <= j < i + 1 implies (pd@[j] > 0 <==> exists|k: int|
                    0 <= k < events@.len() && slot((#[trigger] events@[k]).resource_type) == j) by {
                if j < i {
                    if exists|k: int| 0 <= k < ev0.len() && slot((#[trigger] ev0[k]).resource_type) == j {
                        let k = choose|k: int| 0 <= k < ev0.len() && slot((#[trigger] ev0[k]).resource_type) == j;
                        assert(events@[k] == ev0[k]);
                    }
                    if exists|k: int| 0 <= k < events@.len() && slot((#[trigger] events@[k]).resource_type) == j {
                        let k = choose|k: int| 0 <= k < events@.len() && slot((#[trigger] events@[k]).resource_type) == j;
                        if k < ev0.len() {
                            assert(ev0[k] == events@[k]);
                        }
                    }
                } else {
                    if dp > 0 {
                        assert(slot(events@[events@.len() - 1].resource_type) == j);
                    } else if exists|k: int| 0 <= k < events@.len() && slot((#[trigger] events@[k]).resource_type) == j {
                        let k = choose|k: int| 0 <= k < events@.len() && slot((#[trigger] events@[k]).resource_type) == j;
                        assert(slot(ev0[k].resource_type) < i);
                    }
                }
            }
        }
        i = i + 1;
    }
    proof {
        assert forall|k: int| 0 <= k < events@.len() implies {
            let e = #[trigger] events@[k];
            &&& e.delta == daily_yield(warbases@, factories@, Team::Player, e.resource_type)
            &&& e.new_total == amount(player@, e.resource_type)
        } by {
            lemma_slots(events@[k].resource_type);
        }
        assert forall|rt: ResourceType|
            daily_yield(warbases@, factories@, Team::Player, rt) > 0 <==> exists|k: int|
                0 <= k < events@.len() && (#[trigger] events@[k]).resource_type == rt by {
            lemma_slots(rt);
            assert(pd@[slot(rt)] == daily_yield(warbases@, factories@, Team::Player, rt));
            assert(pd@[slot(rt)] > 0 <==> exists|k: int|
                0 <= k < events@.len() && slot((#[trigger] events@[k]).resource_type) == slot(rt));
            if exists|k: int| 0 <= k < events@.len() && slot((#[trigger] events@[k]).resource_type) == slot(rt) {
                let k = choose|k: int| 0 <= k < events@.len() && slot((#[trigger] events@[k]).resource_type) == slot(rt);
                lemma_slots(events@[k].resource_type);
            }
            if exists|k: int| 0 <= k < events@.len() && (#[trigger] events@[k]).resource_type == rt {
                let k = choose|k: int| 0 <= k < events@.len() && (#[trigger] events@[k]).resource_type == rt;
                assert(slot(events@[k].resource_type) == slot(rt));
            }
        }
    }
    events
}

} // verus!
