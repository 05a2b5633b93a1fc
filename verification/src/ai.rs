use vstd::prelude::*;

use crate::types::{ChassisType, Team, WeaponType};

verus! {

/// How a game ended.
#[derive(Debug, Clone, Copy, PartialEq, Eq, Structural)]
pub enum GameOutcome {
    PlayerWin,
    PlayerLose,
}

/// Result of the game, set once when a side loses its last warbase.
#[derive(Debug, Clone, Copy, PartialEq, Eq, Structural)]
pub struct GameResult {
    pub outcome: Option<GameOutcome>,
    pub game_days: u32,
    pub enemy_factories: u32,
    pub player_factories: u32,
}

impl Default for GameResult {
    fn default() -> (r: GameResult)
        ensures
            r.outcome is None,
            r.game_days == 0,
            r.enemy_factories == 0,
            r.player_factories == 0,
    {
        GameResult { outcome: None, game_days: 0, enemy_factories: 0, player_factories: 0 }
    }
}

/// Some entry of `ts` is `team`.
pub open spec fn holds_any(ts: Seq<Team>, team: Team) -> bool {
    exists|i: int| 0 <= i < ts.len() && ts[i] == team
}

/// Number of entries of `ts` equal to `team`.
pub open spec fn count_of(ts: Seq<Team>, team: Team) -> int
    decreases ts.len(),
{
    if ts.len() == 0 {
        0
    } else {
        count_of(ts.drop_last(), team) + if ts.last() == team {
            1int
        } else {
            0
        }
    }
}

proof fn lemma_count_of_bounds(ts: Seq<Team>, team: Team)
    ensures
        0 <= count_of(ts, team) <= ts.len(),
    decreases ts.len(),
{
    if ts.len() > 0 {
        lemma_count_of_bounds(ts.drop_last(), team);
    }
}

/// Counts the entries of `ts` equal to `team`, truncated to `u32`.
pub fn count_team(ts: &Vec<Team>, team: Team) -> (n: u32)
    ensures
        n == count_of(ts@, team) as u32,
{
    let mut n: usize = 0;
    let mut i: usize = 0;
    while i < ts.len()
        invariant
            i <= ts@.len(),
            n == count_of(ts@.take(i as int), team),
        decreases ts@.len() - i,
    {
        proof {
            assert(ts@.take(i + 1).drop_last() =~= ts@.take(i as int));
            lemma_count_of_bounds(ts@.take(i as int), team);
        }
        if ts[i] == team {
            n = n + 1;
        }
        i = i + 1;
    }
    proof {
        assert(ts@.take(i as int) =~= ts@);
    }
    n as u32
}

/// Whether `team` appears in `ts`.
pub fn any_team(ts: &Vec<Team>, team: Team) -> (b: bool)
    ensures
        b == holds_any(ts@, team),
{
    let mut i: usize = 0;
    while i < ts.len()
        invariant
            i <= ts@.len(),
            forall|j: int| 0 <= j < i ==> ts@[j] != team,
        decreases ts@.len() - i,
    {
        if ts[i] == team {
            return true;
        }
        i = i + 1;
    }
    false
}

/// Decides the game once a side has no warbase left: the player wins when the
/// enemy has none (also when neither has one), else loses. Records the day
/// and each side's factory count. A decided game is never decided again.
///
/// `warbases` and `factories` list the owner of each warbase and factory.
pub fn check_victory_defeat(result: &mut GameResult, warbases: &Vec<Team>, factories: &Vec<Team>, game_day: u32)
    ensures
        old(result).outcome is Some ==> *final(result) == *old(result),
        old(result).outcome is None && holds_any(warbases@, Team::Player) && holds_any(warbases@, Team::Enemy)
            ==> *final(result) == *old(result),
        old(result).outcome is None && !(holds_any(warbases@, Team::Player) && holds_any(warbases@, Team::Enemy))
            ==> *final(result) == (GameResult {
            outcome: Some(
                if !holds_any(warbases@, Team::Enemy) {
                    GameOutcome::PlayerWin
                } else {
                    GameOutcome::PlayerLose
                },
            ),
            game_days: game_day,
            enemy_factories: count_of(factories@, Team::Enemy) as u32,
            player_factories: count_of(factories@, Team::Player) as u32,
        }),
{
    if result.outcome.is_some() {
        return;
    }
    let player_alive = any_team(warbases, Team::Player);
    let enemy_alive = any_team(warbases, Team::Enemy);
    if !player_alive || !enemy_alive {
        let player_factories = count_team(factories, Team::Player);
        let enemy_factories = count_team(factories, Team::Enemy);
        result.outcome = Some(
            if !enemy_alive {
                GameOutcome::PlayerWin
            } else {
                GameOutcome::PlayerLose
            },
        );
        result.game_days = game_day;
        result.player_factories = player_factories;
        result.enemy_factories = enemy_factories;
    }
}

// ---------------------------------------------------------------------------
// Robot designs
// ---------------------------------------------------------------------------

/// A robot design: chassis, mounted weapons and optional modules.
#[derive(Debug, Clone, PartialEq, Eq)]
pub struct RobotBlueprint {
    pub chassis: ChassisType,
    pub weapons: Vec<WeaponType>,
    pub electronics: bool,
    pub nuclear: bool,
}

impl RobotBlueprint {
    pub fn new(chassis: ChassisType) -> (b: RobotBlueprint)
        ensures
            b.chassis == chassis,
            b.weapons@.len() == 0,
            !b.electronics,
            !b.nuclear,
    {
        RobotBlueprint { chassis, weapons: Vec::new(), electronics: false, nuclear: false }
    }

    pub fn with_weapon(self, w: WeaponType) -> (b: RobotBlueprint)
        ensures
            b.chassis == self.chassis,
            b.weapons@ == self.weapons@.push(w),
            b.electronics == self.electronics,
            b.nuclear == self.nuclear,
    {
        let mut b = self;
        b.weapons.push(w);
        b
    }

    pub fn with_electronics(self) -> (b: RobotBlueprint)
        ensures
            b.chassis == self.chassis,
            b.weapons@ == self.weapons@,
            b.electronics,
            b.nuclear == self.nuclear,
    {
        let mut b = self;
        b.electronics = true;
        b
    }

    pub fn with_nuclear(self) -> (b: RobotBlueprint)
        ensures
            b.chassis == self.chassis,
            b.weapons@ == self.weapons@,
            b.electronics == self.electronics,
            b.nuclear,
    {
        let mut b = self;
        b.nuclear = true;
        b
    }
}

/// The design of a blueprint as plain values.
pub open spec fn design(b: RobotBlueprint) -> (ChassisType, Seq<WeaponType>, bool, bool) {
    (b.chassis, b.weapons@, b.electronics, b.nuclear)
}

/// The AI's build rotation over ten decisions: tracks + cannon (3 in 10),
/// wheels + cannon (2), bipod + two cannons (2), tracks + missile (2),
/// anti-gravity + missile + nuclear charge (1).
pub open spec fn rotation_design(counter: u32) -> (ChassisType, Seq<WeaponType>, bool, bool) {
    let k = counter % 10;
    if k <= 2 {
        (ChassisType::Tracks, seq![WeaponType::Cannon], false, false)
    } else if k <= 4 {
        (ChassisType::Wheels, seq![WeaponType::Cannon], false, false)
    } else if k <= 6 {
        (ChassisType::Bipod, seq![WeaponType::Cannon, WeaponType::Cannon], false, false)
    } else if k <= 8 {
        (ChassisType::Tracks, seq![WeaponType::Missile], false, false)
    } else {
        (ChassisType::AntiGrav, seq![WeaponType::Missile], false, true)
    }
}

/// The rotation, design by design: the last digit of the counter picks
/// tracks with one cannon (0 to 2), wheels with one cannon (3, 4), a bipod
/// with two cannons (5, 6), tracks with one missile (7, 8) and anti-gravity
/// with a missile and a nuclear charge (9); none carries electronics. The
/// rotation repeats every ten decisions.
pub proof fn lemma_build_rotation(counter: u32)
    ensures
        ({
            let (chassis, weapons, electronics, nuclear) = rotation_design(counter);
            &&& !electronics
            &&& counter % 10 <= 2 ==> chassis == ChassisType::Tracks && weapons =~= seq![WeaponType::Cannon] && !nuclear
            &&& 3 <= counter % 10 <= 4 ==> chassis == ChassisType::Wheels && weapons =~= seq![WeaponType::Cannon] && !nuclear
            &&& 5 <= counter % 10 <= 6 ==> chassis == ChassisType::Bipod && weapons =~= seq![WeaponType::Cannon, WeaponType::Cannon]
                && !nuclear
            &&& 7 <= counter % 10 <= 8 ==> chassis == ChassisType::Tracks && weapons =~= seq![WeaponType::Missile] && !nuclear
            &&& counter % 10 == 9 ==> chassis == ChassisType::AntiGrav && weapons =~= seq![WeaponType::Missile] && nuclear
        }),
        counter + 10 <= u32::MAX ==> rotation_design(counter) == rotation_design((counter + 10) as u32),
{
}

/// The sabotage design: anti-gravity, missile, nuclear charge.
pub open spec fn nuclear_design() -> (ChassisType, Seq<WeaponType>, bool, bool) {
    (ChassisType::AntiGrav, seq![WeaponType::Missile], false, true)
}

/// Blueprint chosen by the deterministic decision counter.
pub fn select_blueprint(counter: u32) -> (b: RobotBlueprint)
    ensures
        design(b) == rotation_design(counter),
        counter % 10 <= 2 ==> b.chassis == ChassisType::Tracks && b.weapons@ == seq![WeaponType::Cannon] && !b.electronics
            && !b.nuclear,
        3 <= counter % 10 <= 4 ==> b.chassis == ChassisType::Wheels && b.weapons@ == seq![WeaponType::Cannon]
            && !b.electronics && !b.nuclear,
        5 <= counter % 10 <= 6 ==> b.chassis == ChassisType::Bipod && b.weapons@ == seq![WeaponType::Cannon, WeaponType::Cannon]
            && !b.electronics && !b.nuclear,
        7 <= counter % 10 <= 8 ==> b.chassis == ChassisType::Tracks && b.weapons@ == seq![WeaponType::Missile]
            && !b.electronics && !b.nuclear,
        counter % 10 == 9 ==> b.chassis == ChassisType::AntiGrav && b.weapons@ == seq![WeaponType::Missile]
            && !b.electronics && b.nuclear,
{
    let k = counter % 10;
    let b = if k <= 2 {
        RobotBlueprint::new(ChassisType::Tracks).with_weapon(WeaponType::Cannon)
    } else if k <= 4 {
        RobotBlueprint::new(ChassisType::Wheels).with_weapon(WeaponType::Cannon)
    } else if k <= 6 {
        RobotBlueprint::new(ChassisType::Bipod).with_weapon(WeaponType::Cannon).with_weapon(WeaponType::Cannon)
    } else if k <= 8 {
        RobotBlueprint::new(ChassisType::Tracks).with_weapon(WeaponType::Missile)
    } else {
        RobotBlueprint::new(ChassisType::AntiGrav).with_weapon(WeaponType::Missile).with_nuclear()
    };
    proof {
        assert(design(b) =~~= rotation_design(counter));
    }
    b
}

/// Nuclear blueprint, used only once the AI holds enough factories.
pub fn select_nuclear_blueprint() -> (b: RobotBlueprint)
    ensures
        design(b) == nuclear_design(),
        b.chassis == ChassisType::AntiGrav && b.weapons@ == seq![WeaponType::Missile] && !b.electronics && b.nuclear,
{
    let b = RobotBlueprint::new(ChassisType::AntiGrav).with_weapon(WeaponType::Missile).with_nuclear();
    proof {
        assert(design(b) =~~= nuclear_design());
    }
    b
}

/// The AI's build choice: the nuclear design when it holds at least
/// `threshold` factories and its decision counter is a multiple of 7, else the
/// rotation's design; the counter then advances (wrapping).
pub fn choose_build_blueprint(decision_counter: &mut u32, enemy_factory_count: u32, threshold: u32) -> (b: RobotBlueprint)
    ensures
        design(b) == if enemy_factory_count >= threshold && *old(decision_counter) % 7 == 0 {
            nuclear_design()
        } else {
            rotation_design(*old(decision_counter))
        },
        *final(decision_counter) == (*old(decision_counter)).wrapping_add(1),
        enemy_factory_count >= threshold && *old(decision_counter) % 7 == 0 ==> b.chassis == ChassisType::AntiGrav
            && b.weapons@ == seq![WeaponType::Missile] && !b.electronics && b.nuclear,
        !(enemy_factory_count >= threshold && *old(decision_counter) % 7 == 0) && *old(decision_counter) % 10 <= 2 ==> b.chassis
            == ChassisType::Tracks && b.weapons@ == seq![WeaponType::Cannon] && !b.electronics && !b.nuclear,
        !(enemy_factory_count >= threshold && *old(decision_counter) % 7 == 0) && 3 <= *old(decision_counter) % 10 <= 4 ==> b.chassis
            == ChassisType::Wheels && b.weapons@ == seq![WeaponType::Cannon] && !b.electronics && !b.nuclear,
        !(enemy_factory_count >= threshold && *old(decision_counter) % 7 == 0) && 5 <= *old(decision_counter) % 10 <= 6 ==> b.chassis
            == ChassisType::Bipod && b.weapons@ == seq![WeaponType::Cannon, WeaponType::Cannon] && !b.electronics
            && !b.nuclear,
        !(enemy_factory_count >= threshold && *old(decision_counter) % 7 == 0) && 7 <= *old(decision_counter) % 10 <= 8 ==> b.chassis
            == ChassisType::Tracks && b.weapons@ == seq![WeaponType::Missile] && !b.electronics && !b.nuclear,
        !(enemy_factory_count >= threshold && *old(decision_counter) % 7 == 0) && *old(decision_counter) % 10 == 9 ==> b.chassis
            == ChassisType::AntiGrav && b.weapons@ == seq![WeaponType::Missile] && !b.electronics && b.nuclear,
{
    let use_nuclear = enemy_factory_count >= threshold && *decision_counter % 7 == 0;
    let b = if use_nuclear {
        select_nuclear_blueprint()
    } else {
        select_blueprint(*decision_counter)
    };
    *decision_counter = decision_counter.wrapping_add(1);
    b
}

/// Most designs a warbase holds in its production queue.
pub const MAX_QUEUED: usize = 3;

/// The first enemy warbase whose production queue has room, given each
/// warbase's owner and queue length.
pub fn build_queue_slot(warbases: &Vec<(Team, usize)>) -> (r: Option<usize>)
    ensures
        r matches Some(i) ==> {
            &&& i < warbases@.len()
            &&& warbases@[i as int].0 == Team::Enemy
            &&& warbases@[i as int].1 < MAX_QUEUED
            &&& forall|j: int| 0 <= j < i ==> !(#[trigger] warbases@[j].0 == Team::Enemy && warbases@[j].1 < MAX_QUEUED)
        },
        r is None ==> forall|j: int|
            0 <= j < warbases@.len() ==> !(#[trigger] warbases@[j].0 == Team::Enemy && warbases@[j].1 < MAX_QUEUED),
{
    let mut i: usize = 0;
    while i < warbases.len()
        invariant
            i <= warbases@.len(),
            forall|j: int| 0 <= j < i ==> !(#[trigger] warbases@[j].0 == Team::Enemy && warbases@[j].1 < MAX_QUEUED),
        decreases warbases@.len() - i,
    {
        let (team, len) = warbases[i];
        if team == Team::Enemy && len < MAX_QUEUED {
            return Some(i);
        }
        i = i + 1;
    }
    None
}

// ---------------------------------------------------------------------------
// Orders for idle AI robots
// ---------------------------------------------------------------------------

/// An order the AI gives to one of its idle robots.
#[derive(Debug, Clone, Copy, PartialEq, Eq, Structural)]
pub enum AiOrder {
    /// March on the opposing warbase (robots carrying a nuclear charge).
    DestroyEnemyBase,
    /// Capture the given structure.
    SeekAndCapture(Option<u64>),
    /// Hunt enemy robots.
    SeekAndDestroy,
}

/// The order for one robot: only idle robots of the AI's side get one;
/// a nuclear carrier marches on the enemy base; otherwise the robot captures
/// the best structure unless the AI is aggressive or has nothing to capture,
/// in which case it hunts.
pub fn assign_order(team: Team, idle: bool, has_nuclear: bool, aggressive: bool, best_capture: Option<u64>) -> (o: Option<AiOrder>)
    ensures
        o == if team != Team::Enemy || !idle {
            None
        } else if has_nuclear {
            Some(AiOrder::DestroyEnemyBase)
        } else if !aggressive && best_capture is Some {
            Some(AiOrder::SeekAndCapture(best_capture))
        } else {
            Some(AiOrder::SeekAndDestroy)
        },
{
    if team != Team::Enemy || !idle {
        return None;
    }
    if has_nuclear {
        return Some(AiOrder::DestroyEnemyBase);
    }
    if !aggressive && best_capture.is_some() {
        Some(AiOrder::SeekAndCapture(best_capture))
    } else {
        Some(AiOrder::SeekAndDestroy)
    }
}

// ---------------------------------------------------------------------------
// Exploration
// ---------------------------------------------------------------------------

/// Pseudo-random seed from an entity's identifier bits and its position.
pub open spec fn exploration_seed(entity_bits: u64, px: u32, pz: u32) -> u32 {
    ((entity_bits as u32).wrapping_mul(2654435761u32)).wrapping_add(px).wrapping_add(pz)
}

pub open spec fn half_or_one(n: u32) -> int {
    if n / 2 >= 1 {
        (n / 2) as int
    } else {
        1
    }
}

/// Cell to explore, in the quadrant opposite to the robot, derived from the
/// entity's identifier bits and its position truncated to whole cells
/// (`px`, `pz`). `x_low` / `z_low` tell whether the robot stands in the lower
/// half of the map along each axis.
pub fn exploration_target(
    entity_bits: u64,
    px: u32,
    pz: u32,
    x_low: bool,
    z_low: bool,
    map_w: u32,
    map_h: u32,
) -> (r: (u32, u32))
    ensures
        r.0 == (if x_low { half_or_one(map_w) } else { 0 }) + exploration_seed(entity_bits, px, pz) as int
            % half_or_one(map_w),
        r.1 == (if z_low { half_or_one(map_h) } else { 0 }) + (exploration_seed(entity_bits, px, pz).wrapping_mul(
            2246822519u32,
        ) as int) % half_or_one(map_h),
        x_low ==> half_or_one(map_w) <= r.0 < 2 * half_or_one(map_w),
        !x_low ==> r.0 < half_or_one(map_w),
        z_low ==> half_or_one(map_h) <= r.1 < 2 * half_or_one(map_h),
        !z_low ==> r.1 < half_or_one(map_h),
        map_w >= 2 ==> r.0 < map_w,
        map_h >= 2 ==> r.1 < map_h,
{
    let half_w: u32 = if map_w / 2 >= 1 { map_w / 2 } else { 1 };
    let half_h: u32 = if map_h / 2 >= 1 { map_h / 2 } else { 1 };
    let x_base: u32 = if x_low { half_w } else { 0 };
    let z_base: u32 = if z_low { half_h } else { 0 };
    let seed = (entity_bits as u32).wrapping_mul(2654435761u32).wrapping_add(px).wrapping_add(pz);
    let dx = seed % half_w;
    let dz = seed.wrapping_mul(2246822519u32) % half_h;
    (x_base + dx, z_base + dz)
}

} // verus!
