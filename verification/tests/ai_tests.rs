use nether_earth::ai::{
    assign_order, build_queue_slot, check_victory_defeat, choose_build_blueprint, count_team, exploration_target,
    select_blueprint, select_nuclear_blueprint, AiOrder, GameOutcome, GameResult, RobotBlueprint, MAX_QUEUED,
};
use nether_earth::types::{ChassisType, Team, WeaponType};

#[test]
fn select_blueprint_deterministic() {
    let a = select_blueprint(3);
    let b = select_blueprint(3);
    assert_eq!(a.chassis, b.chassis);
}

#[test]
fn blueprint_rotation_over_ten_decisions() {
    let expected = [
        ChassisType::Tracks,
        ChassisType::Tracks,
        ChassisType::Tracks,
        ChassisType::Wheels,
        ChassisType::Wheels,
        ChassisType::Bipod,
        ChassisType::Bipod,
        ChassisType::Tracks,
        ChassisType::Tracks,
        ChassisType::AntiGrav,
    ];
    for i in 0..10u32 {
        assert_eq!(select_blueprint(i).chassis, expected[i as usize]);
        assert_eq!(select_blueprint(i + 10).chassis, expected[i as usize]);
    }
    let bipod = select_blueprint(5);
    assert_eq!(bipod.weapons, vec![WeaponType::Cannon, WeaponType::Cannon]);
    let carrier = select_blueprint(9);
    assert!(carrier.nuclear);
    assert_eq!(carrier.weapons, vec![WeaponType::Missile]);
    assert!(!select_blueprint(7).nuclear);
}

#[test]
fn nuclear_blueprint_carries_a_charge() {
    let b = select_nuclear_blueprint();
    assert_eq!(b.chassis, ChassisType::AntiGrav);
    assert!(b.nuclear);
    assert!(!b.electronics);
    assert_eq!(b.weapons, vec![WeaponType::Missile]);
}

#[test]
fn blueprint_builders_add_parts() {
    let b = RobotBlueprint::new(ChassisType::Wheels).with_weapon(WeaponType::Phasers).with_electronics();
    assert_eq!(b.chassis, ChassisType::Wheels);
    assert_eq!(b.weapons, vec![WeaponType::Phasers]);
    assert!(b.electronics);
    assert!(!b.nuclear);
}

#[test]
fn build_choice_uses_nuclear_with_enough_factories() {
    let mut counter: u32 = 14;
    let b = choose_build_blueprint(&mut counter, 2, 2);
    assert!(b.nuclear);
    assert_eq!(counter, 15);
    let b = choose_build_blueprint(&mut counter, 2, 2);
    // 15 is not a multiple of 7: rotation slot 5, a bipod.
    assert_eq!(b.chassis, ChassisType::Bipod);
    assert_eq!(counter, 16);
    let mut counter: u32 = 0;
    let b = choose_build_blueprint(&mut counter, 1, 2);
    assert_eq!(b.chassis, ChassisType::Tracks);
    assert!(!b.nuclear);
    let mut counter: u32 = u32::MAX;
    let _ = choose_build_blueprint(&mut counter, 0, 2);
    assert_eq!(counter, 0);
}

#[test]
fn queue_slot_is_first_enemy_warbase_with_room() {
    let wbs = vec![(Team::Player, 0), (Team::Enemy, MAX_QUEUED), (Team::Enemy, 1), (Team::Enemy, 0)];
    assert_eq!(build_queue_slot(&wbs), Some(2));
    let full = vec![(Team::Enemy, 3), (Team::Player, 0)];
    assert_eq!(build_queue_slot(&full), None);
}

#[test]
fn orders_for_idle_ai_robots() {
    assert_eq!(assign_order(Team::Player, true, false, false, Some(3)), None);
    assert_eq!(assign_order(Team::Enemy, false, false, false, Some(3)), None);
    assert_eq!(assign_order(Team::Enemy, true, true, false, Some(3)), Some(AiOrder::DestroyEnemyBase));
    assert_eq!(assign_order(Team::Enemy, true, false, false, Some(3)), Some(AiOrder::SeekAndCapture(Some(3))));
    assert_eq!(assign_order(Team::Enemy, true, false, true, Some(3)), Some(AiOrder::SeekAndDestroy));
    assert_eq!(assign_order(Team::Enemy, true, false, false, None), Some(AiOrder::SeekAndDestroy));
}

#[test]
fn exploration_goes_to_the_opposite_quadrant() {
    // seed = 1 * 2654435761 + 3 + 4 (wrapping) = 2654435768
    let (x, z) = exploration_target(1, 3, 4, true, false, 64, 64);
    let seed: u32 = 2654435761u32.wrapping_add(7);
    assert_eq!(x, 32 + seed % 32);
    assert_eq!(z, seed.wrapping_mul(2246822519) % 32);
    assert!(x >= 32 && x < 64);
    assert!(z < 32);
}

#[test]
fn exploration_on_a_tiny_map() {
    let (x, z) = exploration_target(99, 0, 0, false, true, 1, 1);
    assert_eq!(x, 0);
    assert_eq!(z, 1);
}

#[test]
fn victory_when_enemy_loses_its_last_warbase() {
    let mut result = GameResult::default();
    check_victory_defeat(&mut result, &vec![Team::Player], &vec![Team::Player, Team::Enemy, Team::Player], 12);
    assert_eq!(result.outcome, Some(GameOutcome::PlayerWin));
    assert_eq!(result.game_days, 12);
    assert_eq!(result.player_factories, 2);
    assert_eq!(result.enemy_factories, 1);
}

#[test]
fn defeat_when_player_loses_its_last_warbase() {
    let mut result = GameResult::default();
    check_victory_defeat(&mut result, &vec![Team::Enemy, Team::Neutral], &vec![], 3);
    assert_eq!(result.outcome, Some(GameOutcome::PlayerLose));
    assert_eq!(result.game_days, 3);
}

#[test]
fn game_goes_on_while_both_sides_hold_a_warbase() {
    let mut result = GameResult::default();
    check_victory_defeat(&mut result, &vec![Team::Enemy, Team::Player], &vec![Team::Enemy], 3);
    assert_eq!(result, GameResult::default());
}

#[test]
fn decided_game_stays_decided() {
    let mut result = GameResult::default();
    check_victory_defeat(&mut result, &vec![], &vec![], 5);
    assert_eq!(result.outcome, Some(GameOutcome::PlayerWin));
    let before = result;
    check_victory_defeat(&mut result, &vec![Team::Enemy], &vec![Team::Enemy], 9);
    assert_eq!(result, before);
}

#[test]
fn count_team_counts_each_side() {
    let teams = vec![Team::Player, Team::Enemy, Team::Player, Team::Neutral, Team::Player];
    assert_eq!(count_team(&teams, Team::Player), 3);
    assert_eq!(count_team(&teams, Team::Enemy), 1);
    assert_eq!(count_team(&Vec::new(), Team::Enemy), 0);
}
