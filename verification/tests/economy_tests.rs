use nether_earth::economy::{factory_type_to_resource, tick_production, EnemyResources, PlayerResources};
use nether_earth::types::{FactType, ResourceType, Team};

#[test]
fn starting_resources_initialized() {
    let res = PlayerResources::with_starting_values();
    assert_eq!(res.get(ResourceType::General), 50);
    assert_eq!(res.get(ResourceType::Nuclear), 5);
}

#[test]
fn spend_returns_false_if_insufficient() {
    let mut res = PlayerResources::with_starting_values();
    assert!(!res.spend(ResourceType::Nuclear, 100));
    assert_eq!(res.get(ResourceType::Nuclear), 5);
}

#[test]
fn add_and_spend() {
    let mut res = PlayerResources::with_starting_values();
    res.add(ResourceType::Cannon, 10);
    assert_eq!(res.get(ResourceType::Cannon), 25);
    assert!(res.spend(ResourceType::Cannon, 20));
    assert_eq!(res.get(ResourceType::Cannon), 5);
}

#[test]
fn factory_type_mapping_complete() {
    let types = [
        FactType::Chassis,
        FactType::Cannon,
        FactType::Missile,
        FactType::Phasers,
        FactType::Electronics,
        FactType::Nuclear,
    ];
    for ft in types {
        let _ = factory_type_to_resource(ft);
    }
}

#[test]
fn factory_kinds_map_to_their_stock() {
    assert_eq!(factory_type_to_resource(FactType::Chassis), ResourceType::Chassis);
    assert_eq!(factory_type_to_resource(FactType::Cannon), ResourceType::Cannon);
    assert_eq!(factory_type_to_resource(FactType::Missile), ResourceType::Missile);
    assert_eq!(factory_type_to_resource(FactType::Phasers), ResourceType::Phasers);
    assert_eq!(factory_type_to_resource(FactType::Electronics), ResourceType::Electronics);
    assert_eq!(factory_type_to_resource(FactType::Nuclear), ResourceType::Nuclear);
}

#[test]
fn starting_values_of_every_kind() {
    let res = PlayerResources::with_starting_values();
    assert_eq!(res.get(ResourceType::Chassis), 20);
    assert_eq!(res.get(ResourceType::Cannon), 15);
    assert_eq!(res.get(ResourceType::Missile), 10);
    assert_eq!(res.get(ResourceType::Phasers), 10);
    assert_eq!(res.get(ResourceType::Electronics), 10);
}

#[test]
fn add_then_spend_gives_back_the_stock() {
    let mut res = PlayerResources::with_starting_values();
    res.add(ResourceType::Phasers, 7);
    assert!(res.spend(ResourceType::Phasers, 7));
    assert_eq!(res.get(ResourceType::Phasers), 10);
}

#[test]
fn spend_all_leaves_zero() {
    let mut res = PlayerResources::with_starting_values();
    assert!(res.spend(ResourceType::Nuclear, 5));
    assert_eq!(res.get(ResourceType::Nuclear), 0);
    assert!(!res.spend(ResourceType::Nuclear, 1));
    assert_eq!(res.get(ResourceType::Nuclear), 0);
}

#[test]
fn production_credits_one_day() {
    let mut last_day: u32 = 0;
    let warbases = vec![Team::Player, Team::Enemy, Team::Enemy];
    let factories = vec![
        (FactType::Cannon, Team::Player),
        (FactType::Missile, Team::Enemy),
        (FactType::Chassis, Team::Neutral),
    ];
    let mut player = PlayerResources::with_starting_values();
    let mut enemy = EnemyResources(PlayerResources::with_starting_values());
    let events = tick_production(1, &mut last_day, &warbases, &factories, &mut player, &mut enemy);
    assert_eq!(last_day, 1);
    // Player: one warbase (5) and one cannon factory (2 General, 5 Cannon).
    assert_eq!(player.get(ResourceType::General), 57);
    assert_eq!(player.get(ResourceType::Cannon), 20);
    assert_eq!(player.get(ResourceType::Missile), 10);
    // Enemy: two warbases (10) and one missile factory (2 General, 5 Missile).
    assert_eq!(enemy.0.get(ResourceType::General), 62);
    assert_eq!(enemy.0.get(ResourceType::Missile), 15);
    assert_eq!(enemy.0.get(ResourceType::Chassis), 20);
    assert_eq!(events.len(), 2);
    assert_eq!(events[0].resource_type, ResourceType::General);
    assert_eq!(events[0].delta, 7);
    assert_eq!(events[0].new_total, 57);
    assert_eq!(events[0].team, Team::Player);
    assert_eq!(events[1].resource_type, ResourceType::Cannon);
    assert_eq!(events[1].delta, 5);
    assert_eq!(events[1].new_total, 20);
}

#[test]
fn production_skips_a_day_already_credited() {
    let mut last_day: u32 = 4;
    let warbases = vec![Team::Player];
    let factories: Vec<(FactType, Team)> = Vec::new();
    let mut player = PlayerResources::with_starting_values();
    let mut enemy = EnemyResources(PlayerResources::with_starting_values());
    let events = tick_production(4, &mut last_day, &warbases, &factories, &mut player, &mut enemy);
    assert!(events.is_empty());
    assert_eq!(last_day, 4);
    assert_eq!(player.get(ResourceType::General), 50);
}

#[test]
fn production_without_holdings_reports_nothing() {
    let mut last_day: u32 = 0;
    let warbases = vec![Team::Enemy];
    let factories: Vec<(FactType, Team)> = Vec::new();
    let mut player = PlayerResources::with_starting_values();
    let mut enemy = EnemyResources(PlayerResources::with_starting_values());
    let events = tick_production(3, &mut last_day, &warbases, &factories, &mut player, &mut enemy);
    assert!(events.is_empty());
    assert_eq!(last_day, 3);
    assert_eq!(enemy.0.get(ResourceType::General), 55);
}

#[test]
fn spending_leaves_other_kinds_alone() {
    let mut res = PlayerResources::with_starting_values();
    assert!(res.spend(ResourceType::Chassis, 20));
    assert_eq!(res.get(ResourceType::Chassis), 0);
    assert_eq!(res.get(ResourceType::General), 50);
    assert_eq!(res.get(ResourceType::Cannon), 15);
    assert_eq!(res.get(ResourceType::Nuclear), 5);
}
