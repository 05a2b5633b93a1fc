use nether_earth::selection::{selection_counts, SelectionState};
use nether_earth::types::ChassisType;

#[test]
fn plain_click_selects_only_that_robot() {
    let mut s = SelectionState { selected: vec![1, 2] };
    assert_eq!(s.click_robot(7, false, false, false), None);
    assert_eq!(s.selected, vec![7]);
    // A second plain click on the same robot starts over and selects it again.
    assert_eq!(s.click_robot(7, false, false, false), None);
    assert_eq!(s.selected, vec![7]);
}

#[test]
fn shift_click_toggles_membership() {
    let mut s = SelectionState { selected: vec![1, 2] };
    s.click_robot(3, false, true, false);
    assert_eq!(s.selected, vec![1, 2, 3]);
    s.click_robot(2, false, true, false);
    assert_eq!(s.selected, vec![1, 3]);
    s.click_robot(2, true, true, false);
    assert_eq!(s.selected, vec![1, 3, 2]);
}

#[test]
fn ctrl_click_toggles_manual_control() {
    let mut s = SelectionState { selected: vec![1, 2] };
    assert_eq!(s.click_robot(5, true, false, false), Some(true));
    assert_eq!(s.selected, vec![5]);
    assert_eq!(s.click_robot(5, true, false, true), Some(false));
    assert!(s.selected.is_empty());
}

#[test]
fn recall_group_selects_its_members_in_order() {
    let mut s = SelectionState::default();
    s.selected.push(9);
    let grouped = vec![(4, 2), (5, 1), (6, 2), (7, 3)];
    s.recall_group(&grouped, 2);
    assert_eq!(s.selected, vec![4, 6]);
    s.recall_group(&grouped, 8);
    assert!(s.selected.is_empty());
}

#[test]
fn shift_clicking_a_robot_twice_gives_the_selection_back() {
    let mut s = SelectionState { selected: vec![3, 1] };
    s.click_robot(8, false, true, false);
    s.click_robot(8, false, true, false);
    assert_eq!(s.selected, vec![3, 1]);
}

#[test]
fn selection_panel_counts() {
    let robots = vec![
        (ChassisType::Wheels, 0u8, false),
        (ChassisType::Tracks, 2, true),
        (ChassisType::Wheels, 2, false),
        (ChassisType::AntiGrav, 6, false),
        (ChassisType::Bipod, 9, false),
    ];
    let (chassis, commands, nuclear) = selection_counts(&robots);
    assert_eq!(chassis, [2, 1, 1, 1]);
    assert_eq!(commands, [1, 0, 2, 0, 0, 0, 1]);
    assert!(nuclear);
    let (chassis, commands, nuclear) = selection_counts(&vec![]);
    assert_eq!(chassis, [0; 4]);
    assert_eq!(commands, [0; 7]);
    assert!(!nuclear);
}
