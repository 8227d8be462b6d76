use combatant_core::plugins::statesmachine::{
    current_states_added, check_states_changed, check_states_failed_apply, CurrentStates,
    StateAdded, StateInfos, StateRemoved, States, StatesApplied, StatesValues,
};
use combatant_core::math::Vec3Fixed;

fn walking_infos(x: i64, z: i64) -> StateInfos {
    let mut infos = StateInfos::default();
    infos.values = Some(StatesValues::Walking(Vec3Fixed { x, y: 0, z }));
    infos
}

fn has(reg: &CurrentStates, s: States) -> bool {
    reg.contains_key(&s)
}

#[test]
fn default_registry_contains_exactly_idle() {
    let reg = CurrentStates::default();
    assert_eq!(reg.0.len(), 1);
    assert_eq!(reg.0[0].0, States::Idle);
    assert!(has(&reg, States::Idle));
    assert!(!has(&reg, States::Walking));
    assert!(!has(&reg, States::Jumping));
    assert!(!has(&reg, States::Died));
}

#[test]
fn transition_to_active_state_is_a_no_op() {
    let mut reg = CurrentStates::default();
    let before = reg.0.clone();
    reg.transition(&States::Idle, walking_infos(1, 2));
    assert_eq!(reg.0, before);
}

#[test]
fn walking_rejected_while_died_active() {
    let mut reg = CurrentStates::default();
    reg.transition(&States::Died, StateInfos::default());
    assert!(has(&reg, States::Died));
    reg.transition(&States::Walking, walking_infos(0, 100));
    assert!(!has(&reg, States::Walking));
    reg.transition(&States::Idle, StateInfos::default());
    assert!(!has(&reg, States::Idle));
}

#[test]
fn idle_rejected_while_jumping_active() {
    let mut reg = CurrentStates::default();
    reg.transition(&States::Jumping, StateInfos::default());
    assert!(has(&reg, States::Jumping));
    assert!(!has(&reg, States::Idle));
    reg.transition(&States::Idle, StateInfos::default());
    assert!(!has(&reg, States::Idle));
    assert!(has(&reg, States::Jumping));
}

#[test]
fn idle_replaces_walking_atomically() {
    let mut reg = CurrentStates::default();
    reg.transition(&States::Walking, walking_infos(-100, 200));
    assert!(has(&reg, States::Walking));
    assert!(!has(&reg, States::Idle));
    reg.transition(&States::Idle, StateInfos::default());
    assert!(has(&reg, States::Idle));
    assert!(!has(&reg, States::Walking));
    assert_eq!(reg.0.len(), 1);
    assert_eq!(reg.0[0].1.stopped_states, vec![States::Walking]);
}

#[test]
fn died_stops_every_other_state() {
    let mut reg = CurrentStates::default();
    reg.transition(&States::Walking, walking_infos(0, 1));
    reg.transition(&States::Died, StateInfos::default());
    assert_eq!(reg.0.len(), 1);
    assert_eq!(reg.0[0].0, States::Died);
    assert!(reg.0[0].1.stopped_states.is_empty());
}

#[test]
fn settings_tables_match_the_rules() {
    let idle = States::Idle.get_settings();
    assert_eq!(idle.blacklist, vec![States::Died, States::Jumping]);
    assert_eq!(idle.stop_list, vec![States::Walking]);
    assert!(!idle.stop_all);

    let walking = States::Walking.get_settings();
    assert_eq!(walking.blacklist, vec![States::Died, States::Jumping]);
    assert_eq!(walking.stop_list, vec![States::Idle]);
    assert!(!walking.stop_all);

    let jumping = States::Jumping.get_settings();
    assert_eq!(jumping.blacklist, vec![States::Died]);
    assert_eq!(jumping.stop_list, vec![States::Idle, States::Walking]);
    assert!(!jumping.stop_all);

    let died = States::Died.get_settings();
    assert!(died.blacklist.is_empty());
    assert!(died.stop_list.is_empty());
    assert!(died.stop_all);
}

#[test]
fn fresh_applied_view_is_empty_until_first_pass() {
    let mut slot: Option<StatesApplied> = None;
    current_states_added(&mut slot);
    let applied = slot.expect("the applied view is created");
    assert!(applied.0.is_empty());

    let mut occupied = Some(StatesApplied(vec![States::Idle]));
    current_states_added(&mut occupied);
    assert_eq!(occupied.unwrap().0, vec![States::Idle]);
}

#[test]
fn reconciler_notifies_added_then_settles() {
    let reg = CurrentStates::default();
    let mut applied = StatesApplied(Vec::new());
    let (added, removed) = check_states_changed(7, &reg, &mut applied);
    assert_eq!(added, vec![StateAdded(7, States::Idle)]);
    assert!(removed.is_empty());
    assert_eq!(applied.0, vec![States::Idle]);

    let (added2, removed2) = check_states_changed(7, &reg, &mut applied);
    assert!(added2.is_empty());
    assert!(removed2.is_empty());
    assert_eq!(applied.0, vec![States::Idle]);
}

#[test]
fn reconciler_notifies_removed_after_transition() {
    let mut reg = CurrentStates::default();
    let mut applied = StatesApplied(Vec::new());
    let _ = check_states_changed(3, &reg, &mut applied);
    reg.transition(&States::Walking, walking_infos(0, 500));
    let (added, removed) = check_states_changed(3, &reg, &mut applied);
    assert_eq!(added, vec![StateAdded(3, States::Walking)]);
    assert_eq!(removed, vec![StateRemoved(3, States::Idle)]);
    assert_eq!(applied.0, vec![States::Walking]);
}

#[test]
fn failed_apply_causes_exactly_one_renotification() {
    let reg = CurrentStates::default();
    let mut applied = StatesApplied(Vec::new());
    let _ = check_states_changed(9, &reg, &mut applied);
    assert_eq!(applied.0, vec![States::Idle]);

    applied.failed_apply(&States::Idle);
    assert!(applied.0.is_empty());

    let events = check_states_failed_apply(9, &reg, &mut applied);
    assert_eq!(events, vec![StateAdded(9, States::Idle)]);
    assert_eq!(applied.0, vec![States::Idle]);
}

#[test]
fn reconciler_reports_same_tick_additions_in_registry_order() {
    let reg = CurrentStates(vec![
        (States::Jumping, StateInfos::default()),
        (States::Walking, walking_infos(0, 100)),
    ]);
    let mut applied = StatesApplied(vec![States::Idle]);
    let (added, removed) = check_states_changed(4, &reg, &mut applied);
    assert_eq!(
        added,
        vec![StateAdded(4, States::Jumping), StateAdded(4, States::Walking)]
    );
    assert_eq!(removed, vec![StateRemoved(4, States::Idle)]);
    assert_eq!(applied.0, vec![States::Jumping, States::Walking]);
}

#[test]
fn failed_apply_drops_only_the_failed_state() {
    let mut applied = StatesApplied(vec![States::Idle, States::Walking]);
    applied.failed_apply(&States::Idle);
    assert_eq!(applied.0, vec![States::Walking]);
}
