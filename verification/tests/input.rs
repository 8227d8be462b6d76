use combatant_core::math::{Vec2Fixed, Vec3Fixed};
use combatant_core::plugins::statesmachine::{CurrentStates, States, StatesValues};
use combatant_core::systems::characteractions::move_action;
use combatant_core::systems::inputresolver::{
    handle_combatant_actions, resolve_tick, InputBuffer, InputSample,
};

fn sample(x: i64, y: i64) -> InputSample {
    InputSample { move_dir: Vec2Fixed { x, y }, jump: false }
}

#[test]
fn resolver_prefers_the_live_reading_on_a_captured_tick() {
    let buffer = InputBuffer(vec![(100, sample(1, 1))]);
    let live = sample(9, 9);
    assert_eq!(buffer.resolve(100, live), live);
}

#[test]
fn resolver_falls_back_to_the_last_known_input() {
    // Only tick 100 is buffered; resolving tick 101 during a forward
    // resimulation gap returns the tick-100 sample, not a default input.
    let recorded = sample(5_000, 2_500);
    let buffer = InputBuffer(vec![(100, recorded)]);
    assert_eq!(buffer.resolve(101, sample(0, 0)), recorded);
}

#[test]
fn resolver_picks_the_most_recent_earlier_sample() {
    let buffer = InputBuffer(vec![(10, sample(1, 0)), (20, sample(2, 0)), (40, sample(4, 0))]);
    assert_eq!(buffer.resolve(30, sample(9, 9)), sample(2, 0));
    assert_eq!(buffer.resolve(41, sample(9, 9)), sample(4, 0));
}

#[test]
fn resolver_uses_the_live_reading_without_history() {
    let empty = InputBuffer(Vec::new());
    let live = sample(3, 4);
    assert_eq!(empty.resolve(55, live), live);

    // History exists, but only of later ticks: startup fallback again.
    let later = InputBuffer(vec![(100, sample(1, 1))]);
    assert_eq!(later.resolve(50, live), live);
}

#[test]
fn buffer_records_and_evicts_by_tick() {
    let mut buffer = InputBuffer(Vec::new());
    buffer.record(1, sample(1, 0));
    buffer.record(2, sample(2, 0));
    buffer.record(3, sample(3, 0));
    assert_eq!(buffer.get(2), Some(sample(2, 0)));
    assert_eq!(buffer.get_last_with_tick(), Some((3, sample(3, 0))));

    buffer.evict_before(2);
    assert_eq!(buffer.get(1), None);
    assert_eq!(buffer.get(2), Some(sample(2, 0)));
    assert_eq!(buffer.get(3), Some(sample(3, 0)));
    assert_eq!(buffer.0.len(), 2);
}

#[test]
fn rollback_tick_overrides_the_live_tick() {
    assert_eq!(resolve_tick(Some(5), 42), 5);
    assert_eq!(resolve_tick(None, 42), 42);
}

#[test]
fn positive_movement_requests_walking_with_remapped_direction() {
    let mut reg = CurrentStates::default();
    move_action(Vec2Fixed { x: 2_000, y: 5_000 }, &mut reg);
    assert!(reg.contains_key(&States::Walking));
    assert!(!reg.contains_key(&States::Idle));
    let record = &reg.0.iter().find(|p| p.0 == States::Walking).unwrap().1;
    assert_eq!(
        record.values,
        Some(StatesValues::Walking(Vec3Fixed { x: -2_000, y: 0, z: 5_000 }))
    );
}

#[test]
fn non_positive_movement_requests_idle() {
    let mut reg = CurrentStates::default();
    move_action(Vec2Fixed { x: 1_000, y: 0 }, &mut reg);
    assert!(reg.contains_key(&States::Walking));

    move_action(Vec2Fixed { x: -1_000, y: -1_000 }, &mut reg);
    assert!(reg.contains_key(&States::Idle));
    assert!(!reg.contains_key(&States::Walking));
}

#[test]
fn input_step_replays_the_buffered_sample() {
    // During rollback of tick 101 the live device reading says "stand
    // still", but the authoritative history says the player was walking.
    let mut reg = CurrentStates::default();
    let buffer = InputBuffer(vec![(100, sample(0, 7_000))]);
    handle_combatant_actions(Some(101), 200, &buffer, sample(0, 0), &mut reg);
    assert!(reg.contains_key(&States::Walking));
    let record = &reg.0.iter().find(|p| p.0 == States::Walking).unwrap().1;
    assert_eq!(
        record.values,
        Some(StatesValues::Walking(Vec3Fixed { x: 0, y: 0, z: 7_000 }))
    );
}

#[test]
fn input_step_uses_the_live_reading_on_a_captured_tick() {
    let mut reg = CurrentStates::default();
    let buffer = InputBuffer(vec![(100, sample(0, 7_000))]);
    handle_combatant_actions(None, 100, &buffer, sample(0, 0), &mut reg);
    // The live reading stands still, so the entity goes (stays) idle.
    assert!(reg.contains_key(&States::Idle));
    assert!(!reg.contains_key(&States::Walking));
}
