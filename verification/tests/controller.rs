use combatant_core::math::Vec3Fixed;
use combatant_core::plugins::combatant::CharacterController;
use combatant_core::plugins::statesmachine::{CurrentStates, StateInfos, States, StatesValues};
use combatant_core::systems::charactercontroller::{
    adjust_collider_float, character_walk, check_is_grounded, control_gravity, find_ground,
    ColliderShape, GroundHit, FLOAT_DISTANCE, SNAP_DEADZONE,
};

fn capsule() -> ColliderShape {
    ColliderShape::Capsule { radius: 3_000, height: 10_000 }
}

fn v3(x: i64, y: i64, z: i64) -> Vec3Fixed {
    Vec3Fixed { x, y, z }
}

fn grounded_at(ground_y: i64) -> CharacterController {
    CharacterController {
        shape_hit_data: Some(GroundHit {
            point: v3(0, ground_y, 0),
            normal: v3(0, 10_000, 0),
            distance: 0,
        }),
        grounded: true,
    }
}

#[test]
fn fixed_point_constants_are_the_spec_values() {
    // One world unit is 10_000 ticks: 0.1 margin, 0.005 deadzone.
    assert_eq!(FLOAT_DISTANCE, 1_000);
    assert_eq!(SNAP_DEADZONE, 50);
}

#[test]
fn suspension_snaps_inside_the_deadzone() {
    // Ground at 0, half extent 0.8, margin 0.1: target height 0.9.
    // Current height 0.9005 lies within the 0.005 deadzone.
    let controller = grounded_at(0);
    let mut force = v3(0, 5_500, 0);
    let mut velocity = v3(40, 123, -7);
    adjust_collider_float(&controller, &capsule(), &v3(0, 9_005, 0), 10, &mut force, &mut velocity);
    assert_eq!(force, v3(0, 0, 0));
    assert_eq!(velocity, v3(40, 0, -7));
}

#[test]
fn suspension_pushes_down_when_too_high() {
    // Current height 1.0 against target 0.9: downward force 0.1 x mass.
    let controller = grounded_at(0);
    let mut force = v3(0, 0, 0);
    let mut velocity = v3(0, 77, 0);
    adjust_collider_float(&controller, &capsule(), &v3(0, 10_000, 0), 10, &mut force, &mut velocity);
    assert_eq!(force.y, -1_000 * 10);
    assert_eq!(velocity.y, 77);
}

#[test]
fn suspension_pushes_up_when_too_low() {
    // Current height 0.5 against target 0.9: upward force 0.4 x mass.
    let controller = grounded_at(0);
    let mut force = v3(0, 200, 0);
    let mut velocity = v3(0, -5, 0);
    adjust_collider_float(&controller, &capsule(), &v3(0, 5_000, 0), 10, &mut force, &mut velocity);
    assert_eq!(force.y, 200 + 4_000 * 10);
    assert_eq!(velocity.y, -5);
}

#[test]
fn suspension_skips_non_capsule_colliders() {
    let controller = grounded_at(0);
    let mut force = v3(0, 42, 0);
    let mut velocity = v3(0, 9, 0);
    adjust_collider_float(
        &controller,
        &ColliderShape::Other,
        &v3(0, 10_000, 0),
        10,
        &mut force,
        &mut velocity,
    );
    assert_eq!(force, v3(0, 42, 0));
    assert_eq!(velocity, v3(0, 9, 0));
}

#[test]
fn suspension_skips_without_ground_contact() {
    let controller = CharacterController { shape_hit_data: None, grounded: false };
    let mut force = v3(0, 42, 0);
    let mut velocity = v3(0, 9, 0);
    adjust_collider_float(&controller, &capsule(), &v3(0, 10_000, 0), 10, &mut force, &mut velocity);
    assert_eq!(force, v3(0, 42, 0));
    assert_eq!(velocity, v3(0, 9, 0));
}

#[test]
fn gravity_damping_moves_toward_zero_and_clamps() {
    // |gravity| x dt = 0.05: velocity 2.0 -> 1.95; 0.03 -> 0.0, not -0.02.
    let mut velocity = v3(300, 11, 20_000);
    control_gravity(500, &mut velocity);
    assert_eq!(velocity.z, 19_500);
    assert_eq!(velocity.x, 0);
    assert_eq!(velocity.y, 11);

    let mut negative = v3(-300, 0, -20_000);
    control_gravity(500, &mut negative);
    assert_eq!(negative.x, 0);
    assert_eq!(negative.z, -19_500);
}

#[test]
fn ground_probe_covers_the_capsule_extent() {
    // Full extent 1.6: cast starts that far above, reaches 1.1 x extent.
    let probe = find_ground(&capsule(), &v3(100, 8_500, -200)).expect("capsule probes");
    assert_eq!(probe.origin, v3(100, 8_500 + 16_000, -200));
    assert_eq!(probe.max_distance, 17_600);
    assert!(find_ground(&ColliderShape::Other, &v3(0, 0, 0)).is_none());
}

#[test]
fn grounded_flag_follows_the_cast_result() {
    let mut controller = CharacterController::default();
    let hit = GroundHit { point: v3(0, 0, 0), normal: v3(0, 10_000, 0), distance: 1_500 };
    check_is_grounded(&mut controller, Some(hit));
    assert!(controller.grounded);
    assert_eq!(controller.shape_hit_data, Some(hit));
    check_is_grounded(&mut controller, None);
    assert!(!controller.grounded);
    assert_eq!(controller.shape_hit_data, None);
}

#[test]
fn walking_state_drives_the_depth_axis_only() {
    let mut reg = CurrentStates::default();
    let mut infos = StateInfos::default();
    infos.values = Some(StatesValues::Walking(v3(-2_000, 0, 3_000)));
    reg.transition(&States::Walking, infos);

    let mut velocity = v3(111, 222, 0);
    character_walk(&reg, &mut velocity);
    assert_eq!(velocity, v3(111, 222, 3_000));
}

#[test]
fn walking_without_direction_leaves_velocity_alone() {
    let mut reg = CurrentStates::default();
    reg.transition(&States::Walking, StateInfos::default());
    let mut velocity = v3(1, 2, 3);
    character_walk(&reg, &mut velocity);
    assert_eq!(velocity, v3(1, 2, 3));

    let idle_only = CurrentStates::default();
    let mut unchanged = v3(4, 5, 6);
    character_walk(&idle_only, &mut unchanged);
    assert_eq!(unchanged, v3(4, 5, 6));
}
