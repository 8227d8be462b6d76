use combatant_core::math::Vec3Fixed;
use combatant_core::plugins::combatant::{
    client_combatant_added, create_player_combatant, CharacterController, CombatantMeshBundle,
    CombatantServerBundle, CombatantType, CombatantsList,
};
use combatant_core::plugins::statesmachine::States;
use combatant_core::protocol::{CharacterAction, InputControlKind};
use combatant_core::systems::charactercontroller::ColliderShape;
use combatant_core::{GameMask, NetworkSide};

#[test]
fn combatants_list_tracks_owning_sessions() {
    let mut list = CombatantsList(Vec::new());
    list.insert(1, Some(10));
    list.insert(2, None);
    assert_eq!(list.get(1), Some(Some(10)));
    assert_eq!(list.get(2), Some(None));
    assert_eq!(list.get(3), None);

    list.insert(1, Some(11));
    assert_eq!(list.get(1), Some(Some(11)));

    list.remove(1);
    assert_eq!(list.get(1), None);
    assert_eq!(list.get(2), Some(None));
}

#[test]
fn server_spawn_records_the_connection_and_uses_defaults() {
    let mut list = CombatantsList(Vec::new());
    let bundle = create_player_combatant(42, 7, &mut list);
    assert_eq!(list.get(42), Some(Some(7)));

    assert_eq!(bundle.network_side, NetworkSide::Server);
    assert_eq!(bundle.combatant_type, CombatantType::Player);
    assert_eq!(bundle.collider, ColliderShape::Capsule { radius: 3_000, height: 10_000 });
    assert_eq!(bundle.gravity_scale, 0);
    assert_eq!(bundle.friction, 10_000);
    assert_eq!(bundle.translation, Vec3Fixed { x: 0, y: 8_500, z: 0 });
    assert_eq!(bundle.game_mask, GameMask::Combatant);
    assert!(bundle.character_controller.grounded);
    assert!(bundle.character_controller.shape_hit_data.is_none());
    assert_eq!(bundle.current_states.0.len(), 1);
    assert_eq!(bundle.current_states.0[0].0, States::Idle);
}

#[test]
fn client_spawn_marks_only_controlled_combatants() {
    let mut list = CombatantsList(Vec::new());
    let (bundle, marker) = client_combatant_added(5, 77, true, &mut list);
    assert!(marker.is_some());
    assert_eq!(list.get(5), Some(Some(77)));
    assert_eq!(bundle.network_side, NetworkSide::Client);

    let (_, no_marker) = client_combatant_added(6, 77, false, &mut list);
    assert!(no_marker.is_none());
    assert_eq!(list.get(6), Some(Some(77)));
}

#[test]
fn bundle_defaults_match_the_spawn_pose() {
    let server = CombatantServerBundle::default();
    assert_eq!(server.translation, Vec3Fixed { x: 0, y: 8_500, z: 0 });
    let mesh = CombatantMeshBundle::default();
    assert_eq!(mesh.translation, Vec3Fixed { x: 0, y: -9_000, z: 0 });
    let controller = CharacterController::default();
    assert!(controller.grounded);
}

#[test]
fn action_kinds_distinguish_axes_from_buttons() {
    assert_eq!(CharacterAction::Move.input_control_kind(), InputControlKind::DualAxis);
    assert_eq!(CharacterAction::Jump.input_control_kind(), InputControlKind::Button);
}
