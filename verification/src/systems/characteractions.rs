//! Locomotion intent: mapping a 2D movement input into a state-transition
//! request.

use vstd::prelude::*;

use crate::math::{Vec2Fixed, Vec3Fixed};
use crate::plugins::statesmachine::{
    spec_transition, CurrentStates, StateInfos, StateRecModel, States, StatesValues,
};

verus! {

/// The record a walking request carries: the move vector remapped into the
/// character's local horizontal plane — lateral component negated, forward
/// component mapped to depth, vertical component zero.
pub open spec fn spec_walking_record(move_dir: Vec2Fixed) -> StateRecModel {
    StateRecModel {
        start: None,
        duration: 0,
        in_cooldown: false,
        stopped_states: Seq::<States>::empty(),
        values: Some(
            StatesValues::Walking(
                Vec3Fixed { x: (0 - move_dir.x) as i64, y: 0, z: move_dir.y },
            ),
        ),
    }
}

/// The registry after one locomotion-intent step: a request to enter
/// `Walking` when the forward or lateral input component is positive,
/// otherwise a request to enter `Idle`; either request goes through the
/// ordinary transition rules.
pub open spec fn spec_move(s: Seq<(States, StateRecModel)>, move_dir: Vec2Fixed) -> Seq<
    (States, StateRecModel),
> {
    if move_dir.y > 0 || move_dir.x > 0 {
        spec_transition(s, States::Walking, spec_walking_record(move_dir))
    } else {
        spec_transition(s, States::Idle, StateInfos::default_spec())
    }
}

/// Maps one movement input to a transition request on the entity's registry.
///
/// The caller supplies a vector already clamped to unit length; this
/// function does not validate that (documented caller responsibility).
pub fn move_action(move_dir: Vec2Fixed, current_states: &mut CurrentStates)
    requires
        old(current_states).wf(),
        move_dir.x > i64::MIN,
    ensures
        final(current_states).wf(),
        final(current_states)@ == spec_move(old(current_states)@, move_dir),
{
    if move_dir.y > 0 || move_dir.x > 0 {
        let mut infos = StateInfos::default();
        infos.values = Some(
            StatesValues::Walking(Vec3Fixed { x: -move_dir.x, y: 0, z: move_dir.y }),
        );
        proof {
            assert(infos@ == spec_walking_record(move_dir));
        }
        current_states.transition(&States::Walking, infos);
    } else {
        current_states.transition(&States::Idle, StateInfos::default());
    }
}

} // verus!
