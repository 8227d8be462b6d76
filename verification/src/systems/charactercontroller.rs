//! The grounded character controller.
//!
//! Each tick the controller probes for ground below the entity
//! ([`find_ground`] builds the probe, the physics engine runs the cast,
//! [`check_is_grounded`] stores the result), holds a capsule-shaped body at a
//! fixed height above the detected contact with an undamped proportional
//! force ([`adjust_collider_float`]), drives the depth-axis velocity from the
//! active `Walking` state's stored direction ([`character_walk`]), and damps
//! both horizontal velocity axes toward zero at the gravity rate
//! ([`control_gravity`]).
//!
//! Lengths, velocities and forces are fixed-point: one world unit is 10_000
//! ticks of an `i64`.

use vstd::prelude::*;

use crate::math::Vec3Fixed;
use crate::plugins::combatant::CharacterController;
use crate::plugins::statesmachine::{
    spec_has_key, spec_record, CurrentStates, StateRecModel, States, StatesValues,
};

verus! {

/// The floating margin kept between the capsule's lower half and the ground
/// contact (0.1 world unit).
pub const FLOAT_DISTANCE: i64 = 1000;

/// Half-width of the snap deadzone around the target stand height
/// (0.005 world unit).  Inside it the vertical velocity and accumulated
/// vertical force are zeroed instead of corrected, preventing oscillation at
/// rest; the controller is expected to oscillate within this band, not to
/// converge asymptotically.
pub const SNAP_DEADZONE: i64 = 50;

/// A ground-cast result: contact point, surface normal and travelled
/// distance.
#[derive(Clone, Copy, Debug, PartialEq, Eq, Structural)]
pub struct GroundHit {
    pub point: Vec3Fixed,
    pub normal: Vec3Fixed,
    pub distance: i64,
}

/// The entity's collider, as far as this controller reads it: entities
/// without a capsule collider are outside its contract and are skipped.
#[derive(Clone, Copy, Debug, PartialEq, Eq, Structural)]
pub enum ColliderShape {
    Capsule { radius: i64, height: i64 },
    Other,
}

/// A downward shape-cast query for the physics engine to run: cast the
/// entity's own collider from `origin` downward by at most `max_distance`,
/// ignoring the entity itself, filtered to solid ground.
#[derive(Clone, Copy, Debug, PartialEq, Eq, Structural)]
pub struct GroundProbe {
    pub origin: Vec3Fixed,
    pub max_distance: i64,
}

/// The capsule's full vertical extent: cylinder height plus both caps.
pub open spec fn spec_total_height(c: ColliderShape) -> int {
    match c {
        ColliderShape::Capsule { radius, height } => height + 2 * radius,
        ColliderShape::Other => 0,
    }
}

/// The probe [`find_ground`] builds: none for a non-capsule collider;
/// otherwise the cast starts one full extent above the pose and reaches
/// 1.1 times the extent downward.
pub open spec fn spec_probe(c: ColliderShape, t: Vec3Fixed) -> Option<GroundProbe> {
    match c {
        ColliderShape::Capsule { radius, height } => {
            let th = spec_total_height(c);
            Some(
                GroundProbe {
                    origin: Vec3Fixed { x: t.x, y: (t.y + th) as i64, z: t.z },
                    max_distance: ((th * 11) / 10) as i64,
                },
            )
        },
        ColliderShape::Other => None,
    }
}

/// Builds the ground probe for an entity: where the cast starts and how far
/// it reaches.  The physics engine runs the returned query; a non-capsule
/// collider yields no probe and the entity is skipped.
pub fn find_ground(collider: &ColliderShape, translation: &Vec3Fixed) -> (r: Option<GroundProbe>)
    requires
        match *collider {
            ColliderShape::Capsule { radius, height } => 0 <= radius <= 1_000_000_000 && 0
                <= height <= 1_000_000_000,
            ColliderShape::Other => true,
        },
        -1_000_000_000 <= translation.y <= 1_000_000_000,
    ensures
        r == spec_probe(*collider, *translation),
{
    match collider {
        ColliderShape::Capsule { radius, height } => {
            let total_height = *height + 2 * *radius;
            Some(
                GroundProbe {
                    origin: Vec3Fixed {
                        x: translation.x,
                        y: translation.y + total_height,
                        z: translation.z,
                    },
                    max_distance: (total_height * 11) / 10,
                },
            )
        },
        ColliderShape::Other => None,
    }
}

/// Stores a tick's ground-cast result on the controller and derives the
/// grounded flag from it.
pub fn check_is_grounded(
    character_controller: &mut CharacterController,
    shape_hit_data: Option<GroundHit>,
)
    ensures
        final(character_controller).shape_hit_data == shape_hit_data,
        final(character_controller).grounded == (shape_hit_data is Some),
{
    character_controller.grounded = shape_hit_data.is_some();
    character_controller.shape_hit_data = shape_hit_data;
}

/// Float suspension: holds a grounded capsule at half its extent plus the
/// floating margin above the contact point.
///
/// Inside the snap deadzone the vertical velocity and accumulated vertical
/// force are zeroed; above the target height a downward force of
/// `difference x mass` is accumulated; below it, an upward one.  Ungrounded
/// or non-capsule entities are left to the physics engine untouched.
pub fn adjust_collider_float(
    character_controller: &CharacterController,
    collider: &ColliderShape,
    translation: &Vec3Fixed,
    computed_mass: i64,
    external_force: &mut Vec3Fixed,
    linear_velocity: &mut Vec3Fixed,
)
    requires
        match *collider {
            ColliderShape::Capsule { radius, height } => 0 <= radius <= 1_000_000_000 && 0
                <= height <= 1_000_000_000,
            ColliderShape::Other => true,
        },
        -1_000_000_000 <= translation.y <= 1_000_000_000,
        match character_controller.shape_hit_data {
            Some(h) => -1_000_000_000 <= h.point.y <= 1_000_000_000,
            None => true,
        },
        0 <= computed_mass <= 1_000_000,
        -1_000_000_000_000_000 <= old(external_force).y <= 1_000_000_000_000_000,
    ensures
        final(external_force).x == old(external_force).x,
        final(external_force).z == old(external_force).z,
        final(linear_velocity).x == old(linear_velocity).x,
        final(linear_velocity).z == old(linear_velocity).z,
        !((*collider) is Capsule && character_controller.shape_hit_data is Some) ==> {
            &&& final(external_force).y == old(external_force).y
            &&& final(linear_velocity).y == old(linear_velocity).y
        },
        ((*collider) is Capsule && character_controller.shape_hit_data is Some) ==> {
            let h = character_controller.shape_hit_data->Some_0;
            let target = h.point.y + spec_total_height(*collider) / 2 + FLOAT_DISTANCE;
            let difference = translation.y - target;
            if -SNAP_DEADZONE <= difference <= SNAP_DEADZONE {
                final(linear_velocity).y == 0 && final(external_force).y == 0
            } else if difference > 0 {
                final(external_force).y == old(external_force).y - difference * computed_mass
                    && final(linear_velocity).y == old(linear_velocity).y
            } else {
                final(external_force).y == old(external_force).y + (-difference) * computed_mass
                    && final(linear_velocity).y == old(linear_velocity).y
            }
        },
{
    let (radius, height) = match collider {
        ColliderShape::Capsule { radius, height } => (*radius, *height),
        ColliderShape::Other => {
            return ;
        },
    };
    let hit = match &character_controller.shape_hit_data {
        Some(h) => *h,
        None => {
            return ;
        },
    };
    let total_height = height + 2 * radius;
    let half_height = total_height / 2;
    let float_point = hit.point.y + half_height + FLOAT_DISTANCE;
    let stand_difference = translation.y - float_point;
    proof {
        assert(-4_000_000_000 <= stand_difference <= 4_000_000_000);
        assert(-4_000_000_000_000_000 <= stand_difference as int * computed_mass as int
            <= 4_000_000_000_000_000) by (nonlinear_arith)
            requires
                -4_000_000_000 <= stand_difference <= 4_000_000_000,
                0 <= computed_mass <= 1_000_000,
        ;
        assert((-stand_difference) as int * computed_mass as int == -(stand_difference as int
            * computed_mass as int)) by (nonlinear_arith)
            requires
                -4_000_000_000 <= stand_difference <= 4_000_000_000,
        ;
    }

    if -SNAP_DEADZONE <= stand_difference && stand_difference <= SNAP_DEADZONE {
        linear_velocity.y = 0;
        external_force.y = 0;
    } else if stand_difference > 0 {
        external_force.y = external_force.y - stand_difference * computed_mass;
    } else {
        external_force.y = external_force.y + (-stand_difference) * computed_mass;
    }
}

/// The depth component of the direction stored on the active `Walking`
/// state, when there is one.
pub open spec fn spec_walking_dir(regv: Seq<(States, StateRecModel)>) -> Option<Vec3Fixed> {
    if spec_has_key(regv, States::Walking) {
        match spec_record(regv, States::Walking).values {
            Some(StatesValues::Walking(d)) => Some(d),
            None => None,
        }
    } else {
        None
    }
}

/// Drives locomotion: when `Walking` is active and carries a direction, the
/// depth-axis velocity is set to the direction's depth component.  Only that
/// one axis is driven; the lateral axis is left to damping.
pub fn character_walk(current_states: &CurrentStates, linear_velocity: &mut Vec3Fixed)
    requires
        current_states.wf(),
    ensures
        final(linear_velocity).x == old(linear_velocity).x,
        final(linear_velocity).y == old(linear_velocity).y,
        final(linear_velocity).z == match spec_walking_dir(current_states@) {
            Some(d) => d.z,
            None => old(linear_velocity).z,
        },
{
    let mut i: usize = 0;
    while i < current_states.0.len()
        invariant
            i <= current_states.0.len(),
            current_states.wf(),
            *linear_velocity == *old(linear_velocity),
            forall|j: int| 0 <= j < i ==> current_states@[j].0 != States::Walking,
        decreases current_states.0.len() - i,
    {
        if current_states.0[i].0 == States::Walking {
            proof {
                crate::plugins::statesmachine::lemma_record_at(
                    current_states@,
                    i as int,
                    States::Walking,
                );
            }
            match &current_states.0[i].1.values {
                Some(StatesValues::Walking(d)) => {
                    linear_velocity.z = d.z;
                },
                None => {},
            }
            return ;
        }
        i += 1;
    }
}

/// A velocity component moved toward zero by `step`, clamped at zero.
pub open spec fn spec_damp(v: int, step: int) -> int {
    if v > 0 {
        if v - step > 0 {
            v - step
        } else {
            0
        }
    } else if v < 0 {
        if v + step < 0 {
            v + step
        } else {
            0
        }
    } else {
        0
    }
}

/// Gravity-based horizontal damping, the stand-in for ground friction: both
/// horizontal velocity axes move toward zero by `gravity_step` (the gravity
/// magnitude times the tick duration), clamped at zero, whatever the
/// grounded state.
pub fn control_gravity(gravity_step: i64, linear_velocity: &mut Vec3Fixed)
    requires
        0 <= gravity_step <= 1_000_000_000_000_000,
        -1_000_000_000_000_000 <= old(linear_velocity).x <= 1_000_000_000_000_000,
        -1_000_000_000_000_000 <= old(linear_velocity).z <= 1_000_000_000_000_000,
    ensures
        final(linear_velocity).x == spec_damp(old(linear_velocity).x as int, gravity_step as int),
        final(linear_velocity).y == old(linear_velocity).y,
        final(linear_velocity).z == spec_damp(old(linear_velocity).z as int, gravity_step as int),
{
    if linear_velocity.x != 0 {
        if linear_velocity.x > 0 {
            let damped = linear_velocity.x - gravity_step;
            linear_velocity.x = if damped > 0 {
                damped
            } else {
                0
            };
        } else {
            let damped = linear_velocity.x + gravity_step;
            linear_velocity.x = if damped < 0 {
                damped
            } else {
                0
            };
        }
    }
    if linear_velocity.z != 0 {
        if linear_velocity.z > 0 {
            let damped = linear_velocity.z - gravity_step;
            linear_velocity.z = if damped > 0 {
                damped
            } else {
                0
            };
        } else {
            let damped = linear_velocity.z + gravity_step;
            linear_velocity.z = if damped < 0 {
                damped
            } else {
                0
            };
        }
    }
}

/// Damping only ever shrinks a velocity component toward zero: it never
/// overshoots to the opposite sign and never grows the magnitude.
pub proof fn lemma_damping_clamps(v: int, step: int)
    requires
        step >= 0,
    ensures
        v >= 0 ==> 0 <= spec_damp(v, step) <= v,
        v <= 0 ==> v <= spec_damp(v, step) <= 0,
{
}

} // verus!
