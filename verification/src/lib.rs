//! Core of a networked character-locomotion simulation.
//!
//! Each controllable entity carries a discrete behavioral state machine
//! (idle, walking, jumping, dead) and a continuous physical state (position,
//! velocity).  The modules here hold the deterministic heart of the
//! simulation: the state registry and its transition rules, the reconciler
//! that notifies downstream consumers of state changes, the locomotion-intent
//! mapping, the grounded character controller, and the rollback-aware input
//! resolver.  Engine concerns (rendering, networking, the collision solver)
//! are external collaborators: they hand these functions plain values and
//! carry out the returned decisions.
//!
//! All continuous quantities are fixed-point integers: one world unit is
//! 10_000 ticks of an `i64`, so the controller's constants (such as the
//! 0.005-unit snap deadzone) are exact integers.

use vstd::prelude::*;

pub mod math;
pub mod plugins;
pub mod protocol;
pub mod systems;

verus! {

/// Collision-layer classification used to filter ground probes.
#[derive(Clone, Copy, Debug, PartialEq, Eq, Structural)]
pub enum GameMask {
    Default,
    Floor,
    Combatant,
}

impl Default for GameMask {
    fn default() -> (r: Self)
        ensures
            r == GameMask::Default,
    {
        GameMask::Default
    }
}

/// Marker for entities that take part in the networked simulation.
#[derive(Clone, Copy, Debug)]
pub struct InteractNetworkAble;

/// Which side of the connection a simulation runs on.
#[derive(PartialEq, Eq, Structural, Clone, Copy, Debug)]
pub enum NetworkSide {
    Client,
    Server,
}

} // verus!
