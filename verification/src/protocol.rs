//! Types shared across the network protocol.

use vstd::prelude::*;

verus! {

/// Marker replicated on the static floor entity.
#[derive(Clone, Copy, Debug, PartialEq, Eq, Structural)]
pub struct FloorMarker;

/// The input actions a player can perform.
#[derive(Clone, Copy, Debug, PartialEq, Eq, Hash, Structural)]
pub enum CharacterAction {
    Move,
    Jump,
}

/// How an action is read from the input device: a two-axis reading or a
/// plain button.
#[derive(Clone, Copy, Debug, PartialEq, Eq, Structural)]
pub enum InputControlKind {
    Button,
    DualAxis,
}

impl CharacterAction {
    /// Movement is a two-axis reading; jumping is a button.
    pub fn input_control_kind(&self) -> (r: InputControlKind)
        ensures
            r == match *self {
                CharacterAction::Move => InputControlKind::DualAxis,
                CharacterAction::Jump => InputControlKind::Button,
            },
    {
        match self {
            CharacterAction::Move => InputControlKind::DualAxis,
            CharacterAction::Jump => InputControlKind::Button,
        }
    }
}

} // verus!
