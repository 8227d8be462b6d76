//! Fixed-point vector types.
//!
//! Positions, velocities, forces and directions are carried as integers:
//! one world unit equals 10_000 ticks, so every constant of the controller
//! (snap deadzone, float margin, probe reach) is exact.

use vstd::prelude::*;

verus! {

/// A three-component fixed-point vector (x: lateral, y: vertical, z: depth).
#[derive(Clone, Copy, Debug, PartialEq, Eq, Structural)]
pub struct Vec3Fixed {
    pub x: i64,
    pub y: i64,
    pub z: i64,
}

/// A two-component fixed-point vector, as read from a movement input device
/// (x: lateral, y: forward).
#[derive(Clone, Copy, Debug, PartialEq, Eq, Structural)]
pub struct Vec2Fixed {
    pub x: i64,
    pub y: i64,
}

} // verus!
