//! The notifications that the rules hand to the rest of the game.

use vstd::prelude::*;
use core::ops::Range;
use crate::geometry::Vector;

verus! {

/// The handle of an entity of the host. The library only passes it on.
#[derive(Clone, Copy, Debug, PartialEq, Eq, Structural)]
pub struct Entity(pub u64);

/// The entity has been destroyed and is to be removed.
#[derive(Clone, Copy, Debug, PartialEq, Eq, Structural)]
pub struct DestructionEvent {
    pub entity: Entity,
}

/// The player's ship has been destroyed.
#[derive(Clone, Copy, Debug, PartialEq, Eq, Structural)]
pub struct PlayerDeathEvent {}

/// A burst of grain particles: between `particles.start` and `particles.end`
/// of them, scattered within `spawn_radius` of `pos` and carried along with
/// `impact_vel`, a velocity in the steps in which velocities are held.
#[derive(Debug)]
pub struct GrainParticleSpawnEvent {
    pub pos: Vector,
    pub spawn_radius: i64,
    pub particles: Range<i32>,
    pub impact_vel: Vector,
}

/// A blink of an entity: its visibility toggles every `switch_micros`
/// microseconds until `duration_micros` have passed. A blink that does not
/// repeat toggles once.
#[derive(Clone, Copy, Debug, PartialEq, Eq, Structural)]
pub struct Flick {
    pub switch_micros: u64,
    pub duration_micros: u64,
    pub repeating: bool,
}

} // verus!
