//! What moves a body: its velocity and the cap on its speed.
//!
//! A velocity is held finer than a position: its components count steps of
//! `1 / SUBUNITS` of a unit per second, so that a collision loses less than
//! one such step to rounding.

use vstd::prelude::*;
use crate::geometry::Vector;

verus! {

/// How many steps of velocity make one unit per second.
pub const SUBUNITS: i64 = 1024;

/// Largest magnitude of a velocity component for which the arithmetic of
/// this crate is proved free of overflow: `REACH` units per second, in steps
/// of `1 / SUBUNITS`.
pub const SPEED_REACH: i64 = 1_073_741_824;

/// The linear velocity of a body. Each component counts steps of
/// `1 / SUBUNITS` of a unit per second.
#[derive(Clone, Copy, Debug, PartialEq, Eq, Structural)]
pub struct Velocity(pub Vector);

impl Velocity {
    /// Both components lie within `SPEED_REACH` of zero.
    pub open spec fn in_reach(self) -> bool {
        &&& -SPEED_REACH <= self.0.x <= SPEED_REACH
        &&& -SPEED_REACH <= self.0.y <= SPEED_REACH
    }

    /// Tells whether the velocity is within `SPEED_REACH`.
    pub fn within_reach(&self) -> (r: bool)
        ensures
            r == self.in_reach(),
    {
        -SPEED_REACH <= self.0.x && self.0.x <= SPEED_REACH && -SPEED_REACH <= self.0.y
            && self.0.y <= SPEED_REACH
    }

    /// The velocity of so many whole units per second on each axis.
    pub fn from_units(x: i64, y: i64) -> (v: Velocity)
        requires
            -SPEED_REACH <= x * SUBUNITS <= SPEED_REACH,
            -SPEED_REACH <= y * SUBUNITS <= SPEED_REACH,
        ensures
            v == Velocity(Vector { x: (x * SUBUNITS) as i64, y: (y * SUBUNITS) as i64 }),
            v.in_reach(),
    {
        Velocity(Vector { x: x * SUBUNITS, y: y * SUBUNITS })
    }
}

/// The most that a body may move in a second, in whole units.
#[derive(Clone, Copy, Debug, PartialEq, Eq, Structural)]
pub struct SpeedLimit(pub i64);

} // verus!
