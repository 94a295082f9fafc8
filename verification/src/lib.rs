//! Collision, damage and fragmentation rules for an asteroids-style arcade
//! game, with the contracts of the rules proved.
//!
//! The library works on whole numbers: positions and radii are whole units,
//! velocities are whole steps of a 1024th of a unit per second, distances
//! are compared by their squares, and what has to be rounded says in its
//! contract which way. It keeps no entities and draws nothing. A game hands
//! it plain values each frame and carries out what comes back.
//!
//! - `geometry`: vectors, distances, integer square roots.
//! - `collision`: circle contact, the point of impact, and the passes that
//!   resolve the contacts of all bodies.
//! - `resolver`: how one touching pair is pushed apart and exchanges
//!   momentum.
//! - `damage`: damage transfer from dealers to victims.
//! - `asteroid`: size tiers, spawning and the generation of children.
//! - `split`: breaking an asteroid along its own outline.
//! - `boundary`: wrapping around the play field and leaving it.
//! - `ship`: the life cycle of the player's ship.
//! - `weapons`: bullets and their lifetime.
//! - `movement`, `events`: the plain types that the rules share.
//! - `config`: the command line.
//! - `random`: the draws from the random generator.

pub mod asteroid;
pub mod boundary;
pub mod collision;
pub mod config;
pub mod damage;
pub mod events;
pub mod geometry;
pub mod movement;
pub mod random;
pub mod resolver;
pub mod ship;
pub mod split;
pub mod weapons;
