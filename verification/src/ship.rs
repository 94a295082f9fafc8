//! The player's ship: alive, dead for a while, then respawning for a while.

use vstd::prelude::*;
use crate::asteroid::Damage;
use crate::collision::Bounding;
use crate::events::Flick;
use crate::geometry::Vector;

verus! {

/// The three states of the ship. They follow each other in one direction:
/// alive, dead, spawning, alive again.
#[derive(Clone, Copy, Debug, PartialEq, Eq, Structural)]
pub enum ShipState {
    Alive,
    Dead,
    Spawning,
}

impl Default for ShipState {
    fn default() -> (s: ShipState)
        ensures
            s == ShipState::Alive,
    {
        ShipState::Alive
    }
}

/// The ship: its state, and the microseconds left of the wait that the
/// state stands for. An alive ship waits for nothing.
#[derive(Clone, Copy, Debug, PartialEq, Eq, Structural)]
pub struct Ship {
    pub state: ShipState,
    pub timer: u64,
}

/// How long a destroyed ship stays dead, in microseconds.
pub const DEAD_COOLDOWN: u64 = 2_000_000;

/// How long a respawning ship stays out of play, in microseconds.
pub const SPAWN_WINDOW: u64 = 1_000_000;

/// The width and height of the ship. Its collision radius is half of it.
pub const PLAYER_SIZE: i64 = 20;

/// What the host has to do to the ship's entity after a step.
#[derive(Clone, Copy, Debug, PartialEq, Eq, Structural)]
pub enum ShipCommand {
    /// Nothing changes.
    Stay,
    /// The ship is destroyed: take its collision radius, controls, weapons,
    /// velocity and damage away, and hide it.
    Die,
    /// The ship comes back: put it at `pos` facing up, show it, and let it
    /// blink as `flick` says.
    Respawn { pos: Vector, flick: Flick },
    /// The ship is back in play: end the blink, show it, and give it its
    /// controls and weapons, this collision radius and this contact damage.
    Activate { bound: Bounding, damage: Damage },
}

impl ShipState {
    /// The state that follows in the cycle.
    pub open spec fn successor(self) -> ShipState {
        match self {
            ShipState::Alive => ShipState::Dead,
            ShipState::Dead => ShipState::Spawning,
            ShipState::Spawning => ShipState::Alive,
        }
    }

    /// Only an alive ship collides, moves and fires.
    pub open spec fn in_play(self) -> bool {
        self == ShipState::Alive
    }

    /// Tells whether the ship collides, moves and fires.
    pub fn is_in_play(&self) -> (r: bool)
        ensures
            r == self.in_play(),
    {
        match self {
            ShipState::Alive => true,
            _ => false,
        }
    }
}

/// The blink of a respawning ship: two seconds, toggling every fifth of a
/// second.
pub open spec fn respawn_flick() -> Flick {
    Flick { switch_micros: 200_000, duration_micros: 2_000_000, repeating: true }
}

/// The ship and the command after `elapsed` microseconds have passed and
/// `deaths` death events have arrived.
///
/// An alive ship dies on a death event and is dead for `DEAD_COOLDOWN`. A
/// dead or spawning ship ignores death events and counts its wait down; a
/// wait ends on the step that uses it up. When the wait of a dead ship ends
/// the ship respawns and is out of play for `SPAWN_WINDOW`; when that of a
/// spawning ship ends the ship is alive.
pub open spec fn ship_step(ship: Ship, elapsed: u64, deaths: usize) -> (Ship, ShipCommand) {
    match ship.state {
        ShipState::Alive => if deaths > 0 {
            (Ship { state: ShipState::Dead, timer: DEAD_COOLDOWN }, ShipCommand::Die)
        } else {
            (ship, ShipCommand::Stay)
        },
        ShipState::Dead => if ship.timer <= elapsed {
            (
                Ship { state: ShipState::Spawning, timer: SPAWN_WINDOW },
                ShipCommand::Respawn { pos: Vector { x: 0, y: 0 }, flick: respawn_flick() },
            )
        } else {
            (Ship { timer: (ship.timer - elapsed) as u64, ..ship }, ShipCommand::Stay)
        },
        ShipState::Spawning => if ship.timer <= elapsed {
            (
                Ship { state: ShipState::Alive, timer: 0 },
                ShipCommand::Activate {
                    bound: Bounding((PLAYER_SIZE / 2) as i64),
                    damage: Damage(5),
                },
            )
        } else {
            (Ship { timer: (ship.timer - elapsed) as u64, ..ship }, ShipCommand::Stay)
        },
    }
}

/// Advances the ship by `elapsed` microseconds, given the number of death
/// events that arrived, and tells the host what to do.
pub fn player_state_system(ship: &mut Ship, elapsed: u64, deaths: usize) -> (command: ShipCommand)
    ensures
        (*final(ship), command) == ship_step(*old(ship), elapsed, deaths),
{
    match ship.state {
        ShipState::Alive => {
            if deaths > 0 {
                *ship = Ship { state: ShipState::Dead, timer: DEAD_COOLDOWN };
                ShipCommand::Die
            } else {
                ShipCommand::Stay
            }
        },
        ShipState::Dead => {
            if ship.timer <= elapsed {
                *ship = Ship { state: ShipState::Spawning, timer: SPAWN_WINDOW };
                ShipCommand::Respawn {
                    pos: Vector { x: 0, y: 0 },
                    flick: Flick {
                        switch_micros: 200_000,
                        duration_micros: 2_000_000,
                        repeating: true,
                    },
                }
            } else {
                ship.timer = ship.timer - elapsed;
                ShipCommand::Stay
            }
        },
        ShipState::Spawning => {
            if ship.timer <= elapsed {
                *ship = Ship { state: ShipState::Alive, timer: 0 };
                ShipCommand::Activate { bound: Bounding(PLAYER_SIZE / 2), damage: Damage(5) }
            } else {
                ship.timer = ship.timer - elapsed;
                ShipCommand::Stay
            }
        },
    }
}

/// The state of the ship moves in one direction only: a step leaves it
/// where it is or takes it to the next state of the cycle, and it leaves an
/// alive ship alive unless a death event has arrived.
pub proof fn lemma_ship_cycle(ship: Ship, elapsed: u64, deaths: usize)
    ensures
        ship_step(ship, elapsed, deaths).0.state == ship.state || ship_step(
            ship,
            elapsed,
            deaths,
        ).0.state == ship.state.successor(),
        ship.state == ShipState::Alive && deaths == 0 ==> ship_step(ship, elapsed, deaths).0
            == ship,
        ship_step(ship, elapsed, deaths).1 is Die <==> ship.state == ShipState::Alive && deaths
            > 0,
{
}

} // verus!
