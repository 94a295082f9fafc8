use asteroids::asteroid::Damage;
use asteroids::collision::Bounding;
use asteroids::events::Flick;
use asteroids::geometry::Vector;
use asteroids::ship::{
    player_state_system, Ship, ShipCommand, ShipState, DEAD_COOLDOWN, PLAYER_SIZE, SPAWN_WINDOW,
};

#[test]
fn ship_state_defaults_to_alive() {
    assert_eq!(ShipState::default(), ShipState::Alive);
    assert!(ShipState::Alive.is_in_play());
    assert!(!ShipState::Dead.is_in_play());
    assert!(!ShipState::Spawning.is_in_play());
}

#[test]
fn alive_ship_stays_alive_without_a_death_event() {
    let mut ship = Ship { state: ShipState::Alive, timer: 0 };
    assert_eq!(player_state_system(&mut ship, 16_667, 0), ShipCommand::Stay);
    assert_eq!(ship, Ship { state: ShipState::Alive, timer: 0 });
}

#[test]
fn alive_ship_dies_on_a_death_event() {
    let mut ship = Ship { state: ShipState::Alive, timer: 0 };
    assert_eq!(player_state_system(&mut ship, 16_667, 1), ShipCommand::Die);
    assert_eq!(ship, Ship { state: ShipState::Dead, timer: 2_000_000 });
    assert_eq!(DEAD_COOLDOWN, 2_000_000);
    // several death events in one step kill once
    let mut ship = Ship { state: ShipState::Alive, timer: 0 };
    assert_eq!(player_state_system(&mut ship, 0, 3), ShipCommand::Die);
    assert_eq!(ship.state, ShipState::Dead);
}

#[test]
fn dead_ship_waits_and_then_respawns() {
    let mut ship = Ship { state: ShipState::Dead, timer: 2_000_000 };
    assert_eq!(player_state_system(&mut ship, 1_500_000, 0), ShipCommand::Stay);
    assert_eq!(ship, Ship { state: ShipState::Dead, timer: 500_000 });
    // death events do not reach a dead ship
    assert_eq!(player_state_system(&mut ship, 100_000, 2), ShipCommand::Stay);
    assert_eq!(ship, Ship { state: ShipState::Dead, timer: 400_000 });
    let command = player_state_system(&mut ship, 400_000, 0);
    assert_eq!(
        command,
        ShipCommand::Respawn {
            pos: Vector::new(0, 0),
            flick: Flick { switch_micros: 200_000, duration_micros: 2_000_000, repeating: true },
        }
    );
    assert_eq!(ship, Ship { state: ShipState::Spawning, timer: 1_000_000 });
    assert_eq!(SPAWN_WINDOW, 1_000_000);
}

#[test]
fn spawning_ship_comes_back_into_play() {
    let mut ship = Ship { state: ShipState::Spawning, timer: 1_000 };
    assert_eq!(player_state_system(&mut ship, 999, 1), ShipCommand::Stay);
    assert_eq!(ship, Ship { state: ShipState::Spawning, timer: 1 });
    let command = player_state_system(&mut ship, 16_667, 0);
    assert_eq!(command, ShipCommand::Activate { bound: Bounding(10), damage: Damage(5) });
    assert_eq!(ship, Ship { state: ShipState::Alive, timer: 0 });
    assert_eq!(PLAYER_SIZE, 20);
}

#[test]
fn ship_goes_round_the_cycle_in_order() {
    let mut ship = Ship { state: ShipState::Spawning, timer: 1_000 };
    let mut seen = vec![ship.state];
    let mut deaths = 0;
    for frame in 0..400 {
        if frame == 10 {
            deaths = 1;
        }
        player_state_system(&mut ship, 16_667, deaths);
        deaths = 0;
        if *seen.last().unwrap() != ship.state {
            seen.push(ship.state);
        }
    }
    assert_eq!(
        seen,
        vec![
            ShipState::Spawning,
            ShipState::Alive,
            ShipState::Dead,
            ShipState::Spawning,
            ShipState::Alive
        ]
    );
}
