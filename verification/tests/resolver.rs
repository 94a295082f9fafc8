use asteroids::collision::{
    circles_touching, elastic_collision_system, kill_collision_system, self_collision_system,
    Bounding, Collider,
};
use asteroids::boundary::Circle;
use asteroids::events::GrainParticleSpawnEvent;
use asteroids::geometry::{distance_squared, Vector, REACH};
use asteroids::movement::{Velocity, SPEED_REACH, SUBUNITS};
use asteroids::resolver::resolve_contact;
use asteroids::ship::{Ship, ShipState};
use rand::rngs::StdRng;
use rand::{Rng, SeedableRng};

/// A body with a velocity in steps of `1 / SUBUNITS` of a unit per second.
fn body(x: i64, y: i64, r: i64, vx: i64, vy: i64) -> Collider {
    Collider { pos: Vector::new(x, y), bound: Bounding(r), vel: Velocity(Vector::new(vx, vy)) }
}

/// A body with a velocity in whole units per second.
fn moving(x: i64, y: i64, r: i64, ux: i64, uy: i64) -> Collider {
    Collider { pos: Vector::new(x, y), bound: Bounding(r), vel: Velocity::from_units(ux, uy) }
}

fn close(steps: i64, units_per_second: f64) -> bool {
    (steps as f64 / SUBUNITS as f64 - units_per_second).abs() < 1e-3
}

fn energy(c: &Collider) -> i128 {
    let m = (c.bound.0 as i128) * (c.bound.0 as i128);
    let v = &c.vel.0;
    m * ((v.x as i128) * (v.x as i128) + (v.y as i128) * (v.y as i128))
}

fn resolve(a: Collider, b: Collider) -> (Collider, Collider, Option<GrainParticleSpawnEvent>) {
    let mut a = a;
    let mut b = b;
    let grain = resolve_contact(&mut a, &mut b);
    (a, b, grain)
}

#[test]
fn head_on_hit_of_equal_bodies_hands_the_velocity_over() {
    let (a, b, grain) = resolve(moving(0, 0, 10, 10, 0), moving(15, 0, 10, 0, 0));
    assert_eq!(a, body(0, 0, 10, 0, 0));
    // pushed out by the depth 5; 10240 steps * 0.992 = 10158.08, rounded toward zero
    assert_eq!(b, body(20, 0, 10, 10_158, 0));
    assert!(close(b.vel.0.x, 9.92));
    assert!(grain.is_none());
    let (a, b, _) = resolve(moving(0, 0, 10, 100, 0), moving(15, 0, 10, 0, 0));
    assert_eq!(a, body(0, 0, 10, 0, 0));
    assert_eq!(b, body(20, 0, 10, 101_580, 0));
    assert!(close(b.vel.0.x, 99.2));
}

#[test]
fn velocity_across_the_line_of_centres_is_only_damped() {
    let (a, b, _) = resolve(moving(0, 0, 10, 100, 0), moving(0, 15, 10, 0, 0));
    assert_eq!(a, body(0, 0, 10, 101_580, 0));
    assert_eq!(b, body(0, 20, 10, 0, 0));
}

#[test]
fn oblique_hits_follow_the_elastic_formula() {
    let (a, b, _) = resolve(moving(0, 0, 10, 100, 50), moving(12, 9, 10, -30, 20));
    assert_eq!(a, body(0, 0, 10, 2_437, -23_566));
    assert_eq!(b, body(16, 12, 10, 68_668, 94_673));
    let (a, b, _) = resolve(moving(0, 0, 70, 0, 0), moving(60, 30, 30, -40, -20));
    assert_eq!(a, body(0, 0, 70, -12_610, -6_305));
    assert_eq!(b, body(90, 45, 30, 28_022, 14_011));
    let (a, b, _) = resolve(moving(0, 0, 20, 0, 0), moving(-7, -7, 5, 300, 300));
    assert_eq!(a, body(0, 0, 20, 35_852, 35_852));
    assert_eq!(b, body(-18, -18, 5, -268_890, -268_890));
}

#[test]
fn light_body_bounces_off_a_heavy_one() {
    let (a, b, _) = resolve(moving(0, 0, 1, 1000, 0), moving(1, 0, 80, 0, 0));
    assert_eq!(a, body(0, 0, 1, -1_015_490, 0));
    // the heavy body takes up a third of a unit per second
    assert_eq!(b, body(81, 0, 80, 317, 0));
}

#[test]
fn push_is_the_least_that_separates() {
    // centres (1, 1) apart, radii 10 and 10: 20 / sqrt(2) = 14.14 on each axis
    let (a, b, _) = resolve(body(0, 0, 10, 0, 0), body(1, 1, 10, 0, 0));
    assert_eq!(a.pos, Vector::new(0, 0));
    assert_eq!(b.pos, Vector::new(15, 15));
    // a deep overlap off the axes
    let (_, b, _) = resolve(body(34, 14, 80, 0, 0), body(-13, 33, 83, 0, 0));
    assert_eq!(b.pos, Vector::new(-118, 76));
    // an offset on one axis only stays on that axis
    let (_, b, _) = resolve(body(0, 0, 10, 0, 0), body(0, -3, 10, 0, 0));
    assert_eq!(b.pos, Vector::new(0, -20));
}

#[test]
fn no_relative_velocity_means_no_exchange() {
    let (a, b, _) = resolve(moving(0, 0, 10, 125, 0), moving(19, 0, 10, 125, 0));
    // separated and damped, nothing exchanged: 125 * 0.992 = 124
    assert_eq!(a, moving(0, 0, 10, 124, 0));
    assert_eq!(b, moving(20, 0, 10, 124, 0));
}

#[test]
fn tangent_and_distant_bodies_are_left_alone() {
    let (a, b, grain) = resolve(body(0, 0, 10, 0, 0), body(20, 0, 10, -5, 0));
    assert_eq!(a, body(0, 0, 10, 0, 0));
    assert_eq!(b, body(20, 0, 10, -5, 0));
    assert!(grain.is_none());
    let (a, b, _) = resolve(body(0, 0, 10, 50, 0), body(200, 0, 10, -50, 0));
    assert_eq!(a, body(0, 0, 10, 50, 0));
    assert_eq!(b, body(200, 0, 10, -50, 0));
}

#[test]
fn bodies_with_one_centre_are_nudged_apart() {
    let (a, b, grain) = resolve(body(5, 5, 10, 3, 4), body(5, 5, 10, -3, -4));
    assert_eq!(a, body(5, 5, 10, 3, 4));
    assert_eq!(b, body(6, 5, 10, -3, -4));
    assert!(grain.is_none());
    // fast bodies with one centre have no point of impact either
    let (_, b, grain) = resolve(moving(5, 5, 10, 300, 4), moving(5, 5, 10, -3, -4));
    assert_eq!(b.pos, Vector::new(6, 5));
    assert!(grain.is_none());
}

#[test]
fn bodies_out_of_reach_are_left_alone() {
    let far = body(REACH + 1, 0, 10, 0, 0);
    let near = body(REACH, 0, 10, 5, 5);
    let (a, b, grain) = resolve(far, near);
    assert_eq!((a, b), (far, near));
    assert!(grain.is_none());
    let no_radius = body(0, 0, 0, 1, 1);
    let (a, b, _) = resolve(no_radius, body(0, 1, 10, 0, 0));
    assert_eq!((a, b), (no_radius, body(0, 1, 10, 0, 0)));
    let too_fast = body(0, 0, 10, SPEED_REACH + 1, 0);
    let (a, b, _) = resolve(body(1, 0, 10, 0, 0), too_fast);
    assert_eq!((a, b), (body(1, 0, 10, 0, 0), too_fast));
}

#[test]
fn fast_contact_throws_grains_at_the_point_of_impact() {
    // speed 26 is above the trigger of 25, speed 25 is not
    let (_, _, grain) = resolve(moving(0, 0, 5, 26, 0), moving(8, 0, 5, 0, 0));
    let grain = grain.unwrap();
    assert_eq!(grain.pos, Vector::new(4, 0));
    assert_eq!(grain.spawn_radius, 1);
    assert_eq!(grain.particles, 1..5);
    assert_eq!(grain.impact_vel, Vector::new(0, 0));
    let (_, _, grain) = resolve(moving(0, 0, 5, 25, 0), moving(8, 0, 5, 0, 0));
    assert!(grain.is_none());
    // one step of velocity above the trigger is enough
    let (_, _, grain) = resolve(body(0, 0, 5, 25 * SUBUNITS + 1, 0), moving(8, 0, 5, 0, 0));
    assert!(grain.is_some());
    let (_, _, grain) = resolve(moving(0, 0, 5, 0, 0), moving(8, 0, 5, 0, -26));
    assert!(grain.is_some());
    // 15 * 15 + 20 * 20 = 625 is not above the trigger, one step more is
    let (_, _, grain) = resolve(moving(0, 0, 5, 15, 20), moving(8, 0, 5, 0, 0));
    assert!(grain.is_none());
    let (_, _, grain) =
        resolve(body(0, 0, 5, 15 * SUBUNITS, 20 * SUBUNITS + 1), moving(8, 0, 5, 0, 0));
    assert!(grain.is_some());
    // one body inside the other: contact, but no point of impact
    let (_, _, grain) = resolve(moving(0, 0, 20, 100, 0), moving(1, 0, 2, 0, 0));
    assert!(grain.is_none());
}

#[test]
fn resolved_bodies_no_longer_touch() {
    let mut rng = StdRng::seed_from_u64(7);
    let mut contacts = 0;
    for _ in 0..20_000 {
        let a = body(
            rng.gen_range(-60..60),
            rng.gen_range(-60..60),
            rng.gen_range(1..90),
            rng.gen_range(-400..400),
            rng.gen_range(-400..400),
        );
        let b = body(
            rng.gen_range(-60..60),
            rng.gen_range(-60..60),
            rng.gen_range(1..90),
            rng.gen_range(-400..400),
            rng.gen_range(-400..400),
        );
        if a.pos == b.pos || !circles_touching(&a.pos, &a.bound, &b.pos, &b.bound) {
            continue;
        }
        contacts += 1;
        let (ra, rb, _) = resolve(a, b);
        assert_eq!(ra.pos, a.pos);
        assert_eq!(ra.bound, a.bound);
        assert_eq!(rb.bound, b.bound);
        assert!(!circles_touching(&ra.pos, &ra.bound, &rb.pos, &rb.bound));
        let sum = a.bound.0 + b.bound.0;
        let d2 = distance_squared(&ra.pos, &rb.pos);
        assert!(d2 >= sum * sum);
        // and the push is less than a unit on each axis beyond what is needed
        assert!(d2 < (sum + 2) * (sum + 2), "{:?} {:?}", a, b);
    }
    assert!(contacts > 5_000);
}

#[test]
fn collisions_create_no_energy() {
    let mut rng = StdRng::seed_from_u64(11);
    let mut contacts = 0;
    for _ in 0..20_000 {
        let a = body(
            rng.gen_range(-60..60),
            rng.gen_range(-60..60),
            rng.gen_range(1..90),
            rng.gen_range(-1000..1000),
            rng.gen_range(-1000..1000),
        );
        let b = body(
            rng.gen_range(-60..60),
            rng.gen_range(-60..60),
            rng.gen_range(1..90),
            rng.gen_range(-1000..1000),
            rng.gen_range(-1000..1000),
        );
        let (ra, rb, _) = resolve(a, b);
        if ra != a || rb != b {
            contacts += 1;
        }
        assert!(energy(&ra) + energy(&rb) <= energy(&a) + energy(&b), "{:?} {:?}", a, b);
    }
    assert!(contacts > 5_000);
}

#[test]
fn collision_loses_little_energy_at_speed() {
    // the exact result keeps 0.992 * 0.992 = 0.984 of the energy
    let a = body(0, 0, 40, 3000, -2000);
    let b = body(30, 40, 25, -1000, 500);
    let (ra, rb, _) = resolve(a, b);
    let before = (energy(&a) + energy(&b)) as f64;
    let after = (energy(&ra) + energy(&rb)) as f64;
    assert!(after <= before);
    assert!(after >= before * 0.98);
}

#[test]
fn collision_at_the_limits_of_reach() {
    let a = body(REACH, REACH, REACH, SPEED_REACH, -SPEED_REACH);
    let b = body(-REACH, -REACH, REACH, -SPEED_REACH, SPEED_REACH);
    let (ra, rb, _) = resolve(a, b);
    // centres 2965820 apart, radii 2097152 in sum: no contact
    assert_eq!((ra, rb), (a, b));
    let b = body(REACH - 1, REACH, REACH, -SPEED_REACH, SPEED_REACH);
    let (ra, rb, _) = resolve(a, b);
    assert_eq!(ra.pos, a.pos);
    assert_eq!(rb.pos, Vector::new(-REACH, REACH));
    assert_eq!(ra.vel, Velocity(Vector::new(-1_065_151_889, -1_065_151_889)));
    assert_eq!(rb.vel, Velocity(Vector::new(1_065_151_889, 1_065_151_889)));
    assert!(energy(&ra) + energy(&rb) <= energy(&a) + energy(&b));
}

#[test]
fn self_collision_resolves_each_pair_once_in_order() {
    // three bodies in a row, each touching the next
    let start = vec![moving(0, 0, 10, 30, 0), moving(15, 0, 10, 0, 0), moving(30, 0, 10, 0, 0)];
    let mut bodies = start.clone();
    let grains = self_collision_system(&mut bodies);
    // by hand: pairs (0, 1), (0, 2), (1, 2)
    let mut expected = start.clone();
    let mut log = Vec::new();
    for (i, j) in [(0usize, 1usize), (0, 2), (1, 2)] {
        let mut a = expected[i];
        let mut b = expected[j];
        if let Some(g) = resolve_contact(&mut a, &mut b) {
            log.push(g);
        }
        expected[i] = a;
        expected[j] = b;
    }
    assert_eq!(bodies, expected);
    assert_eq!(grains.len(), log.len());
    assert_eq!(bodies[0], body(0, 0, 10, 0, 0));
    assert_eq!(bodies[1], body(20, 0, 10, 0, 0));
    // 30 units a second, damped twice on its way through
    assert_eq!(bodies[2], body(40, 0, 10, 30_230, 0));
    assert_eq!(grains.len(), 2);
    assert_eq!(grains[0].pos, Vector::new(7, 0));
    assert_eq!(grains[1].pos, Vector::new(25, 0));
}

#[test]
fn self_collision_of_few_bodies() {
    let mut none: Vec<Collider> = Vec::new();
    assert!(self_collision_system(&mut none).is_empty());
    let mut one = vec![body(0, 0, 10, 500, 0)];
    assert!(self_collision_system(&mut one).is_empty());
    assert_eq!(one, vec![body(0, 0, 10, 500, 0)]);
}

#[test]
fn self_collision_never_creates_energy() {
    let mut rng = StdRng::seed_from_u64(3);
    for _ in 0..200 {
        let mut bodies: Vec<Collider> = (0..12)
            .map(|_| {
                body(
                    rng.gen_range(-100..100),
                    rng.gen_range(-100..100),
                    rng.gen_range(10..80),
                    rng.gen_range(-70..70),
                    rng.gen_range(-70..70),
                )
            })
            .collect();
        let before: i128 = bodies.iter().map(energy).sum();
        self_collision_system(&mut bodies);
        let after: i128 = bodies.iter().map(energy).sum();
        assert!(after <= before);
        assert_eq!(bodies.len(), 12);
    }
}

#[test]
fn elastic_collision_pairs_every_collider_with_every_victim() {
    let colliders = vec![moving(0, 0, 10, 30, 0), moving(0, 100, 10, 0, 0)];
    let victims =
        vec![moving(15, 0, 10, 0, 0), moving(0, 115, 10, 0, -50), moving(500, 500, 10, 1, 1)];
    let mut a = colliders.clone();
    let mut b = victims.clone();
    let grains = elastic_collision_system(&mut a, &mut b);
    let mut ea = colliders.clone();
    let mut eb = victims.clone();
    let mut log = 0;
    for i in 0..2 {
        for j in 0..3 {
            let mut x = ea[i];
            let mut y = eb[j];
            if resolve_contact(&mut x, &mut y).is_some() {
                log += 1;
            }
            ea[i] = x;
            eb[j] = y;
        }
    }
    assert_eq!(a, ea);
    assert_eq!(b, eb);
    assert_eq!(grains.len(), log);
    assert_eq!(a[0], body(0, 0, 10, 0, 0));
    assert_eq!(b[0], body(20, 0, 10, 30_474, 0));
    assert_eq!(a[1], body(0, 100, 10, 0, -50_790));
    assert_eq!(b[1], body(0, 120, 10, 0, 0));
    assert_eq!(b[2], moving(500, 500, 10, 1, 1));
    assert_eq!(grains.len(), 2);
}

#[test]
fn elastic_collision_with_an_empty_side() {
    let mut a = vec![body(0, 0, 10, 30, 0)];
    let mut none: Vec<Collider> = Vec::new();
    assert!(elastic_collision_system(&mut a, &mut none).is_empty());
    assert!(elastic_collision_system(&mut none, &mut a).is_empty());
    assert_eq!(a, vec![body(0, 0, 10, 30, 0)]);
}

#[test]
fn alive_ship_dies_of_every_collider_that_touches_it() {
    let ship = Ship { state: ShipState::Alive, timer: 0 };
    let hull = Circle { pos: Vector::new(0, 0), bound: Bounding(10) };
    let rocks = vec![
        body(100, 0, 30, -5, 0),
        body(0, 39, 30, 1, -20),
        body(5, 5, 30, 9, 9),
    ];
    let kills = kill_collision_system(&rocks, &ship, &hull);
    // the second and the third rock touch the ship: one kill for each, in order
    assert_eq!(kills.iter().map(|kill| kill.collider).collect::<Vec<_>>(), vec![1, 2]);
    assert_eq!(kills[0].explosion.pos, Vector::new(0, 0));
    assert_eq!(kills[0].explosion.spawn_radius, 10);
    assert_eq!(kills[0].explosion.particles, 150..200);
    assert_eq!(kills[0].explosion.impact_vel, Vector::new(1, -20));
    assert_eq!(kills[1].explosion.pos, Vector::new(0, 0));
    assert_eq!(kills[1].explosion.impact_vel, Vector::new(9, 9));
}

#[test]
fn ship_out_of_play_cannot_be_struck() {
    let hull = Circle { pos: Vector::new(0, 0), bound: Bounding(10) };
    let rocks = vec![body(5, 5, 30, 9, 9)];
    for state in [ShipState::Dead, ShipState::Spawning] {
        let ship = Ship { state, timer: 1_000 };
        assert!(kill_collision_system(&rocks, &ship, &hull).is_empty());
    }
    let ship = Ship { state: ShipState::Alive, timer: 0 };
    let far = vec![body(0, 40, 30, 0, -20), body(REACH + 5, 0, 30, 0, 0)];
    assert!(kill_collision_system(&far, &ship, &hull).is_empty());
    assert!(kill_collision_system(&Vec::new(), &ship, &hull).is_empty());
}

#[test]
fn resolver_agrees_with_the_formula_in_floating_point() {
    let mut rng = StdRng::seed_from_u64(21);
    let mut contacts = 0;
    for _ in 0..20_000 {
        let a = body(
            rng.gen_range(-60..60),
            rng.gen_range(-60..60),
            rng.gen_range(1..90),
            rng.gen_range(-400..400),
            rng.gen_range(-400..400),
        );
        let b = body(
            rng.gen_range(-60..60),
            rng.gen_range(-60..60),
            rng.gen_range(1..90),
            rng.gen_range(-400..400),
            rng.gen_range(-400..400),
        );
        if a.pos == b.pos || !circles_touching(&a.pos, &a.bound, &b.pos, &b.bound) {
            continue;
        }
        contacts += 1;
        let (ra, rb, _) = resolve(a, b);

        // the contact angle, and the velocities along and across it
        let angle = f64::atan2((b.pos.y - a.pos.y) as f64, (b.pos.x - a.pos.x) as f64);
        let (sin, cos) = angle.sin_cos();
        let along = |c: &Collider| c.vel.0.x as f64 * cos + c.vel.0.y as f64 * sin;
        let across = |c: &Collider| -(c.vel.0.x as f64) * sin + c.vel.0.y as f64 * cos;
        let m1 = std::f64::consts::PI * (a.bound.0 as f64).powi(2);
        let m2 = std::f64::consts::PI * (b.bound.0 as f64).powi(2);
        let v1 = ((m1 - m2) * along(&a) + 2.0 * m2 * along(&b)) / (m1 + m2);
        let v2 = (2.0 * m1 * along(&a) - (m1 - m2) * along(&b)) / (m1 + m2);
        let back = |p: f64, q: f64| ((p * cos - q * sin) * 0.992, (p * sin + q * cos) * 0.992);
        let (ax, ay) = back(v1, across(&a));
        let (bx, by) = back(v2, across(&b));
        assert!((ra.vel.0.x as f64 - ax).abs() < 1.0001, "{:?} {:?}", a, b);
        assert!((ra.vel.0.y as f64 - ay).abs() < 1.0001, "{:?} {:?}", a, b);
        assert!((rb.vel.0.x as f64 - bx).abs() < 1.0001, "{:?} {:?}", a, b);
        assert!((rb.vel.0.y as f64 - by).abs() < 1.0001, "{:?} {:?}", a, b);

        // the second body ends where the radii put it, along the contact angle
        let reach = (a.bound.0 + b.bound.0) as f64;
        let px = a.pos.x as f64 + reach * cos;
        let py = a.pos.y as f64 + reach * sin;
        assert!((rb.pos.x as f64 - px).abs() < 1.0001, "{:?} {:?}", a, b);
        assert!((rb.pos.y as f64 - py).abs() < 1.0001, "{:?} {:?}", a, b);
    }
    assert!(contacts > 5_000);
}

#[test]
fn light_body_hitting_a_heavy_one_keeps_energy_not_speed() {
    // a body of mass 100 runs into a resting body of mass 400
    let a = moving(0, 0, 10, 100, 0);
    let b = moving(15, 0, 20, 0, 0);
    let (ra, rb, _) = resolve(a, b);
    assert_eq!(ra, body(0, 0, 10, -60_948, 0));
    assert_eq!(rb, body(30, 0, 20, 40_632, 0));
    assert!(close(ra.vel.0.x, -59.52) && close(rb.vel.0.x, 39.68));
    // the masses times the speeds add up to more than before
    let momentum = |c: &Collider| c.bound.0 * c.bound.0 * c.vel.0.x.abs();
    assert_eq!(momentum(&a) + momentum(&b), 10_240_000);
    assert_eq!(momentum(&ra) + momentum(&rb), 22_347_600);
    // the energy does not
    assert_eq!(energy(&a) + energy(&b), 1_048_576_000_000);
    assert_eq!(energy(&ra) + energy(&rb), 1_031_849_640_000);
}

#[test]
fn elastic_collision_never_creates_energy() {
    let mut rng = StdRng::seed_from_u64(13);
    for _ in 0..200 {
        let mut make = |n: usize| -> Vec<Collider> {
            (0..n)
                .map(|_| {
                    body(
                        rng.gen_range(-100..100),
                        rng.gen_range(-100..100),
                        rng.gen_range(1..80),
                        rng.gen_range(-400..400),
                        rng.gen_range(-400..400),
                    )
                })
                .collect()
        };
        let mut first = make(6);
        let mut second = make(9);
        let before: i128 = first.iter().chain(second.iter()).map(energy).sum();
        elastic_collision_system(&mut first, &mut second);
        let after: i128 = first.iter().chain(second.iter()).map(energy).sum();
        assert!(after <= before);
        assert_eq!((first.len(), second.len()), (6, 9));
    }
}

#[test]
fn slow_body_is_not_stopped_by_a_contact() {
    // one unit per second against a resting body of the same mass: handed over, damped
    let (a, b, _) = resolve(moving(0, 0, 10, 1, 0), moving(15, 0, 10, 0, 0));
    assert_eq!(a.vel, Velocity(Vector::new(0, 0)));
    assert_eq!(b.vel, Velocity(Vector::new(1_015, 0)));
    assert!(close(b.vel.0.x, 0.992));
    // only a single step of velocity is lost to rounding
    let (_, b, _) = resolve(body(0, 0, 10, 1, 0), moving(15, 0, 10, 0, 0));
    assert_eq!(b.vel, Velocity(Vector::new(0, 0)));
}

#[test]
fn self_collision_of_two_bodies_of_radius_three_and_two() {
    let mut bodies = vec![moving(10, 0, 3, 1, 0), moving(14, 0, 2, -1, 0)];
    self_collision_system(&mut bodies);
    assert_eq!(bodies[0].pos, Vector::new(10, 0));
    assert_eq!(bodies[1].pos, Vector::new(15, 0));
    // -3 / 13 * 0.992 and 23 / 13 * 0.992
    assert!(close(bodies[0].vel.0.x, -0.2289));
    assert!(close(bodies[1].vel.0.x, 1.7551));
    assert_eq!(bodies[0].vel, Velocity(Vector::new(-234, 0)));
    assert_eq!(bodies[1].vel, Velocity(Vector::new(1_797, 0)));
}

#[test]
fn elastic_collision_of_two_equal_bodies_head_on() {
    let mut first = vec![moving(10, 0, 10, 10, 0)];
    let mut second = vec![moving(25, 0, 10, -10, 0)];
    elastic_collision_system(&mut first, &mut second);
    assert_eq!(first[0].pos, Vector::new(10, 0));
    assert_eq!(second[0].pos, Vector::new(30, 0));
    // equal masses swap, then the damping
    assert!(close(first[0].vel.0.x, -9.92));
    assert!(close(second[0].vel.0.x, 9.92));
    assert_eq!(first[0].vel.0.y, 0);
    assert_eq!(second[0].vel.0.y, 0);
}
