use asteroids::geometry::Vector;
use asteroids::movement::{Velocity, SPEED_REACH, SUBUNITS};

#[test]
fn velocity_counts_steps_of_a_unit_per_second() {
    assert_eq!(SUBUNITS, 1024);
    assert_eq!(SPEED_REACH, 1_048_576 * 1024);
    assert_eq!(Velocity::from_units(1, 0), Velocity(Vector::new(1024, 0)));
    assert_eq!(Velocity::from_units(-50, 400), Velocity(Vector::new(-51_200, 409_600)));
    assert_eq!(
        Velocity::from_units(1_048_576, -1_048_576),
        Velocity(Vector::new(SPEED_REACH, -SPEED_REACH))
    );
}

#[test]
fn velocity_within_reach() {
    assert!(Velocity(Vector::new(0, 0)).within_reach());
    assert!(Velocity(Vector::new(SPEED_REACH, -SPEED_REACH)).within_reach());
    assert!(!Velocity(Vector::new(SPEED_REACH + 1, 0)).within_reach());
    assert!(!Velocity(Vector::new(0, -SPEED_REACH - 1)).within_reach());
}
