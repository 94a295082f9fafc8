use asteroids::boundary::{
    boundary_removal_system, boundary_wrapping_system, Circle, Frame, FRAME_END_X, FRAME_END_Y,
    FRAME_START_X, FRAME_START_Y,
};
use asteroids::collision::Bounding;
use asteroids::geometry::{Vector, REACH};

fn circle(x: i64, y: i64, r: i64) -> Circle {
    Circle { pos: Vector::new(x, y), bound: Bounding(r) }
}

#[test]
fn game_frame_has_the_documented_edges() {
    let f = Frame::game();
    assert_eq!((f.start_x, f.end_x, f.start_y, f.end_y), (-512, 264, -252, 252));
    assert_eq!((FRAME_START_X, FRAME_END_X, FRAME_START_Y, FRAME_END_Y), (-512, 264, -252, 252));
}

#[test]
fn frame_refuses_edges_out_of_order() {
    assert_eq!(Frame::new(10, -10, 0, 5), None);
    assert_eq!(Frame::new(0, 5, 10, -10), None);
    assert_eq!(Frame::new(-REACH - 1, 5, 0, 1), None);
    assert_eq!(Frame::new(0, 5, 0, REACH + 1), None);
    assert_eq!(
        Frame::new(-1, 1, -2, 2),
        Some(Frame { start_x: -1, end_x: 1, start_y: -2, end_y: 2 })
    );
    assert!(Frame::new(3, 3, 4, 4).is_some());
}

#[test]
fn wrap_moves_to_the_opposite_edge() {
    let f = Frame::game();
    let r = Bounding(10);
    // beyond the right edge by more than the radius
    assert_eq!(f.wrap(&Vector::new(275, 0), &r), Vector::new(-522, 0));
    // beyond the left edge
    assert_eq!(f.wrap(&Vector::new(-523, 0), &r), Vector::new(274, 0));
    // beyond the top and the bottom
    assert_eq!(f.wrap(&Vector::new(0, 263), &r), Vector::new(0, -262));
    assert_eq!(f.wrap(&Vector::new(0, -263), &r), Vector::new(0, 262));
    // beyond a corner: both coordinates wrap
    assert_eq!(f.wrap(&Vector::new(300, -300), &r), Vector::new(-522, 262));
}

#[test]
fn wrap_leaves_a_body_exactly_its_radius_outside() {
    let f = Frame::game();
    let r = Bounding(10);
    assert_eq!(f.wrap(&Vector::new(274, 0), &r), Vector::new(274, 0));
    assert_eq!(f.wrap(&Vector::new(-522, 0), &r), Vector::new(-522, 0));
    assert_eq!(f.wrap(&Vector::new(0, 262), &r), Vector::new(0, 262));
    assert_eq!(f.wrap(&Vector::new(0, -262), &r), Vector::new(0, -262));
    assert!(!f.has_left(&Vector::new(274, 262), &r));
    assert!(f.has_left(&Vector::new(275, 0), &r));
}

#[test]
fn wrap_twice_is_wrap_once() {
    let f = Frame::new(-20, 30, -10, 15).unwrap();
    for r in [0i64, 1, 4, 25] {
        for x in -80..80i64 {
            for y in -60..60i64 {
                let once = f.wrap(&Vector::new(x, y), &Bounding(r));
                let twice = f.wrap(&once, &Bounding(r));
                assert_eq!(once, twice);
                assert!(!f.has_left(&once, &Bounding(r)));
            }
        }
    }
}

#[test]
fn removal_system_marks_the_bodies_that_left() {
    let f = Frame::game();
    let bodies = vec![
        circle(0, 0, 1),
        circle(266, 0, 1),
        circle(265, 0, 1),
        circle(-514, 0, 1),
        circle(0, 254, 1),
        circle(0, -254, 1),
        circle(0, -253, 1),
    ];
    let gone = boundary_removal_system(&bodies, &f);
    assert_eq!(gone, vec![false, true, false, true, true, true, false]);
    assert_eq!(boundary_removal_system(&Vec::new(), &f), Vec::<bool>::new());
}

#[test]
fn wrapping_system_wraps_every_body() {
    let f = Frame::game();
    let mut bodies = vec![circle(0, 0, 70), circle(400, 0, 70), circle(-600, 400, 20)];
    boundary_wrapping_system(&mut bodies, &f);
    assert_eq!(bodies, vec![circle(0, 0, 70), circle(-582, 0, 70), circle(284, -272, 20)]);
    let again = bodies.clone();
    boundary_wrapping_system(&mut bodies, &f);
    assert_eq!(bodies, again);
}
