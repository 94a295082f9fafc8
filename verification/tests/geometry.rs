use asteroids::collision::{
    circle_impact_position, circles_touching, distance_to_move, Bounding,
};
use asteroids::geometry::{distance_between, distance_squared, integer_sqrt, Vector, REACH};

fn v(x: i64, y: i64) -> Vector {
    Vector::new(x, y)
}

#[test]
fn distance_of_a_three_four_five_triangle() {
    assert_eq!(distance_squared(&v(0, 0), &v(3, 4)), 25);
    assert_eq!(distance_between(&v(0, 0), &v(3, 4)), 5);
    assert_eq!(distance_between(&v(-3, -4), &v(0, 0)), 5);
}

#[test]
fn distance_is_rounded_down() {
    // sqrt(2) = 1.41, sqrt(8) = 2.83, sqrt(99) = 9.95
    assert_eq!(distance_between(&v(0, 0), &v(1, 1)), 1);
    assert_eq!(distance_between(&v(0, 0), &v(2, 2)), 2);
    assert_eq!(integer_sqrt(99), 9);
    assert_eq!(integer_sqrt(100), 10);
    assert_eq!(integer_sqrt(101), 10);
    assert_eq!(integer_sqrt(0), 0);
    assert_eq!(integer_sqrt(1), 1);
}

#[test]
fn distance_at_the_limits_of_reach() {
    let a = v(-REACH, -REACH);
    let b = v(REACH, REACH);
    assert_eq!(distance_squared(&a, &b), 8 * REACH * REACH);
    // 2 * REACH * sqrt(2) = 2965820.8
    assert_eq!(distance_between(&a, &b), 2_965_820);
    assert!(a.within_reach());
    assert!(!v(REACH + 1, 0).within_reach());
}

#[test]
fn integer_sqrt_agrees_with_floating_point() {
    for n in 0..5000i64 {
        let expected = (n as f64).sqrt().floor() as i64;
        assert_eq!(integer_sqrt(n), expected, "n = {}", n);
    }
}

#[test]
fn touching_is_strict() {
    let r5 = Bounding(5);
    // centres 10 apart, radii 5 and 5: exactly tangent, not touching
    assert!(!circles_touching(&v(0, 0), &r5, &v(10, 0), &r5));
    assert!(circles_touching(&v(0, 0), &r5, &v(9, 0), &r5));
    assert!(!circles_touching(&v(0, 0), &r5, &v(11, 0), &r5));
    // 6-8-10 triangle: tangent on a diagonal
    assert!(!circles_touching(&v(0, 0), &r5, &v(6, 8), &r5));
    assert!(circles_touching(&v(0, 0), &r5, &v(6, 7), &r5));
}

#[test]
fn touching_is_symmetric() {
    let radii = [1i64, 2, 5, 13];
    for ax in -6..6i64 {
        for ay in -6..6i64 {
            for bx in -6..6i64 {
                for ra in radii {
                    for rb in radii {
                        let a = v(ax, ay);
                        let b = v(bx, 3);
                        let one = circles_touching(&a, &Bounding(ra), &b, &Bounding(rb));
                        let other = circles_touching(&b, &Bounding(rb), &a, &Bounding(ra));
                        assert_eq!(one, other);
                    }
                }
            }
        }
    }
}

#[test]
fn touching_agrees_with_floating_point() {
    for bx in -40..40i64 {
        for by in -40..40i64 {
            let d = ((bx * bx + by * by) as f32).sqrt();
            let expected = d < 7.0 + 20.0;
            let got = circles_touching(&v(0, 0), &Bounding(7), &v(bx, by), &Bounding(20));
            assert_eq!(got, expected, "b = ({}, {})", bx, by);
        }
    }
}

#[test]
fn penetration_is_sum_of_radii_less_distance() {
    let r5 = Bounding(5);
    assert_eq!(distance_to_move(&v(0, 0), &r5, &v(6, 0), &r5), 4);
    assert_eq!(distance_to_move(&v(0, 0), &r5, &v(10, 0), &r5), 0);
    // apart: negative
    assert_eq!(distance_to_move(&v(0, 0), &r5, &v(13, 0), &r5), -3);
    // same centre
    assert_eq!(distance_to_move(&v(2, 2), &r5, &v(2, 2), &Bounding(3)), 8);
}

#[test]
fn penetration_is_rounded_away_from_zero() {
    let r2 = Bounding(2);
    // centres 4.24 apart, radii 4 in sum: apart by a quarter of a unit
    assert_eq!(distance_to_move(&v(0, 0), &r2, &v(3, 3), &r2), -1);
    // centres 2.83 apart: an overlap of 1.17 counts as 2
    assert_eq!(distance_to_move(&v(0, 0), &r2, &v(2, 2), &r2), 2);
    // radii 3 and 2, centres 4 apart
    assert_eq!(distance_to_move(&v(0, 0), &Bounding(3), &v(4, 0), &r2), 1);
    // the sign tells touching, tangent and apart from each other
    for bx in -12..12i64 {
        for by in -12..12i64 {
            let depth = distance_to_move(&v(0, 0), &Bounding(3), &v(bx, by), &Bounding(4));
            let d2 = bx * bx + by * by;
            assert_eq!(depth > 0, d2 < 49);
            assert_eq!(depth == 0, d2 == 49);
            assert_eq!(depth < 0, d2 > 49);
            assert_eq!(depth > 0, circles_touching(&v(0, 0), &Bounding(3), &v(bx, by), &Bounding(4)));
            let exact = 7.0 - (d2 as f64).sqrt();
            assert!((depth as f64 - exact).abs() < 1.0);
            assert!(depth as f64 * exact >= 0.0);
        }
    }
}

#[test]
fn impact_position_is_the_middle_of_the_crossing_points() {
    // two circles of radius 5, centres 8 apart: they cross at (4, 3) and (4, -3)
    let p = circle_impact_position(&v(0, 0), &v(8, 0), &Bounding(5), &Bounding(5));
    assert_eq!(p, Some(v(4, 0)));
    // radii 13 and 15, centres 14 apart: crossing at (5, 12) and (5, -12)
    let p = circle_impact_position(&v(0, 0), &v(14, 0), &Bounding(13), &Bounding(15));
    assert_eq!(p, Some(v(5, 0)));
    // the same pair seen from the other side and off the origin
    let p = circle_impact_position(&v(114, 7), &v(100, 7), &Bounding(15), &Bounding(13));
    assert_eq!(p, Some(v(105, 7)));
}

#[test]
fn impact_position_of_tangent_circles_is_the_point_of_tangency() {
    let p = circle_impact_position(&v(0, 0), &v(10, 0), &Bounding(4), &Bounding(6));
    assert_eq!(p, Some(v(4, 0)));
    // tangent from inside: radius 10 around the origin, radius 4 around (6, 0)
    let p = circle_impact_position(&v(0, 0), &v(6, 0), &Bounding(10), &Bounding(4));
    assert_eq!(p, Some(v(10, 0)));
}

#[test]
fn impact_position_of_degenerate_pairs_is_none() {
    // the same centre
    assert_eq!(circle_impact_position(&v(3, 3), &v(3, 3), &Bounding(5), &Bounding(5)), None);
    assert_eq!(circle_impact_position(&v(3, 3), &v(3, 3), &Bounding(5), &Bounding(2)), None);
    // one inside the other
    assert_eq!(circle_impact_position(&v(0, 0), &v(1, 0), &Bounding(10), &Bounding(2)), None);
    assert_eq!(circle_impact_position(&v(0, 0), &v(1, 0), &Bounding(2), &Bounding(10)), None);
    // apart
    assert_eq!(circle_impact_position(&v(0, 0), &v(20, 0), &Bounding(5), &Bounding(5)), None);
}

#[test]
fn impact_position_rounds_toward_the_first_centre() {
    // radii 5 and 5, centres 7 apart: the chord crosses at 3.5
    let p = circle_impact_position(&v(0, 0), &v(7, 0), &Bounding(5), &Bounding(5));
    assert_eq!(p, Some(v(3, 0)));
    let p = circle_impact_position(&v(0, 0), &v(-7, 0), &Bounding(5), &Bounding(5));
    assert_eq!(p, Some(v(-3, 0)));
}

#[test]
fn bounding_refuses_bad_radii() {
    assert_eq!(Bounding::new(0), None);
    assert_eq!(Bounding::new(-3), None);
    assert_eq!(Bounding::new(REACH + 1), None);
    assert_eq!(Bounding::new(1), Some(Bounding(1)));
    assert_eq!(Bounding::new(REACH), Some(Bounding(REACH)));
    assert!(Bounding(70).is_valid());
    assert!(!Bounding(0).is_valid());
}

#[test]
fn impact_position_agrees_with_floating_point() {
    let mut checked = 0;
    for bx in -30..30i64 {
        for by in -30..30i64 {
            for (ra, rb) in [(5i64, 5i64), (10, 20), (25, 7), (1, 3)] {
                let a = v(2, -3);
                let b = v(2 + bx, -3 + by);
                let got = circle_impact_position(&a, &b, &Bounding(ra), &Bounding(rb));
                let d = ((bx * bx + by * by) as f64).sqrt();
                let apart = d > (ra + rb) as f64;
                let inside = d < (ra - rb).abs() as f64;
                if d == 0.0 || apart || inside {
                    assert_eq!(got, None);
                    continue;
                }
                // the crossing points lie `h` to either side of the line of
                // centres, `along` from the first centre; their middle is on the line
                let along = (d * d + (ra * ra) as f64 - (rb * rb) as f64) / (2.0 * d);
                let x = a.x as f64 + along * bx as f64 / d;
                let y = a.y as f64 + along * by as f64 / d;
                let p = got.unwrap();
                assert!((p.x as f64 - x).abs() < 1.0001, "b = ({}, {})", bx, by);
                assert!((p.y as f64 - y).abs() < 1.0001, "b = ({}, {})", bx, by);
                checked += 1;
            }
        }
    }
    assert!(checked > 1000);
}
