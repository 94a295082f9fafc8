//! Circle contact between bodies: detection, depth and the point of impact,
//! and the passes that resolve the contacts of all bodies.

use vstd::prelude::*;
use core::ops::Range;
use crate::boundary::Circle;
use crate::events::{GrainParticleSpawnEvent, PlayerDeathEvent};
use crate::geometry::{
    ceil_sqrt, distance_squared, distance_squared_spec, div_toward_zero, floor_sqrt, integer_sqrt,
    lemma_product_bound, lemma_reach_squares, lemma_square_bound, lemma_square_monotone, Vector,
    REACH,
};
use crate::movement::Velocity;
use crate::resolver::{impact_grain, lemma_collision_creates_no_energy, resolve_contact, resolved};
use crate::ship::Ship;

verus! {

/// The radius of a body's collision circle. It doubles as the body's mass
/// proxy: mass is proportional to the square of the radius.
#[derive(Clone, Copy, Debug, PartialEq, Eq, Structural)]
pub struct Bounding(pub i64);

impl Bounding {
    /// A collidable body has a positive radius, at most `REACH`.
    pub open spec fn wf(self) -> bool {
        0 < self.0 <= REACH
    }

    /// Builds a radius, refusing one that is not positive or is beyond `REACH`.
    pub fn new(radius: i64) -> (r: Option<Bounding>)
        ensures
            r == (if 0 < radius <= REACH {
                Some(Bounding(radius))
            } else {
                None
            }),
    {
        if 0 < radius && radius <= REACH {
            Some(Bounding(radius))
        } else {
            None
        }
    }

    /// Tells whether the radius is well formed.
    pub fn is_valid(&self) -> (r: bool)
        ensures
            r == self.wf(),
    {
        0 < self.0 && self.0 <= REACH
    }

    /// The mass proxy: the square of the radius. A disc weighs as much as its
    /// area, and the factor that turns the squared radius into the area
    /// cancels wherever two masses are compared.
    pub open spec fn mass(self) -> int {
        self.0 * self.0
    }
}

/// Two circles touch when the distance between their centres is strictly
/// less than the sum of their radii. Circles that are exactly tangent do not
/// touch.
pub open spec fn touching(a: Vector, ar: Bounding, b: Vector, br: Bounding) -> bool {
    0 < ar.0 + br.0 && distance_squared_spec(a, b) < (ar.0 + br.0) * (ar.0 + br.0)
}

/// The depth by which two circles overlap: the sum of the radii less the
/// distance between the centres, in whole units rounded away from zero. The
/// distance is rounded down where the circles overlap and up where they are
/// apart, so that the depth is positive exactly when the circles touch, zero
/// exactly when they are tangent, and negative exactly when they are apart.
pub open spec fn penetration(a: Vector, ar: Bounding, b: Vector, br: Bounding) -> int {
    let d2 = distance_squared_spec(a, b);
    let sum = ar.0 + br.0;
    if d2 > sum * sum {
        sum - ceil_sqrt(d2)
    } else {
        sum - floor_sqrt(d2)
    }
}

/// Contact is symmetric: whether two circles touch does not depend on the
/// order in which they are given.
pub proof fn lemma_touching_symmetric(a: Vector, ar: Bounding, b: Vector, br: Bounding)
    ensures
        touching(a, ar, b, br) == touching(b, br, a, ar),
        distance_squared_spec(a, b) == distance_squared_spec(b, a),
{
    assert(distance_squared_spec(a, b) == distance_squared_spec(b, a)) by (nonlinear_arith)
        requires
            distance_squared_spec(a, b) == (b.x - a.x) * (b.x - a.x) + (b.y - a.y) * (b.y - a.y),
            distance_squared_spec(b, a) == (a.x - b.x) * (a.x - b.x) + (a.y - b.y) * (a.y - b.y),
    ;
    assert((ar.0 + br.0) * (ar.0 + br.0) == (br.0 + ar.0) * (br.0 + ar.0));
}

/// Tells whether two circles touch.
pub fn circles_touching(a: &Vector, ar: &Bounding, b: &Vector, br: &Bounding) -> (r: bool)
    requires
        a.in_reach(),
        b.in_reach(),
        ar.wf(),
        br.wf(),
    ensures
        r == touching(*a, *ar, *b, *br),
{
    let reach: i64 = ar.0 + br.0;
    proof {
        lemma_reach_squares();
        lemma_square_bound(reach as int, 2 * REACH);
    }
    distance_squared(a, b) < reach * reach
}

/// The depth by which the circle at `b` has to move to end the overlap.
pub fn distance_to_move(a: &Vector, ar: &Bounding, b: &Vector, br: &Bounding) -> (r: i64)
    requires
        a.in_reach(),
        b.in_reach(),
        ar.wf(),
        br.wf(),
    ensures
        r == penetration(*a, *ar, *b, *br),
        r > 0 <==> touching(*a, *ar, *b, *br),
        r < 0 <==> distance_squared_spec(*a, *b) > (ar.0 + br.0) * (ar.0 + br.0),
        r == 0 <==> distance_squared_spec(*a, *b) == (ar.0 + br.0) * (ar.0 + br.0),
{
    let d2 = distance_squared(a, b);
    let sum: i64 = ar.0 + br.0;
    proof {
        lemma_reach_squares();
        lemma_square_bound(sum as int, 2 * REACH);
    }
    if d2 > sum * sum {
        // apart: the least whole number that is no less than the distance
        let up = integer_sqrt(d2 - 1) + 1;
        proof {
            lemma_square_monotone(sum as int, up as int);
        }
        sum - up
    } else {
        let down = integer_sqrt(d2);
        proof {
            lemma_square_monotone(down as int, sum as int);
            lemma_square_monotone(sum as int, down + 1);
        }
        sum - down
    }
}

/// The point of impact of two circles: the midpoint of the two points in
/// which their boundaries cross. It lies on the line of centres, where the
/// common chord crosses it, `(d * d + ar * ar - br * br) / (2 * d)` from the
/// centre `a` for centres `d` apart. Circles with a common centre, circles
/// that are apart, and circles of which one lies inside the other have no
/// point of impact. Each coordinate is rounded toward `a`.
pub open spec fn impact_position(a: Vector, ar: Bounding, b: Vector, br: Bounding) -> Option<
    Vector,
> {
    let d2 = distance_squared_spec(a, b);
    let sum = ar.0 + br.0;
    let diff = ar.0 - br.0;
    if d2 == 0 || d2 > sum * sum || d2 < diff * diff {
        None
    } else {
        let lever = d2 + ar.0 * ar.0 - br.0 * br.0;
        Some(
            Vector {
                x: (a.x + div_toward_zero((b.x - a.x) * lever, 2 * d2)) as i64,
                y: (a.y + div_toward_zero((b.y - a.y) * lever, 2 * d2)) as i64,
            },
        )
    }
}

/// An offset times the lever, over twice the squared distance, is at most
/// the lever in magnitude.
proof fn lemma_lever_bound(dv: int, other: int, lever: int, d2: int, limit: int)
    requires
        d2 == dv * dv + other * other,
        0 < d2,
        -limit <= lever <= limit,
    ensures
        -(d2 * limit) <= dv * lever <= d2 * limit,
        -limit <= div_toward_zero(dv * lever, 2 * d2) <= limit,
{
    assert(-d2 <= dv <= d2) by (nonlinear_arith)
        requires
            d2 == dv * dv + other * other,
    ;
    lemma_product_bound(dv, lever, d2, limit);
    let n = dv * lever;
    let den = 2 * d2;
    if n >= 0 {
        assert(0 <= n / den <= limit) by (nonlinear_arith)
            requires
                0 <= n <= d2 * limit,
                den == 2 * d2,
                0 < d2,
        ;
    } else {
        let neg = -n;
        assert(0 <= neg / den <= limit) by (nonlinear_arith)
            requires
                0 <= neg <= d2 * limit,
                den == 2 * d2,
                0 < d2,
        ;
    }
}

/// Finds the point of impact of two circles, if they have one.
pub fn circle_impact_position(a: &Vector, b: &Vector, ar: &Bounding, br: &Bounding) -> (r: Option<
    Vector,
>)
    requires
        a.in_reach(),
        b.in_reach(),
        ar.wf(),
        br.wf(),
    ensures
        r == impact_position(*a, *ar, *b, *br),
{
    let d2 = distance_squared(a, b);
    let sum: i64 = ar.0 + br.0;
    let diff: i64 = ar.0 - br.0;
    proof {
        lemma_reach_squares();
        lemma_square_bound(sum as int, 2 * REACH);
        lemma_square_bound(diff as int, 2 * REACH);
        lemma_square_bound(ar.0 as int, REACH as int);
        lemma_square_bound(br.0 as int, REACH as int);
    }
    if d2 == 0 || d2 > sum * sum || d2 < diff * diff {
        return None;
    }
    let lever: i64 = d2 + ar.0 * ar.0 - br.0 * br.0;
    let dx: i64 = b.x - a.x;
    let dy: i64 = b.y - a.y;
    proof {
        let limit = 16 * REACH * REACH;
        lemma_lever_bound(dx as int, dy as int, lever as int, d2 as int, limit);
        lemma_lever_bound(dy as int, dx as int, lever as int, d2 as int, limit);
        assert(d2 * limit <= (8 * REACH * REACH) * limit) by (nonlinear_arith)
            requires
                0 <= d2 <= 8 * REACH * REACH,
                0 <= limit,
        ;
        assert((8 * REACH * REACH) * (16 * REACH * REACH) == 0x8_0000_0000_0000_0000_0000_0)
            by (nonlinear_arith)
            requires
                REACH == 1_048_576,
        ;
    }
    let ox: i128 = ((dx as i128) * (lever as i128)) / (2 * (d2 as i128));
    let oy: i128 = ((dy as i128) * (lever as i128)) / (2 * (d2 as i128));
    Some(Vector { x: a.x + ox as i64, y: a.y + oy as i64 })
}

/// A body that takes part in elastic collisions.
#[derive(Clone, Copy, Debug, PartialEq, Eq, Structural)]
pub struct Collider {
    pub pos: Vector,
    pub bound: Bounding,
    pub vel: Velocity,
}

impl Collider {
    /// Position and radius are within `REACH`, the radius is positive, and
    /// the velocity is within `SPEED_REACH`.
    pub open spec fn wf(self) -> bool {
        &&& self.pos.in_reach()
        &&& self.bound.wf()
        &&& self.vel.in_reach()
    }

    /// Tells whether the body is well formed.
    pub fn is_valid(&self) -> (r: bool)
        ensures
            r == self.wf(),
    {
        self.pos.within_reach() && self.bound.is_valid() && self.vel.within_reach()
    }

    /// The kinetic energy of the body, up to a constant factor: its mass
    /// proxy times the square of its speed.
    pub open spec fn energy(self) -> int {
        self.bound.mass() * self.vel.0.norm_squared()
    }
}

/// A set of bodies in the course of a pass of the resolver, with the grains
/// thrown so far.
pub struct Field {
    pub bodies: Seq<Collider>,
    pub grains: Seq<GrainParticleSpawnEvent>,
}

/// The field after the pair of the bodies `i` and `j` has been resolved.
pub open spec fn collide_pair(f: Field, i: int, j: int) -> Field {
    let pair = resolved(f.bodies[i], f.bodies[j]);
    Field {
        bodies: f.bodies.update(i, pair.0).update(j, pair.1),
        grains: match impact_grain(f.bodies[i], f.bodies[j]) {
            Some(g) => f.grains.push(g),
            None => f.grains,
        },
    }
}

/// The field after body `i` has been paired with each body from `i + 1` up
/// to `upto`, in order.
pub open spec fn collide_row(f: Field, i: int, upto: int) -> Field
    decreases upto - i,
{
    if upto <= i + 1 {
        f
    } else {
        collide_pair(collide_row(f, i, upto - 1), i, upto - 1)
    }
}

/// The field after each of the first `rows` bodies has been paired with all
/// the bodies after it. With `rows` the number of bodies, every pair of two
/// bodies has been resolved exactly once.
pub open spec fn collide_rows(f: Field, rows: int) -> Field
    decreases rows,
{
    if rows <= 0 {
        f
    } else {
        collide_row(collide_rows(f, rows - 1), rows - 1, f.bodies.len() as int)
    }
}

/// A row of pairs keeps the number of bodies.
pub proof fn lemma_collide_row_len(f: Field, i: int, upto: int)
    requires
        0 <= i,
        upto <= f.bodies.len(),
    ensures
        collide_row(f, i, upto).bodies.len() == f.bodies.len(),
    decreases upto - i,
{
    if upto > i + 1 {
        lemma_collide_row_len(f, i, upto - 1);
    }
}

/// A pass keeps the number of bodies.
pub proof fn lemma_collide_rows_len(f: Field, rows: int)
    requires
        rows <= f.bodies.len(),
    ensures
        collide_rows(f, rows).bodies.len() == f.bodies.len(),
    decreases rows,
{
    if rows > 0 {
        lemma_collide_rows_len(f, rows - 1);
        lemma_collide_row_len(collide_rows(f, rows - 1), rows - 1, f.bodies.len() as int);
    }
}

/// The energy of all the bodies together.
pub open spec fn total_energy(bodies: Seq<Collider>) -> int
    decreases bodies.len(),
{
    if bodies.len() == 0 {
        0
    } else {
        total_energy(bodies.drop_last()) + bodies.last().energy()
    }
}

/// Replacing one body changes the total energy by the difference of the
/// two.
proof fn lemma_total_energy_update(bodies: Seq<Collider>, i: int, body: Collider)
    requires
        0 <= i < bodies.len(),
    ensures
        total_energy(bodies.update(i, body)) == total_energy(bodies) - bodies[i].energy()
            + body.energy(),
    decreases bodies.len(),
{
    let after = bodies.update(i, body);
    if i == bodies.len() - 1 {
        assert(after.drop_last() =~= bodies.drop_last());
    } else {
        assert(after.drop_last() =~= bodies.drop_last().update(i, body));
        lemma_total_energy_update(bodies.drop_last(), i, body);
    }
}

/// Resolving a pair of a field creates no energy.
proof fn lemma_pair_creates_no_energy(first: Seq<Collider>, i: int, second: Seq<Collider>, j: int)
    requires
        0 <= i < first.len(),
        0 <= j < second.len(),
    ensures
        total_energy(first.update(i, resolved(first[i], second[j]).0)) + total_energy(
            second.update(j, resolved(first[i], second[j]).1),
        ) <= total_energy(first) + total_energy(second),
{
    let a = first[i];
    let b = second[j];
    if a.wf() && b.wf() {
        lemma_collision_creates_no_energy(a, b);
    }
    lemma_total_energy_update(first, i, resolved(a, b).0);
    lemma_total_energy_update(second, j, resolved(a, b).1);
}

/// A row of pairs creates no energy.
proof fn lemma_row_creates_no_energy(f: Field, i: int, upto: int)
    requires
        0 <= i,
        upto <= f.bodies.len(),
    ensures
        total_energy(collide_row(f, i, upto).bodies) <= total_energy(f.bodies),
    decreases upto - i,
{
    if upto > i + 1 {
        lemma_row_creates_no_energy(f, i, upto - 1);
        lemma_collide_row_len(f, i, upto - 1);
        let g = collide_row(f, i, upto - 1);
        let j = upto - 1;
        let pair = resolved(g.bodies[i], g.bodies[j]);
        let half = g.bodies.update(i, pair.0);
        // one body after the other: the two are distinct, so the second
        // replacement starts from the first
        lemma_total_energy_update(g.bodies, i, pair.0);
        lemma_total_energy_update(half, j, pair.1);
        assert(half[j] == g.bodies[j]);
        if g.bodies[i].wf() && g.bodies[j].wf() {
            lemma_collision_creates_no_energy(g.bodies[i], g.bodies[j]);
        }
    }
}

/// Energy is never created: after a pass of the resolver over bodies of
/// one kind the bodies have, all together, no more energy than before.
pub proof fn lemma_pass_creates_no_energy(f: Field, rows: int)
    requires
        rows <= f.bodies.len(),
    ensures
        total_energy(collide_rows(f, rows).bodies) <= total_energy(f.bodies),
    decreases rows,
{
    if rows > 0 {
        lemma_pass_creates_no_energy(f, rows - 1);
        lemma_collide_rows_len(f, rows - 1);
        lemma_row_creates_no_energy(collide_rows(f, rows - 1), rows - 1, f.bodies.len() as int);
    }
}

/// One pass of the resolver over bodies of one kind. Every pair of two
/// bodies is resolved once, in the order `(0, 1)`, `(0, 2)`, ..., `(1, 2)`,
/// ...; a pair sees what the pairs before it have done. Returns the grains
/// of the contacts, in that order.
pub fn self_collision_system(colliders: &mut Vec<Collider>) -> (grains: Vec<
    GrainParticleSpawnEvent,
>)
    ensures
        final(colliders)@ == collide_rows(
            Field { bodies: old(colliders)@, grains: Seq::empty() },
            old(colliders).len() as int,
        ).bodies,
        grains@ == collide_rows(
            Field { bodies: old(colliders)@, grains: Seq::empty() },
            old(colliders).len() as int,
        ).grains,
{
    let ghost start = Field { bodies: colliders@, grains: Seq::empty() };
    let mut grains: Vec<GrainParticleSpawnEvent> = Vec::new();
    let n = colliders.len();
    let mut i: usize = 0;
    while i < n
        invariant
            0 <= i <= n,
            n == start.bodies.len(),
            colliders.len() == n,
            colliders@ == collide_rows(start, i as int).bodies,
            grains@ == collide_rows(start, i as int).grains,
        decreases n - i,
    {
        let ghost row = collide_rows(start, i as int);
        let mut j: usize = i + 1;
        while j < n
            invariant
                i < j <= n || j == i + 1,
                i < n,
                n == start.bodies.len(),
                colliders.len() == n,
                row.bodies.len() == n,
                colliders@ == collide_row(row, i as int, j as int).bodies,
                grains@ == collide_row(row, i as int, j as int).grains,
            decreases n - j,
        {
            let ghost f = collide_row(row, i as int, j as int);
            proof {
                lemma_collide_row_len(row, i as int, j as int);
            }
            let mut a = colliders[i];
            let mut b = colliders[j];
            let grain = resolve_contact(&mut a, &mut b);
            colliders.set(i, a);
            colliders.set(j, b);
            match grain {
                Some(g) => {
                    grains.push(g);
                },
                None => {},
            }
            proof {
                let g = collide_pair(f, i as int, j as int);
                assert(colliders@ =~= g.bodies);
                assert(grains@ =~= g.grains);
            }
            j = j + 1;
        }
        proof {
            lemma_collide_rows_len(start, i as int);
            assert(collide_row(row, i as int, n as int) == collide_rows(start, i + 1));
        }
        i = i + 1;
    }
    grains
}

/// Two sets of bodies in the course of a pass of the resolver, with the
/// grains thrown so far.
pub struct Arena {
    pub colliders: Seq<Collider>,
    pub victims: Seq<Collider>,
    pub grains: Seq<GrainParticleSpawnEvent>,
}

/// The arena after the pair of collider `i` and victim `j` has been
/// resolved: the collider keeps its place and the victim is pushed.
pub open spec fn clash_pair(s: Arena, i: int, j: int) -> Arena {
    let pair = resolved(s.colliders[i], s.victims[j]);
    Arena {
        colliders: s.colliders.update(i, pair.0),
        victims: s.victims.update(j, pair.1),
        grains: match impact_grain(s.colliders[i], s.victims[j]) {
            Some(g) => s.grains.push(g),
            None => s.grains,
        },
    }
}

/// The arena after collider `i` has been paired with each of the first
/// `upto` victims, in order.
pub open spec fn clash_row(s: Arena, i: int, upto: int) -> Arena
    decreases upto,
{
    if upto <= 0 {
        s
    } else {
        clash_pair(clash_row(s, i, upto - 1), i, upto - 1)
    }
}

/// The arena after each of the first `rows` colliders has been paired with
/// all the victims.
pub open spec fn clash_rows(s: Arena, rows: int) -> Arena
    decreases rows,
{
    if rows <= 0 {
        s
    } else {
        clash_row(clash_rows(s, rows - 1), rows - 1, s.victims.len() as int)
    }
}

/// A row of pairs keeps the numbers of colliders and of victims.
pub proof fn lemma_clash_row_len(s: Arena, i: int, upto: int)
    requires
        0 <= i < s.colliders.len(),
        upto <= s.victims.len(),
    ensures
        clash_row(s, i, upto).colliders.len() == s.colliders.len(),
        clash_row(s, i, upto).victims.len() == s.victims.len(),
    decreases upto,
{
    if upto > 0 {
        lemma_clash_row_len(s, i, upto - 1);
    }
}

/// A pass keeps the numbers of colliders and of victims.
pub proof fn lemma_clash_rows_len(s: Arena, rows: int)
    requires
        rows <= s.colliders.len(),
    ensures
        clash_rows(s, rows).colliders.len() == s.colliders.len(),
        clash_rows(s, rows).victims.len() == s.victims.len(),
    decreases rows,
{
    if rows > 0 {
        lemma_clash_rows_len(s, rows - 1);
        lemma_clash_row_len(clash_rows(s, rows - 1), rows - 1, s.victims.len() as int);
    }
}

/// A row of pairs of an arena creates no energy.
proof fn lemma_clash_row_creates_no_energy(s: Arena, i: int, upto: int)
    requires
        0 <= i < s.colliders.len(),
        upto <= s.victims.len(),
    ensures
        total_energy(clash_row(s, i, upto).colliders) + total_energy(clash_row(s, i, upto).victims)
            <= total_energy(s.colliders) + total_energy(s.victims),
    decreases upto,
{
    if upto > 0 {
        lemma_clash_row_creates_no_energy(s, i, upto - 1);
        lemma_clash_row_len(s, i, upto - 1);
        let t = clash_row(s, i, upto - 1);
        lemma_pair_creates_no_energy(t.colliders, i, t.victims, upto - 1);
    }
}

/// Energy is never created: after a pass of the resolver over bodies of
/// two kinds the bodies have, all together, no more energy than before.
pub proof fn lemma_clash_creates_no_energy(s: Arena, rows: int)
    requires
        rows <= s.colliders.len(),
    ensures
        total_energy(clash_rows(s, rows).colliders) + total_energy(clash_rows(s, rows).victims)
            <= total_energy(s.colliders) + total_energy(s.victims),
    decreases rows,
{
    if rows > 0 {
        lemma_clash_creates_no_energy(s, rows - 1);
        lemma_clash_rows_len(s, rows - 1);
        lemma_clash_row_creates_no_energy(
            clash_rows(s, rows - 1),
            rows - 1,
            s.victims.len() as int,
        );
    }
}

/// One pass of the resolver over bodies of two kinds. Every collider is
/// paired once with every victim, collider by collider; a pair sees what the
/// pairs before it have done. Returns the grains of the contacts, in that
/// order.
pub fn elastic_collision_system(
    colliders: &mut Vec<Collider>,
    victims: &mut Vec<Collider>,
) -> (grains: Vec<GrainParticleSpawnEvent>)
    ensures
        final(colliders)@ == clash_rows(
            Arena { colliders: old(colliders)@, victims: old(victims)@, grains: Seq::empty() },
            old(colliders).len() as int,
        ).colliders,
        final(victims)@ == clash_rows(
            Arena { colliders: old(colliders)@, victims: old(victims)@, grains: Seq::empty() },
            old(colliders).len() as int,
        ).victims,
        grains@ == clash_rows(
            Arena { colliders: old(colliders)@, victims: old(victims)@, grains: Seq::empty() },
            old(colliders).len() as int,
        ).grains,
{
    let ghost start = Arena { colliders: colliders@, victims: victims@, grains: Seq::empty() };
    let mut grains: Vec<GrainParticleSpawnEvent> = Vec::new();
    let n = colliders.len();
    let m = victims.len();
    let mut i: usize = 0;
    while i < n
        invariant
            0 <= i <= n,
            n == start.colliders.len(),
            m == start.victims.len(),
            colliders.len() == n,
            victims.len() == m,
            colliders@ == clash_rows(start, i as int).colliders,
            victims@ == clash_rows(start, i as int).victims,
            grains@ == clash_rows(start, i as int).grains,
        decreases n - i,
    {
        let ghost row = clash_rows(start, i as int);
        let mut j: usize = 0;
        while j < m
            invariant
                0 <= j <= m,
                i < n,
                n == start.colliders.len(),
                m == start.victims.len(),
                colliders.len() == n,
                victims.len() == m,
                row.colliders.len() == n,
                row.victims.len() == m,
                colliders@ == clash_row(row, i as int, j as int).colliders,
                victims@ == clash_row(row, i as int, j as int).victims,
                grains@ == clash_row(row, i as int, j as int).grains,
            decreases m - j,
        {
            let ghost s = clash_row(row, i as int, j as int);
            proof {
                lemma_clash_row_len(row, i as int, j as int);
            }
            let mut a = colliders[i];
            let mut b = victims[j];
            let grain = resolve_contact(&mut a, &mut b);
            colliders.set(i, a);
            victims.set(j, b);
            match grain {
                Some(g) => {
                    grains.push(g);
                },
                None => {},
            }
            proof {
                let t = clash_pair(s, i as int, j as int);
                assert(colliders@ =~= t.colliders);
                assert(victims@ =~= t.victims);
                assert(grains@ =~= t.grains);
            }
            j = j + 1;
        }
        proof {
            lemma_clash_rows_len(start, i as int);
            assert(clash_row(row, i as int, m as int) == clash_rows(start, i + 1));
        }
        i = i + 1;
    }
    grains
}

/// One blow that ends the ship: which collider struck it, the explosion,
/// and the death event.
#[derive(Debug)]
pub struct Kill {
    pub collider: usize,
    pub explosion: GrainParticleSpawnEvent,
    pub death: PlayerDeathEvent,
}

/// The collider is within `REACH` and touches the body.
pub open spec fn strikes(c: Collider, body: Circle) -> bool {
    c.wf() && touching(c.pos, c.bound, body.pos, body.bound)
}

/// The explosion of a ship struck by `c`: many grains from all over the
/// ship, carried along with the collider.
pub open spec fn explosion(c: Collider, body: Circle) -> GrainParticleSpawnEvent {
    GrainParticleSpawnEvent {
        pos: body.pos,
        spawn_radius: body.bound.0,
        particles: Range { start: 150, end: 200 },
        impact_vel: c.vel.0,
    }
}

/// The collider number `k` has an entry among the kills.
pub open spec fn kill_of(kills: Seq<Kill>, k: int) -> bool {
    exists|i: int| 0 <= i < kills.len() && (#[trigger] kills[i]).collider == k
}

/// Destroys the ship on contact. A ship that is in play dies of every
/// collider that touches it, whatever its health: each of them, in the
/// order of the colliders, brings an explosion and a death event. A ship
/// that is dead or respawning cannot be struck.
pub fn kill_collision_system(colliders: &Vec<Collider>, ship: &Ship, body: &Circle) -> (kills: Vec<
    Kill,
>)
    requires
        body.pos.in_reach(),
        body.bound.wf(),
    ensures
        !ship.state.in_play() ==> kills.len() == 0,
        forall|k: int|
            0 <= k < colliders.len() ==> (kill_of(kills@, k) <==> ship.state.in_play() && strikes(
                #[trigger] colliders[k],
                *body,
            )),
        forall|i: int|
            0 <= i < kills.len() ==> {
                &&& (#[trigger] kills[i]).collider < colliders.len()
                &&& kills[i].explosion == explosion(colliders[kills[i].collider as int], *body)
            },
        forall|i: int, j: int|
            0 <= i < j < kills.len() ==> (#[trigger] kills[i]).collider < (
            #[trigger] kills[j]).collider,
{
    let mut kills: Vec<Kill> = Vec::new();
    if !ship.state.is_in_play() {
        assert forall|k: int| 0 <= k < colliders.len() implies !kill_of(kills@, k) by {}
        return kills;
    }
    let mut k: usize = 0;
    while k < colliders.len()
        invariant
            0 <= k <= colliders.len(),
            ship.state.in_play(),
            body.pos.in_reach(),
            body.bound.wf(),
            forall|m: int|
                0 <= m < k ==> (kill_of(kills@, m) <==> strikes(#[trigger] colliders[m], *body)),
            forall|i: int|
                0 <= i < kills.len() ==> {
                    &&& (#[trigger] kills[i]).collider < k
                    &&& kills[i].explosion == explosion(colliders[kills[i].collider as int], *body)
                },
            forall|i: int, j: int|
                0 <= i < j < kills.len() ==> (#[trigger] kills[i]).collider < (
                #[trigger] kills[j]).collider,
        decreases colliders.len() - k,
    {
        let c = &colliders[k];
        let ghost before = kills@;
        let struck = c.is_valid() && circles_touching(&c.pos, &c.bound, &body.pos, &body.bound);
        if struck {
            kills.push(
                Kill {
                    collider: k,
                    explosion: GrainParticleSpawnEvent {
                        pos: body.pos,
                        spawn_radius: body.bound.0,
                        particles: Range { start: 150, end: 200 },
                        impact_vel: c.vel.0,
                    },
                    death: PlayerDeathEvent {  },
                },
            );
        }
        proof {
            assert forall|m: int| 0 <= m < k + 1 implies (kill_of(kills@, m) <==> strikes(
                #[trigger] colliders[m],
                *body,
            )) by {
                if kill_of(before, m) {
                    let i = choose|i: int| 0 <= i < before.len() && (#[trigger] before[i]).collider == m;
                    assert(kills[i] == before[i]);
                    assert(m < k);
                }
                if kill_of(kills@, m) {
                    let i = choose|i: int| 0 <= i < kills.len() && (#[trigger] kills[i]).collider == m;
                    if i < before.len() {
                        assert(kills[i] == before[i]);
                    }
                }
                if struck && m == k {
                    assert(kills[kills.len() - 1].collider == k);
                }
            }
            assert forall|i: int, j: int| 0 <= i < j < kills.len() implies (
            #[trigger] kills[i]).collider < (#[trigger] kills[j]).collider by {
                assert(kills[i] == before[i]);
                if j < before.len() {
                    assert(kills[j] == before[j]);
                }
            }
        }
        k = k + 1;
    }
    kills
}

} // verus!
