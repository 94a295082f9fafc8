//! The contact resolver: how two overlapping bodies are pushed apart and how
//! they exchange momentum.
//!
//! For a pair `(a, b)` the body `a` keeps its place and `b` is pushed away
//! from it along the line of centres, until the two no longer overlap. The
//! velocities are exchanged along that line as in an elastic collision of
//! two discs, with the square of the radius as mass, and then damped.
//! Positions are whole units; velocities are held in steps of
//! `1 / SUBUNITS` of a unit per second.

use vstd::prelude::*;
use core::ops::Range;
use crate::collision::{
    circle_impact_position, circles_touching, impact_position, touching, Collider,
};
use crate::events::GrainParticleSpawnEvent;
use crate::geometry::{
    ceil_sqrt, distance_squared_spec, div_toward_zero, floor_sqrt, integer_sqrt,
    lemma_floor_sqrt_is, lemma_product_bound, lemma_reach_squares, lemma_square_bound,
    lemma_square_monotone, Vector, REACH,
};
use crate::movement::{Velocity, SPEED_REACH, SUBUNITS};

verus! {

/// The numerator of the damping factor 0.992.
pub const DAMPING_NUMERATOR: i64 = 124;

/// The denominator of the damping factor 0.992.
pub const DAMPING_DENOMINATOR: i64 = 125;

/// How far a body is pushed off another whose centre it shares.
pub const NUDGE: i64 = 1;

/// A contact throws grains when one of the bodies is faster than this, in
/// whole units per second.
pub const IMPACT_VEL_PARTICLE_TRIGGER: i64 = 25;

/// The radius within which the grains of a contact are scattered.
pub const IMPACT_SPAWN_RADIUS: i64 = 1;

/// How far from the other centre the pushed body stands on one axis, where
/// `dv` was its offset on that axis, `reach` is the sum of the radii and `d2`
/// the squared distance of the centres. The offset keeps its direction and
/// grows by the factor `reach / sqrt(d2)`, rounded up to a whole number: it
/// is the least whole offset that is no shorter than the exact one, so that
/// the bodies never stay in contact for want of a fraction.
pub open spec fn pushed_offset(dv: int, reach: int, d2: int) -> int {
    let t = ceil_sqrt((dv * dv * (reach * reach) + d2 - 1) / d2);
    if dv >= 0 {
        t
    } else {
        -t
    }
}

/// Where the body `b` stands once it has been pushed out of `a`: away from
/// `a` along the line of centres, by the depth of the overlap, so that the
/// centres are as far apart as the radii demand. Where the two centres
/// coincide there is no such line, and `b` is nudged along the first axis.
pub open spec fn separated(a: Collider, b: Collider) -> Vector {
    let dx = b.pos.x - a.pos.x;
    let dy = b.pos.y - a.pos.y;
    let d2 = dx * dx + dy * dy;
    let reach = a.bound.0 + b.bound.0;
    if d2 == 0 {
        Vector { x: (b.pos.x + NUDGE) as i64, y: b.pos.y }
    } else {
        Vector {
            x: (a.pos.x + pushed_offset(dx, reach, d2)) as i64,
            y: (a.pos.y + pushed_offset(dy, reach, d2)) as i64,
        }
    }
}

/// The pushed offset is the least whole offset that is long enough: its
/// square times the squared distance reaches the square of the old offset
/// times the square of the sum of the radii, and no shorter offset does. It
/// is at most the sum of the radii.
pub proof fn lemma_pushed_offset(dv: int, other: int, reach: int, d2: int)
    requires
        d2 == dv * dv + other * other,
        0 < d2,
        0 <= reach,
    ensures
        ({
            let t = if dv >= 0 {
                pushed_offset(dv, reach, d2)
            } else {
                -pushed_offset(dv, reach, d2)
            };
            &&& 0 <= t <= reach
            &&& (t * t) * d2 >= (dv * dv) * (reach * reach)
            &&& t > 0 ==> ((t - 1) * (t - 1)) * d2 < (dv * dv) * (reach * reach)
            &&& 0 <= (dv * dv * (reach * reach) + d2 - 1) / d2 <= reach * reach
        }),
{
    let vv = dv * dv;
    let rr = reach * reach;
    let n = vv * rr;
    assert(0 <= vv <= d2) by (nonlinear_arith)
        requires
            vv == dv * dv,
            d2 == dv * dv + other * other,
    ;
    assert(0 <= rr) by (nonlinear_arith)
        requires
            rr == reach * reach,
    ;
    assert(0 <= n <= d2 * rr) by (nonlinear_arith)
        requires
            n == vv * rr,
            0 <= vv <= d2,
            0 <= rr,
    ;
    assert(dv * dv * (reach * reach) == n) by (nonlinear_arith)
        requires
            n == vv * rr,
            vv == dv * dv,
            rr == reach * reach,
    ;
    let m = (n + d2 - 1) / d2;
    assert(0 <= m <= rr && m * d2 >= n && (m > 0 ==> (m - 1) * d2 < n)) by (nonlinear_arith)
        requires
            m == (n + d2 - 1) / d2,
            0 <= n <= d2 * rr,
            0 < d2,
    ;
    let t = ceil_sqrt(m);
    if m > 0 {
        lemma_floor_sqrt_is(m - 1);
        let f = floor_sqrt(m - 1);
        assert(t == f + 1);
        // (t - 1)^2 <= m - 1 < t^2
        assert((t * t) * d2 >= n) by (nonlinear_arith)
            requires
                t * t >= m,
                m * d2 >= n,
                0 < d2,
        ;
        assert(((t - 1) * (t - 1)) * d2 < n) by (nonlinear_arith)
            requires
                (t - 1) * (t - 1) <= m - 1,
                (m - 1) * d2 < n,
                0 < d2,
        ;
        // t - 1 < reach
        lemma_square_monotone(f, reach);
    } else {
        assert(t == 0);
        assert((t * t) * d2 >= n) by (nonlinear_arith)
            requires
                t == 0,
                m == 0,
                m * d2 >= n,
        ;
    }
}

/// Computes the pushed offset on one axis.
fn push_offset(dv: i64, other: i64, reach: i64, d2: i64) -> (r: i64)
    requires
        -2 * REACH <= dv <= 2 * REACH,
        d2 == dv * dv + other * other,
        0 < d2 <= 8 * REACH * REACH,
        0 <= reach <= 2 * REACH,
    ensures
        r == pushed_offset(dv as int, reach as int, d2 as int),
        -reach <= r <= reach,
{
    proof {
        lemma_reach_squares();
        lemma_square_bound(dv as int, 2 * REACH);
        lemma_square_bound(reach as int, 2 * REACH);
        lemma_pushed_offset(dv as int, other as int, reach as int, d2 as int);
        lemma_product_bound(
            dv * dv,
            reach * reach,
            (2 * REACH) * (2 * REACH),
            (2 * REACH) * (2 * REACH),
        );
        assert(4_398_046_511_104 * 4_398_046_511_104 == 0x1_0000_0000_0000_0000_0000_0)
            by (nonlinear_arith);
        assert(dv * dv * (reach * reach) == (dv * dv) * (reach * reach));
    }
    let n: i128 = ((dv * dv) as i128) * ((reach * reach) as i128);
    let m: i64 = ((n + (d2 as i128) - 1) / (d2 as i128)) as i64;
    let t: i64 = if m <= 0 {
        0
    } else {
        integer_sqrt(m - 1) + 1
    };
    if dv >= 0 {
        t
    } else {
        -t
    }
}

/// Pushes `b` out of `a`.
fn separate(a: &Collider, b: &Collider) -> (r: Vector)
    requires
        a.wf(),
        b.wf(),
    ensures
        r == separated(*a, *b),
        -3 * REACH <= r.x <= 3 * REACH,
        -3 * REACH <= r.y <= 3 * REACH,
{
    let dx: i64 = b.pos.x - a.pos.x;
    let dy: i64 = b.pos.y - a.pos.y;
    proof {
        lemma_reach_squares();
        lemma_square_bound(dx as int, 2 * REACH);
        lemma_square_bound(dy as int, 2 * REACH);
    }
    let d2: i64 = dx * dx + dy * dy;
    if d2 == 0 {
        return Vector { x: b.pos.x + NUDGE, y: b.pos.y };
    }
    let reach: i64 = a.bound.0 + b.bound.0;
    proof {
        assert(d2 == dy * dy + dx * dx);
    }
    Vector {
        x: a.pos.x + push_offset(dx, dy, reach, d2),
        y: a.pos.y + push_offset(dy, dx, reach, d2),
    }
}

/// The closing speed of the pair along the line of centres, times the
/// distance of the centres: the velocity of `a` relative to `b`, projected on
/// the offset from `a` to `b`.
pub open spec fn approach(a: Collider, b: Collider) -> int {
    (a.vel.0.x - b.vel.0.x) * (b.pos.x - a.pos.x) + (a.vel.0.y - b.vel.0.y) * (b.pos.y
        - a.pos.y)
}

/// The sum of the two masses times the squared distance of the centres: the
/// common denominator of the exchange.
pub open spec fn exchange_scale(a: Collider, b: Collider) -> int {
    (a.bound.mass() + b.bound.mass()) * distance_squared_spec(a.pos, b.pos)
}

/// One component of a velocity after the exchange, before damping, times
/// `scale`. `own` is the component before, `gain` is twice the mass of the
/// other body times the approach, negative for the body that is run into
/// from behind, and `dv` the offset of the centres on this axis.
pub open spec fn exchange_numerator(own: int, gain: int, dv: int, scale: int) -> int {
    scale * own + gain * dv
}

/// One component of a velocity after the exchange and the damping by 0.992,
/// rounded toward zero to a whole step of velocity.
pub open spec fn rebound_coordinate(own: int, gain: int, dv: int, scale: int) -> int {
    div_toward_zero(
        DAMPING_NUMERATOR * exchange_numerator(own, gain, dv, scale),
        DAMPING_DENOMINATOR * scale,
    )
}

/// The velocities of `a` and of `b` after their collision.
///
/// The parts of the two velocities along the line of centres are exchanged
/// as in an elastic collision in one dimension, with masses `m1` and `m2`:
/// `v1' = ((m1 - m2) * v1 + 2 * m2 * v2) / (m1 + m2)` and
/// `v2' = (2 * m1 * v1 - (m1 - m2) * v2) / (m1 + m2)`. The parts across the
/// line stay. The result is damped by 0.992. Each component comes out less
/// than one step of velocity, `1 / SUBUNITS` of a unit per second, short of
/// the exact value.
pub open spec fn rebound(a: Collider, b: Collider) -> (Velocity, Velocity) {
    let dx = b.pos.x - a.pos.x;
    let dy = b.pos.y - a.pos.y;
    let scale = exchange_scale(a, b);
    let p = approach(a, b);
    let gain_a = -2 * b.bound.mass() * p;
    let gain_b = 2 * a.bound.mass() * p;
    (
        Velocity(
            Vector {
                x: rebound_coordinate(a.vel.0.x as int, gain_a, dx, scale) as i64,
                y: rebound_coordinate(a.vel.0.y as int, gain_a, dy, scale) as i64,
            },
        ),
        Velocity(
            Vector {
                x: rebound_coordinate(b.vel.0.x as int, gain_b, dx, scale) as i64,
                y: rebound_coordinate(b.vel.0.y as int, gain_b, dy, scale) as i64,
            },
        ),
    )
}

/// The largest `exchange_scale` of two bodies within `REACH`: two to the
/// power of 84.
pub open spec fn scale_limit() -> int {
    0x1_0000_0000_0000_0000_0000_0
}

/// The largest gain, in magnitude, of two well-formed bodies: two to the
/// power of 94.
pub open spec fn gain_limit() -> int {
    0x4_0000_0000_0000_0000_0000_000
}

/// The gain of a body is bounded by the scale: for relative velocity
/// components within `s` and a mass `m` of at most `total`, the gain
/// `2 * m * p` times an offset stays within `4 * s * (total * d2)`.
proof fn lemma_gain_bound(ex: int, ey: int, dx: int, dy: int, m: int, total: int, s: int)
    requires
        -s <= ex <= s,
        -s <= ey <= s,
        0 <= m <= total,
    ensures
        ({
            let p = ex * dx + ey * dy;
            let d2 = dx * dx + dy * dy;
            &&& -(4 * s * (total * d2)) <= (2 * m * p) * dx <= 4 * s * (total * d2)
            &&& -(4 * s * (total * d2)) <= (2 * m * p) * dy <= 4 * s * (total * d2)
        }),
{
    let p = ex * dx + ey * dy;
    let d2 = dx * dx + dy * dy;
    let xx = dx * dx;
    let yy = dy * dy;
    let xy = dx * dy;
    assert(xx >= 0 && yy >= 0) by (nonlinear_arith)
        requires
            xx == dx * dx,
            yy == dy * dy,
    ;
    assert(-d2 <= 2 * xy <= d2) by (nonlinear_arith)
        requires
            xy == dx * dy,
            d2 == dx * dx + dy * dy,
    ;
    // p * dx = ex * xx + ey * xy and p * dy = ex * xy + ey * yy
    assert(p * dx == ex * xx + ey * xy && p * dy == ex * xy + ey * yy) by (nonlinear_arith)
        requires
            p == ex * dx + ey * dy,
            xx == dx * dx,
            yy == dy * dy,
            xy == dx * dy,
    ;
    lemma_product_bound(ex, xx, s, xx);
    lemma_product_bound(ey, xy, s, d2);
    lemma_product_bound(ex, xy, s, d2);
    lemma_product_bound(ey, yy, s, yy);
    assert(s * xx <= s * d2 && s * yy <= s * d2) by (nonlinear_arith)
        requires
            0 <= s,
            0 <= xx <= d2,
            0 <= yy <= d2,
    ;
    let bound = 2 * (s * d2);
    assert(-bound <= p * dx <= bound);
    assert(-bound <= p * dy <= bound);
    lemma_product_bound(2 * m, p * dx, 2 * total, bound);
    lemma_product_bound(2 * m, p * dy, 2 * total, bound);
    assert((2 * m) * (p * dx) == (2 * m * p) * dx && (2 * m) * (p * dy) == (2 * m * p) * dy)
        by (nonlinear_arith);
    assert((2 * total) * bound == 4 * s * (total * d2)) by (nonlinear_arith)
        requires
            bound == 2 * (s * d2),
    ;
}

/// A damped quotient is no larger in magnitude than the bound on the
/// numerator allows.
proof fn lemma_rebound_bound(n: int, scale: int, bound: int)
    requires
        0 < scale,
        0 <= bound,
        -(bound * scale) <= n <= bound * scale,
    ensures
        -bound <= div_toward_zero(DAMPING_NUMERATOR * n, DAMPING_DENOMINATOR * scale) <= bound,
{
    let num = 124 * n;
    let den = 125 * scale;
    if n >= 0 {
        assert(0 <= num / den <= bound) by (nonlinear_arith)
            requires
                num == 124 * n,
                den == 125 * scale,
                0 < scale,
                0 <= n <= bound * scale,
        ;
    } else {
        let neg = -num;
        assert(0 <= neg / den <= bound) by (nonlinear_arith)
            requires
                neg == 124 * (-n),
                den == 125 * scale,
                0 < scale,
                0 <= -n <= bound * scale,
        ;
    }
}

/// What bounds the exchange of two well-formed bodies with distinct
/// centres: the scale is positive and at most `scale_limit()`, the gains are
/// at most `gain_limit()` in magnitude, and a gain times an offset of the
/// centres is at most eight times `SPEED_REACH` times the scale.
proof fn lemma_exchange_bounds(a: Collider, b: Collider)
    requires
        a.wf(),
        b.wf(),
        a.pos != b.pos,
    ensures
        ({
            let dx = b.pos.x - a.pos.x;
            let dy = b.pos.y - a.pos.y;
            let q = exchange_scale(a, b);
            let p = approach(a, b);
            let ga = -2 * b.bound.mass() * p;
            let gb = 2 * a.bound.mass() * p;
            &&& 0 < q <= scale_limit()
            &&& 0 < distance_squared_spec(a.pos, b.pos) <= 8 * REACH * REACH
            &&& 0 < a.bound.mass() <= REACH * REACH
            &&& 0 < b.bound.mass() <= REACH * REACH
            &&& -(8 * SPEED_REACH * REACH) <= p <= 8 * SPEED_REACH * REACH
            &&& -gain_limit() <= ga <= gain_limit()
            &&& -gain_limit() <= gb <= gain_limit()
            &&& -(8 * SPEED_REACH * q) <= ga * dx <= 8 * SPEED_REACH * q
            &&& -(8 * SPEED_REACH * q) <= ga * dy <= 8 * SPEED_REACH * q
            &&& -(8 * SPEED_REACH * q) <= gb * dx <= 8 * SPEED_REACH * q
            &&& -(8 * SPEED_REACH * q) <= gb * dy <= 8 * SPEED_REACH * q
        }),
{
    let dx = b.pos.x - a.pos.x;
    let dy = b.pos.y - a.pos.y;
    let ex = a.vel.0.x - b.vel.0.x;
    let ey = a.vel.0.y - b.vel.0.y;
    let d2 = dx * dx + dy * dy;
    let m1 = a.bound.mass();
    let m2 = b.bound.mass();
    let total = m1 + m2;
    let q = exchange_scale(a, b);
    let p = approach(a, b);
    let ga = -2 * m2 * p;
    let gb = 2 * m1 * p;
    lemma_reach_squares();
    lemma_square_bound(dx, 2 * REACH);
    lemma_square_bound(dy, 2 * REACH);
    lemma_square_bound(a.bound.0 as int, REACH as int);
    lemma_square_bound(b.bound.0 as int, REACH as int);
    lemma_product_bound(ex, dx, 2 * SPEED_REACH, 2 * REACH);
    lemma_product_bound(ey, dy, 2 * SPEED_REACH, 2 * REACH);
    assert((2 * SPEED_REACH) * (2 * REACH) == 4 * SPEED_REACH * REACH) by (nonlinear_arith);
    assert(d2 > 0) by (nonlinear_arith)
        requires
            d2 == dx * dx + dy * dy,
            dx != 0 || dy != 0,
    ;
    assert(m1 > 0 && m2 > 0) by (nonlinear_arith)
        requires
            m1 == a.bound.0 * a.bound.0,
            m2 == b.bound.0 * b.bound.0,
            a.bound.0 > 0,
            b.bound.0 > 0,
    ;
    lemma_product_bound(total, d2, 2 * REACH * REACH, 8 * REACH * REACH);
    assert((2 * REACH * REACH) * (8 * REACH * REACH) == scale_limit()) by (nonlinear_arith)
        requires
            REACH == 1_048_576,
            scale_limit() == 0x1_0000_0000_0000_0000_0000_0,
    ;
    assert(q > 0) by (nonlinear_arith)
        requires
            q == total * d2,
            total > 0,
            d2 > 0,
    ;
    lemma_product_bound(2 * m1, p, 2 * REACH * REACH, 8 * SPEED_REACH * REACH);
    lemma_product_bound(2 * m2, p, 2 * REACH * REACH, 8 * SPEED_REACH * REACH);
    assert((2 * REACH * REACH) * (8 * SPEED_REACH * REACH) == gain_limit()) by (nonlinear_arith)
        requires
            REACH == 1_048_576,
            SPEED_REACH == 1_073_741_824,
            gain_limit() == 0x4_0000_0000_0000_0000_0000_000,
    ;
    assert(ga == -((2 * m2) * p) && gb == (2 * m1) * p) by (nonlinear_arith)
        requires
            ga == -2 * m2 * p,
            gb == 2 * m1 * p,
    ;
    lemma_gain_bound(ex, ey, dx, dy, m1, total, 2 * SPEED_REACH);
    lemma_gain_bound(ex, ey, dx, dy, m2, total, 2 * SPEED_REACH);
    assert(4 * (2 * SPEED_REACH) * q == 8 * SPEED_REACH * q) by (nonlinear_arith);
    assert(ga * dx == -((2 * m2 * p) * dx) && ga * dy == -((2 * m2 * p) * dy))
        by (nonlinear_arith)
        requires
            ga == -2 * m2 * p,
    ;
    assert(gb * dx == (2 * m1 * p) * dx && gb * dy == (2 * m1 * p) * dy);
}

/// A component within `SPEED_REACH` and a gain bounded by the scale give a
/// rebound within nine times `SPEED_REACH`.
proof fn lemma_numerator_in_range(own: int, gain: int, dv: int, scale: int)
    requires
        0 < scale,
        -SPEED_REACH <= own <= SPEED_REACH,
        -(8 * SPEED_REACH * scale) <= gain * dv <= 8 * SPEED_REACH * scale,
    ensures
        -(9 * SPEED_REACH * scale) <= exchange_numerator(own, gain, dv, scale) <= 9 * SPEED_REACH
            * scale,
        -9 * SPEED_REACH <= rebound_coordinate(own, gain, dv, scale) <= 9 * SPEED_REACH,
{
    assert(scale * own <= scale * SPEED_REACH && scale * own >= -(scale * SPEED_REACH))
        by (nonlinear_arith)
        requires
            0 < scale,
            -SPEED_REACH <= own <= SPEED_REACH,
    ;
    assert(9 * SPEED_REACH * scale == scale * SPEED_REACH + 8 * SPEED_REACH * scale)
        by (nonlinear_arith);
    assert((9 * SPEED_REACH) * scale == 9 * SPEED_REACH * scale) by (nonlinear_arith);
    lemma_rebound_bound(exchange_numerator(own, gain, dv, scale), scale, 9 * SPEED_REACH);
}

/// Computes one component of a velocity after the exchange.
fn vel_comp_after_collision(own: i64, gain: i128, dv: i64, scale: i128) -> (r: i64)
    requires
        0 < scale <= scale_limit(),
        -SPEED_REACH <= own <= SPEED_REACH,
        -(8 * SPEED_REACH * scale) <= gain * dv <= 8 * SPEED_REACH * scale,
    ensures
        r == rebound_coordinate(own as int, gain as int, dv as int, scale as int),
        -9 * SPEED_REACH <= r <= 9 * SPEED_REACH,
{
    proof {
        lemma_numerator_in_range(own as int, gain as int, dv as int, scale as int);
        lemma_product_bound(scale as int, own as int, scale_limit(), SPEED_REACH as int);
        // two to the power of 114
        assert(scale_limit() * SPEED_REACH == 0x4_0000_0000_0000_0000_0000_0000_0000)
            by (nonlinear_arith)
            requires
                SPEED_REACH == 1_073_741_824,
                scale_limit() == 0x1_0000_0000_0000_0000_0000_0,
        ;
        assert(8 * SPEED_REACH * scale <= 8 * SPEED_REACH * scale_limit()) by (nonlinear_arith)
            requires
                scale <= scale_limit(),
        ;
        assert(9 * SPEED_REACH * scale <= 9 * SPEED_REACH * scale_limit()) by (nonlinear_arith)
            requires
                scale <= scale_limit(),
        ;
        assert(9 * SPEED_REACH * scale_limit() == 0x24_0000_0000_0000_0000_0000_0000_0000)
            by (nonlinear_arith)
            requires
                SPEED_REACH == 1_073_741_824,
                scale_limit() == 0x1_0000_0000_0000_0000_0000_0,
        ;
        assert(8 * SPEED_REACH * scale_limit() == 0x20_0000_0000_0000_0000_0000_0000_0000)
            by (nonlinear_arith)
            requires
                SPEED_REACH == 1_073_741_824,
                scale_limit() == 0x1_0000_0000_0000_0000_0000_0,
        ;
    }
    let n: i128 = scale * (own as i128) + gain * (dv as i128);
    let r: i128 = (124 * n) / (125 * scale);
    r as i64
}

/// Computes the velocities of two bodies with distinct centres after their
/// collision.
fn vel_after_collision(a: &Collider, b: &Collider) -> (r: (Velocity, Velocity))
    requires
        a.wf(),
        b.wf(),
        a.pos != b.pos,
    ensures
        r == rebound(*a, *b),
{
    proof {
        lemma_exchange_bounds(*a, *b);
        lemma_reach_squares();
        lemma_square_bound((b.pos.x - a.pos.x) as int, 2 * REACH);
        lemma_square_bound((b.pos.y - a.pos.y) as int, 2 * REACH);
        lemma_product_bound(
            (a.vel.0.x - b.vel.0.x) as int,
            (b.pos.x - a.pos.x) as int,
            2 * SPEED_REACH,
            2 * REACH,
        );
        lemma_product_bound(
            (a.vel.0.y - b.vel.0.y) as int,
            (b.pos.y - a.pos.y) as int,
            2 * SPEED_REACH,
            2 * REACH,
        );
        // two to the power of 52
        assert((2 * SPEED_REACH) * (2 * REACH) == 4_503_599_627_370_496) by (nonlinear_arith)
            requires
                REACH == 1_048_576,
                SPEED_REACH == 1_073_741_824,
        ;
    }
    let dx: i64 = b.pos.x - a.pos.x;
    let dy: i64 = b.pos.y - a.pos.y;
    let d2: i64 = dx * dx + dy * dy;
    let m1: i64 = a.bound.0 * a.bound.0;
    let m2: i64 = b.bound.0 * b.bound.0;
    let p: i64 = (a.vel.0.x - b.vel.0.x) * dx + (a.vel.0.y - b.vel.0.y) * dy;
    proof {
        lemma_product_bound(2 * m1, p as int, 2 * REACH * REACH, 8 * SPEED_REACH * REACH);
        lemma_product_bound(2 * m2, p as int, 2 * REACH * REACH, 8 * SPEED_REACH * REACH);
        assert((2 * REACH * REACH) * (8 * SPEED_REACH * REACH) == gain_limit())
            by (nonlinear_arith)
            requires
                REACH == 1_048_576,
                SPEED_REACH == 1_073_741_824,
                gain_limit() == 0x4_0000_0000_0000_0000_0000_000,
        ;
        assert((2 * REACH * REACH) * (8 * REACH * REACH) == scale_limit()) by (nonlinear_arith)
            requires
                REACH == 1_048_576,
                scale_limit() == 0x1_0000_0000_0000_0000_0000_0,
        ;
        lemma_product_bound((m1 + m2) as int, d2 as int, 2 * REACH * REACH, 8 * REACH * REACH);
    }
    let scale: i128 = ((m1 + m2) as i128) * (d2 as i128);
    let gain_b: i128 = (2 * m1) as i128 * (p as i128);
    let gain_a: i128 = -((2 * m2) as i128 * (p as i128));
    proof {
        assert(gain_a == -2 * b.bound.mass() * p) by (nonlinear_arith)
            requires
                gain_a == -((2 * m2) * p),
                m2 == b.bound.mass(),
        ;
        assert(gain_b == 2 * a.bound.mass() * p) by (nonlinear_arith)
            requires
                gain_b == (2 * m1) * p,
                m1 == a.bound.mass(),
        ;
    }
    (
        Velocity(
            Vector {
                x: vel_comp_after_collision(a.vel.0.x, gain_a, dx, scale),
                y: vel_comp_after_collision(a.vel.0.y, gain_a, dy, scale),
            },
        ),
        Velocity(
            Vector {
                x: vel_comp_after_collision(b.vel.0.x, gain_b, dx, scale),
                y: vel_comp_after_collision(b.vel.0.y, gain_b, dy, scale),
            },
        ),
    )
}

/// The pair `(a, b)` after the resolver has seen it.
///
/// Bodies that do not touch are left alone, and so are bodies beyond
/// `REACH` or faster than `SPEED_REACH`. Of two bodies that touch, `a` keeps its place and `b` is pushed
/// out of it; both get their velocities after the collision. Two bodies with
/// a common centre are only nudged apart: their velocities stay, and they are
/// separated in full on a later pass.
pub open spec fn resolved(a: Collider, b: Collider) -> (Collider, Collider) {
    if !(a.wf() && b.wf()) || !touching(a.pos, a.bound, b.pos, b.bound) {
        (a, b)
    } else if a.pos == b.pos {
        (a, Collider { pos: separated(a, b), ..b })
    } else {
        (
            Collider { vel: rebound(a, b).0, ..a },
            Collider { pos: separated(a, b), vel: rebound(a, b).1, ..b },
        )
    }
}

/// The grains that the contact of `a` and `b` throws: a few, at the point
/// of impact, when the bodies touch and one of them is faster than
/// `IMPACT_VEL_PARTICLE_TRIGGER`.
pub open spec fn impact_grain(a: Collider, b: Collider) -> Option<GrainParticleSpawnEvent> {
    let trigger = (IMPACT_VEL_PARTICLE_TRIGGER * SUBUNITS) * (IMPACT_VEL_PARTICLE_TRIGGER
        * SUBUNITS);
    if a.wf() && b.wf() && touching(a.pos, a.bound, b.pos, b.bound) && (a.vel.0.norm_squared()
        > trigger || b.vel.0.norm_squared() > trigger) {
        match impact_position(a.pos, a.bound, b.pos, b.bound) {
            Some(pos) => Some(
                GrainParticleSpawnEvent {
                    pos,
                    spawn_radius: IMPACT_SPAWN_RADIUS,
                    particles: Range { start: 1, end: 5 },
                    impact_vel: Vector { x: 0, y: 0 },
                },
            ),
            None => None,
        }
    } else {
        None
    }
}

/// Resolves the contact of `a` and `b`, if there is one, and returns the
/// grains that it throws.
pub fn resolve_contact(a: &mut Collider, b: &mut Collider) -> (grain: Option<
    GrainParticleSpawnEvent,
>)
    ensures
        (*final(a), *final(b)) == resolved(*old(a), *old(b)),
        grain == impact_grain(*old(a), *old(b)),
{
    if !(a.is_valid() && b.is_valid()) {
        return None;
    }
    if !circles_touching(&a.pos, &a.bound, &b.pos, &b.bound) {
        return None;
    }
    proof {
        lemma_reach_squares();
        lemma_square_bound(a.vel.0.x as int, SPEED_REACH as int);
        lemma_square_bound(a.vel.0.y as int, SPEED_REACH as int);
        lemma_square_bound(b.vel.0.x as int, SPEED_REACH as int);
        lemma_square_bound(b.vel.0.y as int, SPEED_REACH as int);
        // two to the power of 60
        assert(SPEED_REACH * SPEED_REACH == 1_152_921_504_606_846_976) by (nonlinear_arith)
            requires
                SPEED_REACH == 1_073_741_824,
        ;
    }
    let trigger: i64 = (IMPACT_VEL_PARTICLE_TRIGGER * SUBUNITS) * (IMPACT_VEL_PARTICLE_TRIGGER
        * SUBUNITS);
    let fast = a.vel.0.x * a.vel.0.x + a.vel.0.y * a.vel.0.y > trigger || b.vel.0.x * b.vel.0.x
        + b.vel.0.y * b.vel.0.y > trigger;
    let mut grain: Option<GrainParticleSpawnEvent> = None;
    if fast {
        match circle_impact_position(&a.pos, &b.pos, &a.bound, &b.bound) {
            Some(pos) => {
                grain = Some(
                    GrainParticleSpawnEvent {
                        pos,
                        spawn_radius: IMPACT_SPAWN_RADIUS,
                        particles: Range { start: 1, end: 5 },
                        impact_vel: Vector { x: 0, y: 0 },
                    },
                );
            },
            None => {},
        }
    }
    let pos = separate(a, b);
    if a.pos.x == b.pos.x && a.pos.y == b.pos.y {
        b.pos = pos;
    } else {
        let (va, vb) = vel_after_collision(a, b);
        a.vel = va;
        b.pos = pos;
        b.vel = vb;
    }
    grain
}

/// Separation: once a touching pair with distinct centres has been
/// resolved, the first body stands where it stood and the two no longer
/// touch. The distance of the centres is at least the sum of the radii, and
/// on each axis the second body stands less than a unit further out than
/// the exact push would put it.
pub proof fn lemma_resolved_pair_is_apart(a: Collider, b: Collider)
    requires
        a.wf(),
        b.wf(),
        touching(a.pos, a.bound, b.pos, b.bound),
        a.pos != b.pos,
    ensures
        resolved(a, b).0.pos == a.pos,
        resolved(a, b).0.bound == a.bound,
        resolved(a, b).1.bound == b.bound,
        !touching(resolved(a, b).0.pos, a.bound, resolved(a, b).1.pos, b.bound),
        distance_squared_spec(resolved(a, b).0.pos, resolved(a, b).1.pos) >= (a.bound.0
            + b.bound.0) * (a.bound.0 + b.bound.0),
        resolved(a, b).1.pos.x - a.pos.x == pushed_offset(
            b.pos.x - a.pos.x,
            a.bound.0 + b.bound.0,
            distance_squared_spec(a.pos, b.pos),
        ),
        resolved(a, b).1.pos.y - a.pos.y == pushed_offset(
            b.pos.y - a.pos.y,
            a.bound.0 + b.bound.0,
            distance_squared_spec(a.pos, b.pos),
        ),
{
    let dx = b.pos.x - a.pos.x;
    let dy = b.pos.y - a.pos.y;
    let d2 = dx * dx + dy * dy;
    let r = a.bound.0 + b.bound.0;
    assert(d2 > 0) by (nonlinear_arith)
        requires
            d2 == dx * dx + dy * dy,
            dx != 0 || dy != 0,
    ;
    lemma_pushed_offset(dx, dy, r, d2);
    lemma_pushed_offset(dy, dx, r, d2);
    let nx = pushed_offset(dx, r, d2);
    let ny = pushed_offset(dy, r, d2);
    let moved = separated(a, b);
    assert(moved.x == a.pos.x + nx);
    assert(moved.y == a.pos.y + ny);
    let rr = r * r;
    let n2 = nx * nx + ny * ny;
    assert((nx * nx) * d2 >= (dx * dx) * rr && (ny * ny) * d2 >= (dy * dy) * rr)
        by (nonlinear_arith)
        requires
            ((nx * nx) * d2 >= (dx * dx) * rr) || ((-nx) * (-nx)) * d2 >= (dx * dx) * rr,
            ((ny * ny) * d2 >= (dy * dy) * rr) || ((-ny) * (-ny)) * d2 >= (dy * dy) * rr,
    ;
    assert(n2 * d2 >= d2 * rr) by (nonlinear_arith)
        requires
            n2 == nx * nx + ny * ny,
            d2 == dx * dx + dy * dy,
            (nx * nx) * d2 >= (dx * dx) * rr,
            (ny * ny) * d2 >= (dy * dy) * rr,
    ;
    assert(n2 >= rr) by (nonlinear_arith)
        requires
            n2 * d2 >= d2 * rr,
            d2 > 0,
    ;
}

/// Each component of a velocity after a collision is within one step of
/// 0.992 times the exact exchange, and never beyond it: the damped numerator
/// lies between the result times the denominator and one denominator more,
/// on the side away from zero.
pub proof fn lemma_rebound_is_close(own: int, gain: int, dv: int, scale: int)
    requires
        0 < scale,
    ensures
        ({
            let exact = DAMPING_NUMERATOR * exchange_numerator(own, gain, dv, scale);
            let unit = DAMPING_DENOMINATOR * scale;
            let r = rebound_coordinate(own, gain, dv, scale);
            &&& exact >= 0 ==> r * unit <= exact < (r + 1) * unit
            &&& exact < 0 ==> (r - 1) * unit < exact <= r * unit
        }),
{
    let exact = DAMPING_NUMERATOR * exchange_numerator(own, gain, dv, scale);
    let unit = DAMPING_DENOMINATOR * scale;
    if exact >= 0 {
        let r = exact / unit;
        assert(r * unit <= exact < (r + 1) * unit) by (nonlinear_arith)
            requires
                r == exact / unit,
                0 < unit,
        ;
    } else {
        let neg = -exact;
        let m = neg / unit;
        assert(m * unit <= neg < (m + 1) * unit) by (nonlinear_arith)
            requires
                m == neg / unit,
                0 < unit,
        ;
        assert((-m - 1) * unit == -((m + 1) * unit) && (-m) * unit == -(m * unit))
            by (nonlinear_arith);
    }
}

/// Damping and rounding toward zero never lengthen a component: the
/// result times the scale is at most the numerator, in square.
proof fn lemma_damped_square(n: int, scale: int)
    requires
        0 < scale,
    ensures
        ({
            let r = div_toward_zero(DAMPING_NUMERATOR * n, DAMPING_DENOMINATOR * scale);
            (r * r) * (scale * scale) <= n * n
        }),
{
    let r = div_toward_zero(DAMPING_NUMERATOR * n, DAMPING_DENOMINATOR * scale);
    let num = 124 * n;
    let den = 125 * scale;
    let x = r * scale;
    if n >= 0 {
        assert(0 <= r && 125 * x <= 124 * n) by (nonlinear_arith)
            requires
                r == num / den,
                num == 124 * n,
                den == 125 * scale,
                x == r * scale,
                0 < scale,
                0 <= n,
        ;
        assert(0 <= x) by (nonlinear_arith)
            requires
                x == r * scale,
                0 <= r,
                0 < scale,
        ;
        assert(x * x <= n * n) by (nonlinear_arith)
            requires
                0 <= x <= n,
        ;
    } else {
        let neg = -num;
        let m = neg / den;
        assert(r == -m);
        let y = m * scale;
        assert(0 <= m && 125 * y <= 124 * (-n)) by (nonlinear_arith)
            requires
                m == neg / den,
                neg == 124 * (-n),
                den == 125 * scale,
                y == m * scale,
                0 < scale,
                0 < -n,
        ;
        assert(0 <= y) by (nonlinear_arith)
            requires
                y == m * scale,
                0 <= m,
                0 < scale,
        ;
        assert(x == -y) by (nonlinear_arith)
            requires
                x == r * scale,
                y == m * scale,
                r == -m,
        ;
        assert(x * x <= n * n) by (nonlinear_arith)
            requires
                x == -y,
                0 <= y <= -n,
        ;
    }
    assert(x * x == (r * r) * (scale * scale)) by (nonlinear_arith)
        requires
            x == r * scale,
    ;
}

proof fn lemma_square_of_product(a: int, b: int)
    ensures
        (a * b) * (a * b) == (a * a) * (b * b),
{
    assert((a * b) * (a * b) == (a * a) * (b * b)) by (nonlinear_arith);
}

proof fn lemma_interchange(a: int, b: int, c: int, d: int)
    ensures
        (a * b) * (c * d) == (a * c) * (b * d),
{
    assert((a * b) * (c * d) == (a * c) * (b * d)) by (nonlinear_arith);
}

proof fn lemma_binomial(a: int, b: int)
    ensures
        (a + b) * (a + b) == a * a + 2 * (a * b) + b * b,
{
    assert((a + b) * (a + b) == a * a + 2 * (a * b) + b * b) by (nonlinear_arith);
}

proof fn lemma_distribute(x: int, y: int, z: int)
    ensures
        x * (y + z) == x * y + x * z,
{
    assert(x * (y + z) == x * y + x * z) by (nonlinear_arith);
}

/// The squared length of the numerators of a velocity after the exchange:
/// for a velocity `(ux, uy)`, a gain `g` and an offset `(dx, dy)` it is
/// `q * q * |u|^2 + 2 * q * g * (u . d) + g * g * |d|^2`.
proof fn lemma_numerator_norm(q: int, ux: int, uy: int, g: int, dx: int, dy: int)
    ensures
        exchange_numerator(ux, g, dx, q) * exchange_numerator(ux, g, dx, q) + exchange_numerator(
            uy,
            g,
            dy,
            q,
        ) * exchange_numerator(uy, g, dy, q) == (q * q) * (ux * ux + uy * uy) + 2 * ((q * g) * (ux
            * dx + uy * dy)) + (g * g) * (dx * dx + dy * dy),
{
    lemma_binomial(q * ux, g * dx);
    lemma_binomial(q * uy, g * dy);
    lemma_square_of_product(q, ux);
    lemma_square_of_product(q, uy);
    lemma_square_of_product(g, dx);
    lemma_square_of_product(g, dy);
    lemma_interchange(q, ux, g, dx);
    lemma_interchange(q, uy, g, dy);
    lemma_distribute(q * q, ux * ux, uy * uy);
    lemma_distribute(q * g, ux * dx, uy * dy);
    lemma_distribute(g * g, dx * dx, dy * dy);
}

/// The exchange conserves energy before damping and rounding: the masses
/// times the squared numerators add up to the energy before, times the
/// square of the scale. Here `uu` and `ww` are the squared speeds, and `au`
/// and `aw` the velocities projected on the offset of the centres.
proof fn lemma_exchange_conserves(
    m1: int,
    m2: int,
    d2: int,
    uu: int,
    ww: int,
    au: int,
    aw: int,
)
    ensures
        ({
            let q = (m1 + m2) * d2;
            let p = au - aw;
            let ga = -2 * m2 * p;
            let gb = 2 * m1 * p;
            m1 * ((q * q) * uu + 2 * ((q * ga) * au) + (ga * ga) * d2) + m2 * ((q * q) * ww + 2
                * ((q * gb) * aw) + (gb * gb) * d2) == (q * q) * (m1 * uu + m2 * ww)
        }),
{
    let q = (m1 + m2) * d2;
    let p = au - aw;
    let ga = -2 * m2 * p;
    let gb = 2 * m1 * p;
    let k = m1 * m2;
    let pp = p * p;
    let qq = q * q;
    let t = (q * k) * pp;
    let t1 = (q * k) * (p * au);
    let t2 = (q * k) * (p * aw);
    let u1 = (k * pp) * (m2 * d2);
    let u2 = (k * pp) * (m1 * d2);
    let ca = (q * ga) * au;
    let cb = (q * gb) * aw;
    let sa = (ga * ga) * d2;
    let sb = (gb * gb) * d2;
    assert(m1 * (qq * uu) + m2 * (qq * ww) == qq * (m1 * uu + m2 * ww)) by (nonlinear_arith);
    assert(m1 * ca == -2 * t1) by (nonlinear_arith)
        requires
            ca == (q * ga) * au,
            t1 == (q * k) * (p * au),
            ga == -2 * m2 * p,
            k == m1 * m2,
    ;
    assert(m2 * cb == 2 * t2) by (nonlinear_arith)
        requires
            cb == (q * gb) * aw,
            t2 == (q * k) * (p * aw),
            gb == 2 * m1 * p,
            k == m1 * m2,
    ;
    assert(t1 - t2 == t) by (nonlinear_arith)
        requires
            t1 == (q * k) * (p * au),
            t2 == (q * k) * (p * aw),
            t == (q * k) * pp,
            p == au - aw,
            pp == p * p,
    ;
    assert(m1 * sa == 4 * u1) by (nonlinear_arith)
        requires
            sa == (ga * ga) * d2,
            u1 == (k * pp) * (m2 * d2),
            ga == -2 * m2 * p,
            k == m1 * m2,
            pp == p * p,
    ;
    assert(m2 * sb == 4 * u2) by (nonlinear_arith)
        requires
            sb == (gb * gb) * d2,
            u2 == (k * pp) * (m1 * d2),
            gb == 2 * m1 * p,
            k == m1 * m2,
            pp == p * p,
    ;
    assert(u1 + u2 == t) by (nonlinear_arith)
        requires
            u1 == (k * pp) * (m2 * d2),
            u2 == (k * pp) * (m1 * d2),
            t == (q * k) * pp,
            q == (m1 + m2) * d2,
    ;
    assert(m1 * (qq * uu + 2 * ca + sa) == m1 * (qq * uu) + 2 * (m1 * ca) + m1 * sa)
        by (nonlinear_arith);
    assert(m2 * (qq * ww + 2 * cb + sb) == m2 * (qq * ww) + 2 * (m2 * cb) + m2 * sb)
        by (nonlinear_arith);
}

/// The velocities after a collision stay within nine times `SPEED_REACH`.
proof fn lemma_rebound_in_range(a: Collider, b: Collider)
    requires
        a.wf(),
        b.wf(),
        a.pos != b.pos,
    ensures
        ({
            let dx = b.pos.x - a.pos.x;
            let dy = b.pos.y - a.pos.y;
            let q = exchange_scale(a, b);
            let ga = -2 * b.bound.mass() * approach(a, b);
            let gb = 2 * a.bound.mass() * approach(a, b);
            &&& q > 0
            &&& -9 * SPEED_REACH <= rebound_coordinate(a.vel.0.x as int, ga, dx, q) <= 9
                * SPEED_REACH
            &&& -9 * SPEED_REACH <= rebound_coordinate(a.vel.0.y as int, ga, dy, q) <= 9
                * SPEED_REACH
            &&& -9 * SPEED_REACH <= rebound_coordinate(b.vel.0.x as int, gb, dx, q) <= 9
                * SPEED_REACH
            &&& -9 * SPEED_REACH <= rebound_coordinate(b.vel.0.y as int, gb, dy, q) <= 9
                * SPEED_REACH
        }),
{
    let dx = b.pos.x - a.pos.x;
    let dy = b.pos.y - a.pos.y;
    let q = exchange_scale(a, b);
    let ga = -2 * b.bound.mass() * approach(a, b);
    let gb = 2 * a.bound.mass() * approach(a, b);
    lemma_exchange_bounds(a, b);
    lemma_numerator_in_range(a.vel.0.x as int, ga, dx, q);
    lemma_numerator_in_range(a.vel.0.y as int, ga, dy, q);
    lemma_numerator_in_range(b.vel.0.x as int, gb, dx, q);
    lemma_numerator_in_range(b.vel.0.y as int, gb, dy, q);
}

/// A collision creates no energy: the masses times the squared speeds of
/// the two bodies add up to no more after the pair has been resolved than
/// before. The exchange along the line of centres keeps that sum, and
/// damping and rounding toward zero can only lower it.
pub proof fn lemma_collision_creates_no_energy(a: Collider, b: Collider)
    requires
        a.wf(),
        b.wf(),
    ensures
        resolved(a, b).0.energy() + resolved(a, b).1.energy() <= a.energy() + b.energy(),
        resolved(a, b).0.bound == a.bound,
        resolved(a, b).1.bound == b.bound,
{
    if touching(a.pos, a.bound, b.pos, b.bound) && a.pos != b.pos {
        lemma_rebound_in_range(a, b);
        let dx = b.pos.x - a.pos.x;
        let dy = b.pos.y - a.pos.y;
        let d2 = dx * dx + dy * dy;
        let m1 = a.bound.mass();
        let m2 = b.bound.mass();
        let q = exchange_scale(a, b);
        let qq = q * q;
        let p = approach(a, b);
        let ga = -2 * m2 * p;
        let gb = 2 * m1 * p;
        let (ux, uy) = (a.vel.0.x as int, a.vel.0.y as int);
        let (wx, wy) = (b.vel.0.x as int, b.vel.0.y as int);
        let uu = ux * ux + uy * uy;
        let ww = wx * wx + wy * wy;
        let au = ux * dx + uy * dy;
        let aw = wx * dx + wy * dy;
        assert(p == au - aw) by (nonlinear_arith)
            requires
                p == (ux - wx) * dx + (uy - wy) * dy,
                au == ux * dx + uy * dy,
                aw == wx * dx + wy * dy,
        ;
        let nax = exchange_numerator(ux, ga, dx, q);
        let nay = exchange_numerator(uy, ga, dy, q);
        let nbx = exchange_numerator(wx, gb, dx, q);
        let nby = exchange_numerator(wy, gb, dy, q);
        let rax = rebound_coordinate(ux, ga, dx, q);
        let ray = rebound_coordinate(uy, ga, dy, q);
        let rbx = rebound_coordinate(wx, gb, dx, q);
        let rby = rebound_coordinate(wy, gb, dy, q);
        lemma_damped_square(nax, q);
        lemma_damped_square(nay, q);
        lemma_damped_square(nbx, q);
        lemma_damped_square(nby, q);
        lemma_numerator_norm(q, ux, uy, ga, dx, dy);
        lemma_numerator_norm(q, wx, wy, gb, dx, dy);
        lemma_exchange_conserves(m1, m2, d2, uu, ww, au, aw);
        let na = nax * nax + nay * nay;
        let nb = nbx * nbx + nby * nby;
        let ra = rax * rax + ray * ray;
        let rb = rbx * rbx + rby * rby;
        assert(m1 * na + m2 * nb == qq * (m1 * uu + m2 * ww));
        assert(m1 >= 0 && m2 >= 0 && qq > 0) by (nonlinear_arith)
            requires
                m1 == a.bound.0 * a.bound.0,
                m2 == b.bound.0 * b.bound.0,
                qq == q * q,
                q > 0,
        ;
        assert(ra * qq <= na && rb * qq <= nb) by (nonlinear_arith)
            requires
                ra == rax * rax + ray * ray,
                rb == rbx * rbx + rby * rby,
                na == nax * nax + nay * nay,
                nb == nbx * nbx + nby * nby,
                (rax * rax) * qq <= nax * nax,
                (ray * ray) * qq <= nay * nay,
                (rbx * rbx) * qq <= nbx * nbx,
                (rby * rby) * qq <= nby * nby,
        ;
        let after = m1 * ra + m2 * rb;
        let before = m1 * uu + m2 * ww;
        assert(after * qq <= before * qq) by (nonlinear_arith)
            requires
                after == m1 * ra + m2 * rb,
                m1 * na + m2 * nb == qq * before,
                ra * qq <= na,
                rb * qq <= nb,
                m1 >= 0,
                m2 >= 0,
        ;
        assert(after <= before) by (nonlinear_arith)
            requires
                after * qq <= before * qq,
                qq > 0,
        ;
        assert(resolved(a, b).0.vel.0.x == rax);
        assert(resolved(a, b).0.vel.0.y == ray);
        assert(resolved(a, b).1.vel.0.x == rbx);
        assert(resolved(a, b).1.vel.0.y == rby);
    }
}

} // verus!
