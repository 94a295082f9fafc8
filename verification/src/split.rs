//! Breaking an asteroid along its own outline: the outline is divided into
//! three arcs, and each arc is closed into a piece through the centroid.

use vstd::prelude::*;
use rand::rngs::StdRng;
use crate::asteroid::{health, velocity, Health, Launch, Tier};
use crate::collision::Bounding;
use crate::geometry::{
    distance_between, distance_squared_spec, div_toward_zero, floor_sqrt, lemma_floor_sqrt_is,
    lemma_reach_squares, lemma_square_bound, lemma_square_monotone, Vector, REACH,
};

verus! {

/// The outline of an asteroid: its vertices in order, as offsets from the
/// centre. The polygon is closed: the last vertex joins the first.
#[derive(Debug)]
pub struct Points(pub Vec<Vector>);

/// A request to break an outline into three pieces around `pos`.
#[derive(Debug)]
pub struct AsteroidSplitEvent {
    pub parent_points: Vec<Vector>,
    pub pos: Vector,
    pub radius: Bounding,
    pub amount: usize,
}

/// One piece of a broken outline.
#[derive(Debug)]
pub struct AsteroidFragment {
    pub points: Points,
    pub pos: Vector,
    pub bound: Bounding,
    pub vel: Launch,
    pub health: Health,
}

/// The sum of the first components of `points`.
pub open spec fn sum_x(points: Seq<Vector>) -> int
    decreases points.len(),
{
    if points.len() == 0 {
        0
    } else {
        sum_x(points.drop_last()) + points.last().x
    }
}

/// The sum of the second components of `points`.
pub open spec fn sum_y(points: Seq<Vector>) -> int
    decreases points.len(),
{
    if points.len() == 0 {
        0
    } else {
        sum_y(points.drop_last()) + points.last().y
    }
}

/// The sum of the lengths of `points`, each rounded down.
pub open spec fn sum_norms(points: Seq<Vector>) -> int
    decreases points.len(),
{
    if points.len() == 0 {
        0
    } else {
        sum_norms(points.drop_last()) + floor_sqrt(points.last().norm_squared())
    }
}

/// The sum of `points` divided by `count`, each component rounded toward
/// zero.
pub open spec fn centroid(points: Seq<Vector>, count: int) -> Vector {
    Vector {
        x: div_toward_zero(sum_x(points), count) as i64,
        y: div_toward_zero(sum_y(points), count) as i64,
    }
}

/// Every point of the sequence is within `REACH`.
pub open spec fn all_in_reach(points: Seq<Vector>) -> bool {
    forall|k: int| 0 <= k < points.len() ==> (#[trigger] points[k]).in_reach()
}

/// The number of vertices that each arc of a split advances by.
pub open spec fn arc_step(len: int, amount: int) -> int {
    len / amount
}

/// An outline can be split into three arcs when the third arc is not empty.
pub open spec fn splittable(len: int, amount: int) -> bool {
    amount > 0 && 2 * arc_step(len, amount) < len
}

/// Piece `which` (0, 1 or 2) of the outline `pp` split with arcs of `step`
/// vertices: the shared centre, the last vertex of the arc before, the arc
/// itself with both of its end points, and the first vertex of the arc after.
pub open spec fn arc(pp: Seq<Vector>, step: int, centre: Vector, which: int) -> Seq<Vector> {
    let len = pp.len() as int;
    if which == 0 {
        seq![centre, pp[len - 1]] + pp.subrange(0, step + 1) + seq![pp[step]]
    } else if which == 1 {
        seq![centre, pp[step]] + pp.subrange(step, 2 * step + 1) + seq![pp[2 * step]]
    } else {
        seq![centre, pp[2 * step]] + pp.subrange(2 * step, len) + seq![pp[0]]
    }
}

impl AsteroidFragment {
    /// What holds of piece `which` of the outline of `event`, whatever was
    /// drawn for its launch.
    pub open spec fn broken_from(self, event: AsteroidSplitEvent, which: int) -> bool {
        let pp = event.parent_points@;
        let len = pp.len() as int;
        let centre = centroid(pp, len);
        let middle = centroid(self.points.0@, len);
        &&& self.points.0@ == arc(pp, arc_step(len, event.amount as int), centre, which)
        &&& self.pos.x == event.pos.x - vstd::math::abs(middle.x as int)
        &&& self.pos.y == event.pos.y - vstd::math::abs(middle.y as int)
        &&& self.bound.0 == sum_norms(self.points.0@) / (self.points.0@.len() as int)
        &&& self.vel.fits(Tier::of(self.bound.0 as int))
        &&& self.health.0 == Tier::of(self.bound.0 as int).health_points()
    }
}

proof fn lemma_sums_bounded(points: Seq<Vector>)
    requires
        all_in_reach(points),
    ensures
        -(points.len() * REACH) <= sum_x(points) <= points.len() * REACH,
        -(points.len() * REACH) <= sum_y(points) <= points.len() * REACH,
        0 <= sum_norms(points) <= points.len() * (2 * REACH),
    decreases points.len(),
{
    if points.len() > 0 {
        let t = points.drop_last();
        let p = points.last();
        assert(all_in_reach(t)) by {
            assert forall|k: int| 0 <= k < t.len() implies (#[trigger] t[k]).in_reach() by {
                assert(t[k] == points[k]);
            }
        }
        lemma_sums_bounded(t);
        lemma_norm_bounded(p);
        assert(points.len() * REACH == t.len() * REACH + REACH) by (nonlinear_arith)
            requires
                points.len() == t.len() + 1,
        ;
        assert(points.len() * (2 * REACH) == t.len() * (2 * REACH) + 2 * REACH)
            by (nonlinear_arith)
            requires
                points.len() == t.len() + 1,
        ;
    } else {
        assert(points.len() * REACH == 0) by (nonlinear_arith)
            requires
                points.len() == 0,
        ;
        assert(points.len() * (2 * REACH) == 0) by (nonlinear_arith)
            requires
                points.len() == 0,
        ;
    }
}

proof fn lemma_norm_bounded(p: Vector)
    requires
        p.in_reach(),
    ensures
        0 <= p.norm_squared() <= 2 * REACH * REACH,
        0 <= floor_sqrt(p.norm_squared()) <= 2 * REACH,
{
    lemma_reach_squares();
    lemma_square_bound(p.x as int, REACH as int);
    lemma_square_bound(p.y as int, REACH as int);
    lemma_floor_sqrt_is(p.norm_squared());
    lemma_square_monotone(floor_sqrt(p.norm_squared()), 2 * REACH + 1);
    assert((2 * REACH + 1) * (2 * REACH + 1) == 4_398_050_705_409) by (nonlinear_arith)
        requires
            REACH == 1_048_576,
    ;
}

/// The sums of the components of `points`.
fn component_sums(points: &Vec<Vector>) -> (r: (i128, i128))
    requires
        all_in_reach(points@),
    ensures
        r.0 == sum_x(points@),
        r.1 == sum_y(points@),
{
    let n = points.len();
    let mut sx: i128 = 0;
    let mut sy: i128 = 0;
    let mut k: usize = 0;
    while k < n
        invariant
            n == points.len(),
            0 <= k <= n,
            all_in_reach(points@),
            sx == sum_x(points@.take(k as int)),
            sy == sum_y(points@.take(k as int)),
        decreases n - k,
    {
        let p = points[k];
        proof {
            let next = points@.take(k + 1);
            assert(next.drop_last() =~= points@.take(k as int));
            assert(next.last() == p);
            assert(all_in_reach(points@.take(k as int))) by {
                assert forall|j: int| 0 <= j < k implies (#[trigger] points@.take(
                    k as int,
                )[j]).in_reach() by {
                    assert(points@.take(k as int)[j] == points[j]);
                }
            }
            lemma_sums_bounded(points@.take(k as int));
            assert(k * REACH <= usize::MAX * REACH) by (nonlinear_arith)
                requires
                    k <= usize::MAX,
            ;
        }
        sx = sx + p.x as i128;
        sy = sy + p.y as i128;
        k = k + 1;
    }
    proof {
        assert(points@.take(n as int) =~= points@);
    }
    (sx, sy)
}

/// The mean length of `points`, rounded down.
fn mean_norm(points: &Vec<Vector>) -> (r: i64)
    requires
        points.len() > 0,
        all_in_reach(points@),
    ensures
        r == sum_norms(points@) / (points.len() as int),
        0 <= r <= 2 * REACH,
{
    let origin = Vector { x: 0, y: 0 };
    let n = points.len();
    let mut total: i128 = 0;
    let mut k: usize = 0;
    while k < n
        invariant
            n == points.len(),
            0 <= k <= n,
            origin == (Vector { x: 0, y: 0 }),
            all_in_reach(points@),
            total == sum_norms(points@.take(k as int)),
            0 <= total <= k * (2 * REACH),
        decreases n - k,
    {
        let p = points[k];
        let d = distance_between(&origin, &p);
        proof {
            let next = points@.take(k + 1);
            assert(next.drop_last() =~= points@.take(k as int));
            assert(next.last() == p);
            assert(distance_squared_spec(origin, p) == p.norm_squared());
            lemma_norm_bounded(p);
            assert((k + 1) * (2 * REACH) == k * (2 * REACH) + 2 * REACH) by (nonlinear_arith);
            assert(k * (2 * REACH) <= usize::MAX * (2 * REACH)) by (nonlinear_arith)
                requires
                    k <= usize::MAX,
            ;
        }
        total = total + d as i128;
        k = k + 1;
    }
    proof {
        assert(points@.take(n as int) =~= points@);
        assert(0 <= total / (n as i128) <= 2 * REACH) by (nonlinear_arith)
            requires
                0 <= total <= n * (2 * REACH),
                n > 0,
        ;
    }
    (total / (n as i128)) as i64
}

/// Tells whether an outline of `len` vertices can be split with arcs of
/// `len / amount` vertices.
pub fn can_split(len: usize, amount: usize) -> (r: bool)
    ensures
        r == splittable(len as int, amount as int),
{
    if amount == 0 {
        return false;
    }
    let step = len / amount;
    step < len - step
}

/// Builds piece `which` of the outline `pp`.
fn build_arc(pp: &Vec<Vector>, step: usize, centre: Vector, which: usize) -> (out: Vec<Vector>)
    requires
        2 * step < pp.len(),
        which < 3,
    ensures
        out@ == arc(pp@, step as int, centre, which as int),
        0 < out.len() <= pp.len() + 3,
{
    let len = pp.len();
    let (before, start, end, after) = if which == 0 {
        (pp[len - 1], 0, step + 1, pp[step])
    } else if which == 1 {
        (pp[step], step, 2 * step + 1, pp[2 * step])
    } else {
        (pp[2 * step], 2 * step, len, pp[0])
    };
    let mut out: Vec<Vector> = Vec::new();
    out.push(centre);
    out.push(before);
    let mut k: usize = start;
    while k < end
        invariant
            start <= k <= end <= pp.len(),
            out@ == seq![centre, before] + pp@.subrange(start as int, k as int),
        decreases end - k,
    {
        out.push(pp[k]);
        proof {
            assert(pp@.subrange(start as int, k + 1) =~= pp@.subrange(start as int, k as int).push(
                pp@[k as int],
            ));
        }
        k = k + 1;
    }
    out.push(after);
    proof {
        assert(out@ =~= seq![centre, before] + pp@.subrange(start as int, end as int) + seq![
            after,
        ]);
    }
    out
}

proof fn lemma_arc_in_reach(pp: Seq<Vector>, step: int, centre: Vector, which: int)
    requires
        all_in_reach(pp),
        centre.in_reach(),
        0 <= step,
        2 * step < pp.len(),
        0 <= which < 3,
    ensures
        all_in_reach(arc(pp, step, centre, which)),
{
    let a = arc(pp, step, centre, which);
    assert forall|k: int| 0 <= k < a.len() implies (#[trigger] a[k]).in_reach() by {
        let len = pp.len() as int;
        if k == 0 {
        } else if k == 1 {
        } else if k == a.len() - 1 {
        } else if which == 0 {
            assert(a[k] == pp[k - 2]);
        } else if which == 1 {
            assert(a[k] == pp[step + k - 2]);
        } else {
            assert(a[k] == pp[2 * step + k - 2]);
        }
    }
}

/// A quotient rounded toward zero is no larger in magnitude than the bound
/// on the mean of its terms.
proof fn lemma_mean_bounded(sum: int, count: int, bound: int)
    requires
        count > 0,
        -(count * bound) <= sum <= count * bound,
    ensures
        -bound <= div_toward_zero(sum, count) <= bound,
{
    if sum >= 0 {
        assert(0 <= sum / count <= bound) by (nonlinear_arith)
            requires
                0 <= sum <= count * bound,
                count > 0,
        ;
    } else {
        let neg = -sum;
        assert(0 <= neg / count <= bound) by (nonlinear_arith)
            requires
                0 <= neg <= count * bound,
                count > 0,
        ;
    }
}

/// Rounds `sum / count` toward zero, for a sum of at most `4 * count` terms
/// within `REACH`.
fn mean_component(sum: i128, count: usize) -> (r: i64)
    requires
        count > 0,
        -(count * (4 * REACH)) <= sum <= count * (4 * REACH),
    ensures
        r == div_toward_zero(sum as int, count as int),
{
    proof {
        lemma_mean_bounded(sum as int, count as int, 4 * REACH);
    }
    (sum / (count as i128)) as i64
}

/// Makes a fragment of the piece `points` of an outline of `parent_len`
/// vertices, and draws its launch.
fn make_fragment(points: Vec<Vector>, parent_len: usize, pos: &Vector, rng: &mut StdRng) -> (f:
    AsteroidFragment)
    requires
        0 < points.len() <= parent_len + 3,
        parent_len > 0,
        all_in_reach(points@),
        pos.in_reach(),
    ensures
        f.points.0@ == points@,
        f.pos.x == pos.x - vstd::math::abs(centroid(points@, parent_len as int).x as int),
        f.pos.y == pos.y - vstd::math::abs(centroid(points@, parent_len as int).y as int),
        f.bound.0 == sum_norms(points@) / (points@.len() as int),
        f.vel.fits(Tier::of(f.bound.0 as int)),
        f.health.0 == Tier::of(f.bound.0 as int).health_points(),
{
    let (sx, sy) = component_sums(&points);
    proof {
        lemma_sums_bounded(points@);
        assert(points.len() * REACH <= parent_len * (4 * REACH)) by (nonlinear_arith)
            requires
                points.len() <= parent_len + 3,
                parent_len > 0,
        ;
        lemma_mean_bounded(sx as int, parent_len as int, 4 * REACH);
        lemma_mean_bounded(sy as int, parent_len as int, 4 * REACH);
    }
    let cx = mean_component(sx, parent_len);
    let cy = mean_component(sy, parent_len);
    let ax: i64 = if cx < 0 {
        -cx
    } else {
        cx
    };
    let ay: i64 = if cy < 0 {
        -cy
    } else {
        cy
    };
    let bound = Bounding(mean_norm(&points));
    let vel = velocity(&bound, rng);
    let health = health(&bound);
    AsteroidFragment {
        points: Points(points),
        pos: Vector { x: pos.x - ax, y: pos.y - ay },
        bound,
        vel,
        health,
    }
}

/// Breaks the outline of `event` into three pieces. The outline is divided
/// into three arcs of consecutive vertices, neighbours sharing their end
/// points, and each arc is closed into a polygon through the centroid of the
/// whole outline. Each piece gets the mean length of its vertices as its
/// radius, and the health and launch of the tier of that radius.
pub fn asteroid_split_system(event: &AsteroidSplitEvent, rng: &mut StdRng) -> (pieces: Vec<
    AsteroidFragment,
>)
    requires
        splittable(event.parent_points@.len() as int, event.amount as int),
        all_in_reach(event.parent_points@),
        event.pos.in_reach(),
    ensures
        pieces.len() == 3,
        forall|which: int|
            0 <= which < 3 ==> (#[trigger] pieces[which]).broken_from(*event, which),
{
    let pp = &event.parent_points;
    let len = pp.len();
    let step = len / event.amount;
    let (sx, sy) = component_sums(pp);
    proof {
        lemma_sums_bounded(pp@);
        assert(len * REACH <= len * (4 * REACH)) by (nonlinear_arith)
            requires
                len > 0,
        ;
        lemma_mean_bounded(sx as int, len as int, REACH as int);
        lemma_mean_bounded(sy as int, len as int, REACH as int);
    }
    let centre = Vector { x: mean_component(sx, len), y: mean_component(sy, len) };
    proof {
        assert(centre == centroid(pp@, len as int));
    }
    let mut pieces: Vec<AsteroidFragment> = Vec::new();
    let mut which: usize = 0;
    while which < 3
        invariant
            0 <= which <= 3,
            pieces.len() == which,
            pp == &event.parent_points,
            len == pp.len(),
            step == arc_step(len as int, event.amount as int),
            2 * step < len,
            all_in_reach(pp@),
            event.pos.in_reach(),
            centre.in_reach(),
            centre == centroid(pp@, len as int),
            forall|w: int| 0 <= w < pieces.len() ==> (#[trigger] pieces[w]).broken_from(*event, w),
        decreases 3 - which,
    {
        let points = build_arc(pp, step, centre, which);
        proof {
            lemma_arc_in_reach(pp@, step as int, centre, which as int);
        }
        let piece = make_fragment(points, len, &event.pos, rng);
        assert(piece.broken_from(*event, which as int));
        let ghost before = pieces@;
        pieces.push(piece);
        assert forall|w: int| 0 <= w < pieces.len() implies (#[trigger] pieces[w]).broken_from(
            *event,
            w,
        ) by {
            if w < before.len() {
                assert(pieces[w] == before[w]);
            }
        }
        which = which + 1;
    }
    pieces
}

} // verus!
