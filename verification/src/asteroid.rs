//! Asteroids: size tiers, health, launch velocities and the fragmentation
//! cascade.
//!
//! A destroyed asteroid is replaced by freshly generated children of the next
//! smaller tier. Dividing the parent's own outline into arcs is the other
//! way to break an asteroid up; it is kept apart, in the module `split`.

use vstd::prelude::*;
use rand::rngs::StdRng;
use crate::boundary::{Circle, GAME_BORDER_OFFSET, GAME_FRAME_HEIGHT, GAME_FRAME_WIDTH};
use crate::collision::{circles_touching, touching, Bounding};
use crate::geometry::{Vector, REACH};
use crate::movement::SpeedLimit;
use crate::random::{draw_below, draw_ratio};

verus! {

/// The three size bands of asteroids.
#[derive(Clone, Copy, Debug, PartialEq, Eq, Structural)]
pub enum Tier {
    Large,
    Medium,
    Small,
}

/// Remaining structural integrity. An entity is destroyed when a hit would
/// take it below zero.
#[derive(Clone, Copy, Debug, PartialEq, Eq, Structural)]
pub struct Health(pub i64);

/// The damage that a body deals on contact.
#[derive(Clone, Copy, Debug, PartialEq, Eq, Structural)]
pub struct Damage(pub i64);

/// Marks a body as a rock that breaks up when destroyed.
#[derive(Clone, Copy, Debug, PartialEq, Eq, Structural)]
pub struct Asteroid;

impl Tier {
    /// The tier of a radius: 60 to 80 is large, 30 to 50 is medium, and every
    /// other radius counts as small.
    pub open spec fn of(radius: int) -> Tier {
        if 60 <= radius <= 80 {
            Tier::Large
        } else if 30 <= radius <= 50 {
            Tier::Medium
        } else {
            Tier::Small
        }
    }

    /// The least nominal radius of the tier.
    pub open spec fn min_radius(self) -> int {
        match self {
            Tier::Large => 60,
            Tier::Medium => 30,
            Tier::Small => 10,
        }
    }

    /// The greatest nominal radius of the tier.
    pub open spec fn max_radius(self) -> int {
        match self {
            Tier::Large => 80,
            Tier::Medium => 50,
            Tier::Small => 20,
        }
    }

    /// How far below the target radius a vertex of the outline may lie.
    pub open spec fn spread(self) -> int {
        match self {
            Tier::Large => 30,
            Tier::Medium => 15,
            Tier::Small => 3,
        }
    }

    /// The health of a fresh asteroid of the tier.
    pub open spec fn health_points(self) -> int {
        match self {
            Tier::Large => 30,
            Tier::Medium => 20,
            Tier::Small => 1,
        }
    }

    /// The least launch speed of the tier.
    pub open spec fn min_speed(self) -> int {
        match self {
            Tier::Large => 10,
            Tier::Medium => 20,
            Tier::Small => 30,
        }
    }

    /// The launch speeds of the tier stay below this.
    pub open spec fn speed_limit(self) -> int {
        match self {
            Tier::Large => 50,
            Tier::Medium => 60,
            Tier::Small => 70,
        }
    }

    /// How many children a destroyed asteroid of the tier leaves.
    pub open spec fn children(self) -> int {
        match self {
            Tier::Large => 2,
            Tier::Medium => 3,
            Tier::Small => 0,
        }
    }

    /// The tier of those children. A small asteroid leaves none.
    pub open spec fn child_tier(self) -> Option<Tier> {
        match self {
            Tier::Large => Some(Tier::Medium),
            Tier::Medium => Some(Tier::Small),
            Tier::Small => None,
        }
    }

    /// The nominal radius band `(min, max)` of the tier.
    pub fn band(&self) -> (r: (i64, i64))
        ensures
            r.0 == self.min_radius(),
            r.1 == self.max_radius(),
    {
        match self {
            Tier::Large => (60, 80),
            Tier::Medium => (30, 50),
            Tier::Small => (10, 20),
        }
    }

    /// The launch speeds `(min, limit)` of the tier: a speed `s` of the tier
    /// has `min <= s < limit`.
    pub fn speeds(&self) -> (r: (i64, i64))
        ensures
            r.0 == self.min_speed(),
            r.1 == self.speed_limit(),
    {
        match self {
            Tier::Large => (10, 50),
            Tier::Medium => (20, 60),
            Tier::Small => (30, 70),
        }
    }

    /// How far below the target radius a vertex of the outline may lie.
    pub fn vertex_spread(&self) -> (r: i64)
        ensures
            r == self.spread(),
    {
        match self {
            Tier::Large => 30,
            Tier::Medium => 15,
            Tier::Small => 3,
        }
    }

    /// The number and tier of the children that a destroyed asteroid of this
    /// tier leaves: two medium ones for a large, three small ones for a
    /// medium, none for a small.
    pub fn fragments(&self) -> (r: (i32, Option<Tier>))
        ensures
            r.0 == self.children(),
            r.1 == self.child_tier(),
    {
        match self {
            Tier::Large => (2, Some(Tier::Medium)),
            Tier::Medium => (3, Some(Tier::Small)),
            Tier::Small => (0, None),
        }
    }
}

/// The tier of an asteroid of the given radius.
pub fn tier_of(radius: &Bounding) -> (t: Tier)
    ensures
        t == Tier::of(radius.0 as int),
{
    if 60 <= radius.0 && radius.0 <= 80 {
        Tier::Large
    } else if 30 <= radius.0 && radius.0 <= 50 {
        Tier::Medium
    } else {
        Tier::Small
    }
}

/// The health of a fresh asteroid of the given radius: 30 for a large one,
/// 20 for a medium one, 1 for any other.
pub fn health(radius: &Bounding) -> (h: Health)
    ensures
        h.0 == Tier::of(radius.0 as int).health_points(),
{
    match tier_of(radius) {
        Tier::Large => Health(30),
        Tier::Medium => Health(20),
        Tier::Small => Health(1),
    }
}

/// The direction in which a fresh asteroid is launched.
#[derive(Clone, Copy, Debug, PartialEq, Eq, Structural)]
pub enum Heading {
    /// Turned by the angle between the asteroid's own position and the
    /// diagonal `(1, 1)`.
    Diagonal,
    /// Turned by this many degrees, from 0 to 359.
    Degrees(i64),
}

/// The launch of a fresh asteroid: a direction and a speed in units per
/// second.
#[derive(Clone, Copy, Debug, PartialEq, Eq, Structural)]
pub struct Launch {
    pub heading: Heading,
    pub speed: i64,
}

impl Launch {
    /// What holds of every launch of an asteroid of the tier: a large one
    /// heads off by its own position, the others in a whole number of
    /// degrees; the speed lies in the band of the tier.
    pub open spec fn fits(self, tier: Tier) -> bool {
        &&& tier.min_speed() <= self.speed < tier.speed_limit()
        &&& match self.heading {
            Heading::Diagonal => tier == Tier::Large,
            Heading::Degrees(d) => tier != Tier::Large && 0 <= d < 360,
        }
    }
}

/// Draws the launch of a fresh asteroid of the given radius. Smaller tiers
/// are launched faster, and in a random direction.
pub fn velocity(radius: &Bounding, rng: &mut StdRng) -> (l: Launch)
    ensures
        l.fits(Tier::of(radius.0 as int)),
{
    let tier = tier_of(radius);
    let heading = match tier {
        Tier::Large => Heading::Diagonal,
        _ => Heading::Degrees(draw_below(rng, 0, 360)),
    };
    let (lo, hi) = tier.speeds();
    let speed = draw_below(rng, lo, hi);
    Launch { heading, speed }
}

/// A request for fresh asteroids: `amount` of them, of about the given
/// radius, placed in a ring around `pos`.
#[derive(Clone, Copy, Debug, PartialEq, Eq, Structural)]
pub struct AsteroidSpawnEvent {
    pub pos: Vector,
    pub radius: Bounding,
    pub amount: i32,
}

/// Everything that one fresh asteroid is made from, but for the trigonometry
/// that turns degrees into offsets.
///
/// The asteroid stands `offset` units from the position of the request, at
/// `bearing` degrees. Vertex `k` of its outline lies `points[k]` units from
/// its centre, at `(k + 1) * 360 / points.len()` degrees.
#[derive(Debug)]
pub struct AsteroidBundle {
    pub bearing: i64,
    pub offset: i64,
    pub points: Vec<i64>,
    pub bound: Bounding,
    pub vel: Launch,
    pub health: Health,
    pub vel_limit: SpeedLimit,
    pub marker: Asteroid,
}

/// The sum of the magnitudes of `s`.
pub open spec fn sum_abs(s: Seq<i64>) -> int
    decreases s.len(),
{
    if s.len() == 0 {
        0
    } else {
        sum_abs(s.drop_last()) + vstd::math::abs(s.last() as int)
    }
}

/// The mean distance of the vertices of an outline from its centre, rounded
/// down.
pub open spec fn mean_radius(outline: Seq<i64>) -> int {
    sum_abs(outline) / (outline.len() as int)
}

/// The collision radius of an asteroid with the given outline: the mean
/// distance of its vertices from the centre, held within the nominal band of
/// the tier.
pub open spec fn bounding_radius(outline: Seq<i64>, tier: Tier) -> int {
    let mean = mean_radius(outline);
    if mean < tier.min_radius() {
        tier.min_radius()
    } else if mean > tier.max_radius() {
        tier.max_radius()
    } else {
        mean
    }
}

/// Every vertex of the outline lies at most `spread` below the target radius
/// and never above it.
pub open spec fn outline_fits(outline: Seq<i64>, radius: int) -> bool {
    &&& 9 <= outline.len() < 15
    &&& forall|k: int|
        0 <= k < outline.len() ==> radius - Tier::of(radius).spread() <= #[trigger] outline[k]
            <= radius
}

impl AsteroidBundle {
    /// What holds of child number `index` generated from `event`, whatever
    /// was drawn.
    pub open spec fn born_of(self, event: AsteroidSpawnEvent, index: int) -> bool {
        let tier = Tier::of(event.radius.0 as int);
        &&& self.bearing == (360int / (event.amount as int)) * index
        &&& self.offset == event.radius.0 * 5 / 4
        &&& outline_fits(self.points@, event.radius.0 as int)
        &&& self.bound.0 == bounding_radius(self.points@, tier)
        &&& tier.min_radius() <= self.bound.0 <= tier.max_radius()
        &&& self.vel.fits(tier)
        &&& self.health.0 == tier.health_points()
        &&& self.vel_limit == SpeedLimit(200)
    }
}

/// The mean distance of the vertices of an outline from its centre.
pub fn outline_mean(outline: &Vec<i64>) -> (r: i64)
    requires
        outline.len() > 0,
        forall|k: int| 0 <= k < outline.len() ==> -REACH <= #[trigger] outline[k] <= REACH,
    ensures
        r == mean_radius(outline@),
        0 <= r <= REACH,
{
    let n = outline.len();
    let mut total: i128 = 0;
    let mut k: usize = 0;
    while k < n
        invariant
            n == outline.len(),
            0 <= k <= n,
            total == sum_abs(outline@.take(k as int)),
            0 <= total <= k * REACH,
            forall|j: int| 0 <= j < outline.len() ==> -REACH <= #[trigger] outline[j] <= REACH,
        decreases n - k,
    {
        let v: i64 = outline[k];
        let m: i64 = if v < 0 {
            -v
        } else {
            v
        };
        proof {
            let next = outline@.take(k + 1);
            assert(next.drop_last() =~= outline@.take(k as int));
            assert(next.last() == v);
            assert((k + 1) * REACH == k * REACH + REACH) by (nonlinear_arith);
            assert(k * REACH <= usize::MAX * REACH) by (nonlinear_arith)
                requires
                    k <= usize::MAX,
            ;
        }
        total = total + m as i128;
        k = k + 1;
    }
    proof {
        assert(outline@.take(n as int) =~= outline@);
        assert(total / (n as i128) <= REACH) by (nonlinear_arith)
            requires
                0 <= total <= n * REACH,
                n > 0,
        ;
        assert(0 <= total / (n as i128)) by (nonlinear_arith)
            requires
                0 <= total,
                n > 0,
        ;
    }
    (total / (n as i128)) as i64
}

/// Draws the outline of a fresh asteroid of about the given radius: between
/// 9 and 14 vertices, each at a distance drawn from the band that the tier
/// allows below the radius.
pub fn generate_outline(radius: &Bounding, rng: &mut StdRng) -> (outline: Vec<i64>)
    requires
        radius.wf(),
    ensures
        outline_fits(outline@, radius.0 as int),
{
    let edges = draw_below(rng, 9, 15);
    let spread = tier_of(radius).vertex_spread();
    let mut outline: Vec<i64> = Vec::new();
    let mut k: i64 = 0;
    while k < edges
        invariant
            radius.wf(),
            9 <= edges < 15,
            0 <= k <= edges,
            outline.len() == k,
            spread == Tier::of(radius.0 as int).spread(),
            forall|j: int|
                0 <= j < outline.len() ==> radius.0 - spread <= #[trigger] outline[j] <= radius.0,
        decreases edges - k,
    {
        let r = draw_below(rng, radius.0 - spread, radius.0 + 1);
        outline.push(r);
        k = k + 1;
    }
    outline
}

/// Generates the asteroids that `event` asks for. Child number `i` of
/// `amount` is placed at `360 / amount * i` degrees, five quarters of the
/// radius away from the position of the request, which keeps the two or
/// three children of a destroyed asteroid apart at birth.
pub fn asteroid_generation_system(event: &AsteroidSpawnEvent, rng: &mut StdRng) -> (children: Vec<
    AsteroidBundle,
>)
    requires
        event.radius.wf(),
    ensures
        children.len() == (if event.amount > 0 {
            event.amount as int
        } else {
            0
        }),
        forall|i: int| 0 <= i < children.len() ==> (#[trigger] children[i]).born_of(*event, i),
{
    let mut children: Vec<AsteroidBundle> = Vec::new();
    let tier = tier_of(&event.radius);
    let (min, max) = tier.band();
    let amount: i64 = event.amount as i64;
    let mut i: i64 = 0;
    while i < amount
        invariant
            event.radius.wf(),
            amount == event.amount,
            0 <= i,
            i <= amount || i == 0,
            children.len() == i,
            tier == Tier::of(event.radius.0 as int),
            min == tier.min_radius(),
            max == tier.max_radius(),
            forall|j: int| 0 <= j < children.len() ==> (#[trigger] children[j]).born_of(*event, j),
        decreases amount - i,
    {
        let step: i64 = 360 / amount;
        assert(0 <= step <= 360) by (nonlinear_arith)
            requires
                step == 360int / (amount as int),
                amount >= 1,
        ;
        assert(0 <= step * i <= 360 * amount) by (nonlinear_arith)
            requires
                0 <= step <= 360,
                0 <= i < amount,
        ;
        let bearing: i64 = step * i;
        let offset: i64 = event.radius.0 * 5 / 4;
        let points = generate_outline(&event.radius, rng);
        let mean = outline_mean(&points);
        let bound = if mean < min {
            min
        } else if mean > max {
            max
        } else {
            mean
        };
        let vel = velocity(&event.radius, rng);
        let child = AsteroidBundle {
            bearing,
            offset,
            points,
            bound: Bounding(bound),
            vel,
            health: health(&event.radius),
            vel_limit: SpeedLimit(200),
            marker: Asteroid,
        };
        assert(child.born_of(*event, i as int));
        let ghost before = children@;
        children.push(child);
        assert forall|j: int| 0 <= j < children.len() implies (#[trigger] children[j]).born_of(
            *event,
            j,
        ) by {
            if j < before.len() {
                assert(children[j] == before[j]);
            }
        }
        i = i + 1;
    }
    children
}

/// Half the width of the rectangle on whose edges asteroids appear.
pub open spec fn spawn_half_width() -> int {
    (GAME_FRAME_WIDTH - GAME_BORDER_OFFSET) / 2
}

/// Half the height of the rectangle on whose edges asteroids appear.
pub open spec fn spawn_half_height() -> int {
    (GAME_FRAME_HEIGHT - GAME_BORDER_OFFSET) / 2
}

/// The tier that a roll from 0 to 10 stands for: large up to 3, medium up
/// to 6, small up to 9, and large again for 10.
pub open spec fn spawn_tier_spec(size: int) -> Tier {
    if 0 <= size <= 3 {
        Tier::Large
    } else if 4 <= size <= 6 {
        Tier::Medium
    } else if 7 <= size <= 9 {
        Tier::Small
    } else {
        Tier::Large
    }
}

/// The point of the spawn rectangle that lies `along` the edge number
/// `side`: 0 is the left edge, 1 the right, 2 the bottom, and any other
/// number the top.
pub open spec fn spawn_position_spec(side: int, along: int) -> Vector {
    if side == 0 {
        Vector { x: (-spawn_half_width()) as i64, y: along as i64 }
    } else if side == 1 {
        Vector { x: spawn_half_width() as i64, y: along as i64 }
    } else if side == 2 {
        Vector { x: along as i64, y: (-spawn_half_height()) as i64 }
    } else {
        Vector { x: along as i64, y: spawn_half_height() as i64 }
    }
}

/// The point lies on an edge of the spawn rectangle.
pub open spec fn on_spawn_edge(pos: Vector) -> bool {
    let w = spawn_half_width();
    let h = spawn_half_height();
    ||| (pos.x == -w || pos.x == w) && -h <= pos.y < h
    ||| (pos.y == -h || pos.y == h) && -w <= pos.x < w
}

/// Every body is within `REACH` and has a positive radius.
pub open spec fn circles_wf(bodies: Seq<Circle>) -> bool {
    forall|i: int| 0 <= i < bodies.len() ==> (#[trigger] bodies[i]).wf()
}

/// A circle at `pos` touches none of the bodies.
pub open spec fn clear_of(pos: Vector, radius: Bounding, bodies: Seq<Circle>) -> bool {
    forall|i: int|
        0 <= i < bodies.len() ==> !touching(pos, radius, (#[trigger] bodies[i]).pos, bodies[i].bound)
}

/// The radius lies in the nominal band of one of the tiers.
pub open spec fn in_a_band(radius: int) -> bool {
    ||| Tier::Large.min_radius() <= radius <= Tier::Large.max_radius()
    ||| Tier::Medium.min_radius() <= radius <= Tier::Medium.max_radius()
    ||| Tier::Small.min_radius() <= radius <= Tier::Small.max_radius()
}

/// The tier that a roll from 0 to 10 stands for.
pub fn spawn_tier(size: i64) -> (t: Tier)
    ensures
        t == spawn_tier_spec(size as int),
{
    if 0 <= size && size <= 3 {
        Tier::Large
    } else if 4 <= size && size <= 6 {
        Tier::Medium
    } else if 7 <= size && size <= 9 {
        Tier::Small
    } else {
        Tier::Large
    }
}

/// The point of the spawn rectangle `along` the edge number `side`.
pub fn spawn_position(side: i64, along: i64) -> (pos: Vector)
    ensures
        pos == spawn_position_spec(side as int, along as int),
{
    let h: i64 = (GAME_FRAME_HEIGHT - GAME_BORDER_OFFSET) / 2;
    let w: i64 = (GAME_FRAME_WIDTH - GAME_BORDER_OFFSET) / 2;
    if side == 0 {
        Vector { x: -w, y: along }
    } else if side == 1 {
        Vector { x: w, y: along }
    } else if side == 2 {
        Vector { x: along, y: -h }
    } else {
        Vector { x: along, y: h }
    }
}

/// Asks for one asteroid of the given radius at `pos`, unless it would touch
/// one of the asteroids that are there already.
pub fn spawn_candidate(pos: Vector, radius: Bounding, asteroids: &Vec<Circle>) -> (r: Option<
    AsteroidSpawnEvent,
>)
    requires
        pos.in_reach(),
        radius.wf(),
        circles_wf(asteroids@),
    ensures
        r == (if clear_of(pos, radius, asteroids@) {
            Some(AsteroidSpawnEvent { pos, radius, amount: 1 })
        } else {
            None
        }),
{
    let mut i: usize = 0;
    while i < asteroids.len()
        invariant
            0 <= i <= asteroids.len(),
            pos.in_reach(),
            radius.wf(),
            circles_wf(asteroids@),
            forall|k: int|
                0 <= k < i ==> !touching(
                    pos,
                    radius,
                    (#[trigger] asteroids[k]).pos,
                    asteroids[k].bound,
                ),
        decreases asteroids.len() - i,
    {
        assert(asteroids[i as int].wf());
        if circles_touching(&pos, &radius, &asteroids[i].pos, &asteroids[i].bound) {
            return None;
        }
        i = i + 1;
    }
    Some(AsteroidSpawnEvent { pos, radius, amount: 1 })
}

/// Now and then asks for a new asteroid on the edge of the field. One time
/// in six, a tier is rolled, then a radius of that tier, an edge and a place
/// on it; the request is made if the new asteroid would touch none of the
/// asteroids that are there.
pub fn asteroid_spawn_system(rng: &mut StdRng, asteroids: &Vec<Circle>) -> (r: Option<
    AsteroidSpawnEvent,
>)
    requires
        circles_wf(asteroids@),
    ensures
        exists|draws: SpawnDraws| draws.valid() && r == #[trigger] spawn_outcome(draws, asteroids@),
        r matches Some(ev) ==> {
            &&& ev.amount == 1
            &&& in_a_band(ev.radius.0 as int)
            &&& on_spawn_edge(ev.pos)
            &&& clear_of(ev.pos, ev.radius, asteroids@)
        },
{
    if !draw_ratio(rng, 1, 6) {
        proof {
            let idle = SpawnDraws { roll: false, size: 0, radius: 60, side: 0, along: 0 };
            assert(idle.valid());
            assert(spawn_outcome(idle, asteroids@) is None);
        }
        return None;
    }
    let h: i64 = (GAME_FRAME_HEIGHT - GAME_BORDER_OFFSET) / 2;
    let w: i64 = (GAME_FRAME_WIDTH - GAME_BORDER_OFFSET) / 2;
    let size = draw_below(rng, 0, 11);
    let (min, max) = spawn_tier(size).band();
    let radius = draw_below(rng, min, max + 1);
    let side = draw_below(rng, 0, 4);
    let along = if side < 2 {
        draw_below(rng, -h, h)
    } else {
        draw_below(rng, -w, w)
    };
    let draws = SpawnDraws { roll: true, size, radius, side, along };
    let r = spawn_request(&draws, asteroids);
    proof {
        assert(draws.valid());
        assert(r == spawn_outcome(draws, asteroids@));
    }
    r
}

/// What is drawn for one request for a new asteroid: whether to ask at all,
/// the roll for the tier, the radius, the number of the edge and the place
/// along it.
#[derive(Clone, Copy, Debug, PartialEq, Eq, Structural)]
pub struct SpawnDraws {
    pub roll: bool,
    pub size: i64,
    pub radius: i64,
    pub side: i64,
    pub along: i64,
}

impl SpawnDraws {
    /// The draws are such as the spawn system makes: a roll from 0 to 10, a
    /// radius of the band of the tier that the roll stands for, an edge from
    /// 0 to 3, and a place within that edge.
    pub open spec fn valid(self) -> bool {
        let tier = spawn_tier_spec(self.size as int);
        &&& 0 <= self.size <= 10
        &&& tier.min_radius() <= self.radius <= tier.max_radius()
        &&& 0 <= self.side <= 3
        &&& self.side < 2 ==> -spawn_half_height() <= self.along < spawn_half_height()
        &&& self.side >= 2 ==> -spawn_half_width() <= self.along < spawn_half_width()
    }

    /// Tells whether the draws are such as the spawn system makes.
    pub fn is_valid(&self) -> (r: bool)
        ensures
            r == self.valid(),
    {
        let h: i64 = (GAME_FRAME_HEIGHT - GAME_BORDER_OFFSET) / 2;
        let w: i64 = (GAME_FRAME_WIDTH - GAME_BORDER_OFFSET) / 2;
        let (min, max) = spawn_tier(self.size).band();
        0 <= self.size && self.size <= 10 && min <= self.radius && self.radius <= max && 0
            <= self.side && self.side <= 3 && (if self.side < 2 {
            -h <= self.along && self.along < h
        } else {
            -w <= self.along && self.along < w
        })
    }
}

/// What the spawn system returns for given draws: nothing where the roll
/// says not to ask; else a request for one asteroid of the drawn radius at
/// the drawn place on the drawn edge, unless that asteroid would touch one
/// of those that are there.
pub open spec fn spawn_outcome(draws: SpawnDraws, asteroids: Seq<Circle>) -> Option<
    AsteroidSpawnEvent,
> {
    let pos = spawn_position_spec(draws.side as int, draws.along as int);
    let radius = Bounding(draws.radius);
    if draws.roll && clear_of(pos, radius, asteroids) {
        Some(AsteroidSpawnEvent { pos, radius, amount: 1 })
    } else {
        None
    }
}

/// Decides on a request for a new asteroid from what was drawn.
pub fn spawn_request(draws: &SpawnDraws, asteroids: &Vec<Circle>) -> (r: Option<
    AsteroidSpawnEvent,
>)
    requires
        draws.valid(),
        circles_wf(asteroids@),
    ensures
        r == spawn_outcome(*draws, asteroids@),
        r matches Some(ev) ==> {
            &&& in_a_band(ev.radius.0 as int)
            &&& on_spawn_edge(ev.pos)
        },
{
    if !draws.roll {
        return None;
    }
    let pos = spawn_position(draws.side, draws.along);
    spawn_candidate(pos, Bounding(draws.radius), asteroids)
}

} // verus!
