//! Damage transfer: what a contact with a damaging body does to a victim.
//!
//! A hit takes the dealer's damage off the victim's health. A victim whose
//! health would fall below zero is destroyed, once; one that survives blinks.
//! A bullet is spent by its first hit and never hits again.

use vstd::prelude::*;
use core::ops::Range;
use rand::rngs::StdRng;
use crate::asteroid::{
    tier_of, Asteroid, AsteroidBundle, AsteroidSpawnEvent, Damage, Health, Tier,
};
use crate::collision::{circles_touching, touching, Bounding};
use crate::events::{DestructionEvent, Entity, Flick, GrainParticleSpawnEvent};
use crate::geometry::{div_toward_zero, Vector};
use crate::movement::Velocity;
use crate::random::draw_below;

verus! {

/// A body that can take damage.
#[derive(Clone, Copy, Debug, PartialEq, Eq, Structural)]
pub struct Victim {
    pub entity: Entity,
    pub pos: Vector,
    pub bound: Bounding,
    pub health: Health,
    pub asteroid: Option<Asteroid>,
}

/// A body that deals damage on contact. A bullet is spent by its first hit.
#[derive(Clone, Copy, Debug, PartialEq, Eq, Structural)]
pub struct Dealer {
    pub entity: Entity,
    pub vel: Velocity,
    pub pos: Vector,
    pub bound: Bounding,
    pub damage: Damage,
    pub bullet: bool,
}

impl Victim {
    /// The victim is within reach and its health is not negative.
    pub open spec fn wf(self) -> bool {
        &&& self.pos.in_reach()
        &&& self.bound.wf()
        &&& 0 <= self.health.0
    }

    /// Tells whether the victim is well formed.
    pub fn is_valid(&self) -> (r: bool)
        ensures
            r == self.wf(),
    {
        self.pos.within_reach() && self.bound.is_valid() && 0 <= self.health.0
    }
}

impl Dealer {
    /// The dealer is within reach and its damage is not negative.
    pub open spec fn wf(self) -> bool {
        &&& self.pos.in_reach()
        &&& self.bound.wf()
        &&& 0 <= self.damage.0
    }

    /// Tells whether the dealer is well formed.
    pub fn is_valid(&self) -> (r: bool)
        ensures
            r == self.wf(),
    {
        self.pos.within_reach() && self.bound.is_valid() && 0 <= self.damage.0
    }
}

/// Every dealer of the sequence is well formed.
pub open spec fn dealers_wf(dealers: Seq<Dealer>) -> bool {
    forall|j: int| 0 <= j < dealers.len() ==> (#[trigger] dealers[j]).wf()
}

/// Every victim of the sequence is well formed.
pub open spec fn victims_wf(victims: Seq<Victim>) -> bool {
    forall|i: int| 0 <= i < victims.len() ==> (#[trigger] victims[i]).wf()
}

/// The blink of a victim that survives a hit.
pub open spec fn hit_flick() -> Flick {
    Flick { switch_micros: 1_000, duration_micros: 75_000, repeating: false }
}

/// The sparks where a dealer strikes: a few grains thrown back against the
/// dealer's motion.
pub open spec fn spark(d: Dealer) -> GrainParticleSpawnEvent {
    GrainParticleSpawnEvent {
        pos: d.pos,
        spawn_radius: d.bound.0,
        particles: Range { start: 3, end: 15 },
        impact_vel: Vector {
            x: (-div_toward_zero(d.vel.0.x as int, 4)) as i64,
            y: (-div_toward_zero(d.vel.0.y as int, 4)) as i64,
        },
    }
}

/// The debris of a small asteroid, carried along with the dealer.
pub open spec fn debris(d: Dealer) -> GrainParticleSpawnEvent {
    GrainParticleSpawnEvent {
        pos: d.pos,
        spawn_radius: d.bound.0,
        particles: Range { start: 30, end: 70 },
        impact_vel: Vector {
            x: div_toward_zero(d.vel.0.x as int, 3) as i64,
            y: div_toward_zero(d.vel.0.y as int, 3) as i64,
        },
    }
}

/// The dust of an asteroid that breaks up, within two thirds of its radius.
pub open spec fn dust(v: Victim) -> GrainParticleSpawnEvent {
    GrainParticleSpawnEvent {
        pos: v.pos,
        spawn_radius: (v.bound.0 * 2 / 3) as i64,
        particles: Range { start: 100, end: 200 },
        impact_vel: Vector { x: 0, y: 0 },
    }
}

/// What one hit brings about.
#[derive(Debug)]
pub struct Hit {
    pub victim: Entity,
    pub dealer: Entity,
    /// The health of the victim after the hit.
    pub health: Health,
    pub destruction: Option<DestructionEvent>,
    pub spawn: Option<AsteroidSpawnEvent>,
    pub grains: Vec<GrainParticleSpawnEvent>,
    pub flick: Option<Flick>,
    /// The dealer, where the hit has spent it.
    pub despawn: Option<Entity>,
}

impl Hit {
    /// The hit is what the dealer `d` does to the victim `v`.
    ///
    /// A hit that would take the health below zero destroys the victim and
    /// leaves its health as it was. A destroyed asteroid breaks up by its
    /// tier: a large one into two medium ones, a medium one into three small
    /// ones, each request with a radius of the children's band; a small one
    /// leaves debris only. Any other hit takes the damage off the health and
    /// makes the victim blink.
    pub open spec fn settles(self, v: Victim, d: Dealer) -> bool {
        let left = v.health.0 - d.damage.0;
        let tier = Tier::of(v.bound.0 as int);
        &&& self.victim == v.entity
        &&& self.dealer == d.entity
        &&& self.despawn == (if d.bullet {
            Some(d.entity)
        } else {
            None
        })
        &&& if left < 0 {
            &&& self.health == v.health
            &&& self.destruction == Some(DestructionEvent { entity: v.entity })
            &&& self.flick is None
            &&& if v.asteroid is Some {
                match tier.child_tier() {
                    Some(child) => {
                        &&& self.spawn matches Some(ev)
                        &&& ev.pos == v.pos
                        &&& ev.amount == tier.children()
                        &&& child.min_radius() <= ev.radius.0 <= child.max_radius()
                        &&& self.grains@ == seq![dust(v)]
                    },
                    None => {
                        &&& self.spawn is None
                        &&& self.grains@ == seq![spark(d), debris(d)]
                    },
                }
            } else {
                &&& self.spawn is None
                &&& self.grains@ == Seq::<GrainParticleSpawnEvent>::empty()
            }
        } else {
            &&& self.health.0 == left
            &&& self.destruction is None
            &&& self.spawn is None
            &&& self.grains@ == seq![spark(d)]
            &&& self.flick == Some(hit_flick())
        }
    }
}

/// Works out what the dealer does to the victim that it touches.
pub fn land_hit(victim: &Victim, dealer: &Dealer, rng: &mut StdRng) -> (hit: Hit)
    requires
        victim.wf(),
        dealer.wf(),
    ensures
        hit.settles(*victim, *dealer),
{
    let left: i64 = victim.health.0 - dealer.damage.0;
    let despawn = if dealer.bullet {
        Some(dealer.entity)
    } else {
        None
    };
    let mut grains: Vec<GrainParticleSpawnEvent> = Vec::new();
    let sparks = GrainParticleSpawnEvent {
        pos: dealer.pos,
        spawn_radius: dealer.bound.0,
        particles: Range { start: 3, end: 15 },
        impact_vel: Vector { x: -(dealer.vel.0.x / 4), y: -(dealer.vel.0.y / 4) },
    };
    if left >= 0 {
        grains.push(sparks);
        proof {
            assert(grains@ =~= seq![spark(*dealer)]);
        }
        return Hit {
            victim: victim.entity,
            dealer: dealer.entity,
            health: Health(left),
            destruction: None,
            spawn: None,
            grains,
            flick: Some(Flick { switch_micros: 1_000, duration_micros: 75_000, repeating: false }),
            despawn,
        };
    }
    let mut spawn: Option<AsteroidSpawnEvent> = None;
    if victim.asteroid.is_some() {
        let (amount, child) = tier_of(&victim.bound).fragments();
        match child {
            Some(tier) => {
                let (min, max) = tier.band();
                let radius = draw_below(rng, min, max + 1);
                spawn = Some(AsteroidSpawnEvent { pos: victim.pos, radius: Bounding(radius), amount });
                grains.push(
                    GrainParticleSpawnEvent {
                        pos: victim.pos,
                        spawn_radius: victim.bound.0 * 2 / 3,
                        particles: Range { start: 100, end: 200 },
                        impact_vel: Vector { x: 0, y: 0 },
                    },
                );
                proof {
                    assert(grains@ =~= seq![dust(*victim)]);
                }
            },
            None => {
                grains.push(sparks);
                grains.push(
                    GrainParticleSpawnEvent {
                        pos: dealer.pos,
                        spawn_radius: dealer.bound.0,
                        particles: Range { start: 30, end: 70 },
                        impact_vel: Vector { x: dealer.vel.0.x / 3, y: dealer.vel.0.y / 3 },
                    },
                );
                proof {
                    assert(grains@ =~= seq![spark(*dealer), debris(*dealer)]);
                }
            },
        }
    }
    Hit {
        victim: victim.entity,
        dealer: dealer.entity,
        health: victim.health,
        destruction: Some(DestructionEvent { entity: victim.entity }),
        spawn,
        grains,
        flick: None,
        despawn,
    }
}

/// One hit in the course of a scan: which dealer struck, and the health that
/// the victim had just before.
pub struct Blow {
    pub dealer: int,
    pub before: int,
}

/// Where a victim stands after some of the dealers have been tried on it.
pub struct Scan {
    /// The health of the victim.
    pub health: int,
    /// Whether a hit has destroyed the victim.
    pub destroyed: bool,
    /// Which dealers are spent.
    pub spent: Seq<bool>,
    /// The hits that the victim took, in order.
    pub blows: Seq<Blow>,
}

/// The victim `v` after the first `upto` dealers have been tried on it, in
/// order, where `spent` tells which dealers were spent beforehand.
///
/// A dealer hits when it is not spent, the victim is not yet destroyed, and
/// the two touch. The hit takes the damage off the health, or destroys the
/// victim if the health would fall below zero. A bullet that hits is spent.
pub open spec fn scan(v: Victim, dealers: Seq<Dealer>, spent: Seq<bool>, upto: int) -> Scan
    decreases upto,
{
    if upto <= 0 {
        Scan { health: v.health.0 as int, destroyed: false, spent, blows: Seq::empty() }
    } else {
        let s = scan(v, dealers, spent, upto - 1);
        let d = dealers[upto - 1];
        if s.destroyed || s.spent[upto - 1] || !touching(v.pos, v.bound, d.pos, d.bound) {
            s
        } else {
            let left = s.health - d.damage.0;
            Scan {
                health: if left < 0 {
                    s.health
                } else {
                    left
                },
                destroyed: left < 0,
                spent: if d.bullet {
                    s.spent.update(upto - 1, true)
                } else {
                    s.spent
                },
                blows: s.blows.push(Blow { dealer: upto - 1, before: s.health }),
            }
        }
    }
}

/// Which dealers are spent after the first `upto` victims have been scanned,
/// in order, each against all the dealers.
pub open spec fn sweep(victims: Seq<Victim>, dealers: Seq<Dealer>, upto: int) -> Seq<bool>
    decreases upto,
{
    if upto <= 0 {
        Seq::new(dealers.len(), |j: int| false)
    } else {
        scan(victims[upto - 1], dealers, sweep(victims, dealers, upto - 1), dealers.len() as int).spent
    }
}

/// The victim `v` with another health.
pub open spec fn with_health(v: Victim, health: int) -> Victim {
    Victim { health: Health(health as i64), ..v }
}

/// The hits are those of the scan, one for each blow and in the same order.
pub open spec fn hits_follow(
    hits: Seq<Hit>,
    v: Victim,
    dealers: Seq<Dealer>,
    s: Scan,
) -> bool {
    &&& hits.len() == s.blows.len()
    &&& forall|k: int|
        0 <= k < hits.len() ==> (#[trigger] hits[k]).settles(
            with_health(v, s.blows[k].before),
            dealers[s.blows[k].dealer],
        )
}

/// A scan keeps the number of dealers, never un-spends one, keeps the health
/// between zero and where it started, and records in-range dealers.
pub proof fn lemma_scan_shape(v: Victim, dealers: Seq<Dealer>, spent: Seq<bool>, upto: int)
    requires
        v.wf(),
        dealers_wf(dealers),
        spent.len() == dealers.len(),
        0 <= upto <= dealers.len(),
    ensures
        scan(v, dealers, spent, upto).spent.len() == dealers.len(),
        0 <= scan(v, dealers, spent, upto).health <= v.health.0,
        forall|j: int|
            0 <= j < dealers.len() && spent[j] ==> #[trigger] scan(v, dealers, spent, upto).spent[j],
        forall|k: int|
            0 <= k < scan(v, dealers, spent, upto).blows.len() ==> {
                let b = #[trigger] scan(v, dealers, spent, upto).blows[k];
                0 <= b.dealer < upto && 0 <= b.before <= v.health.0
            },
    decreases upto,
{
    if upto > 0 {
        lemma_scan_shape(v, dealers, spent, upto - 1);
        let s = scan(v, dealers, spent, upto - 1);
        let t = scan(v, dealers, spent, upto);
        assert(dealers[upto - 1].wf());
        assert forall|k: int| 0 <= k < t.blows.len() implies {
            let b = #[trigger] t.blows[k];
            0 <= b.dealer < upto && 0 <= b.before <= v.health.0
        } by {
            if k < s.blows.len() {
                assert(t.blows[k] == s.blows[k]);
            }
        }
    }
}

/// Tries every dealer on the victim, in order, and lets each one that hits
/// take effect. `spent` tells which dealers are spent, before and after.
pub fn strike(
    victim: &mut Victim,
    dealers: &Vec<Dealer>,
    spent: &mut Vec<bool>,
    rng: &mut StdRng,
) -> (hits: Vec<Hit>)
    requires
        old(victim).wf(),
        dealers_wf(dealers@),
        old(spent).len() == dealers.len(),
    ensures
        final(victim).wf(),
        final(spent).len() == dealers.len(),
        *final(victim) == with_health(
            *old(victim),
            scan(*old(victim), dealers@, old(spent)@, dealers.len() as int).health,
        ),
        final(spent)@ == scan(*old(victim), dealers@, old(spent)@, dealers.len() as int).spent,
        hits_follow(
            hits@,
            *old(victim),
            dealers@,
            scan(*old(victim), dealers@, old(spent)@, dealers.len() as int),
        ),
{
    let ghost v0 = *victim;
    let ghost spent0 = spent@;
    let mut hits: Vec<Hit> = Vec::new();
    let mut destroyed = false;
    let mut j: usize = 0;
    while j < dealers.len()
        invariant
            0 <= j <= dealers.len(),
            v0.wf(),
            dealers_wf(dealers@),
            spent0.len() == dealers.len(),
            spent.len() == dealers.len(),
            *victim == with_health(v0, scan(v0, dealers@, spent0, j as int).health),
            victim.wf(),
            destroyed == scan(v0, dealers@, spent0, j as int).destroyed,
            spent@ == scan(v0, dealers@, spent0, j as int).spent,
            hits_follow(hits@, v0, dealers@, scan(v0, dealers@, spent0, j as int)),
        decreases dealers.len() - j,
    {
        let ghost s = scan(v0, dealers@, spent0, j as int);
        let ghost t = scan(v0, dealers@, spent0, j + 1);
        proof {
            lemma_scan_shape(v0, dealers@, spent0, j as int);
            lemma_scan_shape(v0, dealers@, spent0, j + 1);
            assert(dealers[j as int].wf());
        }
        let dealer = &dealers[j];
        if !destroyed && !spent[j] && circles_touching(
            &victim.pos,
            &victim.bound,
            &dealer.pos,
            &dealer.bound,
        ) {
            let hit = land_hit(victim, dealer, rng);
            victim.health = hit.health;
            destroyed = hit.destruction.is_some();
            if dealer.bullet {
                spent.set(j, true);
            }
            let ghost before = hits@;
            hits.push(hit);
            proof {
                assert(*victim == with_health(v0, t.health));
                assert forall|k: int| 0 <= k < hits.len() implies (#[trigger] hits[k]).settles(
                    with_health(v0, t.blows[k].before),
                    dealers@[t.blows[k].dealer],
                ) by {
                    if k < before.len() {
                        assert(hits[k] == before[k]);
                        assert(t.blows[k] == s.blows[k]);
                    }
                }
            }
        }
        j = j + 1;
    }
    hits
}

/// What a round of damage transfer brings about: for each victim the hits
/// that it took, and for each dealer whether it is spent.
#[derive(Debug)]
pub struct DamageReport {
    pub hits: Vec<Vec<Hit>>,
    pub spent: Vec<bool>,
}

/// One round of damage transfer. The victims are scanned in order, each
/// against all the dealers in order; a dealer spent on one victim is out of
/// play for the victims after it.
pub fn damage_transfer_system(
    victims: &mut Vec<Victim>,
    dealers: &Vec<Dealer>,
    rng: &mut StdRng,
) -> (report: DamageReport)
    requires
        victims_wf(old(victims)@),
        dealers_wf(dealers@),
    ensures
        final(victims).len() == old(victims).len(),
        victims_wf(final(victims)@),
        report.hits.len() == old(victims).len(),
        report.spent@ == sweep(old(victims)@, dealers@, old(victims).len() as int),
        forall|i: int|
            0 <= i < old(victims).len() ==> {
                let s = scan(
                    old(victims)[i],
                    dealers@,
                    sweep(old(victims)@, dealers@, i),
                    dealers.len() as int,
                );
                &&& #[trigger] final(victims)[i] == with_health(old(victims)[i], s.health)
                &&& hits_follow(report.hits[i]@, old(victims)[i], dealers@, s)
            },
{
    let ghost before = victims@;
    let mut spent: Vec<bool> = Vec::new();
    let mut j: usize = 0;
    while j < dealers.len()
        invariant
            0 <= j <= dealers.len(),
            spent.len() == j,
            forall|k: int| 0 <= k < j ==> !(#[trigger] spent[k]),
        decreases dealers.len() - j,
    {
        spent.push(false);
        j = j + 1;
    }
    proof {
        assert(spent@ =~= sweep(before, dealers@, 0));
    }
    let mut hits: Vec<Vec<Hit>> = Vec::new();
    let mut i: usize = 0;
    while i < victims.len()
        invariant
            0 <= i <= victims.len(),
            victims.len() == before.len(),
            victims_wf(before),
            dealers_wf(dealers@),
            hits.len() == i,
            spent.len() == dealers.len(),
            spent@ == sweep(before, dealers@, i as int),
            forall|k: int| i <= k < before.len() ==> #[trigger] victims[k] == before[k],
            forall|k: int|
                0 <= k < i ==> {
                    let s = scan(before[k], dealers@, sweep(before, dealers@, k), dealers.len() as int);
                    &&& #[trigger] victims[k] == with_health(before[k], s.health)
                    &&& (#[trigger] victims[k]).wf()
                    &&& hits_follow(hits[k]@, before[k], dealers@, s)
                },
        decreases victims.len() - i,
    {
        let mut victim = victims[i];
        assert(victim == before[i as int]);
        assert(before[i as int].wf());
        let ghost done = victims@;
        let ghost taken = hits@;
        let blows = strike(&mut victim, dealers, &mut spent, rng);
        victims.set(i, victim);
        hits.push(blows);
        proof {
            assert forall|k: int| 0 <= k < i + 1 implies {
                let s = scan(before[k], dealers@, sweep(before, dealers@, k), dealers.len() as int);
                &&& #[trigger] victims[k] == with_health(before[k], s.health)
                &&& (#[trigger] victims[k]).wf()
                &&& hits_follow(hits[k]@, before[k], dealers@, s)
            } by {
                if k < i {
                    assert(victims[k] == done[k]);
                    assert(hits[k] == taken[k]);
                }
            }
        }
        i = i + 1;
    }
    proof {
        assert forall|k: int| 0 <= k < victims.len() implies (#[trigger] victims[k]).wf() by {}
    }
    DamageReport { hits, spent }
}

/// The blow would take the health of the victim below zero.
pub open spec fn fatal(b: Blow, dealers: Seq<Dealer>) -> bool {
    b.before - dealers[b.dealer].damage.0 < 0
}

/// The order of a scan. The dealers hit in their own order, and none that
/// was spent beforehand hits; a bullet that hits is spent. The health before
/// each blow is no more than before the blow that preceded it. Only the last
/// blow can be fatal, and the victim is destroyed exactly when it is.
pub proof fn lemma_scan_order(v: Victim, dealers: Seq<Dealer>, spent: Seq<bool>, upto: int)
    requires
        v.wf(),
        dealers_wf(dealers),
        spent.len() == dealers.len(),
        0 <= upto <= dealers.len(),
    ensures
        ({
            let s = scan(v, dealers, spent, upto);
            &&& forall|k: int|
                0 <= k < s.blows.len() ==> {
                    let j = (#[trigger] s.blows[k]).dealer;
                    &&& 0 <= j < upto
                    &&& !spent[j]
                    &&& dealers[j].bullet ==> s.spent[j]
                    &&& s.health <= s.blows[k].before <= v.health.0
                }
            &&& forall|k: int, l: int|
                0 <= k < l < s.blows.len() ==> {
                    &&& (#[trigger] s.blows[k]).dealer < (#[trigger] s.blows[l]).dealer
                    &&& s.blows[l].before <= s.blows[k].before
                    &&& !fatal(s.blows[k], dealers)
                }
            &&& s.destroyed <==> s.blows.len() > 0 && fatal(s.blows.last(), dealers)
            &&& !s.destroyed && s.blows.len() > 0 ==> s.health == s.blows.last().before
                - dealers[s.blows.last().dealer].damage.0
        }),
    decreases upto,
{
    if upto > 0 {
        lemma_scan_order(v, dealers, spent, upto - 1);
        lemma_scan_shape(v, dealers, spent, upto - 1);
        let s = scan(v, dealers, spent, upto - 1);
        let t = scan(v, dealers, spent, upto);
        let d = dealers[upto - 1];
        assert(d.wf());
        if s.destroyed || s.spent[upto - 1] || !touching(v.pos, v.bound, d.pos, d.bound) {
        } else {
            assert(t.blows.last() == Blow { dealer: upto - 1, before: s.health });
            assert(!spent[upto - 1]) by {
                if spent[upto - 1] {
                    assert(s.spent[upto - 1]);
                }
            }
            assert forall|k: int| 0 <= k < t.blows.len() implies {
                let j = (#[trigger] t.blows[k]).dealer;
                &&& 0 <= j < upto
                &&& !spent[j]
                &&& dealers[j].bullet ==> t.spent[j]
                &&& t.health <= t.blows[k].before <= v.health.0
            } by {
                if k < s.blows.len() {
                    assert(t.blows[k] == s.blows[k]);
                }
            }
            assert forall|k: int, l: int| 0 <= k < l < t.blows.len() implies {
                &&& (#[trigger] t.blows[k]).dealer < (#[trigger] t.blows[l]).dealer
                &&& t.blows[l].before <= t.blows[k].before
                &&& !fatal(t.blows[k], dealers)
            } by {
                assert(t.blows[k] == s.blows[k]);
                if l < s.blows.len() {
                    assert(t.blows[l] == s.blows[l]);
                } else {
                    if k == s.blows.len() - 1 {
                        assert(s.blows[k] == s.blows.last());
                    }
                }
            }
        }
    }
}

/// Health monotonicity and single destruction. Over the hits that a victim
/// takes in a scan, its health never grows. A hit destroys the victim
/// exactly when it is the last one and the scan ends in destruction; so a
/// victim whose health would fall below zero is reported destroyed exactly
/// once, under its own handle, and a victim that survives never is.
pub proof fn lemma_destroyed_once(
    hits: Seq<Hit>,
    v: Victim,
    dealers: Seq<Dealer>,
    spent: Seq<bool>,
)
    requires
        v.wf(),
        dealers_wf(dealers),
        spent.len() == dealers.len(),
        hits_follow(hits, v, dealers, scan(v, dealers, spent, dealers.len() as int)),
    ensures
        forall|k: int|
            0 <= k < hits.len() ==> ((#[trigger] hits[k]).destruction is Some <==> scan(
                v,
                dealers,
                spent,
                dealers.len() as int,
            ).destroyed && k == hits.len() - 1),
        forall|k: int|
            0 <= k < hits.len() ==> ((#[trigger] hits[k]).destruction matches Some(ev)
                ==> ev.entity == v.entity),
        forall|k: int| 0 <= k < hits.len() ==> 0 <= (#[trigger] hits[k]).health.0 <= v.health.0,
        forall|k: int, l: int|
            0 <= k < l < hits.len() ==> (#[trigger] hits[l]).health.0 <= (#[trigger] hits[k]).health.0,
        scan(v, dealers, spent, dealers.len() as int).health <= v.health.0,
{
    let n = dealers.len() as int;
    let s = scan(v, dealers, spent, n);
    lemma_scan_order(v, dealers, spent, n);
    lemma_scan_shape(v, dealers, spent, n);
    assert forall|k: int| 0 <= k < hits.len() implies ((#[trigger] hits[k]).destruction is Some
        <==> s.destroyed && k == hits.len() - 1) by {
        let b = s.blows[k];
        assert(hits[k].settles(with_health(v, b.before), dealers[b.dealer]));
        assert(dealers[b.dealer].wf());
        if k < hits.len() - 1 {
            assert(!fatal(s.blows[k], dealers)) by {
                let l = hits.len() - 1;
                assert(s.blows[k].dealer < s.blows[l].dealer);
            }
        } else {
            assert(s.blows[k] == s.blows.last());
        }
    }
    assert forall|k: int| 0 <= k < hits.len() implies ((#[trigger] hits[k]).destruction matches Some(
        ev,
    ) ==> ev.entity == v.entity) by {
        let b = s.blows[k];
        assert(hits[k].settles(with_health(v, b.before), dealers[b.dealer]));
    }
    assert forall|k: int| 0 <= k < hits.len() implies 0 <= (#[trigger] hits[k]).health.0
        <= v.health.0 by {
        let b = s.blows[k];
        assert(hits[k].settles(with_health(v, b.before), dealers[b.dealer]));
        assert(dealers[b.dealer].wf());
    }
    assert forall|k: int, l: int| 0 <= k < l < hits.len() implies (#[trigger] hits[l]).health.0 <= (
    #[trigger] hits[k]).health.0 by {
        let bk = s.blows[k];
        let bl = s.blows[l];
        assert(hits[k].settles(with_health(v, bk.before), dealers[bk.dealer]));
        assert(hits[l].settles(with_health(v, bl.before), dealers[bl.dealer]));
        assert(dealers[bk.dealer].wf());
        assert(dealers[bl.dealer].wf());
        assert(bk.dealer < bl.dealer);
        assert(!fatal(bk, dealers));
        lemma_blows_chain(v, dealers, spent, n, k, l);
    }
}

/// Between two blows of a scan the health does not rise above what the
/// earlier blow left.
proof fn lemma_blows_chain(
    v: Victim,
    dealers: Seq<Dealer>,
    spent: Seq<bool>,
    upto: int,
    k: int,
    l: int,
)
    requires
        v.wf(),
        dealers_wf(dealers),
        spent.len() == dealers.len(),
        0 <= upto <= dealers.len(),
        0 <= k < l < scan(v, dealers, spent, upto).blows.len(),
    ensures
        scan(v, dealers, spent, upto).blows[l].before <= scan(v, dealers, spent, upto).blows[k].before
            - dealers[scan(v, dealers, spent, upto).blows[k].dealer].damage.0,
    decreases upto,
{
    if upto > 0 {
        let s = scan(v, dealers, spent, upto - 1);
        let t = scan(v, dealers, spent, upto);
        let d = dealers[upto - 1];
        lemma_scan_order(v, dealers, spent, upto - 1);
        lemma_scan_shape(v, dealers, spent, upto - 1);
        if s.destroyed || s.spent[upto - 1] || !touching(v.pos, v.bound, d.pos, d.bound) {
            lemma_blows_chain(v, dealers, spent, upto - 1, k, l);
        } else {
            assert(t.blows[k] == s.blows[k]);
            if l < s.blows.len() {
                assert(t.blows[l] == s.blows[l]);
                lemma_blows_chain(v, dealers, spent, upto - 1, k, l);
            } else {
                // the new blow starts from the health that the scan had reached
                assert(t.blows[l].before == s.health);
                if k == s.blows.len() - 1 {
                    assert(s.blows[k] == s.blows.last());
                } else {
                    let m = s.blows.len() - 1;
                    lemma_blows_chain(v, dealers, spent, upto - 1, k, m);
                    assert(s.blows[m] == s.blows.last());
                    assert(dealers[s.blows[m].dealer].wf());
                }
            }
        }
    }
}

/// Every victim before `upto` is well formed, so the flags of a sweep stay
/// as many as the dealers, and a dealer that is spent stays spent.
pub proof fn lemma_sweep_keeps_spent(
    victims: Seq<Victim>,
    dealers: Seq<Dealer>,
    from: int,
    upto: int,
)
    requires
        victims_wf(victims),
        dealers_wf(dealers),
        0 <= from <= upto <= victims.len(),
    ensures
        sweep(victims, dealers, from).len() == dealers.len(),
        sweep(victims, dealers, upto).len() == dealers.len(),
        forall|j: int|
            0 <= j < dealers.len() && sweep(victims, dealers, from)[j] ==> #[trigger] sweep(
                victims,
                dealers,
                upto,
            )[j],
    decreases upto,
{
    if upto > 0 {
        if from < upto {
            lemma_sweep_keeps_spent(victims, dealers, from, upto - 1);
        } else {
            lemma_sweep_keeps_spent(victims, dealers, from - 1, upto - 1);
        }
        assert(victims[upto - 1].wf());
        lemma_scan_shape(
            victims[upto - 1],
            dealers,
            sweep(victims, dealers, upto - 1),
            dealers.len() as int,
        );
    }
}

/// A bullet is spent exactly once: in one round of damage transfer no
/// bullet hits two victims. If the same dealer hits an earlier and a later
/// victim, it is no bullet.
pub proof fn lemma_bullet_hits_once(
    victims: Seq<Victim>,
    dealers: Seq<Dealer>,
    first: int,
    second: int,
    k1: int,
    k2: int,
)
    requires
        victims_wf(victims),
        dealers_wf(dealers),
        0 <= first < second < victims.len(),
        0 <= k1 < scan(
            victims[first],
            dealers,
            sweep(victims, dealers, first),
            dealers.len() as int,
        ).blows.len(),
        0 <= k2 < scan(
            victims[second],
            dealers,
            sweep(victims, dealers, second),
            dealers.len() as int,
        ).blows.len(),
    ensures
        ({
            let n = dealers.len() as int;
            let b1 = scan(victims[first], dealers, sweep(victims, dealers, first), n).blows[k1];
            let b2 = scan(victims[second], dealers, sweep(victims, dealers, second), n).blows[k2];
            b1.dealer == b2.dealer ==> !dealers[b1.dealer].bullet
        }),
{
    let n = dealers.len() as int;
    let before1 = sweep(victims, dealers, first);
    let before2 = sweep(victims, dealers, second);
    lemma_sweep_keeps_spent(victims, dealers, first, first + 1);
    lemma_sweep_keeps_spent(victims, dealers, first + 1, second);
    assert(victims[first].wf());
    assert(victims[second].wf());
    lemma_scan_order(victims[first], dealers, before1, n);
    lemma_scan_order(victims[second], dealers, before2, n);
    let s1 = scan(victims[first], dealers, before1, n);
    let s2 = scan(victims[second], dealers, before2, n);
    let j = s1.blows[k1].dealer;
    if j == s2.blows[k2].dealer && dealers[j].bullet {
        assert(s1.spent[j]);
        assert(sweep(victims, dealers, first + 1) == s1.spent);
        assert(before2[j]);
        assert(!before2[s2.blows[k2].dealer]);
    }
}

/// The fragmentation law. The children generated for a destroyed asteroid
/// number two, with radii from 30 to 50, for a parent of radius 60 to 80;
/// three, with radii from 10 to 20, for a parent of radius 30 to 50; and
/// none for a parent of a radius below 30.
pub proof fn lemma_fragmentation(
    hit: Hit,
    v: Victim,
    d: Dealer,
    children: Seq<AsteroidBundle>,
)
    requires
        hit.settles(v, d),
        v.asteroid is Some,
        hit.destruction is Some,
        hit.spawn matches Some(ev) ==> children.len() == ev.amount && forall|i: int|
            0 <= i < children.len() ==> (#[trigger] children[i]).born_of(ev, i),
        hit.spawn is None ==> children.len() == 0,
    ensures
        60 <= v.bound.0 <= 80 ==> children.len() == 2 && forall|i: int|
            0 <= i < children.len() ==> 30 <= (#[trigger] children[i]).bound.0 <= 50,
        30 <= v.bound.0 <= 50 ==> children.len() == 3 && forall|i: int|
            0 <= i < children.len() ==> 10 <= (#[trigger] children[i]).bound.0 <= 20,
        v.bound.0 < 30 ==> children.len() == 0,
{
    if hit.spawn is Some {
        let ev = hit.spawn->0;
        assert forall|i: int| 0 <= i < children.len() implies Tier::of(
            ev.radius.0 as int,
        ).min_radius() <= (#[trigger] children[i]).bound.0 <= Tier::of(
            ev.radius.0 as int,
        ).max_radius() by {
            assert(children[i].born_of(ev, i));
        }
    }
}

} // verus!
