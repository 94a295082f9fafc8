//! Bullets: what they are made of and how long they live.

use vstd::prelude::*;

verus! {

/// The radius of a bullet.
pub const CANNON_BULLET_RADIUS: i64 = 1;

/// The damage that a bullet deals.
pub const CANNON_BULLET_DAMAGE: i64 = 10;

/// How long a bullet lives, in microseconds.
pub const CANNON_BULLET_LIFETIME: u64 = 1_250_000;

/// A bullet in flight: the microseconds that it has left to live.
#[derive(Clone, Copy, Debug, PartialEq, Eq, Structural)]
pub struct Bullet(pub u64);

impl Bullet {
    /// A bullet that has just been fired.
    pub fn new() -> (b: Bullet)
        ensures
            b == Bullet(CANNON_BULLET_LIFETIME),
    {
        Bullet(CANNON_BULLET_LIFETIME)
    }

    /// The bullet after `elapsed` microseconds: what it has left, never
    /// below zero.
    pub open spec fn aged(self, elapsed: u64) -> Bullet {
        if elapsed >= self.0 {
            Bullet(0)
        } else {
            Bullet((self.0 - elapsed) as u64)
        }
    }

    /// The bullet has used up its life.
    pub open spec fn expired(self) -> bool {
        self.0 == 0
    }
}

/// Ages every bullet by `elapsed` microseconds and tells which of them have
/// used up their lives and are to be removed, wherever they are.
pub fn bullet_despawn_system(bullets: &mut Vec<Bullet>, elapsed: u64) -> (gone: Vec<bool>)
    ensures
        final(bullets).len() == old(bullets).len(),
        gone.len() == old(bullets).len(),
        forall|i: int|
            0 <= i < old(bullets).len() ==> {
                &&& #[trigger] final(bullets)[i] == old(bullets)[i].aged(elapsed)
                &&& gone[i] == old(bullets)[i].aged(elapsed).expired()
            },
{
    let ghost before = bullets@;
    let mut gone: Vec<bool> = Vec::new();
    let mut i: usize = 0;
    while i < bullets.len()
        invariant
            0 <= i <= bullets.len(),
            bullets.len() == before.len(),
            gone.len() == i,
            forall|k: int| i <= k < before.len() ==> #[trigger] bullets[k] == before[k],
            forall|k: int|
                0 <= k < i ==> {
                    &&& #[trigger] bullets[k] == before[k].aged(elapsed)
                    &&& gone[k] == before[k].aged(elapsed).expired()
                },
        decreases bullets.len() - i,
    {
        let left = bullets[i].0;
        let aged = if elapsed >= left {
            Bullet(0)
        } else {
            Bullet(left - elapsed)
        };
        bullets.set(i, aged);
        gone.push(elapsed >= left);
        i = i + 1;
    }
    gone
}

/// A bullet is gone after its lifetime and not before: a fresh bullet aged
/// in steps that add up to less than `CANNON_BULLET_LIFETIME` is still in
/// flight, and one more step that reaches the lifetime ends it.
pub proof fn lemma_bullet_lifetime(first: u64, second: u64)
    ensures
        first < CANNON_BULLET_LIFETIME ==> !Bullet(CANNON_BULLET_LIFETIME).aged(first).expired(),
        first + second >= CANNON_BULLET_LIFETIME ==> Bullet(CANNON_BULLET_LIFETIME).aged(
            first,
        ).aged(second).expired(),
        first + second < CANNON_BULLET_LIFETIME ==> Bullet(CANNON_BULLET_LIFETIME).aged(first).aged(
            second,
        ) == Bullet((CANNON_BULLET_LIFETIME - first - second) as u64),
{
}

} // verus!
