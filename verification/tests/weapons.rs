use asteroids::weapons::{
    bullet_despawn_system, Bullet, CANNON_BULLET_DAMAGE, CANNON_BULLET_LIFETIME,
    CANNON_BULLET_RADIUS,
};

#[test]
fn bullet_numbers() {
    assert_eq!(CANNON_BULLET_RADIUS, 1);
    assert_eq!(CANNON_BULLET_DAMAGE, 10);
    assert_eq!(CANNON_BULLET_LIFETIME, 1_250_000);
    assert_eq!(Bullet::new(), Bullet(1_250_000));
}

#[test]
fn bullets_age_and_expire() {
    let mut bullets = vec![Bullet(1_250_000), Bullet(16_667), Bullet(16_668), Bullet(1), Bullet(0)];
    let gone = bullet_despawn_system(&mut bullets, 16_667);
    assert_eq!(gone, vec![false, true, false, true, true]);
    assert_eq!(bullets, vec![Bullet(1_233_333), Bullet(0), Bullet(1), Bullet(0), Bullet(0)]);
    let gone = bullet_despawn_system(&mut bullets, 0);
    assert_eq!(gone, vec![false, true, false, true, true]);
    let mut none: Vec<Bullet> = Vec::new();
    assert!(bullet_despawn_system(&mut none, 5).is_empty());
}

#[test]
fn bullet_lives_a_second_and_a_quarter() {
    let mut bullets = vec![Bullet::new()];
    let mut frames = 0;
    // sixty frames a second
    while !bullet_despawn_system(&mut bullets, 16_667)[0] {
        frames += 1;
        assert!(frames < 1000);
    }
    // 1250000 / 16667 = 74.998: gone on the 75th frame
    assert_eq!(frames, 74);
}

#[test]
fn bullet_survives_a_huge_step_without_wrapping() {
    let mut bullets = vec![Bullet::new()];
    let gone = bullet_despawn_system(&mut bullets, u64::MAX);
    assert_eq!(gone, vec![true]);
    assert_eq!(bullets, vec![Bullet(0)]);
}
