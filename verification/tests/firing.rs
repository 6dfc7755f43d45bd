use arena_sim::constants::{BULLET_LIFETIME, BULLET_SPEED, SHOOT_COOLDOWN};
use arena_sim::fixed::Vec2;
use arena_sim::gun::{fire_control, Bullet, Gun};
use arena_sim::world::SpawnRequest;

fn ready_gun() -> Gun {
    Gun { shoot_cooldown: SHOOT_COOLDOWN, shoot_timer: 0 }
}

fn facing_x() -> Vec2 {
    Vec2 { x: 1_000, y: 0 }
}

#[test]
fn trigger_with_ready_gun_fires() {
    // A pulse at t = 0.0 with the 0.2 s cooldown elapsed spawns one
    // projectile at the muzzle, flying toward the aim point.
    let (g2, facing2, req) = fire_control(
        ready_gun(),
        Vec2 { x: 0, y: 0 },
        facing_x(),
        Some(Vec2 { x: 100_000, y: 0 }),
        true,
        0,
    );
    assert_eq!(g2.shoot_timer, SHOOT_COOLDOWN);
    assert_eq!(facing2, Vec2 { x: 1_000, y: 0 });
    match req {
        Some(SpawnRequest::Projectile(t, b)) => {
            assert_eq!(t.pos, Vec2 { x: 23_000, y: 0 });
            assert_eq!(t.facing, Vec2 { x: 1_000, y: 0 });
            assert_eq!(
                b,
                Bullet {
                    lifetime: BULLET_LIFETIME,
                    speed: BULLET_SPEED,
                    direction: Vec2 { x: 1_000, y: 0 },
                }
            );
        }
        other => panic!("expected a projectile request, got {:?}", other),
    }
}

#[test]
fn second_pulse_within_cooldown_is_gated() {
    // Cooldown 0.2 s; pulses at t = 0.0 and t = 0.15. Only the first
    // spawns: at the second the timer still reads 0.05 s.
    let pos = Vec2 { x: 0, y: 0 };
    let aim = Some(Vec2 { x: 100_000, y: 0 });
    let (g1, _, req1) = fire_control(ready_gun(), pos, facing_x(), aim, true, 0);
    assert!(req1.is_some());
    let (g2, _, req2) = fire_control(g1, pos, facing_x(), aim, true, 150);
    assert!(req2.is_none());
    assert_eq!(g2.shoot_timer, 50);
}

#[test]
fn pulse_after_cooldown_elapsed_fires_again() {
    let pos = Vec2 { x: 0, y: 0 };
    let aim = Some(Vec2 { x: 100_000, y: 0 });
    let (g1, _, req1) = fire_control(ready_gun(), pos, facing_x(), aim, true, 0);
    assert!(req1.is_some());
    let (g2, _, req2) = fire_control(g1, pos, facing_x(), aim, true, 200);
    assert!(req2.is_some());
    assert_eq!(g2.shoot_timer, SHOOT_COOLDOWN);
}

#[test]
fn no_aim_target_never_fires() {
    let (g2, facing2, req) = fire_control(
        ready_gun(),
        Vec2 { x: 0, y: 0 },
        facing_x(),
        None,
        true,
        100,
    );
    assert!(req.is_none());
    assert_eq!(g2.shoot_timer, 0);
    assert_eq!(facing2, facing_x());
}

#[test]
fn aim_at_own_position_never_fires() {
    let pos = Vec2 { x: 5_000, y: -5_000 };
    let (_, facing2, req) = fire_control(ready_gun(), pos, facing_x(), Some(pos), true, 0);
    assert!(req.is_none());
    assert_eq!(facing2, facing_x());
}

#[test]
fn no_trigger_only_counts_down() {
    let g = Gun { shoot_cooldown: SHOOT_COOLDOWN, shoot_timer: 120 };
    let (g2, _, req) = fire_control(
        g,
        Vec2 { x: 0, y: 0 },
        facing_x(),
        Some(Vec2 { x: 100_000, y: 0 }),
        false,
        50,
    );
    assert!(req.is_none());
    assert_eq!(g2.shoot_timer, 70);
}

#[test]
fn timer_floors_at_zero() {
    let g = Gun { shoot_cooldown: SHOOT_COOLDOWN, shoot_timer: 120 };
    let (g2, _, req) = fire_control(
        g,
        Vec2 { x: 0, y: 0 },
        facing_x(),
        None,
        false,
        1_000,
    );
    assert!(req.is_none());
    assert_eq!(g2.shoot_timer, 0);
}

#[test]
fn diagonal_aim_normalizes_direction() {
    // Aim up-right at 45 degrees: the direction is the normalized
    // diagonal, so each component is 1000 * 1000 / ceil(sqrt(2_000_000)).
    let (_, facing2, req) = fire_control(
        ready_gun(),
        Vec2 { x: 0, y: 0 },
        facing_x(),
        Some(Vec2 { x: 40_000, y: 40_000 }),
        true,
        0,
    );
    // |(40_000, 40_000)| rounds up to 56_569; 40_000_000 / 56_569 = 707.
    assert_eq!(facing2, Vec2 { x: 707, y: 707 });
    match req {
        Some(SpawnRequest::Projectile(t, b)) => {
            assert_eq!(b.direction, Vec2 { x: 707, y: 707 });
            // Muzzle: 707 * 23_000 / 1000 = 16_261 on each axis.
            assert_eq!(t.pos, Vec2 { x: 16_261, y: 16_261 });
        }
        other => panic!("expected a projectile request, got {:?}", other),
    }
}
