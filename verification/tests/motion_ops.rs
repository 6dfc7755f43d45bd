use arena_sim::constants::{PLAYER_ACCEL, PLAYER_MAX_SPEED};
use arena_sim::fixed::Vec2;
use arena_sim::player::{camera_follow_player_system, initial_player, integrate_player, Player};

fn player_at_rest() -> Player {
    initial_player()
}

#[test]
fn integrate_accelerates_clamps_and_damps() {
    // Full intent along +x for 0.1 s from rest: acceleration yields
    // 600_000, the speed clamp cuts it to 400_000, and damping by
    // 1 / (1 + 10 * 0.1) = 1/2 leaves 200_000; the position advances by
    // 200_000 * 0.1 = 20_000.
    let p = player_at_rest();
    let (p2, pos2) = integrate_player(p, Vec2 { x: 0, y: 0 }, Vec2 { x: 1_000, y: 0 }, 100);
    assert_eq!(p2.velocity, Vec2 { x: 200_000, y: 0 });
    assert_eq!(pos2, Vec2 { x: 20_000, y: 0 });
    assert_eq!(p2.max_velocity, PLAYER_MAX_SPEED);
    assert_eq!(p2.acceleration, PLAYER_ACCEL);
}

#[test]
fn integrate_speed_never_exceeds_max() {
    // Push hard along the diagonal for many ticks; the squared speed
    // stays within the maximum.
    let mut p = player_at_rest();
    let mut pos = Vec2 { x: 0, y: 0 };
    for _ in 0..50 {
        let (p2, pos2) = integrate_player(p, pos, Vec2 { x: 1_000, y: 1_000 }, 100);
        p = p2;
        pos = pos2;
        let n = p.velocity.x as i128 * p.velocity.x as i128
            + p.velocity.y as i128 * p.velocity.y as i128;
        let m = PLAYER_MAX_SPEED as i128 * PLAYER_MAX_SPEED as i128;
        assert!(n <= m);
    }
}

#[test]
fn integrate_clamps_position_and_zeroes_velocity() {
    // A player at top speed right at the boundary: the position clamps
    // to the arena edge and the pressing velocity axis zeroes.
    let p = Player {
        velocity: Vec2 { x: 400_000, y: 0 },
        max_velocity: PLAYER_MAX_SPEED,
        acceleration: PLAYER_ACCEL,
    };
    let (p2, pos2) = integrate_player(p, Vec2 { x: 984_000, y: 0 }, Vec2 { x: 0, y: 0 }, 100);
    assert_eq!(pos2, Vec2 { x: 985_000, y: 0 });
    assert_eq!(p2.velocity, Vec2 { x: 0, y: 0 });
}

#[test]
fn integrate_is_still_under_zero_dt() {
    let p = Player {
        velocity: Vec2 { x: 123_000, y: -45_000 },
        max_velocity: PLAYER_MAX_SPEED,
        acceleration: PLAYER_ACCEL,
    };
    let pos = Vec2 { x: 1_000, y: 2_000 };
    let (p2, pos2) = integrate_player(p, pos, Vec2 { x: 1_000, y: 0 }, 0);
    assert_eq!(p2.velocity, p.velocity);
    assert_eq!(pos2, pos);
}

#[test]
fn camera_clamps_to_arena() {
    let c = camera_follow_player_system(Vec2 { x: 2_000_000, y: -2_000_000 });
    assert_eq!(c, Vec2 { x: 1_000_000, y: -1_000_000 });
    let inside = camera_follow_player_system(Vec2 { x: 5_000, y: -7_000 });
    assert_eq!(inside, Vec2 { x: 5_000, y: -7_000 });
}
