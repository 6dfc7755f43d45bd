use arena_sim::constants::{NPC_INITIAL_HEALTH, NPC_SPEED};
use arena_sim::fixed::Vec2;
use arena_sim::npc::{initial_npc, steer_npc, Npc, RetargetDecision};

#[test]
fn retarget_move_sets_scaled_unit_target() {
    let n = initial_npc();
    let (n2, _) = steer_npc(n, Vec2 { x: 0, y: 0 }, RetargetDecision::Move(Vec2 { x: 1_500, y: 0 }), 0);
    assert_eq!(n2.target_velocity, Vec2 { x: NPC_SPEED, y: 0 });
}

#[test]
fn retarget_stop_zeroes_target() {
    let n = Npc {
        velocity: Vec2 { x: 10_000, y: 0 },
        target_velocity: Vec2 { x: NPC_SPEED, y: 0 },
        speed: NPC_SPEED,
        health: NPC_INITIAL_HEALTH,
    };
    let (n2, _) = steer_npc(n, Vec2 { x: 0, y: 0 }, RetargetDecision::Stop, 0);
    assert_eq!(n2.target_velocity, Vec2 { x: 0, y: 0 });
}

#[test]
fn retarget_zero_sample_keeps_target() {
    // A zero-length direction sample carries no direction: the target
    // velocity stays what it was.
    let n = Npc {
        velocity: Vec2 { x: 0, y: 0 },
        target_velocity: Vec2 { x: NPC_SPEED, y: 0 },
        speed: NPC_SPEED,
        health: NPC_INITIAL_HEALTH,
    };
    let (n2, _) = steer_npc(n, Vec2 { x: 0, y: 0 }, RetargetDecision::Move(Vec2 { x: 0, y: 0 }), 0);
    assert_eq!(n2.target_velocity, Vec2 { x: NPC_SPEED, y: 0 });
}

#[test]
fn steering_follows_exponential_interpolation() {
    // Re-target chance forced off (Keep): over 0.1 s ticks the velocity
    // moves toward the fixed target by the factor 5.0 * 0.1 = 0.5 each
    // tick: 0 -> 50_000 -> 75_000 -> 87_500.
    let mut n = Npc {
        velocity: Vec2 { x: 0, y: 0 },
        target_velocity: Vec2 { x: NPC_SPEED, y: 0 },
        speed: NPC_SPEED,
        health: NPC_INITIAL_HEALTH,
    };
    let mut pos = Vec2 { x: 0, y: 0 };
    let expected_vel = [50_000i64, 75_000, 87_500];
    let expected_pos = [5_000i64, 12_500, 21_250];
    for k in 0..3 {
        let (n2, pos2) = steer_npc(n, pos, RetargetDecision::Keep, 100);
        n = n2;
        pos = pos2;
        assert_eq!(n.velocity, Vec2 { x: expected_vel[k], y: 0 });
        assert_eq!(pos, Vec2 { x: expected_pos[k], y: 0 });
        assert_eq!(n.target_velocity, Vec2 { x: NPC_SPEED, y: 0 });
    }
}

#[test]
fn steering_factor_saturates_at_one() {
    // A whole second at rate 5.0 would overshoot; the factor saturates,
    // so the velocity lands exactly on the target.
    let n = Npc {
        velocity: Vec2 { x: 0, y: 0 },
        target_velocity: Vec2 { x: 0, y: -NPC_SPEED },
        speed: NPC_SPEED,
        health: NPC_INITIAL_HEALTH,
    };
    let (n2, _) = steer_npc(n, Vec2 { x: 0, y: 0 }, RetargetDecision::Keep, 1_000);
    assert_eq!(n2.velocity, Vec2 { x: 0, y: -NPC_SPEED });
}

#[test]
fn agent_clamps_at_arena_edge_and_zeroes_axis() {
    let n = Npc {
        velocity: Vec2 { x: NPC_SPEED, y: 0 },
        target_velocity: Vec2 { x: NPC_SPEED, y: 0 },
        speed: NPC_SPEED,
        health: NPC_INITIAL_HEALTH,
    };
    let (n2, pos2) = steer_npc(n, Vec2 { x: 989_000, y: 0 }, RetargetDecision::Keep, 1_000);
    assert_eq!(pos2, Vec2 { x: 990_000, y: 0 });
    assert_eq!(n2.velocity, Vec2 { x: 0, y: 0 });
}

#[test]
fn steering_keeps_health_and_speed() {
    let n = Npc {
        velocity: Vec2 { x: 1_000, y: 2_000 },
        target_velocity: Vec2 { x: 0, y: 0 },
        speed: NPC_SPEED,
        health: 40_000,
    };
    let (n2, _) = steer_npc(n, Vec2 { x: 0, y: 0 }, RetargetDecision::Keep, 100);
    assert_eq!(n2.health, 40_000);
    assert_eq!(n2.speed, NPC_SPEED);
}
