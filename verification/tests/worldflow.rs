use arena_sim::constants::{BULLET_LIFETIME, BULLET_SPEED, MAP_SIZE, NPC_COUNT, SHOOT_COOLDOWN};
use arena_sim::fixed::Vec2;
use arena_sim::game::{
    apply_deferred, bullet_collision_system, contact_overlap, draw_grid, render_states,
    setup_world,
};
use arena_sim::gun::{gun_controls, Bullet, Gun};
use arena_sim::motion::bullet_movement_system;
use arena_sim::npc::{npc_movement_system, spawn_npc, Npc, NPC_SPAWN_LIMIT};
use arena_sim::player::{player_movement_sys, spawn_player};
use arena_sim::world::{ContactEvent, Entity, EntityKind, Payload, World};

fn live_agents(w: &World) -> usize {
    render_states(w)
        .iter()
        .filter(|(_, kind, _)| *kind == EntityKind::Agent)
        .count()
}

fn live_bullets(w: &World) -> usize {
    render_states(w)
        .iter()
        .filter(|(_, kind, _)| *kind == EntityKind::Projectile)
        .count()
}

#[test]
fn grid_lines_span_the_arena_evenly() {
    let lines = draw_grid();
    assert_eq!(lines.len(), MAP_SIZE + 1);
    assert_eq!(lines[0], -1_000_000);
    assert_eq!(lines[1], -950_000);
    assert_eq!(lines[MAP_SIZE], 1_000_000);
}

#[test]
fn setup_populates_player_and_agents() {
    let w = setup_world();
    assert_eq!(w.entities.len(), 1 + NPC_COUNT);
    assert_eq!(w.entities[0].kind, EntityKind::Player);
    assert_eq!(live_agents(&w), NPC_COUNT);
    assert_eq!(render_states(&w).len(), 1 + NPC_COUNT);
}

#[test]
fn spawned_agents_stay_inside_the_spawn_bounds() {
    // The random placement never reaches the upper bound (uniform over a
    // half-open interval); a draw handed back unchanged would land on it.
    let mut w = World::new();
    for _ in 0..50 {
        let id = spawn_npc(&mut w);
        let p = w.entities[id].transform.pos;
        assert!(-NPC_SPAWN_LIMIT <= p.x && p.x < NPC_SPAWN_LIMIT);
        assert!(-NPC_SPAWN_LIMIT <= p.y && p.y < NPC_SPAWN_LIMIT);
    }
}

#[test]
fn a_full_tick_spawns_and_flies_a_bullet() {
    let mut w = World::new();
    spawn_player(&mut w);
    player_movement_sys(&mut w, Vec2 { x: 0, y: 0 }, 16);
    gun_controls(&mut w, Some(Vec2 { x: 500_000, y: 0 }), true, 16);
    assert_eq!(w.pending.len(), 1);
    apply_deferred(&mut w);
    assert_eq!(live_bullets(&w), 1);
    let bullet_id = 1;
    assert_eq!(w.entities[bullet_id].transform.pos, Vec2 { x: 23_000, y: 0 });

    // 0.1 s of flight at 2000 units/s moves the bullet 200 units.
    bullet_movement_system(&mut w, 100);
    assert_eq!(
        w.entities[bullet_id].transform.pos,
        Vec2 { x: 223_000, y: 0 }
    );
    match w.entities[bullet_id].payload {
        Payload::Projectile(b) => assert_eq!(b.lifetime, BULLET_LIFETIME - 100),
        _ => panic!("expected a projectile"),
    }
}

#[test]
fn bullets_despawn_when_their_lifetime_runs_out() {
    let mut w = World::new();
    spawn_player(&mut w);
    gun_controls(&mut w, Some(Vec2 { x: 500_000, y: 0 }), true, 0);
    apply_deferred(&mut w);
    assert_eq!(live_bullets(&w), 1);
    for _ in 0..2 {
        bullet_movement_system(&mut w, 1_000);
        assert_eq!(live_bullets(&w), 1);
    }
    bullet_movement_system(&mut w, 1_000);
    assert_eq!(live_bullets(&w), 0);
}

#[test]
fn population_dips_on_death_and_respawn_restores_it() {
    // The agent population is constant apart from the tick of a death:
    // there it transiently drops by one and the queued replacement
    // brings it back once applied.
    let mut w = setup_world();
    let before = live_agents(&w);
    assert_eq!(before, NPC_COUNT);

    // Shoot one agent dead with five point-blank hits.
    let target = 1;
    let mut events = Vec::new();
    for _ in 0..5 {
        let bullet_id = w.entities.len();
        let t = w.entities[target].transform;
        w.entities.push(Entity {
            id: bullet_id,
            kind: EntityKind::Projectile,
            transform: t,
            payload: Payload::Projectile(Bullet {
                lifetime: BULLET_LIFETIME,
                speed: BULLET_SPEED,
                direction: Vec2 { x: 1_000, y: 0 },
            }),
            alive: true,
        });
        events.push(ContactEvent { first: bullet_id, second: target, started: true });
    }
    bullet_collision_system(&mut w, &events);
    assert_eq!(live_agents(&w), NPC_COUNT - 1);
    assert_eq!(w.pending.len(), 1);

    apply_deferred(&mut w);
    assert_eq!(live_agents(&w), NPC_COUNT);
    assert!(w.pending.is_empty());
}

#[test]
fn steering_system_keeps_world_consistent() {
    let mut w = setup_world();
    for _ in 0..20 {
        npc_movement_system(&mut w, 16);
    }
    assert_eq!(live_agents(&w), NPC_COUNT);
    for (_, kind, t) in render_states(&w) {
        if kind == EntityKind::Agent {
            assert!(t.pos.x.abs() <= 990_000);
            assert!(t.pos.y.abs() <= 990_000);
        }
    }
}

#[test]
fn overlap_predicate_matches_box_geometry() {
    let w = {
        let mut w = World::new();
        spawn_player(&mut w);
        gun_controls(&mut w, Some(Vec2 { x: 500_000, y: 0 }), true, 0);
        apply_deferred(&mut w);
        w
    };
    let player = &w.entities[0];
    let bullet = &w.entities[1];
    // The muzzle distance of 23 units clears the 15 + 7.5 box reach, so
    // a fresh bullet does not collide with its own shooter.
    assert!(!contact_overlap(player, bullet));

    let mut near = *bullet;
    near.transform.pos = Vec2 { x: 20_000, y: 0 };
    assert!(contact_overlap(player, &near));
    let mut off_axis = near;
    off_axis.transform.pos = Vec2 { x: 20_000, y: 17_000 };
    assert!(!contact_overlap(player, &off_axis));
}

#[test]
fn gun_without_trigger_spawns_nothing() {
    let mut w = World::new();
    spawn_player(&mut w);
    gun_controls(&mut w, Some(Vec2 { x: 500_000, y: 0 }), false, 16);
    assert!(w.pending.is_empty());
    gun_controls(&mut w, None, true, 16);
    assert!(w.pending.is_empty());
    match w.entities[0].payload {
        Payload::Player(_, g) => assert_eq!(g, Gun { shoot_cooldown: SHOOT_COOLDOWN, shoot_timer: 0 }),
        _ => panic!("expected the player"),
    }
}

#[test]
fn player_motion_system_moves_only_the_player() {
    let mut w = setup_world();
    let agents_before: Vec<Npc> = w
        .entities
        .iter()
        .filter_map(|e| match e.payload {
            Payload::Agent(n) => Some(n),
            _ => None,
        })
        .collect();
    player_movement_sys(&mut w, Vec2 { x: 1_000, y: 0 }, 100);
    let agents_after: Vec<Npc> = w
        .entities
        .iter()
        .filter_map(|e| match e.payload {
            Payload::Agent(n) => Some(n),
            _ => None,
        })
        .collect();
    assert_eq!(agents_before, agents_after);
    match w.entities[0].payload {
        Payload::Player(p, _) => assert_eq!(p.velocity, Vec2 { x: 200_000, y: 0 }),
        _ => panic!("expected the player"),
    }
}
