use arena_sim::constants::{BULLET_SPEED, NPC_SPEED, PLAYER_ACCEL, PLAYER_MAX_SPEED, SHOOT_COOLDOWN};
use arena_sim::fixed::Vec2;
use arena_sim::game::bullet_collision_system;
use arena_sim::gun::{Bullet, Gun};
use arena_sim::npc::Npc;
use arena_sim::player::Player;
use arena_sim::world::{
    ContactEvent, Entity, EntityKind, Payload, SpawnRequest, Transform, World,
};

fn facing_x() -> Vec2 {
    Vec2 { x: 1_000, y: 0 }
}

fn agent_entity(id: usize, health: i64) -> Entity {
    Entity {
        id,
        kind: EntityKind::Agent,
        transform: Transform { pos: Vec2 { x: 0, y: 0 }, facing: facing_x() },
        payload: Payload::Agent(Npc {
            velocity: Vec2 { x: 0, y: 0 },
            target_velocity: Vec2 { x: 0, y: 0 },
            speed: NPC_SPEED,
            health,
        }),
        alive: true,
    }
}

fn bullet_entity(id: usize) -> Entity {
    Entity {
        id,
        kind: EntityKind::Projectile,
        transform: Transform { pos: Vec2 { x: 0, y: 0 }, facing: facing_x() },
        payload: Payload::Projectile(Bullet {
            lifetime: 3_000,
            speed: BULLET_SPEED,
            direction: facing_x(),
        }),
        alive: true,
    }
}

fn hit(bullet: usize, target: usize) -> ContactEvent {
    ContactEvent { first: bullet, second: target, started: true }
}

fn agent_health(w: &World, id: usize) -> i64 {
    match w.entities[id].payload {
        Payload::Agent(n) => n.health,
        _ => panic!("entity {} is not an agent", id),
    }
}

#[test]
fn five_hits_of_twenty_kill_at_the_fifth() {
    // Health 100, damage 20 per hit: the first four hits leave the agent
    // alive; exactly the fifth brings it to 0, despawns it and requests
    // one replacement.
    let mut w = World {
        entities: vec![
            agent_entity(0, 100_000),
            bullet_entity(1),
            bullet_entity(2),
            bullet_entity(3),
            bullet_entity(4),
            bullet_entity(5),
        ],
        pending: vec![],
    };
    let first_four = vec![hit(1, 0), hit(2, 0), hit(3, 0), hit(4, 0)];
    bullet_collision_system(&mut w, &first_four);
    assert_eq!(agent_health(&w, 0), 20_000);
    assert!(w.entities[0].alive);
    assert!(w.pending.is_empty());

    let fifth = vec![hit(5, 0)];
    bullet_collision_system(&mut w, &fifth);
    assert_eq!(agent_health(&w, 0), 0);
    assert!(!w.entities[0].alive);
    assert_eq!(w.pending, vec![SpawnRequest::Agent]);
}

#[test]
fn hits_consume_their_bullets() {
    let mut w = World {
        entities: vec![agent_entity(0, 100_000), bullet_entity(1)],
        pending: vec![],
    };
    bullet_collision_system(&mut w, &vec![hit(1, 0)]);
    assert!(!w.entities[1].alive);
    assert_eq!(agent_health(&w, 0), 80_000);
}

#[test]
fn duplicate_event_for_one_bullet_applies_once() {
    // The same contact reported twice in one tick: the bullet despawns
    // on the first resolution, so the second is a benign no-op.
    let mut w = World {
        entities: vec![agent_entity(0, 100_000), bullet_entity(1)],
        pending: vec![],
    };
    bullet_collision_system(&mut w, &vec![hit(1, 0), hit(1, 0)]);
    assert_eq!(agent_health(&w, 0), 80_000);
    assert!(w.entities[0].alive);
}

#[test]
fn dead_agent_takes_no_further_damage() {
    // Two bullets reach a 20-health agent in the same tick: the first
    // kills it; the second event then names an entity no longer
    // present, so it is ignored entirely and its bullet survives.
    let mut w = World {
        entities: vec![agent_entity(0, 20_000), bullet_entity(1), bullet_entity(2)],
        pending: vec![],
    };
    bullet_collision_system(&mut w, &vec![hit(1, 0), hit(2, 0)]);
    assert_eq!(agent_health(&w, 0), 0);
    assert!(!w.entities[0].alive);
    assert!(!w.entities[1].alive);
    assert!(w.entities[2].alive);
    assert_eq!(w.pending, vec![SpawnRequest::Agent]);
}

#[test]
fn bullet_on_bullet_contact_is_ignored() {
    // A projectile-projectile pairing does not qualify: neither bullet
    // is despawned.
    let mut w = World {
        entities: vec![bullet_entity(0), bullet_entity(1)],
        pending: vec![],
    };
    bullet_collision_system(&mut w, &vec![hit(0, 1)]);
    assert!(w.entities[0].alive);
    assert!(w.entities[1].alive);
    assert!(w.pending.is_empty());
}

#[test]
fn bullet_on_player_contact_is_ignored() {
    // A projectile-player pairing does not qualify either: the bullet
    // flies on.
    let player = Entity {
        id: 0,
        kind: EntityKind::Player,
        transform: Transform { pos: Vec2 { x: 0, y: 0 }, facing: facing_x() },
        payload: Payload::Player(
            Player {
                velocity: Vec2 { x: 0, y: 0 },
                max_velocity: PLAYER_MAX_SPEED,
                acceleration: PLAYER_ACCEL,
            },
            Gun { shoot_cooldown: SHOOT_COOLDOWN, shoot_timer: 0 },
        ),
        alive: true,
    };
    let mut w = World {
        entities: vec![player, bullet_entity(1)],
        pending: vec![],
    };
    bullet_collision_system(&mut w, &vec![hit(1, 0)]);
    assert!(w.entities[0].alive);
    assert!(w.entities[1].alive);
    assert!(w.pending.is_empty());
}

#[test]
fn non_projectile_contacts_are_ignored() {
    let mut w = World {
        entities: vec![agent_entity(0, 100_000), agent_entity(1, 100_000)],
        pending: vec![],
    };
    bullet_collision_system(&mut w, &vec![hit(0, 1)]);
    assert_eq!(agent_health(&w, 0), 100_000);
    assert_eq!(agent_health(&w, 1), 100_000);
    assert!(w.entities[0].alive && w.entities[1].alive);
}

#[test]
fn unknown_ids_are_benign() {
    let mut w = World {
        entities: vec![agent_entity(0, 100_000)],
        pending: vec![],
    };
    bullet_collision_system(&mut w, &vec![hit(99, 100)]);
    assert_eq!(agent_health(&w, 0), 100_000);
}

#[test]
fn stopped_overlap_events_are_ignored() {
    let mut w = World {
        entities: vec![agent_entity(0, 100_000), bullet_entity(1)],
        pending: vec![],
    };
    let ended = ContactEvent { first: 1, second: 0, started: false };
    bullet_collision_system(&mut w, &vec![ended]);
    assert_eq!(agent_health(&w, 0), 100_000);
    assert!(w.entities[1].alive);
}
