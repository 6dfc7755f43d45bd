//! The shared tail of motion integration: advance a position by
//! `velocity * dt`, clamp it into the arena componentwise, and zero the
//! velocity on every axis the clamp touched, so that no speed builds up
//! against the boundary.

use vstd::prelude::*;
use vstd::pervasive::VecAdditionalExecFns;
use crate::constants::{BULLET_LIFETIME, BULLET_SPEED, MAX_DT};
use crate::fixed::{abs_i, clamp_i64, lemma_component_bound, lemma_mul_mag, lemma_scale_mag, spec_clamp, v2_add, v2_scale, Vec2, V2, FP_ONE};
use crate::gun::{Bullet, BULLET_SPAWN_LIMIT};
use crate::world::{entity_ok, killed, wf_at, wf_world, Entity, Payload, Transform, World};

verus! {

/// Bound on the velocity components a clamped move accepts; wide enough
/// for every speed of the simulation.
pub const MOVE_VEL_BOUND: i64 = 100_000_000;

/// Bound on the position components a clamped move accepts.
pub const MOVE_POS_BOUND: i64 = 100_000_000;

/// The clamped move: new position and the velocity with clamped axes
/// zeroed, as a pair `(velocity, position)`.
pub open spec fn spec_move_clamped(vel: V2, pos: V2, dt: int, limit: int) -> (V2, V2) {
    let raw = v2_add(pos, v2_scale(vel, dt));
    let px = spec_clamp(raw.x, -limit, limit);
    let py = spec_clamp(raw.y, -limit, limit);
    (
        V2 {
            x: if px == raw.x {
                vel.x
            } else {
                0
            },
            y: if py == raw.y {
                vel.y
            } else {
                0
            },
        },
        V2 { x: px, y: py },
    )
}

/// Advance `pos` by `vel * dt` and clamp it into `[-limit, limit]` on
/// both axes, zeroing the clamped axes of `vel`.
pub fn move_clamped(vel: Vec2, pos: Vec2, dt: i64, limit: i64) -> (r: (Vec2, Vec2))
    requires
        abs_i(vel@.x) <= MOVE_VEL_BOUND,
        abs_i(vel@.y) <= MOVE_VEL_BOUND,
        abs_i(pos@.x) <= MOVE_POS_BOUND,
        abs_i(pos@.y) <= MOVE_POS_BOUND,
        0 <= dt <= MAX_DT,
        0 < limit,
    ensures
        (r.0@, r.1@) == spec_move_clamped(vel@, pos@, dt as int, limit as int),
        -limit <= r.1@.x <= limit,
        -limit <= r.1@.y <= limit,
        abs_i(r.0@.x) <= abs_i(vel@.x),
        abs_i(r.0@.y) <= abs_i(vel@.y),
{
    proof {
        lemma_mul_mag(vel@.x, dt as int, MOVE_VEL_BOUND as int, MAX_DT as int);
        lemma_mul_mag(vel@.y, dt as int, MOVE_VEL_BOUND as int, MAX_DT as int);
        lemma_scale_mag(vel@, dt as int);
    }
    let d = vel.scale(dt);
    let rawx = pos.x + d.x;
    let rawy = pos.y + d.y;
    let px = clamp_i64(rawx, -limit, limit);
    let py = clamp_i64(rawy, -limit, limit);
    let vx = if px == rawx {
        vel.x
    } else {
        0
    };
    let vy = if py == rawy {
        vel.y
    } else {
        0
    };
    (Vec2 { x: vx, y: vy }, Vec2 { x: px, y: py })
}

/// How a projectile tick relates one entity record to its successor: a
/// live projectile's lifetime shrinks by `dt` — at zero or below it
/// despawns in place, otherwise it flies `direction * speed * dt`;
/// everything else is untouched. Projectiles are not clamped into the
/// arena: they end by lifetime.
pub open spec fn bullet_advanced(e0: Entity, e1: Entity, dt: int) -> bool {
    match e0.payload {
        Payload::Projectile(b) => {
            if e0.alive {
                let lt2 = b.lifetime - dt;
                if lt2 <= 0 {
                    e1 == killed(e0)
                } else {
                    let vel = v2_scale(b.direction@, b.speed as int);
                    let pos2 = v2_add(e0.transform.pos@, v2_scale(vel, dt));
                    match e1.payload {
                        Payload::Projectile(b1) => {
                            &&& b1.lifetime == lt2
                            &&& b1.speed == b.speed
                            &&& b1.direction == b.direction
                            &&& e1.transform.pos@ == pos2
                            &&& e1.transform.facing == e0.transform.facing
                            &&& e1.id == e0.id
                            &&& e1.kind == e0.kind
                            &&& e1.alive
                        },
                        _ => false,
                    }
                }
            } else {
                e1 == e0
            }
        },
        _ => e1 == e0,
    }
}

/// Motion integration for projectiles: every live projectile spends
/// `dt` of its lifetime and either despawns or advances along its
/// direction at its speed.
pub fn bullet_movement_system(w: &mut World, dt: i64)
    requires
        wf_world(old(w)),
        0 <= dt <= MAX_DT,
    ensures
        wf_world(final(w)),
        final(w).entities@.len() == old(w).entities@.len(),
        final(w).pending@ == old(w).pending@,
        forall|j: int|
            0 <= j < old(w).entities@.len() ==> bullet_advanced(
                old(w).entities@[j],
                #[trigger] final(w).entities@[j],
                dt as int,
            ),
{
    let n = w.entities.len();
    let mut i: usize = 0;
    while i < n
        invariant
            n == w.entities@.len(),
            n == old(w).entities@.len(),
            w.pending@ == old(w).pending@,
            i <= n,
            wf_world(old(w)),
            wf_world(w),
            0 <= dt <= MAX_DT,
            forall|j: int|
                0 <= j < i ==> bullet_advanced(
                    old(w).entities@[j],
                    #[trigger] w.entities@[j],
                    dt as int,
                ),
            forall|j: int| i <= j < n ==> w.entities@[j] == old(w).entities@[j],
        decreases n - i,
    {
        let e = w.entities[i];
        proof {
            assert(wf_at(w.entities@, i as int));
        }
        if e.alive {
            match e.payload {
                Payload::Projectile(b) => {
                    let lt2 = b.lifetime - dt;
                    let e2 = if lt2 <= 0 {
                        Entity {
                            id: e.id,
                            kind: e.kind,
                            transform: e.transform,
                            payload: e.payload,
                            alive: false,
                        }
                    } else {
                        proof {
                            lemma_component_bound(b.direction@.x, b.direction@.y, FP_ONE as int);
                            lemma_mul_mag(
                                b.direction@.x,
                                b.speed as int,
                                FP_ONE as int,
                                BULLET_SPEED as int,
                            );
                            lemma_mul_mag(
                                b.direction@.y,
                                b.speed as int,
                                FP_ONE as int,
                                BULLET_SPEED as int,
                            );
                        }
                        let vel = b.direction.scale(b.speed);
                        proof {
                            assert(FP_ONE * abs_i(e.transform.pos@.x) <= FP_ONE
                                * BULLET_SPAWN_LIMIT + (BULLET_LIFETIME - b.lifetime) * b.speed);
                            assert(FP_ONE * abs_i(e.transform.pos@.y) <= FP_ONE
                                * BULLET_SPAWN_LIMIT + (BULLET_LIFETIME - b.lifetime) * b.speed);
                            assert((BULLET_LIFETIME - b.lifetime) * b.speed <= 6_000_000_000)
                                by (nonlinear_arith)
                                requires
                                    0 < b.lifetime <= BULLET_LIFETIME,
                                    0 <= b.speed <= BULLET_SPEED,
                            ;
                            lemma_scale_mag(b.direction@, b.speed as int);
                            lemma_mul_mag(
                                b.direction@.x,
                                b.speed as int,
                                FP_ONE as int,
                                b.speed as int,
                            );
                            lemma_mul_mag(
                                b.direction@.y,
                                b.speed as int,
                                FP_ONE as int,
                                b.speed as int,
                            );
                            lemma_mul_mag(
                                vel@.x,
                                dt as int,
                                BULLET_SPEED as int,
                                MAX_DT as int,
                            );
                            lemma_mul_mag(
                                vel@.y,
                                dt as int,
                                BULLET_SPEED as int,
                                MAX_DT as int,
                            );
                            lemma_scale_mag(vel@, dt as int);
                        }
                        let d = vel.scale(dt);
                        let pos2 = Vec2 { x: e.transform.pos.x + d.x, y: e.transform.pos.y + d.y };
                        let b2 = Bullet { lifetime: lt2, speed: b.speed, direction: b.direction };
                        proof {
                            lemma_bullet_travel(
                                e.transform.pos@,
                                pos2@,
                                d@,
                                vel@,
                                b,
                                b2,
                                dt as int,
                            );
                        }
                        Entity {
                            id: e.id,
                            kind: e.kind,
                            transform: Transform { pos: pos2, facing: e.transform.facing },
                            payload: Payload::Projectile(b2),
                            alive: true,
                        }
                    };
                    let ghost pre = w.entities@;
                    w.entities.set(i, e2);
                    proof {
                        assert forall|k: int| 0 <= k < n implies #[trigger] wf_at(
                            w.entities@,
                            k,
                        ) by {
                            assert(wf_at(pre, k));
                            if k != i {
                                assert(w.entities@[k] == pre[k]);
                            } else {
                                if e2.alive {
                                    assert(entity_ok(e2));
                                }
                            }
                        }
                    }
                },
                _ => {},
            }
        }
        i = i + 1;
    }
}

/// A projectile that flies for `dt` stays within its travel bound: the
/// distance it may yet cover shrinks exactly as its lifetime does.
proof fn lemma_bullet_travel(pos: V2, pos2: V2, d: V2, vel: V2, b: Bullet, b2: Bullet, dt: int)
    requires
        0 <= dt,
        b2.lifetime == b.lifetime - dt,
        b2.speed == b.speed,
        0 <= b.speed <= BULLET_SPEED,
        abs_i(vel.x) <= b.speed,
        abs_i(vel.y) <= b.speed,
        abs_i(d.x) * FP_ONE <= abs_i(vel.x * dt),
        abs_i(d.y) * FP_ONE <= abs_i(vel.y * dt),
        pos2.x == pos.x + d.x,
        pos2.y == pos.y + d.y,
        FP_ONE * abs_i(pos.x) <= FP_ONE * BULLET_SPAWN_LIMIT + (BULLET_LIFETIME
            - b.lifetime) * b.speed,
        FP_ONE * abs_i(pos.y) <= FP_ONE * BULLET_SPAWN_LIMIT + (BULLET_LIFETIME
            - b.lifetime) * b.speed,
    ensures
        FP_ONE * abs_i(pos2.x) <= FP_ONE * BULLET_SPAWN_LIMIT + (BULLET_LIFETIME
            - b2.lifetime) * b2.speed,
        FP_ONE * abs_i(pos2.y) <= FP_ONE * BULLET_SPAWN_LIMIT + (BULLET_LIFETIME
            - b2.lifetime) * b2.speed,
{
    assert(abs_i(vel.x * dt) == abs_i(vel.x) * dt) by (nonlinear_arith)
        requires
            dt >= 0,
    ;
    assert(abs_i(vel.y * dt) == abs_i(vel.y) * dt) by (nonlinear_arith)
        requires
            dt >= 0,
    ;
    assert(abs_i(vel.x) * dt <= b.speed * dt) by (nonlinear_arith)
        requires
            0 <= abs_i(vel.x) <= b.speed,
            0 <= dt,
    ;
    assert(abs_i(vel.y) * dt <= b.speed * dt) by (nonlinear_arith)
        requires
            0 <= abs_i(vel.y) <= b.speed,
            0 <= dt,
    ;
    assert((BULLET_LIFETIME - (b.lifetime - dt)) * b.speed == (BULLET_LIFETIME - b.lifetime)
        * b.speed + dt * b.speed) by (nonlinear_arith);
    assert(dt * b.speed == b.speed * dt) by (nonlinear_arith);
}

} // verus!
