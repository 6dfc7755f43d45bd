//! Autonomous agent state and wandering steering.
//!
//! Each tick an agent redraws its target velocity with a small chance
//! (stopping with a sub-chance, otherwise heading a random direction at
//! its speed), then smooths its actual velocity toward the target by
//! exponential interpolation and moves under the shared clamped
//! integration. The random draws come from [`crate::rng`]; everything
//! decided on a draw is verified for every value the draw can take, and
//! the deciding steps ([`steer_npc`]) can be driven deterministically.
//!
//! Policy: the interpolation factor `STEER_RATE * dt` saturates at one —
//! the velocity stops exactly at the target instead of overshooting it
//! when a tick is very long.

use vstd::prelude::*;
use vstd::pervasive::VecAdditionalExecFns;
use crate::constants::{CHANCE_DEN, MAX_DT, NPC_INITIAL_HEALTH, NPC_SPEED, RETARGET_CHANCE, STEER_RATE, STEER_SAMPLE_HALF, STOP_CHANCE};
use crate::fixed::{abs_i, lemma_component_bound, lemma_div_down_mag, lemma_mul_mag, lemma_scale_norm, mul_fp, norm_sq, spec_lerp, spec_mul_fp, spec_normalize, v2_scale, Vec2, V2, FP_ONE};
use crate::motion::{move_clamped, spec_move_clamped};
use crate::rng::{rand_below, rand_range_i64};
use crate::world::{entity_ok, pos_within, wf_at, wf_world, Entity, EntityKind, Payload, Transform, World};

verus! {

/// Furthest an agent coordinate may sit from the arena's center: the
/// arena's half-extent less half the agent's size.
pub const NPC_POS_LIMIT: i64 = 990_000;

/// Bound on a configured agent speed.
pub const NPC_SPEED_BOUND: i64 = 1_000_000;

/// Movable state of an autonomous agent.
#[derive(Clone, Copy, PartialEq, Eq, Structural, Debug)]
pub struct Npc {
    /// Current velocity, world units per second.
    pub velocity: Vec2,
    /// Velocity the agent is steering toward.
    pub target_velocity: Vec2,
    /// Wandering speed: the length of `target_velocity` never exceeds it.
    pub speed: i64,
    /// Remaining health; the agent despawns when it reaches zero or below.
    pub health: i64,
}

/// Internal invariant of a live agent: bounded speed, target velocity no
/// faster than the agent's speed, current velocity componentwise within
/// the speed, and positive health within the initial value.
pub open spec fn npc_ok(n: Npc) -> bool {
    &&& 0 <= n.speed <= NPC_SPEED_BOUND
    &&& norm_sq(n.target_velocity@) <= n.speed * n.speed
    &&& abs_i(n.velocity@.x) <= n.speed
    &&& abs_i(n.velocity@.y) <= n.speed
    &&& 0 < n.health <= NPC_INITIAL_HEALTH
}

/// A fresh agent: at rest, with the configured speed and full health.
pub fn initial_npc() -> (n: Npc)
    ensures
        n.velocity@.x == 0 && n.velocity@.y == 0,
        n.target_velocity@.x == 0 && n.target_velocity@.y == 0,
        n.speed == NPC_SPEED,
        n.health == NPC_INITIAL_HEALTH,
        npc_ok(n),
{
    let n = Npc {
        velocity: Vec2 { x: 0, y: 0 },
        target_velocity: Vec2 { x: 0, y: 0 },
        speed: NPC_SPEED,
        health: NPC_INITIAL_HEALTH,
    };
    proof {
        assert(norm_sq(n.target_velocity@) == 0);
        assert(n.speed * n.speed >= 0) by (nonlinear_arith);
    }
    n
}

/// Furthest coordinate at which an agent may be placed on spawn, a
/// little inside the arena.
pub const NPC_SPAWN_LIMIT: i64 = 960_000;

/// The outcome of one tick's random retargeting draw for one agent.
#[derive(Clone, Copy, PartialEq, Eq, Structural, Debug)]
pub enum RetargetDecision {
    /// No redraw this tick: the target velocity stays.
    Keep,
    /// Redraw said to stop: the target velocity becomes zero.
    Stop,
    /// Redraw said to move along the sampled raw direction.
    Move(Vec2),
}

/// A decision the steering step accepts: a raw direction sample stays
/// within the sampling interval.
pub open spec fn decision_ok(d: RetargetDecision) -> bool {
    match d {
        RetargetDecision::Move(s) => abs_i(s@.x) <= STEER_SAMPLE_HALF && abs_i(s@.y)
            <= STEER_SAMPLE_HALF,
        _ => true,
    }
}

/// The target velocity after a decision: kept, zeroed, or the normalized
/// sample scaled by the agent's speed. A zero-length direction sample
/// carries no direction and means "no change": the target stays.
pub open spec fn spec_retarget(target: V2, speed: int, d: RetargetDecision) -> V2 {
    match d {
        RetargetDecision::Keep => target,
        RetargetDecision::Stop => V2 { x: 0, y: 0 },
        RetargetDecision::Move(s) => if s@.x == 0 && s@.y == 0 {
            target
        } else {
            v2_scale(spec_normalize(s@), speed)
        },
    }
}

/// The interpolation factor for elapsed time `dt`: `STEER_RATE * dt`,
/// saturating at one.
pub open spec fn spec_steer_factor(dt: int) -> int {
    let s = spec_mul_fp(STEER_RATE as int, dt);
    if s > FP_ONE {
        FP_ONE as int
    } else {
        s
    }
}

/// One steering tick given the already-updated target velocity: smooth
/// the velocity toward it, then the clamped move. Yields
/// `(velocity, position)`.
pub open spec fn spec_npc_step(vel: V2, target: V2, pos: V2, dt: int) -> (V2, V2) {
    spec_move_clamped(spec_lerp(vel, target, spec_steer_factor(dt)), pos, dt, NPC_POS_LIMIT as int)
}

/// One verified steering step for an agent, with the retargeting
/// decision handed in: every random outcome is covered, and a test or a
/// caller without randomness can pass [`RetargetDecision::Keep`].
pub fn steer_npc(n: Npc, pos: Vec2, decision: RetargetDecision, dt: i64) -> (r: (Npc, Vec2))
    requires
        npc_ok(n),
        pos_within(pos, NPC_POS_LIMIT as int),
        decision_ok(decision),
        0 <= dt <= MAX_DT,
    ensures
        r.0.target_velocity@ == spec_retarget(n.target_velocity@, n.speed as int, decision),
        (r.0.velocity@, r.1@) == spec_npc_step(
            n.velocity@,
            r.0.target_velocity@,
            pos@,
            dt as int,
        ),
        r.0.speed == n.speed,
        r.0.health == n.health,
        npc_ok(r.0),
        pos_within(r.1, NPC_POS_LIMIT as int),
{
    let target = match decision {
        RetargetDecision::Keep => n.target_velocity,
        RetargetDecision::Stop => Vec2 { x: 0, y: 0 },
        RetargetDecision::Move(s) => {
            if s.x == 0 && s.y == 0 {
                n.target_velocity
            } else {
                let u = s.normalize_or_zero();
                proof {
                    lemma_component_bound(u@.x, u@.y, FP_ONE as int);
                    lemma_scale_norm(u@, FP_ONE as int, n.speed as int);
                }
                u.scale(n.speed)
            }
        },
    };
    proof {
        assert(norm_sq(target@) <= n.speed * n.speed) by {
            match decision {
                RetargetDecision::Keep => {},
                RetargetDecision::Stop => {
                    assert(norm_sq(target@) == 0);
                    assert(n.speed * n.speed >= 0) by (nonlinear_arith);
                },
                RetargetDecision::Move(_) => {},
            }
        }
        lemma_component_bound(target@.x, target@.y, n.speed as int);
        lemma_mul_mag(STEER_RATE as int, dt as int, STEER_RATE as int, MAX_DT as int);
    }
    let sf_raw = mul_fp(STEER_RATE, dt);
    proof {
        lemma_div_down_mag(STEER_RATE as int * dt as int, FP_ONE as int);
        assert(STEER_RATE as int * dt as int >= 0) by (nonlinear_arith)
            requires
                dt >= 0,
        ;
    }
    let sf = if sf_raw > FP_ONE {
        FP_ONE
    } else {
        sf_raw
    };
    let v1 = n.velocity.lerp(target, sf);
    let mv = move_clamped(v1, pos, dt, NPC_POS_LIMIT);
    (
        Npc { velocity: mv.0, target_velocity: target, speed: n.speed, health: n.health },
        mv.1,
    )
}

/// How a steering tick relates one entity record to its successor: a
/// live agent took one steering step under some accepted decision;
/// everything else is untouched.
pub open spec fn npc_steered(e0: Entity, e1: Entity, d: RetargetDecision, dt: int) -> bool {
    match (e0.payload, e1.payload) {
        (Payload::Agent(n0), Payload::Agent(n1)) => {
            let t2 = spec_retarget(n0.target_velocity@, n0.speed as int, d);
            let s = spec_npc_step(n0.velocity@, t2, e0.transform.pos@, dt);
            &&& n1.target_velocity@ == t2
            &&& n1.velocity@ == s.0
            &&& e1.transform.pos@ == s.1
            &&& n1.speed == n0.speed
            &&& n1.health == n0.health
            &&& e1.transform.facing == e0.transform.facing
            &&& e1.id == e0.id
            &&& e1.kind == e0.kind
            &&& e1.alive == e0.alive
        },
        _ => false,
    }
}

/// A live agent moved under some accepted decision; all other records
/// are unchanged.
pub open spec fn agent_moved(e0: Entity, e1: Entity, dt: int) -> bool {
    match e0.payload {
        Payload::Agent(_) => {
            if e0.alive {
                exists|d: RetargetDecision| decision_ok(d) && #[trigger] npc_steered(e0, e1, d, dt)
            } else {
                e1 == e0
            }
        },
        _ => e1 == e0,
    }
}

/// Wandering steering for every live agent: with a small chance redraw
/// the target velocity (stopping with a sub-chance), then smooth the
/// velocity toward the target and move, clamped into the arena.
pub fn npc_movement_system(w: &mut World, dt: i64)
    requires
        wf_world(old(w)),
        0 <= dt <= MAX_DT,
    ensures
        wf_world(final(w)),
        final(w).entities@.len() == old(w).entities@.len(),
        final(w).pending@ == old(w).pending@,
        forall|j: int|
            0 <= j < old(w).entities@.len() ==> agent_moved(
                old(w).entities@[j],
                #[trigger] final(w).entities@[j],
                dt as int,
            ),
{
    let n = w.entities.len();
    let mut i: usize = 0;
    while i < n
        invariant
            n == w.entities@.len(),
            n == old(w).entities@.len(),
            w.pending@ == old(w).pending@,
            i <= n,
            wf_world(old(w)),
            wf_world(w),
            0 <= dt <= MAX_DT,
            forall|j: int|
                0 <= j < i ==> agent_moved(
                    old(w).entities@[j],
                    #[trigger] w.entities@[j],
                    dt as int,
                ),
            forall|j: int| i <= j < n ==> w.entities@[j] == old(w).entities@[j],
        decreases n - i,
    {
        let e = w.entities[i];
        proof {
            assert(wf_at(w.entities@, i as int));
        }
        if e.alive {
            match e.payload {
                Payload::Agent(state) => {
                    let roll = rand_below(CHANCE_DEN);
                    let decision = if roll < RETARGET_CHANCE {
                        let stop_roll = rand_below(CHANCE_DEN);
                        if stop_roll < STOP_CHANCE {
                            RetargetDecision::Stop
                        } else {
                            let sx = rand_range_i64(-STEER_SAMPLE_HALF, STEER_SAMPLE_HALF + 1);
                            let sy = rand_range_i64(-STEER_SAMPLE_HALF, STEER_SAMPLE_HALF + 1);
                            RetargetDecision::Move(Vec2 { x: sx, y: sy })
                        }
                    } else {
                        RetargetDecision::Keep
                    };
                    let r = steer_npc(state, e.transform.pos, decision, dt);
                    let e2 = Entity {
                        id: e.id,
                        kind: e.kind,
                        transform: Transform { pos: r.1, facing: e.transform.facing },
                        payload: Payload::Agent(r.0),
                        alive: true,
                    };
                    let ghost pre = w.entities@;
                    w.entities.set(i, e2);
                    proof {
                        assert(decision_ok(decision) && npc_steered(
                            old(w).entities@[i as int],
                            e2,
                            decision,
                            dt as int,
                        ));
                        assert forall|k: int| 0 <= k < n implies #[trigger] wf_at(
                            w.entities@,
                            k,
                        ) by {
                            assert(wf_at(pre, k));
                            if k != i {
                                assert(w.entities@[k] == pre[k]);
                            } else {
                                assert(entity_ok(e2));
                            }
                        }
                    }
                },
                _ => {},
            }
        }
        i = i + 1;
    }
}

/// Place a fresh agent at a uniformly random position comfortably inside
/// the arena; its state is exactly [`initial_npc`].
pub fn spawn_npc(w: &mut World) -> (id: usize)
    requires
        wf_world(old(w)),
        old(w).entities@.len() < 1_000_000_000,
    ensures
        id == old(w).entities@.len(),
        final(w).entities@.len() == old(w).entities@.len() + 1,
        final(w).entities@ == old(w).entities@.push(final(w).entities@[id as int]),
        final(w).pending@ == old(w).pending@,
        wf_world(final(w)),
        ({
            let e = final(w).entities@[id as int];
            &&& e.id == id
            &&& e.kind == EntityKind::Agent
            &&& e.alive
            &&& e.payload == Payload::Agent(
                Npc {
                    velocity: Vec2 { x: 0, y: 0 },
                    target_velocity: Vec2 { x: 0, y: 0 },
                    speed: NPC_SPEED,
                    health: NPC_INITIAL_HEALTH,
                },
            )
            &&& -NPC_SPAWN_LIMIT <= e.transform.pos@.x < NPC_SPAWN_LIMIT
            &&& -NPC_SPAWN_LIMIT <= e.transform.pos@.y < NPC_SPAWN_LIMIT
            &&& e.transform.facing@ == (V2 { x: FP_ONE as int, y: 0 })
        }),
{
    let state = initial_npc();
    let px = rand_range_i64(-NPC_SPAWN_LIMIT, NPC_SPAWN_LIMIT);
    let py = rand_range_i64(-NPC_SPAWN_LIMIT, NPC_SPAWN_LIMIT);
    let t = Transform { pos: Vec2 { x: px, y: py }, facing: Vec2 { x: FP_ONE, y: 0 } };
    proof {
        assert(norm_sq(t.facing@) == FP_ONE * FP_ONE);
    }
    w.spawn_entity(EntityKind::Agent, t, Payload::Agent(state))
}

} // verus!
