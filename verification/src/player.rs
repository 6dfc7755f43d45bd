//! Player state, player motion integration, and the camera's clamp.
//!
//! One integration step follows the motion contract: the velocity gains
//! `intent * acceleration * dt`, is clamped to the maximum speed, then a
//! multiplicative damping factor `1 / (1 + friction * dt)` is applied; the
//! position advances by `velocity * dt` and is clamped into the arena.
//! Policy: when an axis is clamped, that axis of the velocity is zeroed so
//! that no speed builds up against the boundary; the same policy governs
//! agent motion.

use vstd::prelude::*;
use vstd::pervasive::VecAdditionalExecFns;
use crate::constants::{ARENA_HALF, FRICTION, MAX_DT, PLAYER_ACCEL, PLAYER_MAX_SPEED, SHOOT_COOLDOWN};
use crate::fixed::{abs_i, clamp_i64, div_down, div_fp, lemma_clamp_len_norm, lemma_component_bound, lemma_div_down_mag, lemma_mul_mag, lemma_norm_dominated, lemma_scale_mag, mul_fp, norm_sq, spec_clamp, spec_clamp_len, spec_mul_fp, v2_add, v2_scale, Vec2, V2, FP_ONE};
use crate::gun::Gun;
use crate::motion::{move_clamped, spec_move_clamped};
use crate::world::{entity_ok, pos_within, wf_at, wf_world, Entity, EntityKind, Payload, Transform, World};

verus! {

/// Furthest a player coordinate may sit from the arena's center: the
/// arena's half-extent less half the player's size.
pub const PLAYER_POS_LIMIT: i64 = 985_000;

/// Bound on the configured maximum speed of a player.
pub const PLAYER_SPEED_BOUND: i64 = 1_000_000;

/// Bound on the configured acceleration of a player.
pub const PLAYER_ACCEL_BOUND: i64 = 100_000_000;

/// Movable state of the single player entity.
#[derive(Clone, Copy, PartialEq, Eq, Structural, Debug)]
pub struct Player {
    /// Current velocity, world units per second.
    pub velocity: Vec2,
    /// The length of `velocity` never exceeds this after integration.
    pub max_velocity: i64,
    /// Gain in speed per second under full movement intent.
    pub acceleration: i64,
}

/// Internal invariant of a live player: configuration scalars are bounded
/// and the velocity respects the speed limit.
pub open spec fn player_ok(p: Player) -> bool {
    &&& 0 <= p.max_velocity <= PLAYER_SPEED_BOUND
    &&& 0 <= p.acceleration <= PLAYER_ACCEL_BOUND
    &&& norm_sq(p.velocity@) <= p.max_velocity * p.max_velocity
}

/// A fresh player: at rest, with the configured speed and acceleration.
pub fn initial_player() -> (p: Player)
    ensures
        p.velocity@.x == 0 && p.velocity@.y == 0,
        p.max_velocity == PLAYER_MAX_SPEED,
        p.acceleration == PLAYER_ACCEL,
        player_ok(p),
{
    let p = Player {
        velocity: Vec2 { x: 0, y: 0 },
        max_velocity: PLAYER_MAX_SPEED,
        acceleration: PLAYER_ACCEL,
    };
    proof {
        assert(norm_sq(p.velocity@) == 0);
        assert(p.max_velocity * p.max_velocity >= 0) by (nonlinear_arith);
    }
    p
}

/// Damping of a velocity over `dt`: each component is multiplied by
/// `FP_ONE / (FP_ONE + friction * dt)`, truncated.
pub open spec fn spec_damp(v: V2, dt: int) -> V2 {
    let denom = FP_ONE + spec_mul_fp(FRICTION as int, dt);
    V2 { x: div_down(v.x * FP_ONE, denom), y: div_down(v.y * FP_ONE, denom) }
}

/// One velocity update: accelerate along `intent`, clamp the length to
/// `maxv`, then damp.
pub open spec fn spec_vel_step(vel: V2, maxv: int, accel: int, intent: V2, dt: int) -> V2 {
    spec_damp(spec_clamp_len(v2_add(vel, v2_scale(intent, spec_mul_fp(accel, dt))), maxv), dt)
}

/// One full motion step: the velocity update, then the position advanced
/// by `velocity * dt` and clamped into the arena; a clamped axis zeroes
/// that axis of the velocity. Yields `(velocity, position)`.
pub open spec fn spec_player_step(
    vel: V2,
    pos: V2,
    maxv: int,
    accel: int,
    intent: V2,
    dt: int,
) -> (V2, V2) {
    spec_move_clamped(spec_vel_step(vel, maxv, accel, intent, dt), pos, dt, PLAYER_POS_LIMIT as int)
}

/// One verified motion step for the player: returns the player with its
/// new velocity together with the new position, both exactly as
/// [`spec_player_step`] states; afterwards the speed is within the
/// maximum and the position within the arena.
pub fn integrate_player(p: Player, pos: Vec2, intent: Vec2, dt: i64) -> (r: (Player, Vec2))
    requires
        player_ok(p),
        pos_within(pos, PLAYER_POS_LIMIT as int),
        -FP_ONE <= intent@.x <= FP_ONE,
        -FP_ONE <= intent@.y <= FP_ONE,
        0 <= dt <= MAX_DT,
    ensures
        (r.0.velocity@, r.1@) == spec_player_step(
            p.velocity@,
            pos@,
            p.max_velocity as int,
            p.acceleration as int,
            intent@,
            dt as int,
        ),
        r.0.max_velocity == p.max_velocity,
        r.0.acceleration == p.acceleration,
        player_ok(r.0),
        pos_within(r.1, PLAYER_POS_LIMIT as int),
{
    proof {
        lemma_mul_mag(p.acceleration as int, dt as int, PLAYER_ACCEL_BOUND as int, MAX_DT as int);
    }
    let a = mul_fp(p.acceleration, dt);
    proof {
        lemma_mul_mag(intent@.x, a as int, FP_ONE as int, PLAYER_ACCEL_BOUND as int);
        lemma_mul_mag(intent@.y, a as int, FP_ONE as int, PLAYER_ACCEL_BOUND as int);
    }
    let dv = intent.scale(a);
    proof {
        lemma_scale_mag(intent@, a as int);
        lemma_component_bound(p.velocity@.x, p.velocity@.y, p.max_velocity as int);
    }
    let v0 = p.velocity.add(dv);
    let v1 = v0.clamp_length_max(p.max_velocity);
    proof {
        lemma_component_bound(v1@.x, v1@.y, p.max_velocity as int);
        lemma_mul_mag(FRICTION as int, dt as int, FRICTION as int, MAX_DT as int);
    }
    let fd = mul_fp(FRICTION, dt);
    proof {
        lemma_div_down_mag(FRICTION as int * dt as int, FP_ONE as int);
        assert(FRICTION as int * dt as int >= 0) by (nonlinear_arith)
            requires
                dt >= 0,
        ;
    }
    let denom = FP_ONE + fd;
    proof {
        lemma_mul_mag(v1@.x, FP_ONE as int, PLAYER_SPEED_BOUND as int, FP_ONE as int);
        lemma_mul_mag(v1@.y, FP_ONE as int, PLAYER_SPEED_BOUND as int, FP_ONE as int);
    }
    let wx = div_fp(v1.x * FP_ONE, denom);
    let wy = div_fp(v1.y * FP_ONE, denom);
    let w = Vec2 { x: wx, y: wy };
    proof {
        assert(abs_i(v1@.x * FP_ONE) == abs_i(v1@.x) * FP_ONE) by (nonlinear_arith);
        assert(abs_i(v1@.y * FP_ONE) == abs_i(v1@.y) * FP_ONE) by (nonlinear_arith);
        assert(abs_i(w@.x) <= abs_i(v1@.x)) by (nonlinear_arith)
            requires
                abs_i(w@.x) * denom <= abs_i(v1@.x) * FP_ONE,
                denom >= FP_ONE,
                abs_i(w@.x) >= 0,
        ;
        assert(abs_i(w@.y) <= abs_i(v1@.y)) by (nonlinear_arith)
            requires
                abs_i(w@.y) * denom <= abs_i(v1@.y) * FP_ONE,
                denom >= FP_ONE,
                abs_i(w@.y) >= 0,
        ;
        lemma_norm_dominated(w@, v1@);
    }
    let mv = move_clamped(w, pos, dt, PLAYER_POS_LIMIT);
    proof {
        lemma_norm_dominated(mv.0@, w@);
    }
    (
        Player { velocity: mv.0, max_velocity: p.max_velocity, acceleration: p.acceleration },
        mv.1,
    )
}

/// How a motion tick relates one entity record to its successor: a live
/// player took exactly one [`spec_player_step`]; everything else is
/// untouched.
pub open spec fn player_moved(e0: Entity, e1: Entity, intent: V2, dt: int) -> bool {
    match e0.payload {
        Payload::Player(p0, g0) => {
            if e0.alive {
                match e1.payload {
                    Payload::Player(p1, g1) => {
                        let s = spec_player_step(
                            p0.velocity@,
                            e0.transform.pos@,
                            p0.max_velocity as int,
                            p0.acceleration as int,
                            intent,
                            dt,
                        );
                        &&& p1.velocity@ == s.0
                        &&& e1.transform.pos@ == s.1
                        &&& p1.max_velocity == p0.max_velocity
                        &&& p1.acceleration == p0.acceleration
                        &&& g1 == g0
                        &&& e1.transform.facing == e0.transform.facing
                        &&& e1.id == e0.id
                        &&& e1.kind == e0.kind
                        &&& e1.alive == e0.alive
                    },
                    _ => false,
                }
            } else {
                e1 == e0
            }
        },
        _ => e1 == e0,
    }
}

/// Motion integration for the player: advance every live player record by
/// one step under the shared movement intent; all other records are left
/// alone.
pub fn player_movement_sys(w: &mut World, intent: Vec2, dt: i64)
    requires
        wf_world(old(w)),
        -FP_ONE <= intent@.x <= FP_ONE,
        -FP_ONE <= intent@.y <= FP_ONE,
        0 <= dt <= MAX_DT,
    ensures
        wf_world(final(w)),
        final(w).entities@.len() == old(w).entities@.len(),
        final(w).pending@ == old(w).pending@,
        forall|j: int|
            0 <= j < old(w).entities@.len() ==> player_moved(
                old(w).entities@[j],
                #[trigger] final(w).entities@[j],
                intent@,
                dt as int,
            ),
{
    let n = w.entities.len();
    let mut i: usize = 0;
    while i < n
        invariant
            n == w.entities@.len(),
            n == old(w).entities@.len(),
            w.pending@ == old(w).pending@,
            i <= n,
            wf_world(old(w)),
            wf_world(w),
            -FP_ONE <= intent@.x <= FP_ONE,
            -FP_ONE <= intent@.y <= FP_ONE,
            0 <= dt <= MAX_DT,
            forall|j: int|
                0 <= j < i ==> player_moved(
                    old(w).entities@[j],
                    #[trigger] w.entities@[j],
                    intent@,
                    dt as int,
                ),
            forall|j: int| i <= j < n ==> w.entities@[j] == old(w).entities@[j],
        decreases n - i,
    {
        let e = w.entities[i];
        proof {
            assert(wf_at(w.entities@, i as int));
        }
        if e.alive {
            match e.payload {
                Payload::Player(p, g) => {
                    let r = integrate_player(p, e.transform.pos, intent, dt);
                    let e2 = Entity {
                        id: e.id,
                        kind: e.kind,
                        transform: Transform { pos: r.1, facing: e.transform.facing },
                        payload: Payload::Player(r.0, g),
                        alive: true,
                    };
                    let ghost pre = w.entities@;
                    w.entities.set(i, e2);
                    proof {
                        assert forall|k: int| 0 <= k < n implies #[trigger] wf_at(
                            w.entities@,
                            k,
                        ) by {
                            assert(wf_at(pre, k));
                            if k != i {
                                assert(w.entities@[k] == pre[k]);
                            } else {
                                assert(entity_ok(e2));
                            }
                        }
                    }
                },
                _ => {},
            }
        }
        i = i + 1;
    }
}

/// Law (speed clamp): after one motion step the speed is within the
/// maximum, whatever the starting velocity and the intent.
pub proof fn lemma_speed_clamp(vel: V2, pos: V2, maxv: int, accel: int, intent: V2, dt: int)
    requires
        maxv >= 0,
        dt >= 0,
    ensures
        norm_sq(spec_player_step(vel, pos, maxv, accel, intent, dt).0) <= maxv * maxv,
{
    let v0 = v2_add(vel, v2_scale(intent, spec_mul_fp(accel, dt)));
    let v1 = spec_clamp_len(v0, maxv);
    lemma_clamp_len_norm(v0, maxv);
    assert(FRICTION as int * dt >= 0) by (nonlinear_arith)
        requires
            dt >= 0,
    ;
    lemma_div_down_mag(FRICTION as int * dt, FP_ONE as int);
    let denom = FP_ONE + spec_mul_fp(FRICTION as int, dt);
    lemma_div_down_mag(v1.x * FP_ONE, denom);
    lemma_div_down_mag(v1.y * FP_ONE, denom);
    let v2d = spec_damp(v1, dt);
    assert(abs_i(v2d.x) * denom <= abs_i(v1.x * FP_ONE));
    assert(abs_i(v1.x * FP_ONE) == abs_i(v1.x) * FP_ONE) by (nonlinear_arith);
    assert(abs_i(v1.y * FP_ONE) == abs_i(v1.y) * FP_ONE) by (nonlinear_arith);
    assert(abs_i(v2d.x) <= abs_i(v1.x)) by (nonlinear_arith)
        requires
            abs_i(v2d.x) * denom <= abs_i(v1.x) * FP_ONE,
            denom >= FP_ONE,
            abs_i(v2d.x) >= 0,
    ;
    assert(abs_i(v2d.y) <= abs_i(v1.y)) by (nonlinear_arith)
        requires
            abs_i(v2d.y) * denom <= abs_i(v1.y) * FP_ONE,
            denom >= FP_ONE,
            abs_i(v2d.y) >= 0,
    ;
    lemma_norm_dominated(v2d, v1);
    let s = spec_player_step(vel, pos, maxv, accel, intent, dt);
    lemma_norm_dominated(s.0, v2d);
}

/// Law (speed clamp over a whole run): folding any sequence of intent
/// and elapsed-time inputs over the motion step keeps the speed within
/// the maximum, provided it started there.
pub open spec fn spec_player_run(
    vel: V2,
    pos: V2,
    maxv: int,
    accel: int,
    inputs: Seq<(V2, int)>,
) -> (V2, V2)
    decreases inputs.len(),
{
    if inputs.len() == 0 {
        (vel, pos)
    } else {
        let first = spec_player_step(vel, pos, maxv, accel, inputs[0].0, inputs[0].1);
        spec_player_run(first.0, first.1, maxv, accel, inputs.drop_first())
    }
}

/// Law (speed clamp, all input sequences): see [`spec_player_run`].
pub proof fn lemma_speed_clamp_run(
    vel: V2,
    pos: V2,
    maxv: int,
    accel: int,
    inputs: Seq<(V2, int)>,
)
    requires
        maxv >= 0,
        norm_sq(vel) <= maxv * maxv,
        forall|j: int| 0 <= j < inputs.len() ==> (#[trigger] inputs[j]).1 >= 0,
    ensures
        norm_sq(spec_player_run(vel, pos, maxv, accel, inputs).0) <= maxv * maxv,
    decreases inputs.len(),
{
    if inputs.len() > 0 {
        let first = spec_player_step(vel, pos, maxv, accel, inputs[0].0, inputs[0].1);
        lemma_speed_clamp(vel, pos, maxv, accel, inputs[0].0, inputs[0].1);
        lemma_speed_clamp_run(first.0, first.1, maxv, accel, inputs.drop_first());
    }
}

/// Law (bounds clamp): after one motion step the position lies within
/// the arena on both axes, whatever the inputs.
pub proof fn lemma_bounds_clamp(vel: V2, pos: V2, maxv: int, accel: int, intent: V2, dt: int)
    ensures
        -PLAYER_POS_LIMIT <= spec_player_step(vel, pos, maxv, accel, intent, dt).1.x
            <= PLAYER_POS_LIMIT,
        -PLAYER_POS_LIMIT <= spec_player_step(vel, pos, maxv, accel, intent, dt).1.y
            <= PLAYER_POS_LIMIT,
        -ARENA_HALF <= spec_player_step(vel, pos, maxv, accel, intent, dt).1.x <= ARENA_HALF,
        -ARENA_HALF <= spec_player_step(vel, pos, maxv, accel, intent, dt).1.y <= ARENA_HALF,
{
}

/// Create the player at the arena's center, at rest, facing along the
/// positive x axis, with a ready weapon anchored to it.
pub fn spawn_player(w: &mut World) -> (id: usize)
    requires
        wf_world(old(w)),
        old(w).entities@.len() < 1_000_000_000,
    ensures
        id == old(w).entities@.len(),
        final(w).entities@.len() == old(w).entities@.len() + 1,
        final(w).entities@ == old(w).entities@.push(final(w).entities@[id as int]),
        final(w).pending@ == old(w).pending@,
        wf_world(final(w)),
        ({
            let e = final(w).entities@[id as int];
            &&& e.id == id
            &&& e.kind == EntityKind::Player
            &&& e.alive
            &&& e.transform.pos@ == (V2 { x: 0, y: 0 })
            &&& e.transform.facing@ == (V2 { x: FP_ONE as int, y: 0 })
            &&& e.payload == Payload::Player(
                Player {
                    velocity: Vec2 { x: 0, y: 0 },
                    max_velocity: PLAYER_MAX_SPEED,
                    acceleration: PLAYER_ACCEL,
                },
                Gun { shoot_cooldown: SHOOT_COOLDOWN, shoot_timer: 0 },
            )
        }),
{
    let p = initial_player();
    let g = Gun { shoot_cooldown: SHOOT_COOLDOWN, shoot_timer: 0 };
    let t = Transform { pos: Vec2 { x: 0, y: 0 }, facing: Vec2 { x: FP_ONE, y: 0 } };
    proof {
        assert(norm_sq(t.facing@) == FP_ONE * FP_ONE);
    }
    w.spawn_entity(EntityKind::Player, t, Payload::Player(p, g))
}

/// The camera's framing of the player: the position clamped into the
/// arena on both axes. The caller applies the result to its camera.
pub fn camera_follow_player_system(player_pos: Vec2) -> (r: Vec2)
    ensures
        r@.x == spec_clamp(player_pos@.x, -(ARENA_HALF as int), ARENA_HALF as int),
        r@.y == spec_clamp(player_pos@.y, -(ARENA_HALF as int), ARENA_HALF as int),
{
    Vec2 {
        x: clamp_i64(player_pos.x, -ARENA_HALF, ARENA_HALF),
        y: clamp_i64(player_pos.y, -ARENA_HALF, ARENA_HALF),
    }
}

} // verus!
