//! Weapon state, projectile state, and the cooldown-gated fire control.
//!
//! Per tick the weapon's timer counts down by `dt`, clamped at zero. On a
//! fire trigger with the timer at zero and a resolved aim direction, the
//! timer resets to the cooldown and a projectile spawn is requested at
//! the muzzle, flying toward the aim point. Firing is suppressed when no
//! aim target is given, and when the aim point coincides with the
//! player's position (the direction would be undefined); the timer still
//! counts down on such ticks.

use vstd::prelude::*;
use crate::constants::{ARENA_HALF, BULLET_LIFETIME, BULLET_SPEED, MAX_DT};
use crate::fixed::{lemma_component_bound, lemma_mul_mag, lemma_scale_mag, norm_sq, spec_normalize, v2_add, v2_scale, v2_sub, vec2_of, Vec2, V2, FP_ONE, UNIT_MIN_SQ};
use crate::world::{entity_ok, pos_within, spawn_ok, transform_ok, wf_at, wf_world, Entity, EntityKind, Payload, SpawnRequest, Transform, World};

verus! {

/// Bound on a configured cooldown duration.
pub const COOLDOWN_BOUND: i64 = 100_000;

/// Furthest coordinate at which a bullet may be created: the player's
/// clamped position plus half the player's size plus the muzzle offset.
pub const BULLET_SPAWN_LIMIT: i64 = 1_023_000;

/// Weapon attached to the player: a cooldown duration and the time still
/// to wait before the next shot.
#[derive(Clone, Copy, PartialEq, Eq, Structural, Debug)]
pub struct Gun {
    /// Minimum time between shots, in seconds.
    pub shoot_cooldown: i64,
    /// Remaining wait; firing is possible exactly when this is zero.
    pub shoot_timer: i64,
}

/// Internal invariant of a weapon: the timer counts down within the
/// configured cooldown.
pub open spec fn gun_ok(g: Gun) -> bool {
    &&& 0 < g.shoot_cooldown <= COOLDOWN_BOUND
    &&& 0 <= g.shoot_timer <= g.shoot_cooldown
}

/// State of a projectile in flight.
#[derive(Clone, Copy, PartialEq, Eq, Structural, Debug)]
pub struct Bullet {
    /// Time left before the projectile despawns, in seconds.
    pub lifetime: i64,
    /// Flight speed, world units per second.
    pub speed: i64,
    /// Unit-length flight direction, fixed-point.
    pub direction: Vec2,
}

/// Internal invariant of a live projectile: positive remaining lifetime
/// within the configured one, bounded speed, and a direction of unit
/// length up to rounding — its squared length lies between
/// [`UNIT_MIN_SQ`] and `FP_ONE * FP_ONE`.
pub open spec fn bullet_ok(b: Bullet) -> bool {
    &&& 0 < b.lifetime <= BULLET_LIFETIME
    &&& 0 <= b.speed <= BULLET_SPEED
    &&& UNIT_MIN_SQ <= norm_sq(b.direction@) <= FP_ONE * FP_ONE
}

/// Distance from the player's center to the muzzle: half the player's
/// size plus the gun offset.
pub const MUZZLE_OFFSET: i64 = 23_000;

/// Furthest coordinate an aim target may carry.
pub const AIM_BOUND: i64 = 100_000_000;

/// The timer after counting down by `dt`, clamped at a floor of zero.
pub open spec fn spec_cooldown(timer: int, dt: int) -> int {
    if timer - dt < 0 {
        0
    } else {
        timer - dt
    }
}

/// The projectile request a shot from `pos` along unit direction `dir`
/// emits: placed at the muzzle, facing and flying along `dir`, with the
/// configured speed and lifetime.
pub open spec fn spec_request(pos: V2, dir: V2) -> SpawnRequest {
    let origin = v2_add(pos, v2_scale(dir, MUZZLE_OFFSET as int));
    SpawnRequest::Projectile(
        Transform { pos: vec2_of(origin), facing: vec2_of(dir) },
        Bullet { lifetime: BULLET_LIFETIME, speed: BULLET_SPEED, direction: vec2_of(dir) },
    )
}

/// One fire-control tick: the new weapon state, the new facing, and the
/// projectile request if one is due. The timer counts down by `dt` with
/// a floor of zero; with an aim target distinct from `pos` the facing
/// turns toward it, and a trigger with the counted-down timer at zero
/// fires: the timer resets to the cooldown and a request is emitted.
/// With no target, or a target at `pos` exactly, nothing fires.
pub open spec fn spec_fire(
    g: Gun,
    pos: V2,
    facing: Vec2,
    aim: Option<Vec2>,
    trigger: bool,
    dt: int,
) -> (Gun, Vec2, Option<SpawnRequest>) {
    let timer1 = spec_cooldown(g.shoot_timer as int, dt);
    match aim {
        Option::None => (
            Gun { shoot_cooldown: g.shoot_cooldown, shoot_timer: timer1 as i64 },
            facing,
            Option::None,
        ),
        Option::Some(tv) => {
            let d = v2_sub(tv@, pos);
            if d.x == 0 && d.y == 0 {
                (
                    Gun { shoot_cooldown: g.shoot_cooldown, shoot_timer: timer1 as i64 },
                    facing,
                    Option::None,
                )
            } else {
                let dir = spec_normalize(d);
                let fire = trigger && timer1 == 0;
                (
                    Gun {
                        shoot_cooldown: g.shoot_cooldown,
                        shoot_timer: if fire {
                            g.shoot_cooldown
                        } else {
                            timer1 as i64
                        },
                    },
                    vec2_of(dir),
                    if fire {
                        Option::Some(spec_request(pos, dir))
                    } else {
                        Option::None
                    },
                )
            }
        },
    }
}

/// One verified fire-control step for a single weapon, exactly as
/// [`spec_fire`] states it.
pub fn fire_control(
    g: Gun,
    pos: Vec2,
    facing: Vec2,
    aim: Option<Vec2>,
    trigger: bool,
    dt: i64,
) -> (r: (Gun, Vec2, Option<SpawnRequest>))
    requires
        gun_ok(g),
        -ARENA_HALF <= pos@.x <= ARENA_HALF,
        -ARENA_HALF <= pos@.y <= ARENA_HALF,
        aim matches Option::Some(t) ==> -AIM_BOUND <= t@.x <= AIM_BOUND && -AIM_BOUND <= t@.y
            <= AIM_BOUND,
        0 <= dt <= MAX_DT,
    ensures
        r == spec_fire(g, pos@, facing, aim, trigger, dt as int),
        gun_ok(r.0),
        r.2 matches Option::Some(req) ==> spawn_ok(req),
        aim is None ==> r.2 is None,
        norm_sq(facing@) <= FP_ONE * FP_ONE ==> norm_sq(r.1@) <= FP_ONE * FP_ONE,
{
    let timer1: i64 = if g.shoot_timer >= dt {
        g.shoot_timer - dt
    } else {
        0
    };
    match aim {
        Option::None => (
            Gun { shoot_cooldown: g.shoot_cooldown, shoot_timer: timer1 },
            facing,
            Option::None,
        ),
        Option::Some(tv) => {
            let d = tv.sub(pos);
            if d.x == 0 && d.y == 0 {
                (
                    Gun { shoot_cooldown: g.shoot_cooldown, shoot_timer: timer1 },
                    facing,
                    Option::None,
                )
            } else {
                let dir = d.normalize_or_zero();
                let fire = trigger && timer1 == 0;
                let g2 = Gun {
                    shoot_cooldown: g.shoot_cooldown,
                    shoot_timer: if fire {
                        g.shoot_cooldown
                    } else {
                        timer1
                    },
                };
                if fire {
                    proof {
                        lemma_component_bound(dir@.x, dir@.y, FP_ONE as int);
                        lemma_mul_mag(dir@.x, MUZZLE_OFFSET as int, FP_ONE as int, MUZZLE_OFFSET as int);
                        lemma_mul_mag(dir@.y, MUZZLE_OFFSET as int, FP_ONE as int, MUZZLE_OFFSET as int);
                        lemma_scale_mag(dir@, MUZZLE_OFFSET as int);
                    }
                    let muzzle = dir.scale(MUZZLE_OFFSET);
                    let origin = pos.add(muzzle);
                    let t = Transform { pos: origin, facing: dir };
                    let b = Bullet {
                        lifetime: BULLET_LIFETIME,
                        speed: BULLET_SPEED,
                        direction: dir,
                    };
                    let req = SpawnRequest::Projectile(t, b);
                    proof {
                        assert(origin@ == v2_add(pos@, v2_scale(dir@, MUZZLE_OFFSET as int)));
                        assert(vec2_of(origin@) == origin);
                        assert(vec2_of(dir@) == dir);
                        assert(pos_within(origin, BULLET_SPAWN_LIMIT as int));
                    }
                    (g2, dir, Option::Some(req))
                } else {
                    proof {
                        assert(vec2_of(dir@) == dir);
                    }
                    (g2, dir, Option::None)
                }
            }
        },
    }
}

/// How a fire-control tick relates one entity record to its successor: a
/// live player's weapon and facing took one [`spec_fire`] step; its
/// position, motion state and identity are untouched, and so is every
/// other record.
pub open spec fn gun_done(e0: Entity, e1: Entity, aim: Option<Vec2>, trigger: bool, dt: int) -> bool {
    match e0.payload {
        Payload::Player(p0, g0) => {
            if e0.alive {
                match e1.payload {
                    Payload::Player(p1, g1) => {
                        let f = spec_fire(
                            g0,
                            e0.transform.pos@,
                            e0.transform.facing,
                            aim,
                            trigger,
                            dt,
                        );
                        &&& g1 == f.0
                        &&& e1.transform.facing == f.1
                        &&& e1.transform.pos == e0.transform.pos
                        &&& p1 == p0
                        &&& e1.id == e0.id
                        &&& e1.kind == e0.kind
                        &&& e1.alive == e0.alive
                    },
                    _ => false,
                }
            } else {
                e1 == e0
            }
        },
        _ => e1 == e0,
    }
}

/// The projectile requests a fire-control tick queues, in entity order:
/// one per live player whose [`spec_fire`] step emits one.
pub open spec fn fire_requests(
    s: Seq<Entity>,
    aim: Option<Vec2>,
    trigger: bool,
    dt: int,
) -> Seq<SpawnRequest>
    decreases s.len(),
{
    if s.len() == 0 {
        Seq::empty()
    } else {
        let head = fire_requests(s.drop_last(), aim, trigger, dt);
        let e = s.last();
        match e.payload {
            Payload::Player(_, g) => {
                if e.alive {
                    match spec_fire(g, e.transform.pos@, e.transform.facing, aim, trigger, dt).2 {
                        Option::Some(r) => head.push(r),
                        Option::None => head,
                    }
                } else {
                    head
                }
            },
            _ => head,
        }
    }
}

/// Unrolling [`fire_requests`] one entity at a time, front to back.
proof fn lemma_fire_requests_step(
    s: Seq<Entity>,
    aim: Option<Vec2>,
    trigger: bool,
    dt: int,
    i: int,
)
    requires
        0 <= i < s.len(),
    ensures
        fire_requests(s.take(i + 1), aim, trigger, dt) == ({
            let head = fire_requests(s.take(i), aim, trigger, dt);
            let e = s[i];
            match e.payload {
                Payload::Player(_, g) => {
                    if e.alive {
                        match spec_fire(
                            g,
                            e.transform.pos@,
                            e.transform.facing,
                            aim,
                            trigger,
                            dt,
                        ).2 {
                            Option::Some(r) => head.push(r),
                            Option::None => head,
                        }
                    } else {
                        head
                    }
                },
                _ => head,
            }
        }),
{
    assert(s.take(i + 1).drop_last() =~= s.take(i));
    assert(s.take(i + 1).last() == s[i]);
}

/// Targeting and fire control over the world: every live player turns
/// toward the aim target and its weapon ticks; due shots queue
/// projectile requests in entity order.
pub fn gun_controls(w: &mut World, aim: Option<Vec2>, trigger: bool, dt: i64)
    requires
        wf_world(old(w)),
        aim matches Option::Some(t) ==> -AIM_BOUND <= t@.x <= AIM_BOUND && -AIM_BOUND <= t@.y
            <= AIM_BOUND,
        0 <= dt <= MAX_DT,
    ensures
        wf_world(final(w)),
        final(w).entities@.len() == old(w).entities@.len(),
        forall|j: int|
            0 <= j < old(w).entities@.len() ==> gun_done(
                old(w).entities@[j],
                #[trigger] final(w).entities@[j],
                aim,
                trigger,
                dt as int,
            ),
        final(w).pending@ == old(w).pending@ + fire_requests(
            old(w).entities@,
            aim,
            trigger,
            dt as int,
        ),
        aim is None ==> final(w).pending@ == old(w).pending@,
{
    let n = w.entities.len();
    let mut i: usize = 0;
    while i < n
        invariant
            n == w.entities@.len(),
            n == old(w).entities@.len(),
            i <= n,
            wf_world(old(w)),
            wf_world(w),
            aim matches Option::Some(t) ==> -AIM_BOUND <= t@.x <= AIM_BOUND && -AIM_BOUND <= t@.y
                <= AIM_BOUND,
            0 <= dt <= MAX_DT,
            forall|j: int|
                0 <= j < i ==> gun_done(
                    old(w).entities@[j],
                    #[trigger] w.entities@[j],
                    aim,
                    trigger,
                    dt as int,
                ),
            forall|j: int| i <= j < n ==> w.entities@[j] == old(w).entities@[j],
            w.pending@ == old(w).pending@ + fire_requests(
                old(w).entities@.take(i as int),
                aim,
                trigger,
                dt as int,
            ),
        decreases n - i,
    {
        let e = w.entities[i];
        proof {
            assert(wf_at(w.entities@, i as int));
            lemma_fire_requests_step(old(w).entities@, aim, trigger, dt as int, i as int);
        }
        let fired = if e.alive {
            match e.payload {
                Payload::Player(p, g) => {
                    let f = fire_control(g, e.transform.pos, e.transform.facing, aim, trigger, dt);
                    let e2 = Entity {
                        id: e.id,
                        kind: e.kind,
                        transform: Transform { pos: e.transform.pos, facing: f.1 },
                        payload: Payload::Player(p, f.0),
                        alive: true,
                    };
                    let ghost pre = w.entities@;
                    w.entities.set(i, e2);
                    proof {
                        assert forall|k: int| 0 <= k < n implies #[trigger] wf_at(
                            w.entities@,
                            k,
                        ) by {
                            assert(wf_at(pre, k));
                            if k != i {
                                assert(w.entities@[k] == pre[k]);
                            } else {
                                assert(entity_ok(e2));
                            }
                        }
                    }
                    f.2
                },
                _ => Option::None,
            }
        } else {
            Option::None
        };
        match fired {
            Option::Some(req) => {
                let ghost pp = w.pending@;
                w.pending.push(req);
                proof {
                    assert(w.pending@ =~= old(w).pending@ + fire_requests(
                        old(w).entities@.take(i as int + 1),
                        aim,
                        trigger,
                        dt as int,
                    ));
                }
            },
            Option::None => {
                proof {
                    assert(w.pending@ =~= old(w).pending@ + fire_requests(
                        old(w).entities@.take(i as int + 1),
                        aim,
                        trigger,
                        dt as int,
                    ));
                }
            },
        }
        i = i + 1;
    }
    proof {
        assert(old(w).entities@.take(n as int) =~= old(w).entities@);
        if aim is None {
            lemma_fire_requests_none(old(w).entities@, trigger, dt as int);
            assert(w.pending@ =~= old(w).pending@);
        }
    }
}

/// With no aim target, no entity queues a request.
proof fn lemma_fire_requests_none(s: Seq<Entity>, trigger: bool, dt: int)
    ensures
        fire_requests(s, Option::None, trigger, dt) =~= Seq::<SpawnRequest>::empty(),
    decreases s.len(),
{
    if s.len() > 0 {
        lemma_fire_requests_none(s.drop_last(), trigger, dt);
    }
}

/// Create a projectile entity from its placement and state, live at
/// once. [`crate::game::apply_deferred`] routes every queued projectile
/// request through here at the end of the tick.
pub fn spawn_bullet(w: &mut World, transform: Transform, bullet: Bullet) -> (id: usize)
    requires
        wf_world(old(w)),
        old(w).entities@.len() < 1_000_000_000,
        bullet_ok(bullet),
        bullet.lifetime == BULLET_LIFETIME,
        transform_ok(transform),
        pos_within(transform.pos, BULLET_SPAWN_LIMIT as int),
    ensures
        id == old(w).entities@.len(),
        final(w).entities@ == old(w).entities@.push(
            Entity {
                id,
                kind: EntityKind::Projectile,
                transform,
                payload: Payload::Projectile(bullet),
                alive: true,
            },
        ),
        final(w).pending@ == old(w).pending@,
        wf_world(final(w)),
{
    proof {
        let e = Entity {
            id: old(w).entities@.len() as usize,
            kind: EntityKind::Projectile,
            transform,
            payload: Payload::Projectile(bullet),
            alive: true,
        };
        assert(entity_ok(e));
    }
    w.spawn_entity(EntityKind::Projectile, transform, Payload::Projectile(bullet))
}

/// Law (no-target suppression): with `aim` undefined no fire-control
/// tick emits a request, whatever the trigger and the weapon's state.
pub proof fn lemma_no_target_suppression(g: Gun, pos: V2, facing: Vec2, trigger: bool, dt: int)
    ensures
        spec_fire(g, pos, facing, Option::None, trigger, dt).2 is None,
{
}

/// Law (cooldown gate): a ready weapon fires on the trigger, and firing
/// again after less than the cooldown has elapsed is gated off — two
/// trigger pulses closer together than the cooldown yield exactly one
/// request.
pub proof fn lemma_cooldown_gate(
    g: Gun,
    pos: V2,
    t1: V2,
    t2: V2,
    facing: Vec2,
    aim1: Option<Vec2>,
    aim2: Option<Vec2>,
    dt1: int,
    dt2: int,
)
    requires
        gun_ok(g),
        g.shoot_timer as int <= dt1,
        0 <= dt1,
        0 <= dt2 < g.shoot_cooldown as int,
        aim1 matches Option::Some(v) && v@ == t1,
        aim2 matches Option::Some(v) && v@ == t2,
        t1 != pos,
        t2 != pos,
    ensures
        spec_fire(g, pos, facing, aim1, true, dt1).2 is Some,
        ({
            let g1 = spec_fire(g, pos, facing, aim1, true, dt1).0;
            spec_fire(g1, pos, facing, aim2, true, dt2).2 is None
        }),
{
}

} // verus!
