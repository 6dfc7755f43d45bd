//! The collision resolver and the world-level tick plumbing.
//!
//! The resolver drains one tick's contact events. An event qualifies
//! exactly when one side is a live projectile and the other a live
//! agent; player-agent, agent-agent and projectile-projectile pairings,
//! ended overlaps, and events naming entities no longer present are all
//! ignored, leaving the world untouched. On a qualifying event the
//! projectile is despawned at once — a repeated event naming the same
//! projectile, or a later event against the now-dead agent, is a benign
//! no-op, the per-tick deduplication — and the agent takes the damage
//! constant off its health; at zero or below the agent is despawned and
//! a replacement agent is requested. Despawns mark the record dead
//! immediately (so later events of the same tick no longer see it);
//! queued spawns take effect at [`apply_deferred`].

use vstd::prelude::*;
use vstd::pervasive::VecAdditionalExecFns;
use crate::constants::{ARENA_HALF, BULLET_SIZE_X, BULLET_SIZE_Y, DAMAGE_PER_HIT, GRID_STEP, MAP_SIZE, NPC_COUNT, NPC_INITIAL_HEALTH, NPC_SIZE, NPC_SPEED, PLAYER_ACCEL, PLAYER_MAX_SPEED, PLAYER_SIZE, SHOOT_COOLDOWN};
use crate::fixed::{abs_i, Vec2, V2, FP_ONE};
use crate::gun::{spawn_bullet, Gun};
use crate::npc::{spawn_npc, Npc, NPC_SPAWN_LIMIT};
use crate::player::{spawn_player, Player};
use crate::world::{agent_count, entity_ok, killed, lemma_agent_count_push, lemma_agent_count_update, live_agent_at, live_bullet_at, spawn_ok, wf_at, wf_world, ContactEvent, Entity, EntityKind, Payload, SpawnRequest, Transform, World};

verus! {

/// The agent state after one hit: the damage constant off its health.
pub open spec fn damaged(n: Npc) -> Npc {
    Npc {
        velocity: n.velocity,
        target_velocity: n.target_velocity,
        speed: n.speed,
        health: (n.health - DAMAGE_PER_HIT) as i64,
    }
}

/// Resolution of one qualifying hit, with `bul` a live projectile and
/// `other` a live agent: the projectile dies, the agent takes damage
/// and dies when its health reaches zero or below, which also counts
/// one respawn request. Yields the new table and the respawn count
/// (0 or 1).
pub open spec fn resolve_hit(s: Seq<Entity>, bul: int, other: int) -> (Seq<Entity>, int) {
    let s1 = s.update(bul, killed(s[bul]));
    if live_agent_at(s1, other) {
        let e = s1[other];
        match e.payload {
            Payload::Agent(n) => {
                let n2 = damaged(n);
                let still = n.health - DAMAGE_PER_HIT > 0;
                let e2 = Entity {
                    id: e.id,
                    kind: e.kind,
                    transform: e.transform,
                    payload: Payload::Agent(n2),
                    alive: still,
                };
                (s1.update(other, e2), if still { 0int } else { 1int })
            },
            _ => (s1, 0),
        }
    } else {
        (s1, 0)
    }
}

/// Resolution of one contact event: only a beginning overlap between a
/// live projectile on one side and a live agent on the other qualifies.
/// Any other pairing — player-agent, agent-agent, projectile-projectile
/// — and any event naming an entity no longer present is ignored and
/// changes nothing, not even the projectile.
pub open spec fn resolve_event(s: Seq<Entity>, ev: ContactEvent) -> (Seq<Entity>, int) {
    if !ev.started {
        (s, 0)
    } else if live_bullet_at(s, ev.first as int) && live_agent_at(s, ev.second as int) {
        resolve_hit(s, ev.first as int, ev.second as int)
    } else if live_bullet_at(s, ev.second as int) && live_agent_at(s, ev.first as int) {
        resolve_hit(s, ev.second as int, ev.first as int)
    } else {
        (s, 0)
    }
}

/// Resolution of a whole tick's event stream, front to back; the second
/// component counts the respawn requests owed.
pub open spec fn resolve_events(s: Seq<Entity>, evs: Seq<ContactEvent>) -> (Seq<Entity>, int)
    decreases evs.len(),
{
    if evs.len() == 0 {
        (s, 0)
    } else {
        let r1 = resolve_event(s, evs[0]);
        let rest = resolve_events(r1.0, evs.drop_first());
        (rest.0, r1.1 + rest.1)
    }
}

/// The respawn count of a resolution is never negative.
pub proof fn lemma_resolve_count_nonneg(s: Seq<Entity>, evs: Seq<ContactEvent>)
    ensures
        0 <= resolve_events(s, evs).1 <= evs.len(),
    decreases evs.len(),
{
    if evs.len() > 0 {
        lemma_resolve_count_nonneg(resolve_event(s, evs[0]).0, evs.drop_first());
    }
}

/// Resolution preserves the table's length.
pub proof fn lemma_resolve_len(s: Seq<Entity>, evs: Seq<ContactEvent>)
    ensures
        resolve_events(s, evs).0.len() == s.len(),
    decreases evs.len(),
{
    if evs.len() > 0 {
        lemma_resolve_len(resolve_event(s, evs[0]).0, evs.drop_first());
    }
}

/// The collision resolver: drain this tick's contact events, apply
/// damage and lifecycle changes exactly as [`resolve_events`] states,
/// and queue one replacement-agent request per agent death.
pub fn bullet_collision_system(w: &mut World, events: &Vec<ContactEvent>)
    requires
        wf_world(old(w)),
    ensures
        wf_world(final(w)),
        final(w).entities@ == resolve_events(old(w).entities@, events@).0,
        final(w).pending@ == old(w).pending@ + Seq::new(
            resolve_events(old(w).entities@, events@).1 as nat,
            |k: int| SpawnRequest::Agent,
        ),
{
    let ghost total = resolve_events(old(w).entities@, events@);
    let n = events.len();
    let mut i: usize = 0;
    let mut deaths: usize = 0;
    proof {
        assert(events@.skip(0) =~= events@);
        lemma_resolve_count_nonneg(old(w).entities@, events@);
    }
    while i < n
        invariant
            n == events@.len(),
            i <= n,
            wf_world(w),
            resolve_events(w.entities@, events@.skip(i as int)).0 == total.0,
            deaths + resolve_events(w.entities@, events@.skip(i as int)).1 == total.1,
            deaths <= i,
            w.pending@ == old(w).pending@ + Seq::new(
                deaths as nat,
                |k: int| SpawnRequest::Agent,
            ),
        decreases n - i,
    {
        let ev = events[i];
        let ghost pre = w.entities@;
        let ghost deaths0: int = deaths as int;
        let ghost rest = events@.skip(i as int);
        proof {
            assert(rest[0] == events@[i as int]);
            assert(rest.drop_first() =~= events@.skip(i as int + 1));
        }
        if ev.started {
            let (hit, bul, other): (bool, usize, usize) = if w.live_bullet(ev.first)
                && w.live_agent(ev.second) {
                (true, ev.first, ev.second)
            } else if w.live_bullet(ev.second) && w.live_agent(ev.first) {
                (true, ev.second, ev.first)
            } else {
                (false, 0, 0)
            };
            if hit {
                w.despawn(bul);
                if w.live_agent(other) {
                    let e = w.entities[other];
                    proof {
                        assert(wf_at(w.entities@, other as int));
                    }
                    match e.payload {
                        Payload::Agent(nst) => {
                            let h2 = nst.health - DAMAGE_PER_HIT;
                            let n2 = Npc {
                                velocity: nst.velocity,
                                target_velocity: nst.target_velocity,
                                speed: nst.speed,
                                health: h2,
                            };
                            let still = h2 > 0;
                            let e2 = Entity {
                                id: e.id,
                                kind: e.kind,
                                transform: e.transform,
                                payload: Payload::Agent(n2),
                                alive: still,
                            };
                            let ghost mid = w.entities@;
                            w.entities.set(other, e2);
                            proof {
                                assert forall|k: int|
                                    0 <= k < w.entities@.len() implies #[trigger] wf_at(
                                    w.entities@,
                                    k,
                                ) by {
                                    assert(wf_at(mid, k));
                                    if k != other {
                                        assert(w.entities@[k] == mid[k]);
                                    } else {
                                        if still {
                                            assert(entity_ok(e2));
                                        }
                                    }
                                }
                            }
                            if !still {
                                w.pending.push(SpawnRequest::Agent);
                                deaths = deaths + 1;
                                proof {
                                    assert(w.pending@ =~= old(w).pending@ + Seq::new(
                                        deaths as nat,
                                        |k: int| SpawnRequest::Agent,
                                    ));
                                    assert forall|q: int|
                                        0 <= q < w.pending@.len() implies #[trigger] spawn_ok(
                                        w.pending@[q],
                                    ) by {
                                        if q < w.pending@.len() - 1 {
                                            assert(spawn_ok(w.pending@[q]));
                                        }
                                    }
                                }
                            }
                        },
                        _ => {
                            proof {
                                assert(false);
                            }
                        },
                    }
                }
            }
        }
        proof {
            let r1 = resolve_event(pre, rest[0]);
            assert(r1.0 == w.entities@);
            assert(r1.1 == deaths - deaths0);
            assert(resolve_events(w.entities@, events@.skip(i as int + 1)).0 == total.0);
            assert(deaths + resolve_events(w.entities@, events@.skip(i as int + 1)).1 == total.1);
        }
        i = i + 1;
    }
    proof {
        assert(events@.skip(n as int) =~= Seq::<ContactEvent>::empty());
    }
}

/// Law (respawn invariant, one event): resolving one contact event
/// loses exactly as many live agents as it queues respawn requests.
pub proof fn lemma_respawn_event(s: Seq<Entity>, ev: ContactEvent)
    ensures
        agent_count(resolve_event(s, ev).0) + resolve_event(s, ev).1 == agent_count(s),
{
    if ev.started {
        if live_bullet_at(s, ev.first as int) && live_agent_at(s, ev.second as int) {
            lemma_respawn_hit(s, ev.first as int, ev.second as int);
        } else if live_bullet_at(s, ev.second as int) && live_agent_at(s, ev.first as int) {
            lemma_respawn_hit(s, ev.second as int, ev.first as int);
        }
    }
}

/// The hit resolution keeps population plus owed respawns constant.
proof fn lemma_respawn_hit(s: Seq<Entity>, bul: int, other: int)
    requires
        live_bullet_at(s, bul),
    ensures
        agent_count(resolve_hit(s, bul, other).0) + resolve_hit(s, bul, other).1
            == agent_count(s),
{
    let s1 = s.update(bul, killed(s[bul]));
    lemma_agent_count_update(s, bul, killed(s[bul]));
    if live_agent_at(s1, other) {
        let e = s1[other];
        match e.payload {
            Payload::Agent(n) => {
                let n2 = damaged(n);
                let still = n.health - DAMAGE_PER_HIT > 0;
                let e2 = Entity {
                    id: e.id,
                    kind: e.kind,
                    transform: e.transform,
                    payload: Payload::Agent(n2),
                    alive: still,
                };
                lemma_agent_count_update(s1, other, e2);
            },
            _ => {},
        }
    }
}

/// Law (respawn invariant): over a whole tick's event stream the agent
/// population drops exactly by the number of respawn requests queued, so
/// applying those requests restores it — the population is constant
/// across time apart from the transient dip between a death and its
/// replacement at the end of the tick.
pub proof fn lemma_respawn_invariant(s: Seq<Entity>, evs: Seq<ContactEvent>)
    ensures
        agent_count(resolve_events(s, evs).0) + resolve_events(s, evs).1 == agent_count(s),
    decreases evs.len(),
{
    if evs.len() > 0 {
        lemma_respawn_event(s, evs[0]);
        lemma_respawn_invariant(resolve_event(s, evs[0]).0, evs.drop_first());
    }
}

/// A stream of qualifying hits on agent `j`: each event began this tick,
/// names `j` on its second side and a live projectile on its first, and
/// no projectile appears twice.
pub open spec fn hits_on(s: Seq<Entity>, evs: Seq<ContactEvent>, j: int) -> bool {
    &&& forall|k: int| 0 <= k < evs.len() ==> (#[trigger] evs[k]).started
    &&& forall|k: int| 0 <= k < evs.len() ==> (#[trigger] evs[k]).second == j
    &&& forall|k: int| 0 <= k < evs.len() ==> live_bullet_at(s, (#[trigger] evs[k]).first as int)
    &&& forall|k: int, l: int|
        0 <= k < l < evs.len() ==> (#[trigger] evs[k]).first != (#[trigger] evs[l]).first
}

/// The agent state after `n` hits.
pub open spec fn damaged_by(n0: Npc, n: int) -> Npc {
    Npc {
        velocity: n0.velocity,
        target_velocity: n0.target_velocity,
        speed: n0.speed,
        health: (n0.health - n * DAMAGE_PER_HIT) as i64,
    }
}

/// Law (damage monotonicity): an agent hit by `N` distinct qualifying
/// contact events, having survived the first `N - 1`, holds exactly
/// `initial - N * damage` health; it is live exactly while that is
/// positive, and its death is the single respawn request of the stream.
pub proof fn lemma_damage_monotonic(s: Seq<Entity>, evs: Seq<ContactEvent>, j: int, n0: Npc)
    requires
        0 <= j < s.len(),
        s[j].alive,
        s[j].payload == Payload::Agent(n0),
        hits_on(s, evs, j),
        n0.health > 0,
        n0.health > (evs.len() - 1) * DAMAGE_PER_HIT,
    ensures
        resolve_events(s, evs).0.len() == s.len(),
        resolve_events(s, evs).0[j].payload == Payload::Agent(damaged_by(n0, evs.len() as int)),
        resolve_events(s, evs).0[j].alive == (n0.health - evs.len() * DAMAGE_PER_HIT > 0),
        resolve_events(s, evs).1 == if n0.health - evs.len() * DAMAGE_PER_HIT > 0 {
            0int
        } else {
            1int
        },
    decreases evs.len(),
{
    lemma_resolve_len(s, evs);
    if evs.len() == 0 {
        assert(damaged_by(n0, 0) == n0);
    } else {
        let ev = evs[0];
        let b0 = ev.first as int;
        assert(live_bullet_at(s, b0));
        assert(b0 != j);
        let s1 = s.update(b0, killed(s[b0]));
        assert(s1[j] == s[j]);
        assert(live_agent_at(s1, j));
        let e = s1[j];
        let n1 = damaged(n0);
        let still = n0.health - DAMAGE_PER_HIT > 0;
        let e2 = Entity {
            id: e.id,
            kind: e.kind,
            transform: e.transform,
            payload: Payload::Agent(n1),
            alive: still,
        };
        let s2 = s1.update(j, e2);
        assert(resolve_event(s, ev) == (s2, if still {
            0int
        } else {
            1int
        }));
        let rest = evs.drop_first();
        assert(resolve_events(s, evs).0 == resolve_events(s2, rest).0);
        assert(resolve_events(s, evs).1 == (if still {
            0int
        } else {
            1int
        }) + resolve_events(s2, rest).1);
        assert(n1.health == n0.health - DAMAGE_PER_HIT);
        if rest.len() == 0 {
            assert(resolve_events(s2, rest) == (s2, 0int));
            assert(s2[j] == e2);
            assert(n1 == damaged_by(n0, 1));
        } else {
            assert(still);
            assert(hits_on(s2, rest, j)) by {
                assert forall|k: int|
                    0 <= k < rest.len() implies live_bullet_at(
                    s2,
                    (#[trigger] rest[k]).first as int,
                ) by {
                    assert(rest[k] == evs[k + 1]);
                    assert(live_bullet_at(s, rest[k].first as int));
                    assert(rest[k].first != ev.first);
                    assert(s2[rest[k].first as int] == s[rest[k].first as int]);
                }
                assert forall|k: int, l: int|
                    0 <= k < l < rest.len() implies (#[trigger] rest[k]).first != (
                    #[trigger] rest[l]).first by {
                    assert(rest[k] == evs[k + 1]);
                    assert(rest[l] == evs[l + 1]);
                }
                assert forall|k: int| 0 <= k < rest.len() implies (#[trigger] rest[k]).started
                    && rest[k].second == j by {
                    assert(rest[k] == evs[k + 1]);
                }
            }
            lemma_damage_monotonic(s2, rest, j, n1);
            assert(damaged_by(n1, rest.len() as int) == damaged_by(n0, evs.len() as int));
        }
    }
}

/// Number of replacement-agent requests in a queue.
pub open spec fn agent_requests(p: Seq<SpawnRequest>) -> int
    decreases p.len(),
{
    if p.len() == 0 {
        0
    } else {
        agent_requests(p.drop_last()) + if p.last() is Agent {
            1int
        } else {
            0int
        }
    }
}

/// Unrolling [`agent_requests`] one request at a time, front to back.
proof fn lemma_agent_requests_take(p: Seq<SpawnRequest>, k: int)
    requires
        0 <= k < p.len(),
    ensures
        agent_requests(p.take(k + 1)) == agent_requests(p.take(k)) + if p[k] is Agent {
            1int
        } else {
            0int
        },
{
    assert(p.take(k + 1).drop_last() =~= p.take(k));
    assert(p.take(k + 1).last() == p[k]);
}

/// The entity that honoring request `req` under id `id` must have
/// produced: a projectile exactly as requested; a replacement agent with
/// the fresh-agent state at some position comfortably inside the arena.
pub open spec fn spawned_matches(req: SpawnRequest, e: Entity, id: int) -> bool {
    match req {
        SpawnRequest::Projectile(t, b) => {
            &&& e.id == id
            &&& e.kind == EntityKind::Projectile
            &&& e.transform == t
            &&& e.payload == Payload::Projectile(b)
            &&& e.alive
        },
        SpawnRequest::Agent => {
            &&& e.id == id
            &&& e.kind == EntityKind::Agent
            &&& e.alive
            &&& e.payload == Payload::Agent(
                Npc {
                    velocity: Vec2 { x: 0, y: 0 },
                    target_velocity: Vec2 { x: 0, y: 0 },
                    speed: NPC_SPEED,
                    health: NPC_INITIAL_HEALTH,
                },
            )
            &&& -NPC_SPAWN_LIMIT <= e.transform.pos@.x < NPC_SPAWN_LIMIT
            &&& -NPC_SPAWN_LIMIT <= e.transform.pos@.y < NPC_SPAWN_LIMIT
        },
    }
}

/// The defined point at which this tick's queued spawns take effect:
/// every request becomes a fresh live entity, in queue order, and the
/// queue empties. Replacement agents restore the population that deaths
/// took out of it.
pub fn apply_deferred(w: &mut World)
    requires
        wf_world(old(w)),
        old(w).entities@.len() + old(w).pending@.len() < 1_000_000_000,
    ensures
        wf_world(final(w)),
        final(w).pending@.len() == 0,
        final(w).entities@.len() == old(w).entities@.len() + old(w).pending@.len(),
        forall|j: int|
            0 <= j < old(w).entities@.len() ==> final(w).entities@[j] == old(w).entities@[j],
        forall|q: int|
            0 <= q < old(w).pending@.len() ==> spawned_matches(
                old(w).pending@[q],
                #[trigger] final(w).entities@[old(w).entities@.len() + q],
                old(w).entities@.len() + q,
            ),
        agent_count(final(w).entities@) == agent_count(old(w).entities@) + agent_requests(
            old(w).pending@,
        ),
{
    let m = w.pending.len();
    let ghost n0: int = w.entities@.len() as int;
    proof {
        assert(old(w).pending@.take(0) =~= Seq::<SpawnRequest>::empty());
    }
    let mut k: usize = 0;
    while k < m
        invariant
            m == w.pending@.len(),
            w.pending@ == old(w).pending@,
            n0 == old(w).entities@.len(),
            k <= m,
            w.entities@.len() == n0 + k,
            n0 + m < 1_000_000_000,
            wf_world(w),
            forall|j: int| 0 <= j < n0 ==> w.entities@[j] == old(w).entities@[j],
            forall|q: int|
                0 <= q < k ==> spawned_matches(
                    old(w).pending@[q],
                    #[trigger] w.entities@[n0 + q],
                    n0 + q,
                ),
            agent_count(w.entities@) == agent_count(old(w).entities@) + agent_requests(
                old(w).pending@.take(k as int),
            ),
        decreases m - k,
    {
        let req = w.pending[k];
        let ghost pre = w.entities@;
        proof {
            lemma_agent_requests_take(old(w).pending@, k as int);
            assert(spawn_ok(req));
        }
        match req {
            SpawnRequest::Agent => {
                spawn_npc(w);
                proof {
                    lemma_agent_count_push(pre, w.entities@.last());
                    assert(w.entities@.drop_last() =~= pre);
                    assert(w.entities@ =~= pre.push(w.entities@.last()));
                }
            },
            SpawnRequest::Projectile(t, b) => {
                spawn_bullet(w, t, b);
                proof {
                    lemma_agent_count_push(pre, w.entities@.last());
                    assert(w.entities@ =~= pre.push(w.entities@.last()));
                }
            },
        }
        k = k + 1;
    }
    proof {
        assert(old(w).pending@.take(m as int) =~= old(w).pending@);
    }
    w.pending.clear();
}

/// The configured start of the player record: at the arena's center,
/// at rest, facing along the positive x axis, with a ready weapon.
pub open spec fn initial_player_entity(e: Entity) -> bool {
    &&& e.id == 0
    &&& e.kind == EntityKind::Player
    &&& e.alive
    &&& e.transform.pos@ == (V2 { x: 0, y: 0 })
    &&& e.transform.facing@ == (V2 { x: FP_ONE as int, y: 0 })
    &&& e.payload == Payload::Player(
        Player {
            velocity: Vec2 { x: 0, y: 0 },
            max_velocity: PLAYER_MAX_SPEED,
            acceleration: PLAYER_ACCEL,
        },
        Gun { shoot_cooldown: SHOOT_COOLDOWN, shoot_timer: 0 },
    )
}

/// The fresh-agent record that setup and respawning place at index `j`:
/// the configured agent state, somewhere comfortably inside the arena.
pub open spec fn initial_agent_entity(e: Entity, j: int) -> bool {
    &&& e.id == j
    &&& e.kind == EntityKind::Agent
    &&& e.alive
    &&& e.payload == Payload::Agent(
        Npc {
            velocity: Vec2 { x: 0, y: 0 },
            target_velocity: Vec2 { x: 0, y: 0 },
            speed: NPC_SPEED,
            health: NPC_INITIAL_HEALTH,
        },
    )
    &&& -NPC_SPAWN_LIMIT <= e.transform.pos@.x < NPC_SPAWN_LIMIT
    &&& -NPC_SPAWN_LIMIT <= e.transform.pos@.y < NPC_SPAWN_LIMIT
    &&& e.transform.facing@ == (V2 { x: FP_ONE as int, y: 0 })
}

/// Build the starting world: the player at the arena's center with its
/// weapon, and the configured number of fresh wandering agents at
/// random positions — exactly the configured initial state.
pub fn setup_world() -> (w: World)
    ensures
        wf_world(&w),
        w.pending@.len() == 0,
        w.entities@.len() == 1 + NPC_COUNT,
        initial_player_entity(w.entities@[0]),
        forall|j: int|
            1 <= j < w.entities@.len() ==> initial_agent_entity(#[trigger] w.entities@[j], j),
        agent_count(w.entities@) == NPC_COUNT,
{
    let mut w = World::new();
    proof {
        assert(agent_count(w.entities@) == 0);
    }
    spawn_player(&mut w);
    proof {
        lemma_agent_count_push(Seq::<Entity>::empty(), w.entities@.last());
        assert(w.entities@ =~= Seq::<Entity>::empty().push(w.entities@.last()));
    }
    let mut c: usize = 0;
    while c < NPC_COUNT
        invariant
            w.entities@.len() == 1 + c,
            c <= NPC_COUNT,
            w.pending@.len() == 0,
            wf_world(&w),
            initial_player_entity(w.entities@[0]),
            forall|j: int|
                1 <= j < w.entities@.len() ==> initial_agent_entity(
                    #[trigger] w.entities@[j],
                    j,
                ),
            agent_count(w.entities@) == c,
        decreases NPC_COUNT - c,
    {
        let ghost pre = w.entities@;
        spawn_npc(&mut w);
        proof {
            lemma_agent_count_push(pre, w.entities@.last());
            assert(w.entities@ =~= pre.push(w.entities@.last()));
            assert(w.entities@.last().payload matches Payload::Agent(_));
        }
        c = c + 1;
    }
    w
}

/// The renderable view of the world: `(id, kind, transform)` of every
/// live entity, in id order.
pub open spec fn render_seq(s: Seq<Entity>) -> Seq<(usize, EntityKind, Transform)>
    decreases s.len(),
{
    if s.len() == 0 {
        Seq::empty()
    } else {
        let head = render_seq(s.drop_last());
        if s.last().alive {
            head.push((s.last().id, s.last().kind, s.last().transform))
        } else {
            head
        }
    }
}

/// Unrolling [`render_seq`] one record at a time, front to back.
proof fn lemma_render_seq_take(s: Seq<Entity>, i: int)
    requires
        0 <= i < s.len(),
    ensures
        render_seq(s.take(i + 1)) == if s[i].alive {
            render_seq(s.take(i)).push((s[i].id, s[i].kind, s[i].transform))
        } else {
            render_seq(s.take(i))
        },
{
    assert(s.take(i + 1).drop_last() =~= s.take(i));
    assert(s.take(i + 1).last() == s[i]);
}

/// The per-tick output for rendering: id, kind and transform of every
/// live entity.
pub fn render_states(w: &World) -> (r: Vec<(usize, EntityKind, Transform)>)
    ensures
        r@ == render_seq(w.entities@),
{
    let n = w.entities.len();
    let mut r: Vec<(usize, EntityKind, Transform)> = Vec::new();
    proof {
        assert(w.entities@.take(0) =~= Seq::<Entity>::empty());
    }
    let mut i: usize = 0;
    while i < n
        invariant
            n == w.entities@.len(),
            i <= n,
            r@ == render_seq(w.entities@.take(i as int)),
        decreases n - i,
    {
        proof {
            lemma_render_seq_take(w.entities@, i as int);
        }
        let e = w.entities[i];
        if e.alive {
            r.push((e.id, e.kind, e.transform));
        }
        i = i + 1;
    }
    proof {
        assert(w.entities@.take(n as int) =~= w.entities@);
    }
    r
}

/// The world-space coordinates of the background grid's lines, one set
/// shared by the horizontal and the vertical lines: `MAP_SIZE + 1`
/// evenly spaced positions from one arena edge to the other. Drawing
/// them is the renderer's business; this is the geometry it needs.
pub fn draw_grid() -> (r: Vec<i64>)
    ensures
        r@.len() == MAP_SIZE + 1,
        forall|i: int| 0 <= i < r@.len() ==> r@[i] == i * GRID_STEP - ARENA_HALF,
{
    let mut r: Vec<i64> = Vec::new();
    let mut i: usize = 0;
    while i <= MAP_SIZE
        invariant
            i <= MAP_SIZE + 1,
            r@.len() == i,
            forall|k: int| 0 <= k < i ==> r@[k] == k * GRID_STEP - ARENA_HALF,
        decreases MAP_SIZE + 1 - i,
    {
        r.push((i as i64) * GRID_STEP - ARENA_HALF);
        i = i + 1;
    }
    r
}

/// Half-extent of an entity's collision box along the x axis.
pub open spec fn half_extent_x(k: EntityKind) -> int {
    match k {
        EntityKind::Player => PLAYER_SIZE as int / 2,
        EntityKind::Agent => NPC_SIZE as int / 2,
        EntityKind::Projectile => BULLET_SIZE_X as int / 2,
    }
}

/// Half-extent of an entity's collision box along the y axis.
pub open spec fn half_extent_y(k: EntityKind) -> int {
    match k {
        EntityKind::Player => PLAYER_SIZE as int / 2,
        EntityKind::Agent => NPC_SIZE as int / 2,
        EntityKind::Projectile => BULLET_SIZE_Y as int / 2,
    }
}

/// Whether the axis-aligned collision boxes of two entities overlap.
pub open spec fn spec_overlap(a: Entity, b: Entity) -> bool {
    &&& abs_i(a.transform.pos@.x - b.transform.pos@.x) < half_extent_x(a.kind) + half_extent_x(
        b.kind,
    )
    &&& abs_i(a.transform.pos@.y - b.transform.pos@.y) < half_extent_y(a.kind) + half_extent_y(
        b.kind,
    )
}

/// Whether two entities' axis-aligned collision boxes overlap; the
/// geometric half of the outside contact-detection step, for drivers
/// that run the simulation without a physics engine.
pub fn contact_overlap(a: &Entity, b: &Entity) -> (r: bool)
    requires
        abs_i(a.transform.pos@.x) <= 100_000_000,
        abs_i(a.transform.pos@.y) <= 100_000_000,
        abs_i(b.transform.pos@.x) <= 100_000_000,
        abs_i(b.transform.pos@.y) <= 100_000_000,
    ensures
        r == spec_overlap(*a, *b),
{
    let dx = a.transform.pos.x - b.transform.pos.x;
    let dy = a.transform.pos.y - b.transform.pos.y;
    let adx = if dx < 0 {
        -dx
    } else {
        dx
    };
    let ady = if dy < 0 {
        -dy
    } else {
        dy
    };
    let hx = half_x(a.kind) + half_x(b.kind);
    let hy = half_y(a.kind) + half_y(b.kind);
    adx < hx && ady < hy
}

/// Executable x half-extent by kind.
fn half_x(k: EntityKind) -> (r: i64)
    ensures
        r == half_extent_x(k),
{
    match k {
        EntityKind::Player => 15_000,
        EntityKind::Agent => 10_000,
        EntityKind::Projectile => 7_500,
    }
}

/// Executable y half-extent by kind.
fn half_y(k: EntityKind) -> (r: i64)
    ensures
        r == half_extent_y(k),
{
    match k {
        EntityKind::Player => 15_000,
        EntityKind::Agent => 10_000,
        EntityKind::Projectile => 1_000,
    }
}

/// Law (no damage after removal): contact events against an agent
/// already marked dead reference an entity no longer present, so they
/// do not qualify and leave the whole world unchanged — no damage, no
/// respawn, and the projectiles survive.
pub proof fn lemma_no_damage_after_removal(s: Seq<Entity>, evs: Seq<ContactEvent>, j: int)
    requires
        0 <= j < s.len(),
        !s[j].alive,
        hits_on(s, evs, j),
    ensures
        resolve_events(s, evs).0 == s,
        resolve_events(s, evs).1 == 0,
    decreases evs.len(),
{
    if evs.len() > 0 {
        let ev = evs[0];
        assert(live_bullet_at(s, ev.first as int));
        assert(!live_agent_at(s, ev.second as int));
        assert(!live_bullet_at(s, ev.second as int));
        assert(resolve_event(s, ev) == (s, 0int));
        let rest = evs.drop_first();
        assert(hits_on(s, rest, j)) by {
            assert forall|k: int|
                0 <= k < rest.len() implies live_bullet_at(
                s,
                (#[trigger] rest[k]).first as int,
            ) by {
                assert(rest[k] == evs[k + 1]);
            }
            assert forall|k: int, l: int|
                0 <= k < l < rest.len() implies (#[trigger] rest[k]).first != (
                #[trigger] rest[l]).first by {
                assert(rest[k] == evs[k + 1]);
                assert(rest[l] == evs[l + 1]);
            }
            assert forall|k: int| 0 <= k < rest.len() implies (#[trigger] rest[k]).started
                && rest[k].second == j by {
                assert(rest[k] == evs[k + 1]);
            }
        }
        lemma_no_damage_after_removal(s, rest, j);
    }
}

} // verus!
