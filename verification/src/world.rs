//! Spatial world state: the registry of all live entities.
//!
//! Entities live in an arena vector keyed by index; the index is the
//! entity's id and never changes. Despawning marks the record dead in
//! place — dead records stay as tombstones so that ids of live entities
//! are stable and contact events that race with a removal in the same
//! tick are benign no-ops. Spawn requests are queued and take effect at a
//! defined point, [`crate::game::apply_deferred`], at the end of a tick.

use vstd::prelude::*;
use vstd::pervasive::VecAdditionalExecFns;
use crate::constants::BULLET_LIFETIME;
use crate::fixed::{abs_i, norm_sq, Vec2, FP_ONE};
use crate::gun::{bullet_ok, gun_ok, Bullet, Gun, BULLET_SPAWN_LIMIT};
use crate::npc::{npc_ok, Npc, NPC_POS_LIMIT};
use crate::player::{player_ok, Player, PLAYER_POS_LIMIT};

verus! {

/// What an entity is; the kind of an entity never changes.
#[derive(Clone, Copy, PartialEq, Eq, Structural, Debug)]
pub enum EntityKind {
    Player,
    Agent,
    Projectile,
}

/// Renderable placement of an entity: a position and the unit-length
/// direction the entity points along (standing in for a rotation angle).
#[derive(Clone, Copy, PartialEq, Eq, Structural, Debug)]
pub struct Transform {
    pub pos: Vec2,
    pub facing: Vec2,
}

/// Kind-specific state attached to exactly one entity. The weapon rides
/// with the player it is anchored to and is placed each tick from the
/// player's transform, never kept in sync by mutation.
#[derive(Clone, Copy, PartialEq, Eq, Structural, Debug)]
pub enum Payload {
    Player(Player, Gun),
    Agent(Npc),
    Projectile(Bullet),
}

/// One record of the world: an identity, its kind, its placement, its
/// kind-specific state, and whether it is still live.
#[derive(Clone, Copy, PartialEq, Eq, Structural, Debug)]
pub struct Entity {
    pub id: usize,
    pub kind: EntityKind,
    pub transform: Transform,
    pub payload: Payload,
    pub alive: bool,
}

/// A queued request to create an entity at the end of the tick.
#[derive(Clone, Copy, PartialEq, Eq, Structural, Debug)]
pub enum SpawnRequest {
    /// Replacement agent at a fresh random position.
    Agent,
    /// Projectile with its initial placement and state.
    Projectile(Transform, Bullet),
}

/// A notification from the outside contact-detection step that the
/// collision shapes of two entities began (or stopped) overlapping.
#[derive(Clone, Copy, PartialEq, Eq, Structural, Debug)]
pub struct ContactEvent {
    pub first: usize,
    pub second: usize,
    /// True when the overlap began this tick; only such events are resolved.
    pub started: bool,
}

/// The ground-truth registry of entities plus the spawn requests queued
/// during the current tick.
pub struct World {
    pub entities: Vec<Entity>,
    pub pending: Vec<SpawnRequest>,
}

/// The facing direction is no longer than unit length.
pub open spec fn transform_ok(t: Transform) -> bool {
    norm_sq(t.facing@) <= FP_ONE * FP_ONE
}

/// Both coordinates of `v` lie within `[-limit, limit]`.
pub open spec fn pos_within(v: Vec2, limit: int) -> bool {
    &&& -limit <= v@.x <= limit
    &&& -limit <= v@.y <= limit
}

/// A projectile's position is within its spawn bound plus the distance it
/// can have flown in the lifetime it has already spent.
pub open spec fn bullet_pos_ok(pos: Vec2, b: Bullet) -> bool {
    &&& FP_ONE * abs_i(pos@.x) <= FP_ONE * BULLET_SPAWN_LIMIT + (BULLET_LIFETIME - b.lifetime)
        * b.speed
    &&& FP_ONE * abs_i(pos@.y) <= FP_ONE * BULLET_SPAWN_LIMIT + (BULLET_LIFETIME - b.lifetime)
        * b.speed
}

/// The payload variant agrees with the entity's kind tag.
pub open spec fn kind_matches(e: Entity) -> bool {
    match e.payload {
        Payload::Player(_, _) => e.kind == EntityKind::Player,
        Payload::Agent(_) => e.kind == EntityKind::Agent,
        Payload::Projectile(_) => e.kind == EntityKind::Projectile,
    }
}

/// Internal invariant of one live entity: payload invariant plus the
/// position bound of its kind.
pub open spec fn entity_ok(e: Entity) -> bool {
    &&& kind_matches(e)
    &&& transform_ok(e.transform)
    &&& match e.payload {
        Payload::Player(p, g) => player_ok(p) && gun_ok(g) && pos_within(
            e.transform.pos,
            PLAYER_POS_LIMIT as int,
        ),
        Payload::Agent(n) => npc_ok(n) && pos_within(e.transform.pos, NPC_POS_LIMIT as int),
        Payload::Projectile(b) => bullet_ok(b) && bullet_pos_ok(e.transform.pos, b),
    }
}

/// The record at index `i` carries `i` as its id and, while live, its
/// kind's invariant.
pub open spec fn wf_at(s: Seq<Entity>, i: int) -> bool {
    &&& s[i].id == i
    &&& (s[i].alive ==> entity_ok(s[i]))
}

/// Well-formedness of the entity table.
pub open spec fn wf_entities(s: Seq<Entity>) -> bool {
    forall|i: int| 0 <= i < s.len() ==> #[trigger] wf_at(s, i)
}

/// A queued spawn request only carries states that satisfy their
/// invariants once the entity exists.
pub open spec fn spawn_ok(r: SpawnRequest) -> bool {
    match r {
        SpawnRequest::Agent => true,
        SpawnRequest::Projectile(t, b) => {
            &&& bullet_ok(b)
            &&& b.lifetime == BULLET_LIFETIME
            &&& transform_ok(t)
            &&& pos_within(t.pos, BULLET_SPAWN_LIMIT as int)
        },
    }
}

/// Well-formedness of the whole world.
pub open spec fn wf_world(w: &World) -> bool {
    &&& wf_entities(w.entities@)
    &&& forall|i: int|
        0 <= i < w.pending@.len() ==> #[trigger] spawn_ok(w.pending@[i])
}

/// `e` with its live flag cleared, all else unchanged.
pub open spec fn killed(e: Entity) -> Entity {
    Entity { id: e.id, kind: e.kind, transform: e.transform, payload: e.payload, alive: false }
}

/// Whether a record counts toward the live agent population.
pub open spec fn counted_agent(e: Entity) -> int {
    if e.alive && e.payload matches Payload::Agent(_) {
        1int
    } else {
        0int
    }
}

/// Number of live agents in the table.
pub open spec fn agent_count(s: Seq<Entity>) -> int
    decreases s.len(),
{
    if s.len() == 0 {
        0
    } else {
        agent_count(s.drop_last()) + counted_agent(s.last())
    }
}

/// Replacing one record changes the agent population by the difference
/// of the two records' contributions.
pub proof fn lemma_agent_count_update(s: Seq<Entity>, i: int, e: Entity)
    requires
        0 <= i < s.len(),
    ensures
        agent_count(s.update(i, e)) == agent_count(s) - counted_agent(s[i]) + counted_agent(e),
    decreases s.len(),
{
    let s2 = s.update(i, e);
    if i == s.len() - 1 {
        assert(s2.drop_last() =~= s.drop_last());
        assert(s2.last() == e);
    } else {
        assert(s2.drop_last() =~= s.drop_last().update(i, e));
        assert(s2.last() == s.last());
        lemma_agent_count_update(s.drop_last(), i, e);
    }
}

/// Appending one record adds its contribution to the agent population.
pub proof fn lemma_agent_count_push(s: Seq<Entity>, e: Entity)
    ensures
        agent_count(s.push(e)) == agent_count(s) + counted_agent(e),
{
    assert(s.push(e).drop_last() =~= s);
    assert(s.push(e).last() == e);
}

impl World {
    /// An empty world: no entities, nothing queued.
    pub fn new() -> (w: World)
        ensures
            w.entities@.len() == 0,
            w.pending@.len() == 0,
            wf_world(&w),
    {
        World { entities: Vec::new(), pending: Vec::new() }
    }

    /// Append a fresh live entity and hand back its id. The caller
    /// supplies a payload that satisfies its invariant.
    pub fn spawn_entity(
        &mut self,
        kind: EntityKind,
        transform: Transform,
        payload: Payload,
    ) -> (id: usize)
        requires
            wf_world(old(self)),
            entity_ok(
                Entity {
                    id: old(self).entities@.len() as usize,
                    kind,
                    transform,
                    payload,
                    alive: true,
                },
            ),
            old(self).entities@.len() < 1_000_000_000,
        ensures
            id == old(self).entities@.len(),
            final(self).entities@ == old(self).entities@.push(
                Entity { id, kind, transform, payload, alive: true },
            ),
            final(self).pending@ == old(self).pending@,
            wf_world(final(self)),
    {
        let id = self.entities.len();
        let e = Entity { id, kind, transform, payload, alive: true };
        self.entities.push(e);
        proof {
            let s = self.entities@;
            assert forall|i: int| 0 <= i < s.len() implies #[trigger] wf_at(s, i) by {
                if i < s.len() - 1 {
                    assert(wf_at(old(self).entities@, i));
                    assert(s[i] == old(self).entities@[i]);
                }
            }
        }
        id
    }

    /// Mark the entity `id` dead; a stale or repeated id is a benign
    /// no-op. The record stays in place as a tombstone.
    pub fn despawn(&mut self, id: usize)
        ensures
            id < old(self).entities@.len() ==> final(self).entities@ == old(
                self,
            ).entities@.update(id as int, killed(old(self).entities@[id as int])),
            id >= old(self).entities@.len() ==> final(self).entities@ == old(self).entities@,
            final(self).pending@ == old(self).pending@,
            wf_world(old(self)) ==> wf_world(final(self)),
    {
        if id < self.entities.len() {
            let e = self.entities[id];
            let dead = Entity {
                id: e.id,
                kind: e.kind,
                transform: e.transform,
                payload: e.payload,
                alive: false,
            };
            self.entities.set(id, dead);
            proof {
                if wf_world(old(self)) {
                    let s = self.entities@;
                    assert forall|i: int| 0 <= i < s.len() implies #[trigger] wf_at(s, i) by {
                        assert(wf_at(old(self).entities@, i));
                        if i != id {
                            assert(s[i] == old(self).entities@[i]);
                        }
                    }
                }
            }
        }
    }

    /// Whether `id` names a live projectile.
    pub fn live_bullet(&self, id: usize) -> (r: bool)
        ensures
            r == live_bullet_at(self.entities@, id as int),
    {
        if id < self.entities.len() {
            let e = self.entities[id];
            match e.payload {
                Payload::Projectile(_) => e.alive,
                _ => false,
            }
        } else {
            false
        }
    }

    /// Whether `id` names a live agent.
    pub fn live_agent(&self, id: usize) -> (r: bool)
        ensures
            r == live_agent_at(self.entities@, id as int),
    {
        if id < self.entities.len() {
            let e = self.entities[id];
            match e.payload {
                Payload::Agent(_) => e.alive,
                _ => false,
            }
        } else {
            false
        }
    }
}

/// `id` names a live projectile record.
pub open spec fn live_bullet_at(s: Seq<Entity>, id: int) -> bool {
    &&& 0 <= id < s.len()
    &&& s[id].alive
    &&& s[id].payload matches Payload::Projectile(_)
}

/// `id` names a live agent record.
pub open spec fn live_agent_at(s: Seq<Entity>, id: int) -> bool {
    &&& 0 <= id < s.len()
    &&& s[id].alive
    &&& s[id].payload matches Payload::Agent(_)
}

} // verus!
