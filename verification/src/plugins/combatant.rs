//! Combatant entities: their components, spawn-time bundles, and the
//! process-wide bookkeeping table mapping each combatant entity to the
//! network session that owns it.

use vstd::prelude::*;

use crate::math::Vec3Fixed;
use crate::plugins::statesmachine::{CurrentStates, States};
use crate::systems::charactercontroller::{ColliderShape, GroundHit};
use crate::{GameMask, InteractNetworkAble, NetworkSide};

verus! {

/// Marker for combatant entities.
#[derive(Clone, Copy, Debug, PartialEq, Eq, Structural)]
pub struct CombatantMarker;

/// Marker for the combatant the local player controls directly.
#[derive(Clone, Copy, Debug)]
pub struct CombatantControlling;

/// Marker for the child entity that carries a combatant's visual mesh.
#[derive(Clone, Copy, Debug)]
pub struct CombatantMeshBody;

/// What kind of combatant an entity is.
#[derive(Clone, Copy, Debug, PartialEq, Eq, Structural)]
pub enum CombatantType {
    Player,
    Npc,
}

/// Marker for a combatant controlled by the local player.
#[derive(Clone, Copy, Debug)]
pub struct PlayerCombatant;

/// Per-entity controller state: the latest ground-cast result and the
/// grounded flag derived from it.
#[derive(Clone, Copy, Debug, PartialEq, Eq, Structural)]
pub struct CharacterController {
    pub shape_hit_data: Option<GroundHit>,
    pub grounded: bool,
}

impl Default for CharacterController {
    /// A fresh controller: no cast result yet, assumed grounded.
    fn default() -> (r: Self)
        ensures
            r.shape_hit_data is None,
            r.grounded,
    {
        CharacterController { shape_hit_data: None, grounded: true }
    }
}

/// The process-wide table mapping each combatant entity to the network
/// session owning it (none for unowned combatants).  An entry is created
/// when a combatant is spawned and removed when it despawns; the table is a
/// lookup aid, not an ownership relation.
#[derive(Debug, PartialEq)]
pub struct CombatantsList(pub Vec<(u64, Option<u64>)>);

/// The predicate selecting the table entries of other entities.
pub open spec fn not_entity(entity: u64) -> spec_fn((u64, Option<u64>)) -> bool {
    |p: (u64, Option<u64>)| p.0 != entity
}

/// Whether some entry of `s` belongs to entity `e`.
pub open spec fn list_has(s: Seq<(u64, Option<u64>)>, e: u64) -> bool {
    exists|i: int| 0 <= i < s.len() && s[i].0 == e
}

/// The session recorded beside entity `e` (meaningful when the entities are
/// unique and `e` is present).
pub open spec fn list_client(s: Seq<(u64, Option<u64>)>, e: u64) -> Option<u64> {
    s[choose|i: int| 0 <= i < s.len() && s[i].0 == e].1
}

/// No two entries of `s` describe the same entity.
pub open spec fn list_unique(s: Seq<(u64, Option<u64>)>) -> bool {
    forall|i: int, j: int| 0 <= i < j < s.len() ==> s[i].0 != s[j].0
}

/// In an entity-unique table, the session found beside entity `e` at index
/// `i` is the session `list_client` denotes.
pub proof fn lemma_list_at(s: Seq<(u64, Option<u64>)>, i: int, e: u64)
    requires
        list_unique(s),
        0 <= i < s.len(),
        s[i].0 == e,
    ensures
        list_has(s, e),
        list_client(s, e) == s[i].1,
{
    assert(list_has(s, e));
    let j = choose|j: int| 0 <= j < s.len() && s[j].0 == e;
    assert(i == j);
}

/// Dropping one entity's entries keeps the table unique, removes exactly
/// that entity, and preserves every other entity's session.
pub proof fn lemma_list_filter(s: Seq<(u64, Option<u64>)>, entity: u64)
    requires
        list_unique(s),
    ensures
        list_unique(s.filter(not_entity(entity))),
        !list_has(s.filter(not_entity(entity)), entity),
        forall|e: u64|
            e != entity ==> (list_has(s.filter(not_entity(entity)), e) <==> list_has(s, e)),
        forall|e: u64|
            e != entity && list_has(s, e) ==> list_client(s.filter(not_entity(entity)), e)
                == list_client(s, e),
{
    let kept = s.filter(not_entity(entity));
    assert forall|i: int, j: int| 0 <= i < j < kept.len() implies kept[i].0 != kept[j].0 by {
        kept.lemma_index_contains(i);
        kept.lemma_index_contains(j);
        s.lemma_filter_contains_rev(not_entity(entity), kept[i]);
        s.lemma_filter_contains_rev(not_entity(entity), kept[j]);
        if kept[i].0 == kept[j].0 {
            let m = choose|m: int| 0 <= m < s.len() && s[m] == kept[i];
            let n = choose|n: int| 0 <= n < s.len() && s[n] == kept[j];
            if kept[i] == kept[j] {
                lemma_filter_at_most_once(s, not_entity(entity), i, j);
            } else {
                assert(m != n);
                assert(s[m].0 == s[n].0);
                assert(false);
            }
        }
    }
    if list_has(kept, entity) {
        let i = choose|i: int| 0 <= i < kept.len() && kept[i].0 == entity;
        s.lemma_filter_pred(not_entity(entity), i);
    }
    assert forall|e: u64| e != entity implies (list_has(kept, e) <==> list_has(s, e)) by {
        if list_has(kept, e) {
            let i = choose|i: int| 0 <= i < kept.len() && kept[i].0 == e;
            kept.lemma_index_contains(i);
            s.lemma_filter_contains_rev(not_entity(entity), kept[i]);
            let m = choose|m: int| 0 <= m < s.len() && s[m] == kept[i];
            assert(list_has(s, e));
        }
        if list_has(s, e) {
            let i = choose|i: int| 0 <= i < s.len() && s[i].0 == e;
            s.lemma_filter_contains(not_entity(entity), i);
            let j = choose|j: int| 0 <= j < kept.len() && kept[j] == s[i];
            assert(list_has(kept, e));
        }
    }
    assert forall|e: u64| e != entity && list_has(s, e) implies list_client(kept, e)
        == list_client(s, e) by {
        let i = choose|i: int| 0 <= i < s.len() && s[i].0 == e;
        s.lemma_filter_contains(not_entity(entity), i);
        let j = choose|j: int| 0 <= j < kept.len() && kept[j] == s[i];
        lemma_list_at(s, i, e);
        lemma_list_at(kept, j, e);
    }
}

/// A pair can appear in a key-unique filtered table at one index only.
proof fn lemma_filter_at_most_once(
    s: Seq<(u64, Option<u64>)>,
    pred: spec_fn((u64, Option<u64>)) -> bool,
    i: int,
    j: int,
)
    requires
        list_unique(s),
        0 <= i < j < s.filter(pred).len(),
    ensures
        s.filter(pred)[i] != s.filter(pred)[j],
    decreases s.len(),
{
    reveal(Seq::filter);
    let out = s.filter(pred);
    if s.len() > 0 {
        let sub = s.drop_last().filter(pred);
        if pred(s.last()) && j == out.len() - 1 {
            assert(sub[i] == out[i]);
            sub.lemma_index_contains(i);
            s.drop_last().lemma_filter_contains_rev(pred, sub[i]);
            let m = choose|m: int| 0 <= m < s.drop_last().len() && s.drop_last()[m] == sub[i];
            assert(s[m] == sub[i]);
            assert(s[m].0 != s.last().0);
        } else {
            lemma_filter_at_most_once(s.drop_last(), pred, i, j);
            assert(out[i] == sub[i] && out[j] == sub[j]);
        }
    }
}

impl CombatantsList {
    /// Entity uniqueness: each entity has at most one entry.
    pub open spec fn wf(self) -> bool {
        list_unique(self.0@)
    }

    /// Whether `entity` has an entry.
    pub open spec fn spec_has(self, entity: u64) -> bool {
        list_has(self.0@, entity)
    }

    /// The session recorded for `entity`.
    pub open spec fn spec_client(self, entity: u64) -> Option<u64> {
        list_client(self.0@, entity)
    }

    /// Records (or overwrites) the owning session of `entity`.
    pub fn insert(&mut self, entity: u64, client_id: Option<u64>)
        requires
            old(self).wf(),
        ensures
            final(self).wf(),
            final(self).spec_has(entity),
            final(self).spec_client(entity) == client_id,
            forall|e: u64| e != entity ==> (final(self).spec_has(e) <==> old(self).spec_has(e)),
            forall|e: u64|
                e != entity && old(self).spec_has(e) ==> final(self).spec_client(e) == old(self).spec_client(e),
    {
        self.remove(entity);
        let ghost pre = self.0@;
        self.0.push((entity, client_id));
        proof {
            assert(self.0@[self.0@.len() - 1] == (entity, client_id));
            lemma_list_at(self.0@, self.0@.len() - 1, entity);
            assert forall|e: u64| e != entity implies (list_has(self.0@, e) <==> list_has(
                pre,
                e,
            )) by {
                if list_has(self.0@, e) {
                    let i = choose|i: int| 0 <= i < self.0@.len() && self.0@[i].0 == e;
                    assert(pre[i] == self.0@[i]);
                }
                if list_has(pre, e) {
                    let i = choose|i: int| 0 <= i < pre.len() && pre[i].0 == e;
                    assert(self.0@[i] == pre[i]);
                }
            }
            assert forall|e: u64| e != entity && list_has(pre, e) implies list_client(self.0@, e)
                == list_client(pre, e) by {
                let i = choose|i: int| 0 <= i < pre.len() && pre[i].0 == e;
                lemma_list_at(pre, i, e);
                lemma_list_at(self.0@, i, e);
            }
        }
    }

    /// Drops the entry of `entity`, if any: called when the entity despawns.
    pub fn remove(&mut self, entity: u64)
        requires
            old(self).wf(),
        ensures
            final(self).wf(),
            !final(self).spec_has(entity),
            forall|e: u64| e != entity ==> (final(self).spec_has(e) <==> old(self).spec_has(e)),
            forall|e: u64|
                e != entity && old(self).spec_has(e) ==> final(self).spec_client(e) == old(self).spec_client(e),
            final(self).0@ == old(self).0@.filter(not_entity(entity)),
    {
        let mut kept: Vec<(u64, Option<u64>)> = Vec::new();
        let mut i: usize = 0;
        while i < self.0.len()
            invariant
                i <= self.0.len(),
                self.0@ == old(self).0@,
                kept@ == old(self).0@.take(i as int).filter(not_entity(entity)),
            decreases self.0.len() - i,
        {
            let p = self.0[i];
            proof {
                old(self).0@.lemma_take_succ_push(i as int);
                old(self).0@.take(i as int).lemma_filter_push(p, not_entity(entity));
            }
            if p.0 != entity {
                kept.push(p);
            }
            i += 1;
        }
        proof {
            old(self).0@.lemma_take_len();
            lemma_list_filter(old(self).0@, entity);
        }
        self.0 = kept;
    }

    /// Looks the owning session of `entity` up.
    pub fn get(&self, entity: u64) -> (r: Option<Option<u64>>)
        requires
            self.wf(),
        ensures
            r == if self.spec_has(entity) {
                Some(self.spec_client(entity))
            } else {
                None::<Option<u64>>
            },
    {
        let mut i: usize = 0;
        while i < self.0.len()
            invariant
                i <= self.0.len(),
                self.wf(),
                forall|j: int| 0 <= j < i ==> self.0@[j].0 != entity,
            decreases self.0.len() - i,
        {
            if self.0[i].0 == entity {
                proof {
                    lemma_list_at(self.0@, i as int, entity);
                }
                return Some(self.0[i].1);
            }
            i += 1;
        }
        None
    }
}

/// What a server-side combatant spawns with: a fresh controller, the shared
/// capsule collider, gravity handed to the controller (scale zero), unit
/// friction, a player combatant owned by the server, a registry holding
/// exactly `Idle`, and the spawn pose.
pub open spec fn spec_server_bundle_defaults(b: CombatantServerBundle) -> bool {
    &&& b.character_controller.shape_hit_data is None
    &&& b.character_controller.grounded
    &&& b.collider == (ColliderShape::Capsule { radius: 3_000, height: 10_000 })
    &&& b.gravity_scale == 0
    &&& b.friction == 10_000
    &&& b.combatant_type == CombatantType::Player
    &&& b.network_side == NetworkSide::Server
    &&& b.current_states@.len() == 1
    &&& b.current_states@[0].0 == States::Idle
    &&& b.current_states.wf()
    &&& b.translation == (Vec3Fixed { x: 0, y: 8_500, z: 0 })
    &&& b.game_mask == GameMask::Combatant
}

/// Everything a combatant entity carries when the server spawns it.
pub struct CombatantServerBundle {
    pub character_controller: CharacterController,
    pub collider: ColliderShape,
    pub gravity_scale: i64,
    pub friction: i64,
    pub combatant_type: CombatantType,
    pub combatant_marker: CombatantMarker,
    pub network_side: NetworkSide,
    pub current_states: CurrentStates,
    pub translation: Vec3Fixed,
    pub game_mask: GameMask,
    pub interact_network_able: InteractNetworkAble,
}

impl Default for CombatantServerBundle {
    fn default() -> (r: Self)
        ensures
            spec_server_bundle_defaults(r),
    {
        CombatantServerBundle {
            character_controller: CharacterController::default(),
            collider: ColliderShape::Capsule { radius: 3_000, height: 10_000 },
            gravity_scale: 0,
            friction: 10_000,
            combatant_type: CombatantType::Player,
            combatant_marker: CombatantMarker,
            network_side: NetworkSide::Server,
            current_states: CurrentStates::default(),
            translation: Vec3Fixed { x: 0, y: 8_500, z: 0 },
            game_mask: GameMask::Combatant,
            interact_network_able: InteractNetworkAble,
        }
    }
}

/// What a replicated combatant carries on the client side.
pub open spec fn spec_client_bundle_defaults(b: CombatantClientBundle) -> bool {
    &&& b.character_controller.shape_hit_data is None
    &&& b.character_controller.grounded
    &&& b.collider == (ColliderShape::Capsule { radius: 3_000, height: 10_000 })
    &&& b.friction == 10_000
    &&& b.network_side == NetworkSide::Client
    &&& b.game_mask == GameMask::Combatant
}

/// Everything the client attaches to a combatant entity that arrived by
/// replication.
pub struct CombatantClientBundle {
    pub character_controller: CharacterController,
    pub collider: ColliderShape,
    pub friction: i64,
    pub network_side: NetworkSide,
    pub game_mask: GameMask,
    pub interact_network_able: InteractNetworkAble,
}

impl Default for CombatantClientBundle {
    fn default() -> (r: Self)
        ensures
            spec_client_bundle_defaults(r),
    {
        CombatantClientBundle {
            character_controller: CharacterController::default(),
            collider: ColliderShape::Capsule { radius: 3_000, height: 10_000 },
            friction: 10_000,
            network_side: NetworkSide::Client,
            game_mask: GameMask::Combatant,
            interact_network_able: InteractNetworkAble,
        }
    }
}

/// The visual-mesh child entity: its marker and its offset below the
/// combatant's origin.
pub struct CombatantMeshBundle {
    pub combatant_mesh_body: CombatantMeshBody,
    pub translation: Vec3Fixed,
}

impl Default for CombatantMeshBundle {
    fn default() -> (r: Self)
        ensures
            r.translation == (Vec3Fixed { x: 0, y: -9_000i64, z: 0 }),
    {
        CombatantMeshBundle {
            combatant_mesh_body: CombatantMeshBody,
            translation: Vec3Fixed { x: 0, y: -9_000, z: 0 },
        }
    }
}

/// Handles one connection event on the authority side: the new player
/// combatant's entity (allocated by the engine) is recorded as owned by the
/// connecting session, and the default server bundle is returned for the
/// engine to spawn.
pub fn create_player_combatant(
    entity: u64,
    client_id: u64,
    combatants_list: &mut CombatantsList,
) -> (r: CombatantServerBundle)
    requires
        old(combatants_list).wf(),
    ensures
        spec_server_bundle_defaults(r),
        final(combatants_list).wf(),
        final(combatants_list).spec_has(entity),
        final(combatants_list).spec_client(entity) == Some(client_id),
        forall|e: u64|
            e != entity ==> (final(combatants_list).spec_has(e) <==> old(combatants_list).spec_has(e)),
        forall|e: u64|
            e != entity && old(combatants_list).spec_has(e) ==> final(combatants_list).spec_client(e) == old(combatants_list).spec_client(e),
{
    combatants_list.insert(entity, Some(client_id));
    CombatantServerBundle::default()
}

/// Handles one replicated combatant arriving on the client side: records it
/// under the local connection's session, returns the client bundle for the
/// engine to attach, and marks it as the local player's combatant iff the
/// server says this client controls it.
pub fn client_combatant_added(
    entity: u64,
    connection_id: u64,
    is_controlled: bool,
    combatants_list: &mut CombatantsList,
) -> (r: (CombatantClientBundle, Option<PlayerCombatant>))
    requires
        old(combatants_list).wf(),
    ensures
        spec_client_bundle_defaults(r.0),
        (r.1 is Some) == is_controlled,
        final(combatants_list).wf(),
        final(combatants_list).spec_has(entity),
        final(combatants_list).spec_client(entity) == Some(connection_id),
        forall|e: u64|
            e != entity ==> (final(combatants_list).spec_has(e) <==> old(combatants_list).spec_has(e)),
        forall|e: u64|
            e != entity && old(combatants_list).spec_has(e) ==> final(combatants_list).spec_client(e) == old(combatants_list).spec_client(e),
{
    combatants_list.insert(entity, Some(connection_id));
    let marker = if is_controlled {
        Some(PlayerCombatant)
    } else {
        None
    };
    (CombatantClientBundle::default(), marker)
}

} // verus!
