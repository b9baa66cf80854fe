use vstd::prelude::*;
use crate::entity::EntityId;
use crate::network::{NetworkComponent, NetworkState, lemma_present_state_at, mapping_ok, same_under_codec};
use crate::storage::Storage;
use crate::world::{ServerFrame, World};

verus! {

/// Round trip of one component type from an authoritative storage `s`,
/// through the part of a snapshot assembled from it, into a local storage
/// `l` filled from an empty one.
proof fn lemma_component_round_trip<C: NetworkState>(
    c: NetworkComponent<C>,
    ids: Seq<EntityId>,
    s: Storage<C>,
    l0: Storage<C>,
    l: Storage<C>,
    m: Map<EntityId, EntityId>,
    k: EntityId,
)
    requires
        crate::network::distinct(ids),
        ids.contains(k),
        c.bitmask@ == crate::network::presence(ids, s),
        c.values@ == crate::network::present_states(ids, s),
        c.values_valid(),
        forall|x: EntityId| l0.spec_get(x).is_none(),
        m.contains_key(k),
        forall|k1: EntityId, k2: EntityId|
            #[trigger] m.contains_key(k1) && #[trigger] m.contains_key(k2) && k1 != k2 ==> m[k1] != m[k2],
        crate::world::storage_applied(c, ids, Map::empty(), l0, l, m),
    ensures
        same_under_codec(s.spec_get(k), l.spec_get(m[k])),
{
    let j = choose|j: int| 0 <= j < ids.len() && ids[j] == k;
    if s.spec_get(k).is_some() {
        assert(c.bitmask@[j]);
        assert(c.reflected_at(ids, j, l, m));
        lemma_present_state_at(ids, s, j);
    } else {
        if l.spec_get(m[k]).is_some() {
            let x = m[k];
            assert(l.spec_get(x) != l0.spec_get(x));
            let i = choose|i: int| 0 <= i < ids.len() && c.bitmask@[i] && #[trigger] m[ids[i]] == x;
            assert(c.reflected_at(ids, i, l, m));
            assert(i != j);
            assert(ids[i] != k);
        }
    }
}

/// Applying, to an empty local world with an empty table, the snapshot
/// assembled from an authoritative world `w` yields a copy of `w` under the
/// codecs: every live entity of `w` is mapped to its own live local entity,
/// there is no other local entity, and each local entity carries the same
/// component types with the same replicated states. (Entities of `w` that
/// carry no replicated component are not sent, so `w` is taken to have none.)
pub proof fn lemma_round_trip<P: NetworkState, J: NetworkState, T: NetworkState, A: NetworkState>(
    w: World<P, J, T, A>,
    frame: ServerFrame<P, J, T, A>,
    l0: World<P, J, T, A>,
    l1: World<P, J, T, A>,
    m1: Map<EntityId, EntityId>,
)
    requires
        w.wf(),
        forall|id: EntityId| w.alive(id) ==> w.carries_any(id),
        frame.assembled_from(w),
        l0.wf(),
        forall|id: EntityId| !l0.alive(id),
        frame.applied(l0, Map::empty(), l1, m1),
    ensures
        forall|k: EntityId| #[trigger] m1.contains_key(k) <==> w.alive(k),
        mapping_ok(m1, l1.spec_entities()),
        forall|x: EntityId| #[trigger] l1.alive(x) <==> exists|k: EntityId| m1.contains_key(k) && #[trigger] m1[k] == x,
        forall|k: EntityId| #[trigger] w.alive(k) ==> {
            &&& same_under_codec(w.spec_players().spec_get(k), l1.spec_players().spec_get(m1[k]))
            &&& same_under_codec(w.spec_projectiles().spec_get(k), l1.spec_projectiles().spec_get(m1[k]))
            &&& same_under_codec(w.spec_transforms().spec_get(k), l1.spec_transforms().spec_get(m1[k]))
            &&& same_under_codec(w.spec_animations().spec_get(k), l1.spec_animations().spec_get(m1[k]))
        },
{
    let ids = frame.entities@;
    let m0 = Map::<EntityId, EntityId>::empty();
    assert forall|x: EntityId| l0.spec_players().spec_get(x).is_none() by {
        if l0.spec_players().spec_get(x).is_some() {
            assert(l0.alive(x));
        }
    }
    assert forall|x: EntityId| l0.spec_projectiles().spec_get(x).is_none() by {
        if l0.spec_projectiles().spec_get(x).is_some() {
            assert(l0.alive(x));
        }
    }
    assert forall|x: EntityId| l0.spec_transforms().spec_get(x).is_none() by {
        if l0.spec_transforms().spec_get(x).is_some() {
            assert(l0.alive(x));
        }
    }
    assert forall|x: EntityId| l0.spec_animations().spec_get(x).is_none() by {
        if l0.spec_animations().spec_get(x).is_some() {
            assert(l0.alive(x));
        }
    }
    assert forall|k: EntityId| #[trigger] m1.contains_key(k) <==> w.alive(k) by {
        if w.alive(k) {
            assert(ids.contains(k));
            let j = choose|j: int| 0 <= j < ids.len() && ids[j] == k;
            assert(frame.carried_at(j));
        }
        if m1.contains_key(k) {
            assert(frame.sent(k));
            let j = choose|j: int| 0 <= j < ids.len() && ids[j] == k && #[trigger] frame.carried_at(j);
        }
    }
    assert forall|x: EntityId| #[trigger] l1.alive(x) <==> exists|k: EntityId| m1.contains_key(k) && #[trigger] m1[k] == x by {
        if exists|k: EntityId| m1.contains_key(k) && #[trigger] m1[k] == x {
            let k = choose|k: EntityId| m1.contains_key(k) && #[trigger] m1[k] == x;
            assert(!m0.contains_key(k));
        }
    }
    assert forall|k: EntityId| #[trigger] w.alive(k) implies {
        &&& same_under_codec(w.spec_players().spec_get(k), l1.spec_players().spec_get(m1[k]))
        &&& same_under_codec(w.spec_projectiles().spec_get(k), l1.spec_projectiles().spec_get(m1[k]))
        &&& same_under_codec(w.spec_transforms().spec_get(k), l1.spec_transforms().spec_get(m1[k]))
        &&& same_under_codec(w.spec_animations().spec_get(k), l1.spec_animations().spec_get(m1[k]))
    } by {
        assert(ids.contains(k));
        assert(m1.contains_key(k));
        lemma_component_round_trip(frame.players, ids, w.spec_players(), l0.spec_players(), l1.spec_players(), m1, k);
        lemma_component_round_trip(frame.projectiles, ids, w.spec_projectiles(), l0.spec_projectiles(), l1.spec_projectiles(), m1, k);
        lemma_component_round_trip(frame.transforms, ids, w.spec_transforms(), l0.spec_transforms(), l1.spec_transforms(), m1, k);
        lemma_component_round_trip(frame.animations, ids, w.spec_animations(), l0.spec_animations(), l1.spec_animations(), m1, k);
    }
}

/// An authoritative entity sent in snapshot `a` and absent from the entity
/// list of the next snapshot `b`: once both are applied in turn, its local
/// entity is destroyed and its handle is no longer mapped.
pub proof fn lemma_deletion_converges<P: NetworkState, J: NetworkState, T: NetworkState, A: NetworkState>(
    a: ServerFrame<P, J, T, A>,
    b: ServerFrame<P, J, T, A>,
    w0: World<P, J, T, A>,
    m0: Map<EntityId, EntityId>,
    w1: World<P, J, T, A>,
    m1: Map<EntityId, EntityId>,
    w2: World<P, J, T, A>,
    m2: Map<EntityId, EntityId>,
    k: EntityId,
)
    requires
        a.applied(w0, m0, w1, m1),
        b.applied(w1, m1, w2, m2),
        a.sent(k),
        !b.entities@.contains(k),
    ensures
        m1.contains_key(k),
        w1.alive(m1[k]),
        !m2.contains_key(k),
        !w2.alive(m1[k]),
{
    let x = m1[k];
    assert(m1.contains_key(k));
    assert(crate::world::removed_target(m1, b.entities@, x));
    if !b.entities@.contains(k) && b.sent(k) {
        let j = choose|j: int| 0 <= j < b.entities@.len() && b.entities@[j] == k && #[trigger] b.carried_at(j);
    }
    if w2.alive(x) {
        let k2 = choose|k2: EntityId| m2.contains_key(k2) && !m1.contains_key(k2) && #[trigger] m2[k2] == x;
    }
}

/// Applying the same snapshot twice in a row gives the same local world as
/// applying it once: the same table, the same live entities, and the same
/// components.
pub proof fn lemma_apply_idempotent<P: NetworkState, J: NetworkState, T: NetworkState, A: NetworkState>(
    frame: ServerFrame<P, J, T, A>,
    w0: World<P, J, T, A>,
    m0: Map<EntityId, EntityId>,
    w1: World<P, J, T, A>,
    m1: Map<EntityId, EntityId>,
    w2: World<P, J, T, A>,
    m2: Map<EntityId, EntityId>,
)
    requires
        frame.wf(),
        frame.values_valid(),
        frame.applied(w0, m0, w1, m1),
        frame.applied(w1, m1, w2, m2),
    ensures
        m2 == m1,
        forall|x: EntityId| #[trigger] w2.alive(x) == w1.alive(x),
        forall|x: EntityId| #[trigger] w2.spec_players().spec_get(x) == w1.spec_players().spec_get(x),
        forall|x: EntityId| #[trigger] w2.spec_projectiles().spec_get(x) == w1.spec_projectiles().spec_get(x),
        forall|x: EntityId| #[trigger] w2.spec_transforms().spec_get(x) == w1.spec_transforms().spec_get(x),
        forall|x: EntityId| #[trigger] w2.spec_animations().spec_get(x) == w1.spec_animations().spec_get(x),
{
    let ids = frame.entities@;
    assert forall|k: EntityId| m1.contains_key(k) implies ids.contains(k) by {
        if frame.sent(k) {
            let j = choose|j: int| 0 <= j < ids.len() && ids[j] == k && #[trigger] frame.carried_at(j);
        }
    }
    assert forall|k: EntityId| #[trigger] m2.contains_key(k) <==> m1.contains_key(k) by {}
    assert forall|k: EntityId| #[trigger] m2.contains_key(k) implies m2[k] == m1[k] by {}
    assert(m2 =~= m1);
    assert forall|x: EntityId| #[trigger] w2.alive(x) == w1.alive(x) by {
        if crate::world::removed_target(m1, ids, x) {
            let k = choose|k: EntityId| #[trigger] m1.contains_key(k) && !ids.contains(k) && m1[k] == x;
        }
    }
    lemma_component_idempotent(frame.players, ids, m0, m1, w0.spec_players(), w1.spec_players(), w2.spec_players());
    lemma_component_idempotent(frame.projectiles, ids, m0, m1, w0.spec_projectiles(), w1.spec_projectiles(), w2.spec_projectiles());
    lemma_component_idempotent(frame.transforms, ids, m0, m1, w0.spec_transforms(), w1.spec_transforms(), w2.spec_transforms());
    lemma_component_idempotent(frame.animations, ids, m0, m1, w0.spec_animations(), w1.spec_animations(), w2.spec_animations());
}

proof fn lemma_component_idempotent<C: NetworkState>(
    c: NetworkComponent<C>,
    ids: Seq<EntityId>,
    m0: Map<EntityId, EntityId>,
    m1: Map<EntityId, EntityId>,
    s0: Storage<C>,
    s1: Storage<C>,
    s2: Storage<C>,
)
    requires
        c.values_valid(),
        c.consistent_with(ids),
        forall|k: EntityId| m1.contains_key(k) ==> ids.contains(k),
        crate::world::storage_applied(c, ids, m0, s0, s1, m1),
        crate::world::storage_applied(c, ids, m1, s1, s2, m1),
    ensures
        forall|x: EntityId| #[trigger] s2.spec_get(x) == s1.spec_get(x),
{
    assert forall|x: EntityId| #[trigger] s2.spec_get(x) == s1.spec_get(x) by {
        if s2.spec_get(x) != s1.spec_get(x) {
            if crate::world::removed_target(m1, ids, x) {
                let k = choose|k: EntityId| #[trigger] m1.contains_key(k) && !ids.contains(k) && m1[k] == x;
            }
            let j = choose|j: int| 0 <= j < ids.len() && c.bitmask@[j] && #[trigger] m1[ids[j]] == x
                && c.updated_from(j, s1.spec_get(x), s2.spec_get(x));
            lemma_value_index(c, j);
            assert(c.reflected_at(ids, j, s1, m1));
            assert(c.reflected_at(ids, j, s2, m1));
        }
    }
}

/// Applying a snapshot to any consistent local state, whatever snapshots
/// came before or were skipped, leaves a consistent local state that
/// reflects that snapshot: only handles of its entity list stay mapped,
/// mapped local entities are alive and distinct, and each sent component is
/// present locally with the sent state.
pub proof fn lemma_stale_drop_safe<P: NetworkState, J: NetworkState, T: NetworkState, A: NetworkState>(
    frame: ServerFrame<P, J, T, A>,
    w0: World<P, J, T, A>,
    m0: Map<EntityId, EntityId>,
    w1: World<P, J, T, A>,
    m1: Map<EntityId, EntityId>,
)
    requires
        frame.wf(),
        frame.values_valid(),
        frame.applied(w0, m0, w1, m1),
    ensures
        w1.wf(),
        mapping_ok(m1, w1.spec_entities()),
        forall|k: EntityId| #[trigger] m1.contains_key(k) <==> (m0.contains_key(k) && frame.entities@.contains(k)) || frame.sent(k),
        forall|k: EntityId| #[trigger] m1.contains_key(k) ==> frame.entities@.contains(k),
        forall|j: int| 0 <= j < frame.entities@.len() && #[trigger] frame.players.bitmask@[j] ==>
            w1.spec_players().spec_get(m1[frame.entities@[j]]).unwrap().spec_state() == frame.players.value_at(j),
        forall|j: int| 0 <= j < frame.entities@.len() && #[trigger] frame.projectiles.bitmask@[j] ==>
            w1.spec_projectiles().spec_get(m1[frame.entities@[j]]).unwrap().spec_state() == frame.projectiles.value_at(j),
        forall|j: int| 0 <= j < frame.entities@.len() && #[trigger] frame.transforms.bitmask@[j] ==>
            w1.spec_transforms().spec_get(m1[frame.entities@[j]]).unwrap().spec_state() == frame.transforms.value_at(j),
        forall|j: int| 0 <= j < frame.entities@.len() && #[trigger] frame.animations.bitmask@[j] ==>
            w1.spec_animations().spec_get(m1[frame.entities@[j]]).unwrap().spec_state() == frame.animations.value_at(j),
{
    let ids = frame.entities@;
    assert forall|k: EntityId| #[trigger] m1.contains_key(k) implies ids.contains(k) by {
        if frame.sent(k) {
            let j = choose|j: int| 0 <= j < ids.len() && ids[j] == k && #[trigger] frame.carried_at(j);
        }
    }
    assert forall|j: int| 0 <= j < ids.len() && #[trigger] frame.players.bitmask@[j] implies
        w1.spec_players().spec_get(m1[ids[j]]).unwrap().spec_state() == frame.players.value_at(j) by {
        lemma_value_index(frame.players, j);
    }
    assert forall|j: int| 0 <= j < ids.len() && #[trigger] frame.projectiles.bitmask@[j] implies
        w1.spec_projectiles().spec_get(m1[ids[j]]).unwrap().spec_state() == frame.projectiles.value_at(j) by {
        lemma_value_index(frame.projectiles, j);
    }
    assert forall|j: int| 0 <= j < ids.len() && #[trigger] frame.transforms.bitmask@[j] implies
        w1.spec_transforms().spec_get(m1[ids[j]]).unwrap().spec_state() == frame.transforms.value_at(j) by {
        lemma_value_index(frame.transforms, j);
    }
    assert forall|j: int| 0 <= j < ids.len() && #[trigger] frame.animations.bitmask@[j] implies
        w1.spec_animations().spec_get(m1[ids[j]]).unwrap().spec_state() == frame.animations.value_at(j) by {
        lemma_value_index(frame.animations, j);
    }
}

/// A set bit's value index falls inside the value list.
proof fn lemma_value_index<C: NetworkState>(c: NetworkComponent<C>, j: int)
    requires
        0 <= j < c.bitmask@.len(),
        c.bitmask@[j],
        c.values@.len() == crate::network::count_true(c.bitmask@),
    ensures
        crate::network::rank(c.bitmask@, j) < c.values@.len(),
        C::valid_state(c.value_at(j)) <== c.values_valid(),
{
    crate::network::lemma_rank_step(c.bitmask@, j);
    crate::network::lemma_rank_le(c.bitmask@, j + 1);
}

} // verus!
