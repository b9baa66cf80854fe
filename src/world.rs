use vstd::prelude::*;
use crate::entity::{EntityId, Entities};
use crate::mapping::EntityMapping;
use crate::network::{
    NetworkComponent, NetworkState, all_distinct, distinct, grows, lemma_grows_trans, mapping_ok,
    presence, present_states, storage_ok,
};
use crate::storage::Storage;

verus! {

/// A world of entities carrying the four replicated component types:
/// players, projectiles, transforms and animation controllers.
#[derive(Clone, Debug)]
pub struct World<P: NetworkState, J: NetworkState, T: NetworkState, A: NetworkState> {
    entities: Entities,
    players: Storage<P>,
    projectiles: Storage<J>,
    transforms: Storage<T>,
    animations: Storage<A>,
}

impl<P: NetworkState, J: NetworkState, T: NetworkState, A: NetworkState> World<P, J, T, A> {
    pub closed spec fn spec_entities(self) -> Entities {
        self.entities
    }

    pub closed spec fn spec_players(self) -> Storage<P> {
        self.players
    }

    pub closed spec fn spec_projectiles(self) -> Storage<J> {
        self.projectiles
    }

    pub closed spec fn spec_transforms(self) -> Storage<T> {
        self.transforms
    }

    pub closed spec fn spec_animations(self) -> Storage<A> {
        self.animations
    }

    pub open spec fn alive(self, id: EntityId) -> bool {
        self.spec_entities().spec_is_alive(id)
    }

    /// Components are consistent and only live entities carry them.
    pub open spec fn wf(self) -> bool {
        &&& storage_ok(self.spec_players(), self.spec_entities())
        &&& storage_ok(self.spec_projectiles(), self.spec_entities())
        &&& storage_ok(self.spec_transforms(), self.spec_entities())
        &&& storage_ok(self.spec_animations(), self.spec_entities())
    }

    /// The entity carries at least one replicated component.
    pub open spec fn carries_any(self, id: EntityId) -> bool {
        ||| self.spec_players().spec_get(id).is_some()
        ||| self.spec_projectiles().spec_get(id).is_some()
        ||| self.spec_transforms().spec_get(id).is_some()
        ||| self.spec_animations().spec_get(id).is_some()
    }

    pub fn new() -> (r: Self)
        ensures
            r.wf(),
            forall|id: EntityId| !r.alive(id),
            forall|id: EntityId| !r.carries_any(id),
    {
        World {
            entities: Entities::new(),
            players: Storage::new(),
            projectiles: Storage::new(),
            transforms: Storage::new(),
            animations: Storage::new(),
        }
    }

    pub fn is_alive(&self, id: EntityId) -> (r: bool)
        ensures
            r == self.alive(id),
    {
        self.entities.is_alive(id)
    }

    /// Creates an entity without components.
    pub fn add_entity(&mut self) -> (r: EntityId)
        requires
            old(self).wf(),
        ensures
            final(self).wf(),
            !old(self).alive(r),
            final(self).alive(r),
            forall|id: EntityId| id != r ==> final(self).alive(id) == old(self).alive(id),
            final(self).spec_players() == old(self).spec_players(),
            final(self).spec_projectiles() == old(self).spec_projectiles(),
            final(self).spec_transforms() == old(self).spec_transforms(),
            final(self).spec_animations() == old(self).spec_animations(),
    {
        proof {
            if self.entities.spec_is_alive(EntityId(self.entities.allocated() as u64)) {
                self.entities.lemma_alive_bound(EntityId(self.entities.allocated() as u64));
            }
        }
        self.entities.add_entity()
    }

    /// Destroys `id` with all its components.
    pub fn delete_entity(&mut self, id: EntityId)
        requires
            old(self).wf(),
        ensures
            final(self).wf(),
            !final(self).alive(id),
            forall|o: EntityId| o != id ==> final(self).alive(o) == old(self).alive(o),
            final(self).spec_entities().allocated() == old(self).spec_entities().allocated(),
            !final(self).carries_any(id),
            forall|o: EntityId| o != id ==> final(self).spec_players().spec_get(o) == old(self).spec_players().spec_get(o),
            forall|o: EntityId| o != id ==> final(self).spec_projectiles().spec_get(o) == old(self).spec_projectiles().spec_get(o),
            forall|o: EntityId| o != id ==> final(self).spec_transforms().spec_get(o) == old(self).spec_transforms().spec_get(o),
            forall|o: EntityId| o != id ==> final(self).spec_animations().spec_get(o) == old(self).spec_animations().spec_get(o),
    {
        self.entities.delete_entity(id);
        self.players.remove(id);
        self.projectiles.remove(id);
        self.transforms.remove(id);
        self.animations.remove(id);
    }

    /// The live entities, in increasing handle order.
    pub fn entity_ids(&self) -> (r: Vec<EntityId>)
        ensures
            forall|i: int| 0 <= i < r@.len() ==> self.alive(#[trigger] r@[i]),
            forall|id: EntityId| self.alive(id) ==> r@.contains(id),
            distinct(r@),
    {
        let r = self.entities.ids();
        proof {
            assert forall|i: int, j: int| 0 <= i < j < r@.len() implies r@[i] != r@[j] by {
                assert(r@[i].0 < r@[j].0);
            }
        }
        r
    }

    /// Attaches `c` to the live entity `id`, replacing its player component.
    pub fn attach_player(&mut self, id: EntityId, c: P)
        requires
            old(self).wf(),
            old(self).alive(id),
            c.wf(),
        ensures
            final(self).wf(),
            final(self).spec_players().spec_get(id) == Some(c),
            forall|o: EntityId| o != id ==> final(self).spec_players().spec_get(o) == old(self).spec_players().spec_get(o),
            final(self).spec_entities() == old(self).spec_entities(),
            final(self).spec_projectiles() == old(self).spec_projectiles(),
            final(self).spec_transforms() == old(self).spec_transforms(),
            final(self).spec_animations() == old(self).spec_animations(),
    {
        proof {
            self.entities.lemma_alive_bound(id);
        }
        self.players.insert(id, c);
    }

    /// Attaches `c` to the live entity `id`, replacing its projectile component.
    pub fn attach_projectile(&mut self, id: EntityId, c: J)
        requires
            old(self).wf(),
            old(self).alive(id),
            c.wf(),
        ensures
            final(self).wf(),
            final(self).spec_projectiles().spec_get(id) == Some(c),
            forall|o: EntityId| o != id ==> final(self).spec_projectiles().spec_get(o) == old(self).spec_projectiles().spec_get(o),
            final(self).spec_entities() == old(self).spec_entities(),
            final(self).spec_players() == old(self).spec_players(),
            final(self).spec_transforms() == old(self).spec_transforms(),
            final(self).spec_animations() == old(self).spec_animations(),
    {
        proof {
            self.entities.lemma_alive_bound(id);
        }
        self.projectiles.insert(id, c);
    }

    /// Attaches `c` to the live entity `id`, replacing its transform component.
    pub fn attach_transform(&mut self, id: EntityId, c: T)
        requires
            old(self).wf(),
            old(self).alive(id),
            c.wf(),
        ensures
            final(self).wf(),
            final(self).spec_transforms().spec_get(id) == Some(c),
            forall|o: EntityId| o != id ==> final(self).spec_transforms().spec_get(o) == old(self).spec_transforms().spec_get(o),
            final(self).spec_entities() == old(self).spec_entities(),
            final(self).spec_players() == old(self).spec_players(),
            final(self).spec_projectiles() == old(self).spec_projectiles(),
            final(self).spec_animations() == old(self).spec_animations(),
    {
        proof {
            self.entities.lemma_alive_bound(id);
        }
        self.transforms.insert(id, c);
    }

    /// Attaches `c` to the live entity `id`, replacing its animation component.
    pub fn attach_animation(&mut self, id: EntityId, c: A)
        requires
            old(self).wf(),
            old(self).alive(id),
            c.wf(),
        ensures
            final(self).wf(),
            final(self).spec_animations().spec_get(id) == Some(c),
            forall|o: EntityId| o != id ==> final(self).spec_animations().spec_get(o) == old(self).spec_animations().spec_get(o),
            final(self).spec_entities() == old(self).spec_entities(),
            final(self).spec_players() == old(self).spec_players(),
            final(self).spec_projectiles() == old(self).spec_projectiles(),
            final(self).spec_transforms() == old(self).spec_transforms(),
    {
        proof {
            self.entities.lemma_alive_bound(id);
        }
        self.animations.insert(id, c);
    }

    pub fn players(&self) -> (r: &Storage<P>)
        ensures
            *r == self.spec_players(),
    {
        &self.players
    }

    pub fn projectiles(&self) -> (r: &Storage<J>)
        ensures
            *r == self.spec_projectiles(),
    {
        &self.projectiles
    }

    pub fn transforms(&self) -> (r: &Storage<T>)
        ensures
            *r == self.spec_transforms(),
    {
        &self.transforms
    }

    pub fn animations(&self) -> (r: &Storage<A>)
        ensures
            *r == self.spec_animations(),
    {
        &self.animations
    }
}

/// Some authoritative handle `k` that `m0` maps to `x` is absent from `ids`.
pub open spec fn removed_target(m0: Map<EntityId, EntityId>, ids: Seq<EntityId>, x: EntityId) -> bool {
    exists|k: EntityId| #[trigger] m0.contains_key(k) && !ids.contains(k) && m0[k] == x
}

/// How one storage changes when a snapshot is applied: every entity whose
/// bit is set is reflected, and nothing else changes but the removal of the
/// components of destroyed entities.
pub open spec fn storage_applied<C: NetworkState>(
    c: NetworkComponent<C>,
    ids: Seq<EntityId>,
    m0: Map<EntityId, EntityId>,
    s0: Storage<C>,
    s1: Storage<C>,
    m1: Map<EntityId, EntityId>,
) -> bool {
    &&& forall|j: int| 0 <= j < ids.len() && #[trigger] c.bitmask@[j] ==> c.reflected_at(ids, j, s1, m1)
    &&& forall|x: EntityId| #[trigger] s1.spec_get(x) != s0.spec_get(x) ==>
        (s1.spec_get(x).is_none() && removed_target(m0, ids, x)) || exists|j: int|
            0 <= j < ids.len() && c.bitmask@[j] && #[trigger] m1[ids[j]] == x
            && c.updated_from(j, s0.spec_get(x), s1.spec_get(x))
}

proof fn lemma_storage_applied<C: NetworkState>(
    c: NetworkComponent<C>,
    ids: Seq<EntityId>,
    removed: Seq<EntityId>,
    m0: Map<EntityId, EntityId>,
    s0: Storage<C>,
    s1: Storage<C>,
    s2: Storage<C>,
    m2: Map<EntityId, EntityId>,
    m5: Map<EntityId, EntityId>,
)
    requires
        forall|x: EntityId| #[trigger] s1.spec_get(x) == if removed.contains(x) { None } else { s0.spec_get(x) },
        forall|x: EntityId| removed.contains(x) <==> removed_target(m0, ids, x),
        forall|j: int| 0 <= j < ids.len() && #[trigger] c.bitmask@[j] ==> c.reflected_at(ids, j, s2, m2),
        forall|x: EntityId| #[trigger] s2.spec_get(x) != s1.spec_get(x) ==> exists|j: int|
            0 <= j < ids.len() && c.bitmask@[j] && #[trigger] m2[ids[j]] == x
            && c.updated_from(j, s1.spec_get(x), s2.spec_get(x)),
        forall|k: EntityId| #[trigger] m2.contains_key(k) ==> m5.contains_key(k) && m5[k] == m2[k],
        forall|x: EntityId| removed.contains(x) ==> #[trigger] s2.spec_get(x).is_none(),
    ensures
        storage_applied(c, ids, m0, s0, s2, m5),
{
    assert forall|j: int| 0 <= j < ids.len() && #[trigger] c.bitmask@[j] implies c.reflected_at(ids, j, s2, m5) by {
        assert(m2.contains_key(ids[j]));
    }
    assert forall|x: EntityId| #[trigger] s2.spec_get(x) != s0.spec_get(x) implies
        (s2.spec_get(x).is_none() && removed_target(m0, ids, x)) || exists|j: int|
            0 <= j < ids.len() && c.bitmask@[j] && #[trigger] m5[ids[j]] == x
            && c.updated_from(j, s0.spec_get(x), s2.spec_get(x)) by {
        if s1.spec_get(x) != s0.spec_get(x) {
            assert(removed.contains(x));
        } else {
            let j = choose|j: int| 0 <= j < ids.len() && c.bitmask@[j] && #[trigger] m2[ids[j]] == x
                && c.updated_from(j, s1.spec_get(x), s2.spec_get(x));
            assert(c.reflected_at(ids, j, s2, m2));
            assert(m5[ids[j]] == x);
        }
    }
}

/// Number of consistent snapshots in `frames`.
pub open spec fn count_consistent<P: NetworkState, J: NetworkState, T: NetworkState, A: NetworkState>(
    frames: Seq<ServerFrame<P, J, T, A>>,
) -> nat
    decreases frames.len(),
{
    if frames.len() == 0 {
        0
    } else {
        count_consistent(frames.drop_last()) + if frames.last().wf() { 1nat } else { 0nat }
    }
}

/// One step of applying received snapshots: a consistent snapshot is
/// applied to `before`, an inconsistent one leaves it as it is.
pub open spec fn snapshot_step<P: NetworkState, J: NetworkState, T: NetworkState, A: NetworkState>(
    frame: ServerFrame<P, J, T, A>,
    before: (World<P, J, T, A>, Map<EntityId, EntityId>),
    after: (World<P, J, T, A>, Map<EntityId, EntityId>),
) -> bool {
    if frame.wf() {
        frame.applied(before.0, before.1, after.0, after.1)
    } else {
        after == before
    }
}

/// `states` runs from the first to the last local state while `frames` are
/// applied in order, each to the state the earlier ones left.
pub open spec fn steps_along<P: NetworkState, J: NetworkState, T: NetworkState, A: NetworkState>(
    frames: Seq<ServerFrame<P, J, T, A>>,
    states: Seq<(World<P, J, T, A>, Map<EntityId, EntityId>)>,
) -> bool {
    &&& states.len() == frames.len() + 1
    &&& forall|i: int| 0 <= i < frames.len() ==> #[trigger] snapshot_step(frames[i], states[i], states[i + 1])
}

/// Applying `frames` in order to (`w0`, `m0`) ends in (`w1`, `m1`).
pub open spec fn applied_in_order<P: NetworkState, J: NetworkState, T: NetworkState, A: NetworkState>(
    frames: Seq<ServerFrame<P, J, T, A>>,
    w0: World<P, J, T, A>,
    m0: Map<EntityId, EntityId>,
    w1: World<P, J, T, A>,
    m1: Map<EntityId, EntityId>,
) -> bool {
    exists|states: Seq<(World<P, J, T, A>, Map<EntityId, EntityId>)>|
        #[trigger] steps_along(frames, states) && states[0] == (w0, m0) && states.last() == (w1, m1)
}

/// Why a snapshot was not applied.
#[derive(Debug, Clone, Copy, PartialEq, Eq, Structural)]
pub enum FrameError {
    /// A bitmask does not cover the entity list, a value list does not
    /// match its bitmask, or the entity list repeats a handle.
    Inconsistent,
}

/// One snapshot: the authoritative entity list and, per replicated component
/// type, a bitmask over that list with the states of the entities that carry
/// the component.
#[derive(Clone, Debug)]
pub struct ServerFrame<P: NetworkState, J: NetworkState, T: NetworkState, A: NetworkState> {
    pub entities: Vec<EntityId>,
    pub players: NetworkComponent<P>,
    pub projectiles: NetworkComponent<J>,
    pub transforms: NetworkComponent<T>,
    pub animations: NetworkComponent<A>,
}

impl<P: NetworkState, J: NetworkState, T: NetworkState, A: NetworkState> ServerFrame<P, J, T, A> {
    /// The entity list has no repeats, and every bitmask covers it with as
    /// many values as set bits.
    pub open spec fn wf(self) -> bool {
        &&& distinct(self.entities@)
        &&& self.players.consistent_with(self.entities@)
        &&& self.projectiles.consistent_with(self.entities@)
        &&& self.transforms.consistent_with(self.entities@)
        &&& self.animations.consistent_with(self.entities@)
    }

    /// Every sent state is one its codec accepts.
    pub open spec fn values_valid(self) -> bool {
        &&& self.players.values_valid()
        &&& self.projectiles.values_valid()
        &&& self.transforms.values_valid()
        &&& self.animations.values_valid()
    }

    /// The entity at index `j` carries some component in this snapshot.
    pub open spec fn carried_at(self, j: int) -> bool {
        ||| self.players.bitmask@[j]
        ||| self.projectiles.bitmask@[j]
        ||| self.transforms.bitmask@[j]
        ||| self.animations.bitmask@[j]
    }

    /// The authoritative handle `k` is sent with some component.
    pub open spec fn sent(self, k: EntityId) -> bool {
        exists|j: int| 0 <= j < self.entities@.len() && self.entities@[j] == k && #[trigger] self.carried_at(j)
    }

    /// This snapshot captures `w`: its entity list holds exactly the live
    /// entities of `w`, and each component part describes the matching storage.
    pub open spec fn assembled_from(self, w: World<P, J, T, A>) -> bool {
        &&& distinct(self.entities@)
        &&& forall|i: int| 0 <= i < self.entities@.len() ==> w.alive(#[trigger] self.entities@[i])
        &&& forall|id: EntityId| w.alive(id) ==> self.entities@.contains(id)
        &&& self.players.bitmask@ == presence(self.entities@, w.spec_players())
        &&& self.players.values@ == present_states(self.entities@, w.spec_players())
        &&& self.projectiles.bitmask@ == presence(self.entities@, w.spec_projectiles())
        &&& self.projectiles.values@ == present_states(self.entities@, w.spec_projectiles())
        &&& self.transforms.bitmask@ == presence(self.entities@, w.spec_transforms())
        &&& self.transforms.values@ == present_states(self.entities@, w.spec_transforms())
        &&& self.animations.bitmask@ == presence(self.entities@, w.spec_animations())
        &&& self.animations.values@ == present_states(self.entities@, w.spec_animations())
        &&& self.values_valid()
    }

    /// What applying this snapshot to `w0` with table `m0` yields in `w1`
    /// with table `m1`.
    pub open spec fn applied(
        self,
        w0: World<P, J, T, A>,
        m0: Map<EntityId, EntityId>,
        w1: World<P, J, T, A>,
        m1: Map<EntityId, EntityId>,
    ) -> bool {
        let ids = self.entities@;
        &&& w1.wf()
        &&& mapping_ok(m1, w1.spec_entities())
        &&& forall|k: EntityId| #[trigger] m1.contains_key(k) <==> (m0.contains_key(k) && ids.contains(k)) || self.sent(k)
        &&& forall|k: EntityId| #[trigger] m0.contains_key(k) && ids.contains(k) ==> m1[k] == m0[k]
        &&& forall|k: EntityId| #[trigger] m1.contains_key(k) && !m0.contains_key(k) ==> !w0.alive(m1[k])
        &&& forall|x: EntityId| #[trigger] w1.alive(x) <==> (w0.alive(x) && !removed_target(m0, ids, x)) || exists|k: EntityId|
            m1.contains_key(k) && !m0.contains_key(k) && #[trigger] m1[k] == x
        &&& storage_applied(self.players, ids, m0, w0.spec_players(), w1.spec_players(), m1)
        &&& storage_applied(self.projectiles, ids, m0, w0.spec_projectiles(), w1.spec_projectiles(), m1)
        &&& storage_applied(self.transforms, ids, m0, w0.spec_transforms(), w1.spec_transforms(), m1)
        &&& storage_applied(self.animations, ids, m0, w0.spec_animations(), w1.spec_animations(), m1)
    }

    /// Captures every live entity of `world`, in handle order, with the
    /// states of its replicated components. Reads `world` only.
    pub fn from_world(world: &World<P, J, T, A>) -> (r: Self)
        requires
            world.wf(),
        ensures
            r.assembled_from(*world),
            r.wf(),
    {
        let entities = world.entity_ids();
        ServerFrame {
            players: NetworkComponent::from_world(&entities, &world.players),
            projectiles: NetworkComponent::from_world(&entities, &world.projectiles),
            transforms: NetworkComponent::from_world(&entities, &world.transforms),
            animations: NetworkComponent::from_world(&entities, &world.animations),
            entities,
        }
    }

    /// Whether the snapshot is internally consistent; one that is not is
    /// dropped whole, never applied in part.
    pub fn is_consistent(&self) -> (r: bool)
        ensures
            r == self.wf(),
    {
        let n = self.entities.len();
        all_distinct(&self.entities) && self.players.is_consistent(n) && self.projectiles.is_consistent(n)
            && self.transforms.is_consistent(n) && self.animations.is_consistent(n)
    }

    /// Reconciles the local world with this snapshot. An inconsistent
    /// snapshot is rejected whole and changes nothing. Otherwise every local
    /// entity whose authoritative handle is absent from the entity list is
    /// first destroyed and unmapped; then each component type is applied in
    /// turn (update in place, attach, or create and map).
    pub fn apply_in_world(&self, world: &mut World<P, J, T, A>, mapping: &mut EntityMapping) -> (r: Result<(), FrameError>)
        requires
            old(world).wf(),
            mapping_ok(old(mapping)@, old(world).spec_entities()),
        ensures
            r is Ok <==> self.wf(),
            r is Ok ==> self.applied(*old(world), old(mapping)@, *final(world), final(mapping)@),
            r is Err ==> *final(world) == *old(world) && *final(mapping) == *old(mapping),
    {
        if !self.is_consistent() {
            return Err(FrameError::Inconsistent);
        }
        let ghost w0 = *world;
        let ghost m0 = mapping@;
        let ghost ids = self.entities@;
        let removed = mapping.retain_listed(&self.entities);
        let mut i: usize = 0;
        while i < removed.len()
            invariant
                w0.wf(),
                world.wf(),
                i <= removed@.len(),
                world.spec_entities().allocated() == w0.spec_entities().allocated(),
                forall|x: EntityId| #[trigger] world.alive(x) <==> w0.alive(x) && !removed@.take(i as int).contains(x),
                forall|x: EntityId| #[trigger] world.spec_players().spec_get(x) == if removed@.take(i as int).contains(x) { None } else { w0.spec_players().spec_get(x) },
                forall|x: EntityId| #[trigger] world.spec_projectiles().spec_get(x) == if removed@.take(i as int).contains(x) { None } else { w0.spec_projectiles().spec_get(x) },
                forall|x: EntityId| #[trigger] world.spec_transforms().spec_get(x) == if removed@.take(i as int).contains(x) { None } else { w0.spec_transforms().spec_get(x) },
                forall|x: EntityId| #[trigger] world.spec_animations().spec_get(x) == if removed@.take(i as int).contains(x) { None } else { w0.spec_animations().spec_get(x) },
            decreases removed@.len() - i,
        {
            let ghost before = removed@.take(i as int);
            world.delete_entity(removed[i]);
            proof {
                let after = removed@.take(i + 1);
                assert(after =~= before.push(removed@[i as int]));
                assert forall|x: EntityId| after.contains(x) <==> before.contains(x) || x == removed@[i as int] by {
                    if after.contains(x) && x != removed@[i as int] {
                        let a = choose|a: int| 0 <= a < after.len() && after[a] == x;
                        assert(before[a] == x);
                    }
                    if before.contains(x) {
                        let a = choose|a: int| 0 <= a < before.len() && before[a] == x;
                        assert(after[a] == x);
                    }
                    if x == removed@[i as int] {
                        assert(after[i as int] == x);
                    }
                }
            }
            i = i + 1;
        }
        proof {
            assert(removed@.take(removed@.len() as int) =~= removed@);
            assert forall|x: EntityId| removed@.contains(x) <==> removed_target(m0, ids, x) by {
                if removed@.contains(x) {
                    let k = choose|k: EntityId| #[trigger] m0.contains_key(k) && !ids.contains(k) && m0[k] == x;
                }
            }
            assert forall|k: EntityId| #[trigger] mapping@.contains_key(k) implies world.alive(mapping@[k]) by {
                if removed@.contains(mapping@[k]) {
                    let k2 = choose|k2: EntityId| #[trigger] m0.contains_key(k2) && !ids.contains(k2) && m0[k2] == mapping@[k];
                    assert(m0.contains_key(k) && m0.contains_key(k2) && k != k2);
                }
            }
        }
        let ghost w1 = *world;
        let ghost m1 = mapping@;
        self.players.apply_in_world(&self.entities, &mut world.entities, &mut world.players, mapping);
        let ghost w2 = *world;
        let ghost m2 = mapping@;
        self.projectiles.apply_in_world(&self.entities, &mut world.entities, &mut world.projectiles, mapping);
        let ghost w3 = *world;
        let ghost m3 = mapping@;
        self.transforms.apply_in_world(&self.entities, &mut world.entities, &mut world.transforms, mapping);
        let ghost w4 = *world;
        let ghost m4 = mapping@;
        self.animations.apply_in_world(&self.entities, &mut world.entities, &mut world.animations, mapping);
        let ghost w5 = *world;
        let ghost m5 = mapping@;
        proof {
            let e1 = w1.entities;
            let e2 = w2.entities;
            let e3 = w3.entities;
            let e4 = w4.entities;
            let e5 = w5.entities;
            let f1 = |k: EntityId| self.players.sends(ids, k);
            let f2 = |k: EntityId| self.projectiles.sends(ids, k);
            let f3 = |k: EntityId| self.transforms.sends(ids, k);
            let f4 = |k: EntityId| self.animations.sends(ids, k);
            lemma_grows_trans(m3, e3, m4, e4, m5, e5, f3, f4);
            let f34 = |k: EntityId| f3(k) || f4(k);
            lemma_grows_trans(m2, e2, m3, e3, m5, e5, f2, f34);
            let f234 = |k: EntityId| f2(k) || f34(k);
            lemma_grows_trans(m1, e1, m2, e2, m5, e5, f1, f234);
            let fall = |k: EntityId| f1(k) || f234(k);
            assert(grows(m1, e1, m5, e5, fall));
            // every storage stays well formed as entities are only added
            assert(w5.wf());
            assert forall|k: EntityId| #[trigger] m5.contains_key(k) <==> (m0.contains_key(k) && ids.contains(k)) || self.sent(k) by {
                if fall(k) {
                    let j = choose|j: int| 0 <= j < ids.len() && ids[j] == k && (self.players.bitmask@[j] || self.projectiles.bitmask@[j] || self.transforms.bitmask@[j] || self.animations.bitmask@[j]);
                    assert(self.carried_at(j));
                }
                if self.sent(k) {
                    let j = choose|j: int| 0 <= j < ids.len() && ids[j] == k && #[trigger] self.carried_at(j);
                    if self.players.bitmask@[j] { assert(f1(k)); }
                    if self.projectiles.bitmask@[j] { assert(f2(k)); }
                    if self.transforms.bitmask@[j] { assert(f3(k)); }
                    if self.animations.bitmask@[j] { assert(f4(k)); }
                }
            }
            assert forall|k: EntityId| #[trigger] m0.contains_key(k) && ids.contains(k) implies m5[k] == m0[k] by {
                assert(ids.to_set().contains(k));
                assert(m1.contains_key(k));
            }
            assert forall|k: EntityId| #[trigger] m5.contains_key(k) && !m0.contains_key(k) implies !w0.alive(m5[k]) by {
                if w0.alive(m5[k]) {
                    w0.entities.lemma_alive_bound(m5[k]);
                }
            }
            assert forall|x: EntityId| #[trigger] w5.alive(x) <==> (w0.alive(x) && !removed_target(m0, ids, x)) || exists|k: EntityId|
                m5.contains_key(k) && !m0.contains_key(k) && #[trigger] m5[k] == x by {
                assert(e5.spec_is_alive(x) <==> e1.spec_is_alive(x) || exists|k: EntityId|
                    m5.contains_key(k) && !m1.contains_key(k) && #[trigger] m5[k] == x);
                assert(w1.alive(x) <==> w0.alive(x) && !removed@.contains(x));
                assert(removed@.contains(x) <==> removed_target(m0, ids, x));
                if exists|k: EntityId| m5.contains_key(k) && !m1.contains_key(k) && #[trigger] m5[k] == x {
                    let k = choose|k: EntityId| m5.contains_key(k) && !m1.contains_key(k) && #[trigger] m5[k] == x;
                    if m0.contains_key(k) {
                        assert(fall(k));
                        assert(ids.contains(k)) by {
                            let j = choose|j: int| 0 <= j < ids.len() && ids[j] == k && (self.players.bitmask@[j] || self.projectiles.bitmask@[j] || self.transforms.bitmask@[j] || self.animations.bitmask@[j]);
                        }
                    }
                }
                if exists|k: EntityId| m5.contains_key(k) && !m0.contains_key(k) && #[trigger] m5[k] == x {
                    let k = choose|k: EntityId| m5.contains_key(k) && !m0.contains_key(k) && #[trigger] m5[k] == x;
                    assert(!m1.contains_key(k));
                }
            }
            assert forall|x: EntityId| removed@.contains(x) implies !w5.alive(x) by {
                let k = choose|k: EntityId| #[trigger] m0.contains_key(k) && !ids.contains(k) && m0[k] == x;
                assert(w0.alive(x));
                if w5.alive(x) {
                    let k2 = choose|k2: EntityId| m5.contains_key(k2) && !m0.contains_key(k2) && #[trigger] m5[k2] == x;
                    w0.entities.lemma_alive_bound(x);
                }
            }
            lemma_storage_applied(self.players, ids, removed@, m0, w0.players, w1.players, w2.players, m2, m5);
            lemma_storage_applied(self.projectiles, ids, removed@, m0, w0.projectiles, w2.projectiles, w3.projectiles, m3, m5);
            lemma_storage_applied(self.transforms, ids, removed@, m0, w0.transforms, w3.transforms, w4.transforms, m4, m5);
            lemma_storage_applied(self.animations, ids, removed@, m0, w0.animations, w4.animations, w5.animations, m5, m5);
        }
        Ok(())
    }

    /// Applies received snapshots in arrival order to the local world as it
    /// stands, skipping the inconsistent ones; returns how many were applied.
    pub fn apply_all(frames: &Vec<Self>, world: &mut World<P, J, T, A>, mapping: &mut EntityMapping) -> (applied: usize)
        requires
            old(world).wf(),
            mapping_ok(old(mapping)@, old(world).spec_entities()),
        ensures
            final(world).wf(),
            mapping_ok(final(mapping)@, final(world).spec_entities()),
            applied == count_consistent(frames@),
            applied_in_order(frames@, *old(world), old(mapping)@, *final(world), final(mapping)@),
    {
        let mut applied: usize = 0;
        let mut i: usize = 0;
        let ghost mut states: Seq<(World<P, J, T, A>, Map<EntityId, EntityId>)> = seq![(*world, mapping@)];
        while i < frames.len()
            invariant
                i <= frames@.len(),
                applied <= i,
                world.wf(),
                mapping_ok(mapping@, world.spec_entities()),
                applied == count_consistent(frames@.take(i as int)),
                states.len() == i + 1,
                states[0] == (*old(world), old(mapping)@),
                states.last() == (*world, mapping@),
                forall|k: int| 0 <= k < i ==> #[trigger] snapshot_step(frames@[k], states[k], states[k + 1]),
            decreases frames@.len() - i,
        {
            proof {
                assert(frames@.take(i + 1).drop_last() =~= frames@.take(i as int));
            }
            let r = frames[i].apply_in_world(world, mapping);
            match r {
                Ok(()) => {
                    applied = applied + 1;
                },
                Err(_) => {},
            }
            proof {
                let old_states = states;
                states = states.push((*world, mapping@));
                assert(snapshot_step(frames@[i as int], old_states[i as int], states[i + 1]));
                assert forall|k: int| 0 <= k < i + 1 implies #[trigger] snapshot_step(frames@[k], states[k], states[k + 1]) by {
                    if k < i {
                        assert(snapshot_step(frames@[k], old_states[k], old_states[k + 1]));
                    }
                }
            }
            i = i + 1;
        }
        proof {
            assert(frames@.take(frames@.len() as int) =~= frames@);
            assert(steps_along(frames@, states));
        }
        applied
    }
}

} // verus!
