use vstd::prelude::*;
use crate::entity::{EntityId, Entities};
use crate::mapping::EntityMapping;
use crate::storage::Storage;

verus! {

/// The codec of one replicated component type: a reversible mapping between
/// the live component and a flat state value, the only form that is sent.
pub trait NetworkState: Sized {
    type State: Copy + std::fmt::Debug;

    /// The component is internally consistent.
    spec fn wf(&self) -> bool;

    /// The replicated part of the component.
    spec fn spec_state(&self) -> Self::State;

    /// The states that describe some consistent component.
    spec fn valid_state(state: Self::State) -> bool;

    /// `new` has the same fields as `old` apart from the replicated ones
    /// (and whatever the codec must reset when those change).
    spec fn keeps(old: Self, new: Self) -> bool;

    /// Builds a fresh component from `state` (first sight of an entity).
    fn from_state(state: Self::State) -> (r: Self)
        ensures
            r.wf(),
            Self::valid_state(state) ==> r.spec_state() == state,
    ;

    /// Brings the replicated part of the component to `state`, keeping the
    /// fields that are not replicated.
    fn update_from_state(&mut self, state: Self::State)
        requires
            old(self).wf(),
        ensures
            final(self).wf(),
            Self::valid_state(state) ==> final(self).spec_state() == state,
            Self::keeps(*old(self), *final(self)),
            old(self).spec_state() == state ==> *final(self) == *old(self),
    ;

    /// The replicated part of the component.
    fn state(&self) -> (r: Self::State)
        requires
            self.wf(),
        ensures
            r == self.spec_state(),
            Self::valid_state(r),
    ;
}

/// Number of `true` entries of `b`.
pub open spec fn count_true(b: Seq<bool>) -> nat
    decreases b.len(),
{
    if b.len() == 0 {
        0
    } else {
        count_true(b.drop_last()) + if b.last() { 1nat } else { 0nat }
    }
}

/// Position in the value list of the entity at index `j` of the entity list.
pub open spec fn rank(b: Seq<bool>, j: int) -> nat {
    count_true(b.take(j))
}

/// No handle occurs twice in `ids`.
pub open spec fn distinct(ids: Seq<EntityId>) -> bool {
    forall|i: int, j: int| 0 <= i < j < ids.len() ==> ids[i] != ids[j]
}

/// For each handle of `ids`, whether `s` holds a component for it.
pub open spec fn presence<T>(ids: Seq<EntityId>, s: Storage<T>) -> Seq<bool> {
    Seq::new(ids.len(), |i: int| s.spec_get(ids[i]).is_some())
}

/// The states of the components that `s` holds for the handles of `ids`,
/// in the order of `ids`.
pub open spec fn present_states<T: NetworkState>(ids: Seq<EntityId>, s: Storage<T>) -> Seq<T::State>
    decreases ids.len(),
{
    if ids.len() == 0 {
        Seq::empty()
    } else {
        let prev = present_states(ids.drop_last(), s);
        match s.spec_get(ids.last()) {
            Some(c) => prev.push(c.spec_state()),
            None => prev,
        }
    }
}

pub proof fn lemma_rank_step(b: Seq<bool>, j: int)
    requires
        0 <= j < b.len(),
    ensures
        rank(b, j + 1) == rank(b, j) + if b[j] { 1nat } else { 0nat },
{
    assert(b.take(j + 1).drop_last() =~= b.take(j));
}

pub proof fn lemma_rank_full(b: Seq<bool>)
    ensures
        rank(b, b.len() as int) == count_true(b),
{
    assert(b.take(b.len() as int) =~= b);
}

/// A present entity's state sits at its rank in the assembled value list.
pub proof fn lemma_present_state_at<T: NetworkState>(ids: Seq<EntityId>, s: Storage<T>, j: int)
    requires
        0 <= j < ids.len(),
        s.spec_get(ids[j]).is_some(),
    ensures
        rank(presence(ids, s), j) < present_states(ids, s).len(),
        present_states(ids, s)[rank(presence(ids, s), j) as int] == s.spec_get(ids[j]).unwrap().spec_state(),
    decreases ids.len(),
{
    let p = presence(ids, s);
    let q = presence(ids.drop_last(), s);
    lemma_present_states_len(ids, s);
    lemma_present_states_len(ids.drop_last(), s);
    if j < ids.len() - 1 {
        lemma_present_state_at(ids.drop_last(), s, j);
        assert(p.take(j) =~= q.take(j));
    } else {
        assert(p.take(j) =~= q);
        lemma_rank_full(q);
    }
}

/// The value list has one entry per `true` of the bitmask.
pub proof fn lemma_present_states_len<T: NetworkState>(ids: Seq<EntityId>, s: Storage<T>)
    ensures
        present_states(ids, s).len() == count_true(presence(ids, s)),
    decreases ids.len(),
{
    if ids.len() > 0 {
        lemma_present_states_len(ids.drop_last(), s);
        assert(presence(ids, s).drop_last() =~= presence(ids.drop_last(), s));
    }
}

/// One component type's part of a snapshot: for each entity of the
/// snapshot's entity list, whether it carries the component, and the states
/// of the entities that do, in entity-list order.
#[derive(Clone, Debug)]
pub struct NetworkComponent<T: NetworkState> {
    pub bitmask: Vec<bool>,
    pub values: Vec<T::State>,
}

pub proof fn lemma_rank_le(b: Seq<bool>, j: int)
    requires
        0 <= j <= b.len(),
    ensures
        rank(b, j) <= count_true(b),
    decreases b.len(),
{
    if j == b.len() {
        lemma_rank_full(b);
    } else {
        assert(b.take(j) =~= b.drop_last().take(j));
        lemma_rank_le(b.drop_last(), j);
    }
}

/// Whether no handle occurs twice in `ids`.
pub fn all_distinct(ids: &Vec<EntityId>) -> (r: bool)
    ensures
        r == distinct(ids@),
{
    let mut i: usize = 0;
    while i < ids.len()
        invariant
            i <= ids@.len(),
            forall|a: int, b: int| 0 <= a < b < ids@.len() && a < i ==> ids@[a] != ids@[b],
        decreases ids@.len() - i,
    {
        let mut j: usize = i + 1;
        while j < ids.len()
            invariant
                i < ids@.len(),
                i + 1 <= j <= ids@.len(),
                forall|a: int, b: int| 0 <= a < b < ids@.len() && a < i ==> ids@[a] != ids@[b],
                forall|b: int| i < b < j ==> ids@[i as int] != ids@[b],
            decreases ids@.len() - j,
        {
            if ids[i] == ids[j] {
                return false;
            }
            j = j + 1;
        }
        i = i + 1;
    }
    true
}

/// Every mapped local handle is alive, and no two authoritative handles
/// share a local one.
pub open spec fn mapping_ok(m: Map<EntityId, EntityId>, entities: Entities) -> bool {
    &&& forall|k: EntityId| #[trigger] m.contains_key(k) ==> entities.spec_is_alive(m[k])
    &&& forall|k1: EntityId, k2: EntityId|
        #[trigger] m.contains_key(k1) && #[trigger] m.contains_key(k2) && k1 != k2 ==> m[k1] != m[k2]
}

/// From (`m_a`, `en_a`) to (`m_b`, `en_b`) the table only gained the keys
/// that `added` holds, each mapped to a newly created local entity, and no
/// other entity was created or destroyed.
pub open spec fn grows(
    m_a: Map<EntityId, EntityId>,
    en_a: Entities,
    m_b: Map<EntityId, EntityId>,
    en_b: Entities,
    added: spec_fn(EntityId) -> bool,
) -> bool {
    &&& forall|k: EntityId| #[trigger] m_b.contains_key(k) <==> m_a.contains_key(k) || added(k)
    &&& forall|k: EntityId| #[trigger] m_a.contains_key(k) ==> m_b[k] == m_a[k]
    &&& forall|k: EntityId| #[trigger] m_b.contains_key(k) && !m_a.contains_key(k) ==> m_b[k].0 >= en_a.allocated()
    &&& forall|x: EntityId| #[trigger] en_b.spec_is_alive(x) <==> en_a.spec_is_alive(x) || exists|k: EntityId|
        m_b.contains_key(k) && !m_a.contains_key(k) && #[trigger] m_b[k] == x
    &&& en_b.allocated() >= en_a.allocated()
}

pub proof fn lemma_grows_trans(
    m_a: Map<EntityId, EntityId>,
    en_a: Entities,
    m_b: Map<EntityId, EntityId>,
    en_b: Entities,
    m_c: Map<EntityId, EntityId>,
    en_c: Entities,
    f: spec_fn(EntityId) -> bool,
    g: spec_fn(EntityId) -> bool,
)
    requires
        grows(m_a, en_a, m_b, en_b, f),
        grows(m_b, en_b, m_c, en_c, g),
    ensures
        grows(m_a, en_a, m_c, en_c, |k: EntityId| f(k) || g(k)),
{
    assert forall|k: EntityId| #[trigger] m_c.contains_key(k) <==> m_a.contains_key(k) || (f(k) || g(k)) by {}
    assert forall|k: EntityId| #[trigger] m_a.contains_key(k) implies m_c[k] == m_a[k] by {
        assert(m_b.contains_key(k));
    }
    assert forall|k: EntityId| #[trigger] m_c.contains_key(k) && !m_a.contains_key(k) implies m_c[k].0 >= en_a.allocated() by {
        if m_b.contains_key(k) {
            assert(m_c[k] == m_b[k]);
        }
    }
    assert forall|x: EntityId| #[trigger] en_c.spec_is_alive(x) <==> en_a.spec_is_alive(x) || exists|k: EntityId|
        m_c.contains_key(k) && !m_a.contains_key(k) && #[trigger] m_c[k] == x by {
        if en_c.spec_is_alive(x) && !en_a.spec_is_alive(x) {
            if en_b.spec_is_alive(x) {
                let k = choose|k: EntityId| m_b.contains_key(k) && !m_a.contains_key(k) && #[trigger] m_b[k] == x;
                assert(m_c.contains_key(k) && m_c[k] == x);
            } else {
                let k = choose|k: EntityId| m_c.contains_key(k) && !m_b.contains_key(k) && #[trigger] m_c[k] == x;
                assert(m_c.contains_key(k) && !m_a.contains_key(k) && m_c[k] == x);
            }
        }
        if exists|k: EntityId| m_c.contains_key(k) && !m_a.contains_key(k) && #[trigger] m_c[k] == x {
            let k = choose|k: EntityId| m_c.contains_key(k) && !m_a.contains_key(k) && #[trigger] m_c[k] == x;
            if m_b.contains_key(k) {
                assert(m_b[k] == x);
                assert(en_b.spec_is_alive(x));
            }
        }
    }
}

/// Both are absent, or both are present with the same replicated state.
pub open spec fn same_under_codec<T: NetworkState>(a: Option<T>, b: Option<T>) -> bool {
    &&& a.is_some() == b.is_some()
    &&& a.is_some() ==> a.unwrap().spec_state() == b.unwrap().spec_state()
}

/// Every stored component is consistent and belongs to a live entity.
pub open spec fn storage_ok<T: NetworkState>(s: Storage<T>, entities: Entities) -> bool {
    &&& s.all_wf()
    &&& forall|id: EntityId| #[trigger] s.spec_get(id).is_some() ==> entities.spec_is_alive(id)
}

impl<T: NetworkState> NetworkComponent<T> {
    /// The bitmask covers the entity list and the values match its `true`s.
    pub open spec fn consistent_with(self, ids: Seq<EntityId>) -> bool {
        &&& self.bitmask@.len() == ids.len()
        &&& self.values@.len() == count_true(self.bitmask@)
    }

    /// Every sent state is one the codec accepts.
    pub open spec fn values_valid(self) -> bool {
        forall|i: int| 0 <= i < self.values@.len() ==> T::valid_state(#[trigger] self.values@[i])
    }

    /// The bitmask covers `len` entities and the values match its `true`s.
    pub fn is_consistent(&self, len: usize) -> (r: bool)
        ensures
            r == (self.bitmask@.len() == len && self.values@.len() == count_true(self.bitmask@)),
    {
        if self.bitmask.len() != len {
            return false;
        }
        let mut count: usize = 0;
        let mut j: usize = 0;
        while j < self.bitmask.len()
            invariant
                j <= self.bitmask@.len(),
                count == rank(self.bitmask@, j as int),
                count <= j,
            decreases self.bitmask@.len() - j,
        {
            proof {
                lemma_rank_step(self.bitmask@, j as int);
            }
            if self.bitmask[j] {
                count = count + 1;
            }
            j = j + 1;
        }
        proof {
            lemma_rank_full(self.bitmask@);
        }
        count == self.values.len()
    }

    /// The state sent for the entity at index `j` of the entity list.
    pub open spec fn value_at(self, j: int) -> T::State {
        self.values@[rank(self.bitmask@, j) as int]
    }

    /// Captures the components of `components` carried by the entities of
    /// `entities_id`.
    pub fn from_world(entities_id: &Vec<EntityId>, components: &Storage<T>) -> (r: NetworkComponent<T>)
        requires
            components.all_wf(),
            forall|id: EntityId| #[trigger] components.spec_get(id).is_some() ==> entities_id@.contains(id),
        ensures
            r.bitmask@ == presence(entities_id@, *components),
            r.values@ == present_states(entities_id@, *components),
            r.consistent_with(entities_id@),
            r.values_valid(),
    {
        let mut bitmask: Vec<bool> = Vec::new();
        let mut values: Vec<T::State> = Vec::new();
        let mut j: usize = 0;
        while j < entities_id.len()
            invariant
                components.all_wf(),
                j <= entities_id@.len(),
                bitmask@ == presence(entities_id@.take(j as int), *components),
                values@ == present_states(entities_id@.take(j as int), *components),
                forall|i: int| 0 <= i < values@.len() ==> T::valid_state(#[trigger] values@[i]),
            decreases entities_id@.len() - j,
        {
            let ghost ids = entities_id@;
            let id = entities_id[j];
            proof {
                assert(ids.take(j + 1).drop_last() =~= ids.take(j as int));
            }
            match components.get(id) {
                Some(c) => {
                    bitmask.push(true);
                    values.push(c.state());
                },
                None => {
                    bitmask.push(false);
                },
            }
            proof {
                assert(bitmask@ =~= presence(ids.take(j + 1), *components));
            }
            j = j + 1;
        }
        proof {
            assert(entities_id@.take(entities_id@.len() as int) =~= entities_id@);
            lemma_present_states_len(entities_id@, *components);
        }
        NetworkComponent { bitmask, values }
    }
}

impl<T: NetworkState> NetworkComponent<T> {
    /// The authoritative handle `k` is sent with this component.
    pub open spec fn sends(self, ids: Seq<EntityId>, k: EntityId) -> bool {
        exists|j: int| 0 <= j < ids.len() && ids[j] == k && self.bitmask@[j]
    }

    /// The entity at index `j` of `ids` carries the component and its local
    /// counterpart holds the sent state.
    pub open spec fn reflected_at(
        self,
        ids: Seq<EntityId>,
        j: int,
        components: Storage<T>,
        mapping: Map<EntityId, EntityId>,
    ) -> bool {
        &&& mapping.contains_key(ids[j])
        &&& components.spec_get(mapping[ids[j]]).is_some()
        &&& T::valid_state(self.value_at(j)) ==> components.spec_get(mapping[ids[j]]).unwrap().spec_state()
            == self.value_at(j)
    }

    /// A component that was `before` on the local counterpart of entity `j`
    /// and is `after` now was updated in place from the sent state: it only
    /// changed if its state differed, and its other fields were kept.
    pub open spec fn updated_from(self, j: int, before: Option<T>, after: Option<T>) -> bool {
        before.is_some() ==> {
            &&& before.unwrap().spec_state() != self.value_at(j)
            &&& after.is_some()
            &&& T::keeps(before.unwrap(), after.unwrap())
        }
    }

    /// Reconciles the local components with this part of a snapshot: each
    /// entity whose bit is set gets its component updated in place, or
    /// created (on its mapped local entity, or on a new local entity that is
    /// then mapped). Components of entities whose bit is clear are left as
    /// they are.
    pub fn apply_in_world(
        &self,
        entities_id: &Vec<EntityId>,
        entities: &mut Entities,
        components: &mut Storage<T>,
        mapping: &mut EntityMapping,
    )
        requires
            self.consistent_with(entities_id@),
            distinct(entities_id@),
            mapping_ok(old(mapping)@, *old(entities)),
            storage_ok(*old(components), *old(entities)),
        ensures
            mapping_ok(final(mapping)@, *final(entities)),
            storage_ok(*final(components), *final(entities)),
            grows(old(mapping)@, *old(entities), final(mapping)@, *final(entities), |k: EntityId| self.sends(entities_id@, k)),
            forall|j: int| 0 <= j < entities_id@.len() && #[trigger] self.bitmask@[j] ==>
                self.reflected_at(entities_id@, j, *final(components), final(mapping)@),
            forall|x: EntityId| #[trigger] final(components).spec_get(x) != old(components).spec_get(x) ==> exists|j: int|
                0 <= j < entities_id@.len() && self.bitmask@[j] && #[trigger] final(mapping)@[entities_id@[j]] == x
                && self.updated_from(j, old(components).spec_get(x), final(components).spec_get(x)),
    {
        let ghost m0 = mapping@;
        let ghost en0 = *entities;
        let ghost c0 = *components;
        let ghost ids = entities_id@;
        let ghost b = self.bitmask@;
        let n = entities_id.len();
        let n_values = self.values.len();
        let mut j: usize = 0;
        let mut k: usize = 0;
        while j < n
            invariant
                n == ids.len(),
                n_values == self.values@.len(),
                ids == entities_id@,
                b == self.bitmask@,
                self.consistent_with(ids),
                distinct(ids),
                j <= n,
                k == rank(b, j as int),
                mapping_ok(mapping@, *entities),
                storage_ok(*components, *entities),
                forall|q: EntityId| #[trigger] mapping@.contains_key(q) <==> m0.contains_key(q) || exists|i: int|
                    0 <= i < j && ids[i] == q && b[i],
                forall|q: EntityId| #[trigger] m0.contains_key(q) ==> mapping@[q] == m0[q],
                forall|q: EntityId| #[trigger] mapping@.contains_key(q) && !m0.contains_key(q)
                    ==> mapping@[q].0 >= en0.allocated(),
                entities.allocated() >= en0.allocated(),
                forall|x: EntityId| #[trigger] entities.spec_is_alive(x) <==> en0.spec_is_alive(x) || exists|q: EntityId|
                    mapping@.contains_key(q) && !m0.contains_key(q) && #[trigger] mapping@[q] == x,
                forall|i: int| 0 <= i < j && #[trigger] b[i] ==> self.reflected_at(ids, i, *components, mapping@),
                forall|x: EntityId| #[trigger] components.spec_get(x) != c0.spec_get(x) ==> exists|i: int|
                    0 <= i < j && b[i] && #[trigger] mapping@[ids[i]] == x
                    && self.updated_from(i, c0.spec_get(x), components.spec_get(x)),
            decreases n - j,
        {
            proof {
                lemma_rank_step(b, j as int);
                lemma_rank_le(b, j as int + 1);
            }
            if self.bitmask[j] {
                let id = entities_id[j];
                let state = self.values[k];
                let ghost m1 = mapping@;
                let ghost en1 = *entities;
                let ghost cs1 = *components;
                match mapping.get(id) {
                    Some(local) => {
                        proof {
                            entities.lemma_alive_bound(local);
                            if cs1.spec_get(local) != c0.spec_get(local) {
                                let i = choose|i: int| 0 <= i < j && b[i] && #[trigger] m1[ids[i]] == local
                                    && self.updated_from(i, c0.spec_get(local), cs1.spec_get(local));
                                assert(self.reflected_at(ids, i, cs1, m1));
                                assert(ids[i] != id);
                                assert(m1.contains_key(id));
                            }
                        }
                        if components.contains(local) {
                            components.update_from_state(local, state);
                        } else {
                            components.insert(local, T::from_state(state));
                        }
                        proof {
                            assert forall|i: int| 0 <= i < j + 1 && #[trigger] b[i] implies self.reflected_at(ids, i, *components, mapping@) by {
                                if i < j {
                                    assert(ids[i] != id);
                                }
                            }
                            assert forall|x: EntityId| #[trigger] components.spec_get(x) != c0.spec_get(x) implies exists|i: int|
                                0 <= i < j + 1 && b[i] && #[trigger] mapping@[ids[i]] == x
                                && self.updated_from(i, c0.spec_get(x), components.spec_get(x)) by {
                                if x != local {
                                    assert(cs1.spec_get(x) != c0.spec_get(x));
                                } else {
                                    assert(mapping@[ids[j as int]] == x);
                                    assert(self.updated_from(j as int, c0.spec_get(x), components.spec_get(x)));
                                }
                            }
                        }
                    },
                    None => {
                        let local = entities.add_entity();
                        components.insert(local, T::from_state(state));
                        mapping.insert(id, local);
                        proof {
                            if en1.spec_is_alive(local) {
                                en1.lemma_alive_bound(local);
                            }
                            assert(local.0 >= en0.allocated());
                            assert forall|q: EntityId| #[trigger] m1.contains_key(q) implies m1[q] != local by {}
                            assert forall|q: EntityId| #[trigger] mapping@.contains_key(q) implies entities.spec_is_alive(mapping@[q]) by {}
                            assert forall|x: EntityId| #[trigger] components.spec_get(x).is_some() implies entities.spec_is_alive(x) by {
                                if x != local {
                                    assert(cs1.spec_get(x).is_some());
                                }
                            }
                            assert forall|x: EntityId| #[trigger] entities.spec_is_alive(x) <==> en0.spec_is_alive(x) || exists|q: EntityId|
                                mapping@.contains_key(q) && !m0.contains_key(q) && #[trigger] mapping@[q] == x by {
                                if x == local {
                                    assert(mapping@.contains_key(id) && !m0.contains_key(id) && mapping@[id] == x);
                                } else {
                                    if exists|q: EntityId| mapping@.contains_key(q) && !m0.contains_key(q) && #[trigger] mapping@[q] == x {
                                        let q = choose|q: EntityId| mapping@.contains_key(q) && !m0.contains_key(q) && #[trigger] mapping@[q] == x;
                                        assert(q != id);
                                        assert(m1.contains_key(q));
                                        assert(m1[q] == x);
                                        assert(en1.spec_is_alive(x));
                                    }
                                    if en1.spec_is_alive(x) && !en0.spec_is_alive(x) {
                                        let q = choose|q: EntityId| m1.contains_key(q) && !m0.contains_key(q) && #[trigger] m1[q] == x;
                                        assert(mapping@.contains_key(q) && !m0.contains_key(q) && mapping@[q] == x);
                                    }
                                }
                            }
                            assert forall|q: EntityId| #[trigger] mapping@.contains_key(q) <==> m0.contains_key(q) || exists|i: int|
                                0 <= i < j + 1 && ids[i] == q && b[i] by {
                                if q == id {
                                    assert(ids[j as int] == q);
                                }
                            }
                            assert forall|i: int| 0 <= i < j + 1 && #[trigger] b[i] implies self.reflected_at(ids, i, *components, mapping@) by {
                                if i < j {
                                    assert(ids[i] != id);
                                    assert(m1.contains_key(ids[i]));
                                }
                            }
                            assert forall|x: EntityId| #[trigger] components.spec_get(x) != c0.spec_get(x) implies exists|i: int|
                                0 <= i < j + 1 && b[i] && #[trigger] mapping@[ids[i]] == x
                                && self.updated_from(i, c0.spec_get(x), components.spec_get(x)) by {
                                if x != local {
                                    assert(cs1.spec_get(x) != c0.spec_get(x));
                                    let i = choose|i: int| 0 <= i < j && b[i] && #[trigger] m1[ids[i]] == x
                                        && self.updated_from(i, c0.spec_get(x), cs1.spec_get(x));
                                    assert(ids[i] != id);
                                    assert(mapping@[ids[i]] == x);
                                } else {
                                    if c0.spec_get(local).is_some() {
                                        en0.lemma_alive_bound(local);
                                    }
                                    assert(mapping@[ids[j as int]] == x);
                                }
                            }
                        }
                    },
                }
                k = k + 1;
            }
            j = j + 1;
        }
        proof {
            assert forall|j: int| 0 <= j < entities_id@.len() && #[trigger] self.bitmask@[j] implies
                self.reflected_at(entities_id@, j, *components, mapping@) by {}
            let f = |k: EntityId| self.sends(entities_id@, k);
            assert forall|k: EntityId| #[trigger] mapping@.contains_key(k) <==> m0.contains_key(k) || f(k) by {}
        }
    }
}

} // verus!
