use vstd::prelude::*;
use vstd::std_specs::hash::*;
use vstd::std_specs::iter::IteratorSpec;
use std::collections::HashMap;
use crate::entity::EntityId;

verus! {

broadcast use group_hash_axioms;

/// The table from authoritative entity handles to local entity handles,
/// owned by the consuming side. It is keyed by the handles' numbers.
#[derive(Clone, Debug)]
pub struct EntityMapping {
    map: HashMap<u64, u64>,
}

impl View for EntityMapping {
    type V = Map<EntityId, EntityId>;

    closed spec fn view(&self) -> Map<EntityId, EntityId> {
        Map::new(|k: EntityId| self.map@.contains_key(k.0), |k: EntityId| EntityId(self.map@[k.0]))
    }
}

impl EntityMapping {
    pub fn new() -> (r: EntityMapping)
        ensures
            r@ == Map::<EntityId, EntityId>::empty(),
    {
        let r = EntityMapping { map: HashMap::new() };
        assert(r@ =~= Map::<EntityId, EntityId>::empty());
        r
    }

    pub fn len(&self) -> (r: usize)
        ensures
            r == self@.len(),
    {
        proof {
            self.lemma_len();
        }
        self.map.len()
    }

    proof fn lemma_len(self)
        ensures
            self@.dom().finite(),
            self@.len() == self.map@.len(),
    {
        assert(self@.dom() == self.map@.dom().map(|n: u64| EntityId(n))) by {
            assert forall|k: EntityId| self@.dom().contains(k) <==> self.map@.dom().map(|n: u64| EntityId(n)).contains(k) by {
                if self.map@.dom().contains(k.0) {
                    assert(EntityId(k.0) == k);
                }
            }
            assert(self@.dom() =~= self.map@.dom().map(|n: u64| EntityId(n)));
        }
        let f = |n: u64| EntityId(n);
        assert(vstd::relations::injective_on(f, self.map@.dom()));
        vstd::set_lib::lemma_map_size(self.map@.dom(), self@.dom(), f);
    }

    /// The local handle that `k` maps to.
    pub fn get(&self, k: EntityId) -> (r: Option<EntityId>)
        ensures
            r == (if self@.contains_key(k) { Some(self@[k]) } else { None }),
    {
        match self.map.get(&k.0) {
            Some(v) => Some(EntityId(*v)),
            None => None,
        }
    }

    /// Adds the pair `k -> v`; `k` must not be mapped yet.
    pub fn insert(&mut self, k: EntityId, v: EntityId)
        requires
            !old(self)@.contains_key(k),
        ensures
            final(self)@ == old(self)@.insert(k, v),
    {
        let ghost prev = *self;
        self.map.insert(k.0, v.0);
        proof {
            assert forall|q: EntityId| #[trigger] self@.contains_key(q) == prev@.insert(k, v).contains_key(q) by {
                if q.0 == k.0 {
                    assert(q == k);
                }
            }
            assert(self@ =~= prev@.insert(k, v));
        }
    }

    /// Keeps the pairs whose authoritative handle occurs in `listed` and
    /// returns the local handles of the pairs it dropped.
    pub fn retain_listed(&mut self, listed: &Vec<EntityId>) -> (removed: Vec<EntityId>)
        ensures
            final(self)@ == old(self)@.restrict(listed@.to_set()),
            forall|x: EntityId| removed@.contains(x) <==> exists|k: EntityId|
                #[trigger] old(self)@.contains_key(k) && !listed@.contains(k) && old(self)@[k] == x,
    {
        let ghost prev = *self;
        let keys = self.keys();
        let mut removed: Vec<EntityId> = Vec::new();
        let mut i: usize = 0;
        while i < keys.len()
            invariant
                i <= keys@.len(),
                forall|a: int, b: int| 0 <= a < b < keys@.len() ==> keys@[a] != keys@[b],
                forall|n: u64| prev.map@.contains_key(n) <==> keys@.contains(n),
                forall|n: u64| #[trigger] self.map@.contains_key(n) <==> prev.map@.contains_key(n)
                    && !(keys@.take(i as int).contains(n) && !listed@.contains(EntityId(n))),
                forall|n: u64| #[trigger] self.map@.contains_key(n) ==> self.map@[n] == prev.map@[n],
                forall|x: EntityId| removed@.contains(x) <==> exists|a: int|
                    0 <= a < i && !listed@.contains(EntityId(keys@[a])) && #[trigger] prev.map@[keys@[a]] == x.0,
            decreases keys@.len() - i,
        {
            let n = keys[i];
            let ghost before = keys@.take(i as int);
            proof {
                let after = keys@.take(i + 1);
                assert(after =~= before.push(n));
                assert(keys@.contains(n));
                assert forall|m: u64| after.contains(m) <==> before.contains(m) || m == n by {
                    if after.contains(m) && m != n {
                        let a = choose|a: int| 0 <= a < i + 1 && #[trigger] after[a] == m;
                        assert(before[a] == m);
                    }
                    if before.contains(m) {
                        let a = choose|a: int| 0 <= a < i && #[trigger] before[a] == m;
                        assert(after[a] == m);
                    }
                    if m == n {
                        assert(after[i as int] == m);
                    }
                }
                if before.contains(n) {
                    let a = choose|a: int| 0 <= a < i && before[a] == n;
                    assert(keys@[a] == keys@[i as int]);
                }
            }
            if !crate::mapping::contains_id(listed, EntityId(n)) {
                let ghost old_removed = removed@;
                let local = match self.map.get(&n) {
                    Some(v) => *v,
                    None => 0,
                };
                removed.push(EntityId(local));
                self.map.remove(&n);
                proof {
                    assert forall|x: EntityId| removed@.contains(x) <==> exists|a: int|
                        0 <= a < i + 1 && !listed@.contains(EntityId(keys@[a])) && #[trigger] prev.map@[keys@[a]] == x.0 by {
                        if removed@.contains(x) {
                            let b = choose|b: int| 0 <= b < removed@.len() && removed@[b] == x;
                            if b < old_removed.len() {
                                assert(old_removed[b] == x);
                                assert(old_removed.contains(x));
                            } else {
                                assert(prev.map@[keys@[i as int]] == x.0);
                            }
                        }
                        if exists|a: int| 0 <= a < i + 1 && !listed@.contains(EntityId(keys@[a])) && #[trigger] prev.map@[keys@[a]] == x.0 {
                            let a = choose|a: int| 0 <= a < i + 1 && !listed@.contains(EntityId(keys@[a])) && #[trigger] prev.map@[keys@[a]] == x.0;
                            if a < i {
                                assert(old_removed.contains(x));
                                let b = choose|b: int| 0 <= b < old_removed.len() && old_removed[b] == x;
                                assert(removed@[b] == x);
                            } else {
                                assert(removed@[old_removed.len() as int] == x);
                            }
                        }
                    }
                }
            }
            i = i + 1;
        }
        proof {
            assert(keys@.take(keys@.len() as int) =~= keys@);
            let target = prev@.restrict(listed@.to_set());
            assert forall|q: EntityId| #[trigger] self@.contains_key(q) == target.contains_key(q) by {
                if listed@.contains(EntityId(q.0)) {
                    assert(EntityId(q.0) == q);
                }
                if listed@.contains(q) {
                    assert(EntityId(q.0) == q);
                }
            }
            assert(self@ =~= target);
            assert forall|x: EntityId| removed@.contains(x) <==> exists|k: EntityId|
                #[trigger] prev@.contains_key(k) && !listed@.contains(k) && prev@[k] == x by {
                if removed@.contains(x) {
                    let a = choose|a: int| 0 <= a < keys@.len() && !listed@.contains(EntityId(keys@[a])) && #[trigger] prev.map@[keys@[a]] == x.0;
                    let k = EntityId(keys@[a]);
                    assert(keys@.contains(keys@[a]));
                    assert(prev.map@.contains_key(k.0));
                    assert(prev@[k] == EntityId(prev.map@[k.0]));
                    assert(EntityId(x.0) == x);
                    assert(prev@.contains_key(k) && !listed@.contains(k) && prev@[k] == x);
                }
                if exists|k: EntityId| #[trigger] prev@.contains_key(k) && !listed@.contains(k) && prev@[k] == x {
                    let k = choose|k: EntityId| #[trigger] prev@.contains_key(k) && !listed@.contains(k) && prev@[k] == x;
                    assert(keys@.contains(k.0));
                    let a = choose|a: int| 0 <= a < keys@.len() && keys@[a] == k.0;
                    assert(EntityId(keys@[a]) == k);
                }
            }
        }
        removed
    }

    /// The numbers of the mapped authoritative handles, each once.
    fn keys(&self) -> (r: Vec<u64>)
        ensures
            forall|a: int, b: int| 0 <= a < b < r@.len() ==> r@[a] != r@[b],
            forall|n: u64| self.map@.contains_key(n) <==> r@.contains(n),
    {
        let mut r: Vec<u64> = Vec::new();
        let ghost v = spec_hash_map_iter(&self.map).remaining();
        for kv in it: self.map.iter()
            invariant
                it.seq() == v,
                r@ == v.take(it.index() as int).map_values(|p: (&u64, &u64)| *p.0),
        {
            proof {
                assert(v.take(it.index() + 1) =~= v.take(it.index() as int).push(v[it.index() as int]));
            }
            r.push(*kv.0);
        }
        proof {
            assert(v.take(v.len() as int) =~= v);
            assert(v.no_duplicates());
            assert forall|a: int, b: int| 0 <= a < b < r@.len() implies r@[a] != r@[b] by {
                if r@[a] == r@[b] {
                    assert(self.map@[*v[a].0] == *v[a].1);
                    assert(self.map@[*v[b].0] == *v[b].1);
                    assert(v[a] == v[b]);
                }
            }
            assert forall|n: u64| self.map@.contains_key(n) <==> r@.contains(n) by {
                if self.map@.contains_key(n) {
                    assert(v.contains((&n, &self.map@[n])));
                    let a = choose|a: int| 0 <= a < v.len() && v[a] == (&n, &self.map@[n]);
                    assert(r@[a] == n);
                }
                if r@.contains(n) {
                    let a = choose|a: int| 0 <= a < r@.len() && r@[a] == n;
                    assert(self.map@.contains_key(*v[a].0));
                }
            }
        }
        r
    }

    /// The pairs of the table, each authoritative handle once.
    pub fn pairs(&self) -> (r: Vec<(EntityId, EntityId)>)
        ensures
            forall|i: int| 0 <= i < r@.len() ==> self@.contains_key((#[trigger] r@[i]).0) && self@[r@[i].0] == r@[i].1,
            forall|k: EntityId| self@.contains_key(k) ==> r@.contains((k, self@[k])),
            r@.len() == self@.len(),
    {
        let keys = self.keys();
        let mut r: Vec<(EntityId, EntityId)> = Vec::new();
        let mut i: usize = 0;
        while i < keys.len()
            invariant
                i <= keys@.len(),
                forall|a: int, b: int| 0 <= a < b < keys@.len() ==> keys@[a] != keys@[b],
                forall|n: u64| self.map@.contains_key(n) <==> keys@.contains(n),
                r@.len() == i,
                forall|a: int| 0 <= a < i ==> (#[trigger] r@[a]) == (EntityId(keys@[a]), EntityId(self.map@[keys@[a]])),
            decreases keys@.len() - i,
        {
            let n = keys[i];
            let v = match self.map.get(&n) {
                Some(v) => *v,
                None => 0,
            };
            proof {
                assert(keys@.contains(n));
            }
            r.push((EntityId(n), EntityId(v)));
            i = i + 1;
        }
        proof {
            self.lemma_len();
            keys@.unique_seq_to_set();
            assert(keys@.to_set() =~= self.map@.dom());
            assert forall|k: EntityId| self@.contains_key(k) implies r@.contains((k, self@[k])) by {
                assert(keys@.contains(k.0));
                let a = choose|a: int| 0 <= a < keys@.len() && keys@[a] == k.0;
                assert(r@[a] == (k, self@[k]));
            }
        }
        r
    }
}

/// Whether `id` occurs in `ids`.
pub fn contains_id(ids: &Vec<EntityId>, id: EntityId) -> (r: bool)
    ensures
        r == ids@.contains(id),
{
    let mut i: usize = 0;
    while i < ids.len()
        invariant
            i <= ids@.len(),
            forall|j: int| 0 <= j < i ==> ids@[j] != id,
        decreases ids@.len() - i,
    {
        if ids[i] == id {
            return true;
        }
        i = i + 1;
    }
    false
}

} // verus!
