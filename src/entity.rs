use vstd::prelude::*;

verus! {

/// A process-local entity handle. Handles from different processes are
/// never compared with each other.
#[derive(Clone, Copy, Debug, PartialEq, Eq, Structural, Hash)]
pub struct EntityId(pub u64);

/// The set of entities alive in one world, with the allocator of fresh
/// handles. Handles are never reused: the handle of index `i` is given out
/// once, and stays dead after it is deleted.
#[derive(Clone, Debug)]
pub struct Entities {
    alive: Vec<bool>,
}

impl Entities {
    /// Number of handles given out so far.
    pub closed spec fn allocated(self) -> nat {
        self.alive@.len()
    }

    /// Whether `id` is a live entity of this set.
    pub closed spec fn spec_is_alive(self, id: EntityId) -> bool {
        id.0 < self.alive@.len() && id.0 < usize::MAX && self.alive@[id.0 as int]
    }

    pub proof fn lemma_alive_bound(self, id: EntityId)
        requires
            self.spec_is_alive(id),
        ensures
            id.0 < self.allocated(),
            id.0 < usize::MAX,
    {
    }

    pub fn new() -> (r: Entities)
        ensures
            r.allocated() == 0,
            forall|id: EntityId| !r.spec_is_alive(id),
    {
        Entities { alive: Vec::new() }
    }

    pub fn is_alive(&self, id: EntityId) -> (r: bool)
        ensures
            r == self.spec_is_alive(id),
    {
        if id.0 < self.alive.len() as u64 && id.0 < usize::MAX as u64 {
            self.alive[id.0 as usize]
        } else {
            false
        }
    }

    /// Creates an entity with a handle never given out before.
    pub fn add_entity(&mut self) -> (r: EntityId)
        ensures
            r.0 == old(self).allocated(),
            r.0 < usize::MAX,
            final(self).allocated() == old(self).allocated() + 1,
            final(self).spec_is_alive(r),
            forall|id: EntityId| id != r ==> final(self).spec_is_alive(id) == old(self).spec_is_alive(id),
    {
        let id = EntityId(self.alive.len() as u64);
        self.alive.push(true);
        // the length, read back as a usize, bounds the new handle
        let _ = self.alive.len();
        id
    }

    /// Marks `id` dead; nothing else changes.
    pub fn delete_entity(&mut self, id: EntityId)
        ensures
            final(self).allocated() == old(self).allocated(),
            !final(self).spec_is_alive(id),
            forall|o: EntityId| o != id ==> final(self).spec_is_alive(o) == old(self).spec_is_alive(o),
    {
        if id.0 < self.alive.len() as u64 {
            self.alive.set(id.0 as usize, false);
        }
    }

    /// The live handles, in increasing order.
    pub fn ids(&self) -> (r: Vec<EntityId>)
        ensures
            forall|i: int| 0 <= i < r@.len() ==> self.spec_is_alive(#[trigger] r@[i]),
            forall|id: EntityId| self.spec_is_alive(id) ==> r@.contains(id),
            forall|i: int, j: int| 0 <= i < j < r@.len() ==> r@[i].0 < r@[j].0,
    {
        let mut r: Vec<EntityId> = Vec::new();
        let mut i: usize = 0;
        while i < self.alive.len()
            invariant
                i <= self.alive@.len(),
                forall|k: int| 0 <= k < r@.len() ==> self.spec_is_alive(#[trigger] r@[k]),
                forall|k: int| 0 <= k < r@.len() ==> (#[trigger] r@[k]).0 < i,
                forall|id: EntityId| self.spec_is_alive(id) && id.0 < i ==> r@.contains(id),
                forall|a: int, b: int| 0 <= a < b < r@.len() ==> r@[a].0 < r@[b].0,
            decreases self.alive@.len() - i,
        {
            if self.alive[i] && i < usize::MAX {
                let ghost old_r = r@;
                r.push(EntityId(i as u64));
                proof {
                    assert forall|id: EntityId| self.spec_is_alive(id) && id.0 < i + 1 implies r@.contains(id) by {
                        if id.0 == i {
                            assert(r@[r@.len() - 1] == id);
                        } else {
                            assert(old_r.contains(id));
                            let k = choose|k: int| 0 <= k < old_r.len() && old_r[k] == id;
                            assert(r@[k] == id);
                        }
                    }
                }
            }
            i = i + 1;
        }
        r
    }
}

} // verus!
