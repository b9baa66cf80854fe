use vstd::prelude::*;
use crate::entity::EntityId;
use crate::network::NetworkState;

verus! {

/// Component storage of one component type: at most one component per
/// entity, indexed by the entity's handle.
#[derive(Clone, Debug)]
pub struct Storage<T> {
    slots: Vec<Option<T>>,
}

impl<T> Storage<T> {
    /// The component that `id` carries, if any.
    pub closed spec fn spec_get(self, id: EntityId) -> Option<T> {
        if id.0 < self.slots@.len() {
            self.slots@[id.0 as int]
        } else {
            None
        }
    }

    /// One past the largest handle that may carry a component.
    pub closed spec fn bound(self) -> nat {
        self.slots@.len()
    }

    pub fn new() -> (r: Storage<T>)
        ensures
            r.bound() == 0,
            forall|id: EntityId| r.spec_get(id).is_none(),
    {
        Storage { slots: Vec::new() }
    }

    pub fn get(&self, id: EntityId) -> (r: Option<&T>)
        ensures
            r == match self.spec_get(id) {
                Some(c) => Some(&c),
                None => None::<&T>,
            },
    {
        if id.0 < self.slots.len() as u64 {
            match &self.slots[id.0 as usize] {
                Some(c) => Some(c),
                None => None,
            }
        } else {
            None
        }
    }

    pub fn contains(&self, id: EntityId) -> (r: bool)
        ensures
            r == self.spec_get(id).is_some(),
    {
        if id.0 < self.slots.len() as u64 {
            self.slots[id.0 as usize].is_some()
        } else {
            false
        }
    }

    /// Attaches `c` to `id`, replacing any component it carried.
    pub fn insert(&mut self, id: EntityId, c: T)
        requires
            id.0 < usize::MAX,
        ensures
            final(self).spec_get(id) == Some(c),
            forall|o: EntityId| o != id ==> final(self).spec_get(o) == old(self).spec_get(o),
            final(self).bound() == if old(self).bound() > id.0 { old(self).bound() as int } else { id.0 + 1 },
    {
        let idx = id.0 as usize;
        while self.slots.len() <= idx
            invariant
                idx < usize::MAX,
                self.slots@.len() >= old(self).slots@.len(),
                self.slots@.len() <= if old(self).slots@.len() > idx { old(self).slots@.len() } else { idx as nat + 1 },
                forall|o: EntityId| self.spec_get(o) == old(self).spec_get(o),
            decreases idx + 1 - self.slots@.len(),
        {
            self.slots.push(None);
        }
        self.slots.set(idx, Some(c));
    }

    /// Detaches the component of `id`, if any.
    pub fn remove(&mut self, id: EntityId)
        ensures
            final(self).spec_get(id).is_none(),
            final(self).bound() == old(self).bound(),
            forall|o: EntityId| o != id ==> final(self).spec_get(o) == old(self).spec_get(o),
    {
        if id.0 < self.slots.len() as u64 {
            self.slots.set(id.0 as usize, None);
        }
    }
}

impl<T: NetworkState> Storage<T> {
    /// Every stored component is consistent.
    pub open spec fn all_wf(self) -> bool {
        forall|id: EntityId| #[trigger] self.spec_get(id).is_some() ==> self.spec_get(id).unwrap().wf()
    }

    /// Updates the component of `id` in place from `state`.
    pub fn update_from_state(&mut self, id: EntityId, state: T::State)
        requires
            old(self).spec_get(id).is_some(),
            old(self).spec_get(id).unwrap().wf(),
        ensures
            final(self).spec_get(id).is_some(),
            final(self).spec_get(id).unwrap().wf(),
            T::valid_state(state) ==> final(self).spec_get(id).unwrap().spec_state() == state,
            T::keeps(old(self).spec_get(id).unwrap(), final(self).spec_get(id).unwrap()),
            old(self).spec_get(id).unwrap().spec_state() == state ==> final(self).spec_get(id) == old(self).spec_get(id),
            final(self).bound() == old(self).bound(),
            forall|o: EntityId| o != id ==> final(self).spec_get(o) == old(self).spec_get(o),
    {
        if id.0 < self.slots.len() as u64 {
            let idx = id.0 as usize;
            let mut slot: Option<T> = None;
            self.slots.set_and_swap(idx, &mut slot);
            match slot {
                Some(c0) => {
                    let mut c = c0;
                    c.update_from_state(state);
                    self.slots.set(idx, Some(c));
                },
                None => {},
            }
        }
    }
}

} // verus!
