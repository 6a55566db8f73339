//! A sparse store of one component kind, keyed by entity id.

use std::collections::HashMap;
use vstd::prelude::*;

verus! {

broadcast use vstd::std_specs::hash::group_hash_axioms;

/// The components of one kind, at most one per entity id.
pub struct Store<C> {
    map: HashMap<u64, C>,
}

impl<C> View for Store<C> {
    type V = Map<u64, C>;

    closed spec fn view(&self) -> Map<u64, C> {
        self.map@
    }
}

impl<C> Store<C> {
    /// Whether `id` carries a component of this kind.
    pub open spec fn has(&self, id: u64) -> bool {
        self@.contains_key(id)
    }

    /// An empty store.
    pub fn new() -> (s: Self)
        ensures
            s@ == Map::<u64, C>::empty(),
    {
        Store { map: HashMap::new() }
    }

    /// Attaches `component` to `id`, in place of any the id carried, which is
    /// handed back.
    pub fn attach(&mut self, id: u64, component: C) -> (previous: Option<C>)
        ensures
            final(self)@ == old(self)@.insert(id, component),
            previous == (if old(self)@.contains_key(id) {
                Some(old(self)@[id])
            } else {
                None
            }),
    {
        self.map.insert(id, component)
    }

    /// The component of `id`, or `None` where it has none.
    pub fn get(&self, id: u64) -> (found: Option<&C>)
        ensures
            match found {
                Some(c) => self@.contains_key(id) && *c == self@[id],
                None => !self@.contains_key(id),
            },
    {
        self.map.get(&id)
    }

    /// Whether `id` carries a component.
    pub fn contains(&self, id: u64) -> (b: bool)
        ensures
            b == self@.contains_key(id),
    {
        self.map.contains_key(&id)
    }

    /// Detaches and hands back the component of `id`, if it has one.
    pub fn remove(&mut self, id: u64) -> (removed: Option<C>)
        ensures
            final(self)@ == old(self)@.remove(id),
            removed == (if old(self)@.contains_key(id) {
                Some(old(self)@[id])
            } else {
                None
            }),
    {
        self.map.remove(&id)
    }

    /// Detaches every component.
    pub fn clear(&mut self)
        ensures
            final(self)@ == Map::<u64, C>::empty(),
    {
        self.map.clear()
    }

    /// The number of ids that carry a component.
    pub fn len(&self) -> (n: usize)
        ensures
            n == self@.len(),
    {
        self.map.len()
    }
}

} // verus!
