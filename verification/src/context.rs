//! The store that an evaluation binds identifiers in.

use std::collections::HashMap;
use vstd::prelude::*;

use crate::identity::Id;

verus! {

/// A mapping from identifiers to the values bound to them during one
/// evaluation.
#[derive(Debug)]
pub struct Context<T> {
    tensors: HashMap<usize, T>,
}

impl<T> View for Context<T> {
    type V = Map<Id, T>;

    closed spec fn view(&self) -> Map<Id, T> {
        Map::new(|id: Id| self.tensors@.contains_key(id.0), |id: Id| self.tensors@[id.0])
    }
}

impl<T> Context<T> {
    pub fn new() -> (ctx: Context<T>)
        ensures
            ctx@ == Map::<Id, T>::empty(),
    {
        let ctx = Context { tensors: HashMap::new() };
        assert(ctx@ =~= Map::<Id, T>::empty());
        ctx
    }

    /// Binds `value` to `id`, replacing what was bound before.
    pub fn insert(&mut self, id: Id, value: T)
        ensures
            final(self)@ == old(self)@.insert(id, value),
    {
        self.tensors.insert(id.0, value);
        assert(self@ =~= old(self)@.insert(id, value));
    }

    /// Whether something is bound to `id`.
    pub fn contains(&self, id: &Id) -> (bound: bool)
        ensures
            bound == self@.contains_key(*id),
    {
        self.tensors.contains_key(&id.0)
    }

    /// What is bound to `id`, if anything.
    pub fn get(&self, id: &Id) -> (value: Option<&T>)
        ensures
            match value {
                Some(v) => self@.contains_key(*id) && *v == self@[*id],
                None => !self@.contains_key(*id),
            },
    {
        self.tensors.get(&id.0)
    }

    /// What is bound to `id`. The caller has to know that `id` is bound:
    /// asking for an unbound identifier means the graph is malformed.
    pub fn checked_get(&self, id: &Id) -> (value: &T)
        requires
            self@.contains_key(*id),
        ensures
            *value == self@[*id],
    {
        match self.tensors.get(&id.0) {
            Some(value) => value,
            None => vstd::pervasive::unreached(),
        }
    }
}

impl<T> Default for Context<T> {
    fn default() -> (ctx: Context<T>)
        ensures
            ctx@ == Map::<Id, T>::empty(),
    {
        Context::new()
    }
}

} // verus!
