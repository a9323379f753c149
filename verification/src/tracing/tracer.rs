//! Placeholders for values that a graph will produce.

use vstd::prelude::*;

use crate::identity::Id;

verus! {

/// A placeholder for the value that a graph produces under one identifier.
#[derive(Debug, Copy, Clone, Hash, Eq, PartialEq, PartialOrd, Ord, Structural)]
pub struct Tracer {
    id: Id,
}

pub type Tensor = Tracer;

impl View for Tracer {
    type V = Id;

    closed spec fn view(&self) -> Id {
        self.id
    }
}

impl Tracer {
    /// A placeholder is its identifier and nothing else: two placeholders
    /// are the same exactly if they stand for the same identifier.
    pub proof fn lemma_determined_by_id(self, other: Tracer)
        ensures
            (self@ == other@) == (self == other),
    {
    }

    pub fn new(id: Id) -> (tracer: Tracer)
        ensures
            tracer@ == id,
    {
        Tracer { id }
    }

    /// The identifier this placeholder stands for.
    pub fn id(&self) -> (id: Id)
        ensures
            id == self@,
    {
        self.id
    }
}

} // verus!
