//! Placeholder for a value supplied by the caller.

use vstd::prelude::*;

use crate::graph::Graph;
use crate::identity::Id;
use crate::ops::{opt_view, simple_plan, vjp_spec, Kernel, Kind, Node, Plan};

verus! {

#[derive(Debug, Clone, Copy)]
pub struct Input {
    pub out: Id,
}

impl View for Input {
    type V = Node;

    open spec fn view(&self) -> Node {
        Node { kind: Kind::Input, inputs: Seq::empty(), out: self.out }
    }
}

impl Input {
    pub fn new(out: Id) -> (op: Input)
        ensures
            op.out == out,
    {
        Input { out }
    }

    pub fn name(&self) -> (name: &'static str)
        ensures
            name@ == "input"@,
    {
        "input"
    }

    pub fn inputs(&self) -> (ids: Vec<Id>)
        ensures
            ids@ == self@.inputs,
    {
        Vec::new()
    }

    pub fn outputs(&self) -> (ids: Vec<Id>)
        ensures
            ids@ == seq![self@.out],
    {
        vec![self.out]
    }

    /// Nothing is computed: the caller binds the value before evaluation.
    pub fn plan(&self) -> (plan: Plan)
        ensures
            plan@ == simple_plan(Kernel::Load, Seq::empty()),
    {
        Plan::simple(Kernel::Load, Vec::new())
    }

    /// An input contributes no gradient of its own.
    pub fn vjp(&self, g: &mut Graph, out_grads: &[Id]) -> (grads: Option<Vec<Id>>)
        ensures
            (final(g)@, opt_view(grads)) == vjp_spec(self@, old(g)@, out_grads@),
    {
        proof {
            assert(old(g)@.nodes + Seq::<Node>::empty() =~= old(g)@.nodes);
        }
        None
    }
}

} // verus!
