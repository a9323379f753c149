//! Elementwise addition.

use vstd::prelude::*;

use crate::graph::Graph;
use crate::identity::Id;
use crate::ops::{
    broadcast_shapes, elementwise_plan, opt_view, plan_view, vjp_spec, Kernel, Kind, Node, Plan,
    ShapeError,
};

verus! {

#[derive(Debug, Clone, Copy)]
pub struct Add {
    pub lhs: Id,
    pub rhs: Id,
    pub out: Id,
}

impl View for Add {
    type V = Node;

    open spec fn view(&self) -> Node {
        Node { kind: Kind::Add, inputs: seq![self.lhs, self.rhs], out: self.out }
    }
}

impl Add {
    pub fn new(lhs: Id, rhs: Id, out: Id) -> (op: Add)
        ensures
            op.lhs == lhs,
            op.rhs == rhs,
            op.out == out,
    {
        Add { lhs, rhs, out }
    }

    pub fn name(&self) -> (name: &'static str)
        ensures
            name@ == "add"@,
    {
        "add"
    }

    pub fn inputs(&self) -> (ids: Vec<Id>)
        ensures
            ids@ == self@.inputs,
    {
        vec![self.lhs, self.rhs]
    }

    pub fn outputs(&self) -> (ids: Vec<Id>)
        ensures
            ids@ == seq![self@.out],
    {
        vec![self.out]
    }

    /// Shape rule: the operands are broadcast against each other.
    pub fn plan(&self, x: &[usize], y: &[usize]) -> (plan: Result<Plan, ShapeError>)
        ensures
            plan_view(plan) == elementwise_plan(Kernel::Add, x@, y@),
    {
        match broadcast_shapes(x, y) {
            Some(shape) => Ok(Plan::simple(Kernel::Add, shape)),
            None => Err(ShapeError::Broadcast),
        }
    }

    /// The gradient of the output passes unchanged to both operands.
    pub fn vjp(&self, g: &mut Graph, out_grads: &[Id]) -> (grads: Option<Vec<Id>>)
        ensures
            (final(g)@, opt_view(grads)) == vjp_spec(self@, old(g)@, out_grads@),
    {
        if out_grads.len() == 0 {
            return None;
        }
        let og: Id = out_grads[0];
        proof {
            assert(old(g)@.nodes + Seq::<Node>::empty() =~= old(g)@.nodes);
        }
        Some(vec![og, og])
    }
}

} // verus!
