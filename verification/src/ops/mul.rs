//! Elementwise multiplication.

use vstd::prelude::*;

use crate::graph::Graph;
use crate::identity::{Id, IdPool};
use crate::ops::{
    broadcast_shapes, elementwise_plan, opt_view, plan_view, vjp_spec, Kernel, Kind, Node, Op, Plan,
    ShapeError,
};

verus! {

#[derive(Debug, Clone, Copy)]
pub struct Mul {
    pub lhs: Id,
    pub rhs: Id,
    pub out: Id,
}

impl View for Mul {
    type V = Node;

    open spec fn view(&self) -> Node {
        Node { kind: Kind::Mul, inputs: seq![self.lhs, self.rhs], out: self.out }
    }
}

/// Gradient rule of `lhs * rhs`.
pub open spec fn mul_vjp(lhs: Id, rhs: Id, og: Id, ids: Seq<Id>) -> Seq<Node> {
    seq![
        Node { kind: Kind::Mul, inputs: seq![og, rhs], out: ids[0] },
        Node { kind: Kind::Mul, inputs: seq![og, lhs], out: ids[1] },
    ]
}

impl Mul {
    pub fn new(lhs: Id, rhs: Id, out: Id) -> (op: Mul)
        ensures
            op.lhs == lhs,
            op.rhs == rhs,
            op.out == out,
    {
        Mul { lhs, rhs, out }
    }

    pub fn name(&self) -> (name: &'static str)
        ensures
            name@ == "mul"@,
    {
        "mul"
    }

    pub fn inputs(&self) -> (ids: Vec<Id>)
        ensures
            ids@ == self@.inputs,
    {
        vec![self.lhs, self.rhs]
    }

    pub fn outputs(&self) -> (ids: Vec<Id>)
        ensures
            ids@ == seq![self@.out],
    {
        vec![self.out]
    }

    /// Shape rule: the operands are broadcast against each other.
    pub fn plan(&self, x: &[usize], y: &[usize]) -> (plan: Result<Plan, ShapeError>)
        ensures
            plan_view(plan) == elementwise_plan(Kernel::Mul, x@, y@),
    {
        match broadcast_shapes(x, y) {
            Some(shape) => Ok(Plan::simple(Kernel::Mul, shape)),
            None => Err(ShapeError::Broadcast),
        }
    }

    /// Each operand receives the output's gradient times the other
    /// operand.
    pub fn vjp(&self, g: &mut Graph, out_grads: &[Id]) -> (grads: Option<Vec<Id>>)
        requires
            old(g)@.pool.headroom() >= 2,
        ensures
            (final(g)@, opt_view(grads)) == vjp_spec(self@, old(g)@, out_grads@),
    {
        if out_grads.len() == 0 {
            return None;
        }
        let og: Id = out_grads[0];
        proof {
            reveal_with_fuel(IdPool::take, 3);
            reveal_with_fuel(IdPool::skip, 3);
        }
        let grad_lhs: Id = g.fresh();
        g.push(Op::Mul(Mul::new(og, self.rhs, grad_lhs)));
        let grad_rhs: Id = g.fresh();
        g.push(Op::Mul(Mul::new(og, self.lhs, grad_rhs)));
        proof {
            let ids = old(g)@.pool.take(2);
            assert(ids =~= seq![grad_lhs, grad_rhs]);
            assert(g@.nodes =~= old(g)@.nodes + mul_vjp(self.lhs, self.rhs, og, ids));
        }
        Some(vec![grad_lhs, grad_rhs])
    }
}

} // verus!
