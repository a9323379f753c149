//! Elementwise subtraction.

use vstd::prelude::*;

use crate::graph::Graph;
use crate::identity::{Id, IdPool};
use crate::ops::{
    broadcast_shapes, elementwise_plan, opt_view, plan_view, vjp_spec, Kernel, Kind, Neg, Node, Op,
    Plan, ReduceToLike, ShapeError,
};

verus! {

#[derive(Debug, Clone, Copy)]
pub struct Sub {
    pub lhs: Id,
    pub rhs: Id,
    pub out: Id,
}

impl View for Sub {
    type V = Node;

    open spec fn view(&self) -> Node {
        Node { kind: Kind::Sub, inputs: seq![self.lhs, self.rhs], out: self.out }
    }
}

/// Gradient rule of `lhs - rhs`.
pub open spec fn sub_vjp(lhs: Id, rhs: Id, og: Id, ids: Seq<Id>) -> Seq<Node> {
    seq![
        Node { kind: Kind::ReduceToLike, inputs: seq![og, lhs], out: ids[0] },
        Node { kind: Kind::Neg, inputs: seq![og], out: ids[1] },
        Node { kind: Kind::ReduceToLike, inputs: seq![ids[1], rhs], out: ids[2] },
    ]
}

impl Sub {
    pub fn new(lhs: Id, rhs: Id, out: Id) -> (op: Sub)
        ensures
            op.lhs == lhs,
            op.rhs == rhs,
            op.out == out,
    {
        Sub { lhs, rhs, out }
    }

    pub fn name(&self) -> (name: &'static str)
        ensures
            name@ == "sub"@,
    {
        "sub"
    }

    pub fn inputs(&self) -> (ids: Vec<Id>)
        ensures
            ids@ == self@.inputs,
    {
        vec![self.lhs, self.rhs]
    }

    pub fn outputs(&self) -> (ids: Vec<Id>)
        ensures
            ids@ == seq![self@.out],
    {
        vec![self.out]
    }

    /// Shape rule: the operands are broadcast against each other.
    pub fn plan(&self, x: &[usize], y: &[usize]) -> (plan: Result<Plan, ShapeError>)
        ensures
            plan_view(plan) == elementwise_plan(Kernel::Sub, x@, y@),
    {
        match broadcast_shapes(x, y) {
            Some(shape) => Ok(Plan::simple(Kernel::Sub, shape)),
            None => Err(ShapeError::Broadcast),
        }
    }

    /// The left operand receives the output's gradient, the right one its
    /// negation, each reduced to the shape of its operand.
    pub fn vjp(&self, g: &mut Graph, out_grads: &[Id]) -> (grads: Option<Vec<Id>>)
        requires
            old(g)@.pool.headroom() >= 3,
        ensures
            (final(g)@, opt_view(grads)) == vjp_spec(self@, old(g)@, out_grads@),
    {
        if out_grads.len() == 0 {
            return None;
        }
        let og: Id = out_grads[0];
        proof {
            reveal_with_fuel(IdPool::take, 4);
            reveal_with_fuel(IdPool::skip, 4);
        }
        let grad_x: Id = g.fresh();
        g.push(Op::ReduceToLike(ReduceToLike::new(og, self.lhs, grad_x)));
        let neg_og: Id = g.fresh();
        g.push(Op::Neg(Neg::new(og, neg_og)));
        let grad_y: Id = g.fresh();
        g.push(Op::ReduceToLike(ReduceToLike::new(neg_og, self.rhs, grad_y)));
        proof {
            let ids = old(g)@.pool.take(3);
            assert(ids =~= seq![grad_x, neg_og, grad_y]);
            assert(g@.nodes =~= old(g)@.nodes + sub_vjp(self.lhs, self.rhs, og, ids));
        }
        Some(vec![grad_x, grad_y])
    }
}

} // verus!
