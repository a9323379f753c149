//! Elementwise division.

use vstd::prelude::*;

use crate::graph::Graph;
use crate::identity::{Id, IdPool};
use crate::ops::constant::ONE;
use crate::ops::{
    broadcast_shapes, elementwise_plan, opt_view, plan_view, vjp_spec, Const, Kernel, Kind, Mul,
    Neg, Node, Op, Plan, ShapeError,
};

verus! {

#[derive(Debug, Clone, Copy)]
pub struct Div {
    pub lhs: Id,
    pub rhs: Id,
    pub out: Id,
}

impl View for Div {
    type V = Node;

    open spec fn view(&self) -> Node {
        Node { kind: Kind::Div, inputs: seq![self.lhs, self.rhs], out: self.out }
    }
}

/// Gradient rule of `lhs / rhs`.
pub open spec fn div_vjp(lhs: Id, rhs: Id, og: Id, ids: Seq<Id>) -> Seq<Node> {
    seq![
        Node { kind: Kind::Const(ONE), inputs: Seq::empty(), out: ids[0] },
        Node { kind: Kind::Div, inputs: seq![ids[0], rhs], out: ids[1] },
        Node { kind: Kind::Mul, inputs: seq![og, ids[1]], out: ids[2] },
        Node { kind: Kind::Mul, inputs: seq![rhs, rhs], out: ids[3] },
        Node { kind: Kind::Neg, inputs: seq![lhs], out: ids[4] },
        Node { kind: Kind::Div, inputs: seq![ids[4], ids[3]], out: ids[5] },
    ]
}

impl Div {
    pub fn new(lhs: Id, rhs: Id, out: Id) -> (op: Div)
        ensures
            op.lhs == lhs,
            op.rhs == rhs,
            op.out == out,
    {
        Div { lhs, rhs, out }
    }

    pub fn name(&self) -> (name: &'static str)
        ensures
            name@ == "div"@,
    {
        "div"
    }

    pub fn inputs(&self) -> (ids: Vec<Id>)
        ensures
            ids@ == self@.inputs,
    {
        vec![self.lhs, self.rhs]
    }

    pub fn outputs(&self) -> (ids: Vec<Id>)
        ensures
            ids@ == seq![self@.out],
    {
        vec![self.out]
    }

    /// Shape rule: the operands are broadcast against each other.
    pub fn plan(&self, x: &[usize], y: &[usize]) -> (plan: Result<Plan, ShapeError>)
        ensures
            plan_view(plan) == elementwise_plan(Kernel::Div, x@, y@),
    {
        match broadcast_shapes(x, y) {
            Some(shape) => Ok(Plan::simple(Kernel::Div, shape)),
            None => Err(ShapeError::Broadcast),
        }
    }

    /// The left operand receives the output's gradient times `1 / rhs`,
    /// the right one receives `-lhs / rhs^2`.
    pub fn vjp(&self, g: &mut Graph, out_grads: &[Id]) -> (grads: Option<Vec<Id>>)
        requires
            old(g)@.pool.headroom() >= 6,
        ensures
            (final(g)@, opt_view(grads)) == vjp_spec(self@, old(g)@, out_grads@),
    {
        if out_grads.len() == 0 {
            return None;
        }
        let og: Id = out_grads[0];
        proof {
            reveal_with_fuel(IdPool::take, 7);
            reveal_with_fuel(IdPool::skip, 7);
        }
        let one: Id = g.fresh();
        g.push(Op::Const(Const::new(ONE, one)));
        let inv_rhs: Id = g.fresh();
        g.push(Op::Div(Div::new(one, self.rhs, inv_rhs)));
        let grad_lhs: Id = g.fresh();
        g.push(Op::Mul(Mul::new(og, inv_rhs, grad_lhs)));
        let y2: Id = g.fresh();
        g.push(Op::Mul(Mul::new(self.rhs, self.rhs, y2)));
        let neg_x: Id = g.fresh();
        g.push(Op::Neg(Neg::new(self.lhs, neg_x)));
        let grad_rhs: Id = g.fresh();
        g.push(Op::Div(Div::new(neg_x, y2, grad_rhs)));
        proof {
            let ids = old(g)@.pool.take(6);
            assert(ids =~= seq![one, inv_rhs, grad_lhs, y2, neg_x, grad_rhs]);
            assert(g@.nodes =~= old(g)@.nodes + div_vjp(self.lhs, self.rhs, og, ids));
        }
        Some(vec![grad_lhs, grad_rhs])
    }
}

} // verus!
