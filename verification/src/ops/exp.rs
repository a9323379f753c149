//! Elementwise exponential.

use vstd::prelude::*;

use crate::graph::Graph;
use crate::identity::{Id, IdPool};
use crate::ops::{opt_view, simple_plan, vjp_spec, Kernel, Kind, Mul, Node, Op, Plan};
use crate::shape::{copied};

verus! {

#[derive(Debug, Clone, Copy)]
pub struct Exp {
    pub inp: Id,
    pub out: Id,
}

impl View for Exp {
    type V = Node;

    open spec fn view(&self) -> Node {
        Node { kind: Kind::Exp, inputs: seq![self.inp], out: self.out }
    }
}

/// Gradient rule of `exp(inp)`.
pub open spec fn exp_vjp(inp: Id, og: Id, ids: Seq<Id>) -> Seq<Node> {
    seq![
        Node { kind: Kind::Exp, inputs: seq![inp], out: ids[0] },
        Node { kind: Kind::Mul, inputs: seq![og, ids[0]], out: ids[1] },
    ]
}

impl Exp {
    pub fn new(inp: Id, out: Id) -> (op: Exp)
        ensures
            op.inp == inp,
            op.out == out,
    {
        Exp { inp, out }
    }

    pub fn name(&self) -> (name: &'static str)
        ensures
            name@ == "exp"@,
    {
        "exp"
    }

    pub fn inputs(&self) -> (ids: Vec<Id>)
        ensures
            ids@ == self@.inputs,
    {
        vec![self.inp]
    }

    pub fn outputs(&self) -> (ids: Vec<Id>)
        ensures
            ids@ == seq![self@.out],
    {
        vec![self.out]
    }

    /// Shape rule: the result has the shape of the input.
    pub fn plan(&self, x: &[usize]) -> (plan: Plan)
        ensures
            plan@ == simple_plan(Kernel::Exp, x@),
    {
        Plan::simple(Kernel::Exp, copied(x))
    }

    /// The input receives the output's gradient times a recomputed
    /// exponential of the input.
    pub fn vjp(&self, g: &mut Graph, out_grads: &[Id]) -> (grads: Option<Vec<Id>>)
        requires
            old(g)@.pool.headroom() >= 2,
        ensures
            (final(g)@, opt_view(grads)) == vjp_spec(self@, old(g)@, out_grads@),
    {
        if out_grads.len() == 0 {
            return None;
        }
        let og: Id = out_grads[0];
        proof {
            reveal_with_fuel(IdPool::take, 3);
            reveal_with_fuel(IdPool::skip, 3);
        }
        let out: Id = g.fresh();
        g.push(Op::Exp(Exp::new(self.inp, out)));
        let prod: Id = g.fresh();
        g.push(Op::Mul(Mul::new(og, out, prod)));
        proof {
            let ids = old(g)@.pool.take(2);
            assert(ids =~= seq![out, prod]);
            assert(g@.nodes =~= old(g)@.nodes + exp_vjp(self.inp, og, ids));
        }
        Some(vec![prod])
    }
}

} // verus!
