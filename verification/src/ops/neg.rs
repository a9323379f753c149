//! Elementwise negation.

use vstd::prelude::*;

use crate::graph::Graph;
use crate::identity::{Id, IdPool};
use crate::ops::{opt_view, simple_plan, vjp_spec, Kernel, Kind, Node, Op, Plan};
use crate::shape::{copied};

verus! {

#[derive(Debug, Clone, Copy)]
pub struct Neg {
    pub inp: Id,
    pub out: Id,
}

impl View for Neg {
    type V = Node;

    open spec fn view(&self) -> Node {
        Node { kind: Kind::Neg, inputs: seq![self.inp], out: self.out }
    }
}

/// Gradient rule of `-inp`.
pub open spec fn neg_vjp(og: Id, ids: Seq<Id>) -> Seq<Node> {
    seq![Node { kind: Kind::Neg, inputs: seq![og], out: ids[0] }]
}

impl Neg {
    pub fn new(inp: Id, out: Id) -> (op: Neg)
        ensures
            op.inp == inp,
            op.out == out,
    {
        Neg { inp, out }
    }

    pub fn boxed(inp: Id, out: Id) -> (op: Box<Neg>)
        ensures
            op.inp == inp,
            op.out == out,
    {
        Box::new(Neg::new(inp, out))
    }

    pub fn name(&self) -> (name: &'static str)
        ensures
            name@ == "neg"@,
    {
        "neg"
    }

    pub fn inputs(&self) -> (ids: Vec<Id>)
        ensures
            ids@ == self@.inputs,
    {
        vec![self.inp]
    }

    pub fn outputs(&self) -> (ids: Vec<Id>)
        ensures
            ids@ == seq![self@.out],
    {
        vec![self.out]
    }

    /// Shape rule: the result has the shape of the input.
    pub fn plan(&self, x: &[usize]) -> (plan: Plan)
        ensures
            plan@ == simple_plan(Kernel::Neg, x@),
    {
        Plan::simple(Kernel::Neg, copied(x))
    }

    /// The input receives the negated gradient of the output.
    pub fn vjp(&self, g: &mut Graph, out_grads: &[Id]) -> (grads: Option<Vec<Id>>)
        requires
            old(g)@.pool.headroom() >= 1,
        ensures
            (final(g)@, opt_view(grads)) == vjp_spec(self@, old(g)@, out_grads@),
    {
        if out_grads.len() == 0 {
            return None;
        }
        let og: Id = out_grads[0];
        proof {
            reveal_with_fuel(IdPool::take, 2);
            reveal_with_fuel(IdPool::skip, 2);
        }
        let out: Id = g.fresh();
        g.push(Op::Neg(Neg::new(og, out)));
        proof {
            let ids = old(g)@.pool.take(1);
            assert(ids =~= seq![out]);
            assert(g@.nodes =~= old(g)@.nodes + neg_vjp(og, ids));
        }
        Some(vec![out])
    }
}

} // verus!
