//! Rectified linear unit and the mask its gradient uses.

use vstd::prelude::*;

use crate::graph::Graph;
use crate::identity::{Id, IdPool};
use crate::ops::{opt_view, simple_plan, vjp_spec, Kernel, Kind, Mul, Node, Op, Plan};
use crate::shape::{copied};

verus! {

#[derive(Debug, Clone, Copy)]
pub struct ReLU {
    pub inp: Id,
    pub out: Id,
}

impl View for ReLU {
    type V = Node;

    open spec fn view(&self) -> Node {
        Node { kind: Kind::ReLU, inputs: seq![self.inp], out: self.out }
    }
}

/// Gradient rule of `relu(inp)`.
pub open spec fn relu_vjp(inp: Id, og: Id, ids: Seq<Id>) -> Seq<Node> {
    seq![
        Node { kind: Kind::ReLUGradMask, inputs: seq![inp], out: ids[0] },
        Node { kind: Kind::Mul, inputs: seq![og, ids[0]], out: ids[1] },
    ]
}

impl ReLU {
    pub fn new(inp: Id, out: Id) -> (op: ReLU)
        ensures
            op.inp == inp,
            op.out == out,
    {
        ReLU { inp, out }
    }

    pub fn name(&self) -> (name: &'static str)
        ensures
            name@ == "relu"@,
    {
        "relu"
    }

    pub fn inputs(&self) -> (ids: Vec<Id>)
        ensures
            ids@ == self@.inputs,
    {
        vec![self.inp]
    }

    pub fn outputs(&self) -> (ids: Vec<Id>)
        ensures
            ids@ == seq![self@.out],
    {
        vec![self.out]
    }

    /// Shape rule: the result has the shape of the input.
    pub fn plan(&self, x: &[usize]) -> (plan: Plan)
        ensures
            plan@ == simple_plan(Kernel::Relu, x@),
    {
        Plan::simple(Kernel::Relu, copied(x))
    }

    /// The input receives the output's gradient where the input is
    /// positive and zero elsewhere.
    pub fn vjp(&self, g: &mut Graph, out_grads: &[Id]) -> (grads: Option<Vec<Id>>)
        requires
            old(g)@.pool.headroom() >= 2,
        ensures
            (final(g)@, opt_view(grads)) == vjp_spec(self@, old(g)@, out_grads@),
    {
        if out_grads.len() == 0 {
            return None;
        }
        let og: Id = out_grads[0];
        proof {
            reveal_with_fuel(IdPool::take, 3);
            reveal_with_fuel(IdPool::skip, 3);
        }
        let mask_out: Id = g.fresh();
        g.push(Op::ReLUGradMask(ReLUGradMask::new(self.inp, mask_out)));
        let prod: Id = g.fresh();
        g.push(Op::Mul(Mul::new(og, mask_out, prod)));
        proof {
            let ids = old(g)@.pool.take(2);
            assert(ids =~= seq![mask_out, prod]);
            assert(g@.nodes =~= old(g)@.nodes + relu_vjp(self.inp, og, ids));
        }
        Some(vec![prod])
    }
}

/// Indicator of the positive entries of its input: one where the input is
/// positive, zero elsewhere.
#[derive(Debug, Clone, Copy)]
pub struct ReLUGradMask {
    pub inp: Id,
    pub out: Id,
}

impl View for ReLUGradMask {
    type V = Node;

    open spec fn view(&self) -> Node {
        Node { kind: Kind::ReLUGradMask, inputs: seq![self.inp], out: self.out }
    }
}

impl ReLUGradMask {
    pub fn new(inp: Id, out: Id) -> (op: ReLUGradMask)
        ensures
            op.inp == inp,
            op.out == out,
    {
        ReLUGradMask { inp, out }
    }

    pub fn name(&self) -> (name: &'static str)
        ensures
            name@ == "relu_mask"@,
    {
        "relu_mask"
    }

    pub fn inputs(&self) -> (ids: Vec<Id>)
        ensures
            ids@ == self@.inputs,
    {
        vec![self.inp]
    }

    pub fn outputs(&self) -> (ids: Vec<Id>)
        ensures
            ids@ == seq![self@.out],
    {
        vec![self.out]
    }

    /// Shape rule: the result has the shape of the input.
    pub fn plan(&self, x: &[usize]) -> (plan: Plan)
        ensures
            plan@ == simple_plan(Kernel::ReluMask, x@),
    {
        Plan::simple(Kernel::ReluMask, copied(x))
    }

    /// The mask is constant almost everywhere: no gradient flows.
    pub fn vjp(&self, g: &mut Graph, out_grads: &[Id]) -> (grads: Option<Vec<Id>>)
        ensures
            (final(g)@, opt_view(grads)) == vjp_spec(self@, old(g)@, out_grads@),
    {
        proof {
            assert(old(g)@.nodes + Seq::<Node>::empty() =~= old(g)@.nodes);
        }
        None
    }
}

} // verus!
