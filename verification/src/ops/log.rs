//! Elementwise natural logarithm.

use vstd::prelude::*;

use crate::graph::Graph;
use crate::identity::{Id, IdPool};
use crate::ops::constant::ONE;
use crate::shape::{copied};
use crate::ops::{opt_view, simple_plan, vjp_spec, Const, Div, Kernel, Kind, Mul, Node, Op, Plan};

verus! {

#[derive(Debug, Clone, Copy)]
pub struct Log {
    pub inp: Id,
    pub out: Id,
}

impl View for Log {
    type V = Node;

    open spec fn view(&self) -> Node {
        Node { kind: Kind::Log, inputs: seq![self.inp], out: self.out }
    }
}

/// Gradient rule of `ln(inp)`. The identifier of the result is allocated
/// first and its node appended last.
pub open spec fn log_vjp(inp: Id, og: Id, ids: Seq<Id>) -> Seq<Node> {
    seq![
        Node { kind: Kind::Const(ONE), inputs: Seq::empty(), out: ids[1] },
        Node { kind: Kind::Div, inputs: seq![ids[1], inp], out: ids[2] },
        Node { kind: Kind::Mul, inputs: seq![og, ids[2]], out: ids[0] },
    ]
}

impl Log {
    pub fn new(inp: Id, out: Id) -> (op: Log)
        ensures
            op.inp == inp,
            op.out == out,
    {
        Log { inp, out }
    }

    pub fn name(&self) -> (name: &'static str)
        ensures
            name@ == "log"@,
    {
        "log"
    }

    pub fn inputs(&self) -> (ids: Vec<Id>)
        ensures
            ids@ == self@.inputs,
    {
        vec![self.inp]
    }

    pub fn outputs(&self) -> (ids: Vec<Id>)
        ensures
            ids@ == seq![self@.out],
    {
        vec![self.out]
    }

    /// Shape rule: the result has the shape of the input.
    pub fn plan(&self, x: &[usize]) -> (plan: Plan)
        ensures
            plan@ == simple_plan(Kernel::Log, x@),
    {
        Plan::simple(Kernel::Log, copied(x))
    }

    /// The input receives the output's gradient times `1 / inp`.
    pub fn vjp(&self, g: &mut Graph, out_grads: &[Id]) -> (grads: Option<Vec<Id>>)
        requires
            old(g)@.pool.headroom() >= 3,
        ensures
            (final(g)@, opt_view(grads)) == vjp_spec(self@, old(g)@, out_grads@),
    {
        if out_grads.len() == 0 {
            return None;
        }
        let og: Id = out_grads[0];
        proof {
            reveal_with_fuel(IdPool::take, 4);
            reveal_with_fuel(IdPool::skip, 4);
        }
        let ret: Id = g.fresh();
        let one: Id = g.fresh();
        g.push(Op::Const(Const::new(ONE, one)));
        let inv: Id = g.fresh();
        g.push(Op::Div(Div::new(one, self.inp, inv)));
        g.push(Op::Mul(Mul::new(og, inv, ret)));
        proof {
            let ids = old(g)@.pool.take(3);
            assert(ids =~= seq![ret, one, inv]);
            assert(g@.nodes =~= old(g)@.nodes + log_vjp(self.inp, og, ids));
        }
        Some(vec![ret])
    }
}

} // verus!
