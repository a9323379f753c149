//! Axis transposition.

use vstd::prelude::*;

use crate::graph::Graph;
use crate::identity::{Id, IdPool};
use crate::ops::{
    opt_view, plan_view, simple_plan, vjp_spec, Kernel, Kind, Node, Op, Plan, PlanModel, ShapeError,
};
use crate::shape::{copied, swapped};

verus! {

/// Exchanges the last two axes; tensors with fewer than two axes pass
/// through unchanged.
#[derive(Debug, Clone, Copy)]
pub struct TransposeDefault {
    pub inp: Id,
    pub out: Id,
}

impl View for TransposeDefault {
    type V = Node;

    open spec fn view(&self) -> Node {
        Node { kind: Kind::TransposeDefault, inputs: seq![self.inp], out: self.out }
    }
}

/// Gradient rule of the default transpose: the same transpose, applied to
/// the gradient.
pub open spec fn transpose_default_vjp(og: Id, ids: Seq<Id>) -> Seq<Node> {
    seq![Node { kind: Kind::TransposeDefault, inputs: seq![og], out: ids[0] }]
}

/// Shape rule of the default transpose.
pub open spec fn transpose_default_plan(x: Seq<usize>) -> PlanModel {
    if x.len() > 1 {
        simple_plan(
            Kernel::SwapAxes((x.len() - 1) as usize, (x.len() - 2) as usize),
            swapped(x, x.len() - 1, x.len() - 2),
        )
    } else {
        simple_plan(Kernel::Copy, x)
    }
}

/// Shape rule of a transpose of axes `a1` and `a2`.
pub open spec fn transpose_plan(x: Seq<usize>, a1: usize, a2: usize) -> Result<
    PlanModel,
    ShapeError,
> {
    if a1 < x.len() && a2 < x.len() {
        Ok(simple_plan(Kernel::SwapAxes(a1, a2), swapped(x, a1 as int, a2 as int)))
    } else {
        Err(ShapeError::Axis)
    }
}

/// Transposing twice gives the shape back.
pub proof fn lemma_swapped_twice(x: Seq<usize>, a1: int, a2: int)
    requires
        0 <= a1 < x.len(),
        0 <= a2 < x.len(),
    ensures
        swapped(swapped(x, a1, a2), a1, a2) == x,
{
    assert(swapped(swapped(x, a1, a2), a1, a2) =~= x);
}

/// A copy of `x` with the extents at `a1` and `a2` exchanged.
fn swap_extents(x: &[usize], a1: usize, a2: usize) -> (shape: Vec<usize>)
    requires
        a1 < x@.len(),
        a2 < x@.len(),
    ensures
        shape@ == swapped(x@, a1 as int, a2 as int),
{
    let mut shape: Vec<usize> = copied(x);
    let first: usize = x[a1];
    let second: usize = x[a2];
    shape.set(a1, second);
    shape.set(a2, first);
    shape
}

impl TransposeDefault {
    pub fn new(inp: Id, out: Id) -> (op: TransposeDefault)
        ensures
            op.inp == inp,
            op.out == out,
    {
        TransposeDefault { inp, out }
    }

    pub fn name(&self) -> (name: &'static str)
        ensures
            name@ == "transpose_default"@,
    {
        "transpose_default"
    }

    pub fn inputs(&self) -> (ids: Vec<Id>)
        ensures
            ids@ == self@.inputs,
    {
        vec![self.inp]
    }

    pub fn outputs(&self) -> (ids: Vec<Id>)
        ensures
            ids@ == seq![self@.out],
    {
        vec![self.out]
    }

    pub fn plan(&self, x: &[usize]) -> (plan: Plan)
        ensures
            plan@ == transpose_default_plan(x@),
    {
        let rank: usize = x.len();
        if rank > 1 {
            Plan::simple(Kernel::SwapAxes(rank - 1, rank - 2), swap_extents(x, rank - 1, rank - 2))
        } else {
            Plan::simple(Kernel::Copy, copied(x))
        }
    }

    /// The input receives the transposed gradient of the output.
    pub fn vjp(&self, g: &mut Graph, out_grads: &[Id]) -> (grads: Option<Vec<Id>>)
        requires
            old(g)@.pool.headroom() >= 1,
        ensures
            (final(g)@, opt_view(grads)) == vjp_spec(self@, old(g)@, out_grads@),
    {
        if out_grads.len() == 0 {
            return None;
        }
        let og: Id = out_grads[0];
        proof {
            reveal_with_fuel(IdPool::take, 2);
            reveal_with_fuel(IdPool::skip, 2);
        }
        let out: Id = g.fresh();
        g.push(Op::TransposeDefault(TransposeDefault::new(og, out)));
        proof {
            let ids = old(g)@.pool.take(1);
            assert(ids =~= seq![out]);
            assert(g@.nodes =~= old(g)@.nodes + transpose_default_vjp(og, ids));
        }
        Some(vec![out])
    }
}

/// Exchanges two named axes.
#[derive(Debug, Clone, Copy)]
pub struct Transpose {
    pub inp: Id,
    pub out: Id,
    pub a1: usize,
    pub a2: usize,
}

impl View for Transpose {
    type V = Node;

    open spec fn view(&self) -> Node {
        Node { kind: Kind::Transpose(self.a1, self.a2), inputs: seq![self.inp], out: self.out }
    }
}

/// Gradient rule of a transpose: the same transpose, applied to the
/// gradient.
pub open spec fn transpose_vjp(a1: usize, a2: usize, og: Id, ids: Seq<Id>) -> Seq<Node> {
    seq![Node { kind: Kind::Transpose(a1, a2), inputs: seq![og], out: ids[0] }]
}

impl Transpose {
    pub fn new(inp: Id, out: Id, a1: usize, a2: usize) -> (op: Transpose)
        ensures
            op.inp == inp,
            op.out == out,
            op.a1 == a1,
            op.a2 == a2,
    {
        Transpose { inp, out, a1, a2 }
    }

    pub fn name(&self) -> (name: &'static str)
        ensures
            name@ == "transpose"@,
    {
        "transpose"
    }

    pub fn inputs(&self) -> (ids: Vec<Id>)
        ensures
            ids@ == self@.inputs,
    {
        vec![self.inp]
    }

    pub fn outputs(&self) -> (ids: Vec<Id>)
        ensures
            ids@ == seq![self@.out],
    {
        vec![self.out]
    }

    pub fn plan(&self, x: &[usize]) -> (plan: Result<Plan, ShapeError>)
        ensures
            plan_view(plan) == transpose_plan(x@, self.a1, self.a2),
    {
        if self.a1 < x.len() && self.a2 < x.len() {
            Ok(
                Plan::simple(Kernel::SwapAxes(self.a1, self.a2), swap_extents(x, self.a1, self.a2)),
            )
        } else {
            Err(ShapeError::Axis)
        }
    }

    /// The input receives the gradient of the output with the same two
    /// axes exchanged.
    pub fn vjp(&self, g: &mut Graph, out_grads: &[Id]) -> (grads: Option<Vec<Id>>)
        requires
            old(g)@.pool.headroom() >= 1,
        ensures
            (final(g)@, opt_view(grads)) == vjp_spec(self@, old(g)@, out_grads@),
    {
        if out_grads.len() == 0 {
            return None;
        }
        let og: Id = out_grads[0];
        proof {
            reveal_with_fuel(IdPool::take, 2);
            reveal_with_fuel(IdPool::skip, 2);
        }
        let out: Id = g.fresh();
        g.push(Op::Transpose(Transpose::new(og, out, self.a1, self.a2)));
        proof {
            let ids = old(g)@.pool.take(1);
            assert(ids =~= seq![out]);
            assert(g@.nodes =~= old(g)@.nodes + transpose_vjp(self.a1, self.a2, og, ids));
        }
        Some(vec![out])
    }
}

} // verus!
