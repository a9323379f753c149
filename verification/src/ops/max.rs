//! Maximum along axes and the mask its gradient uses.

use vstd::prelude::*;

use crate::graph::Graph;
use crate::identity::Id;
use crate::ops::sum::{plan_reduce, reduce_plan, ReshapeForBroadcast, Sum};
use crate::ops::{
    opt_view, plan_view, simple_plan, vjp_spec, BroadcastLike, Div, Kernel, Kind, Mul, Node, Op,
    Plan, PlanModel, ShapeError,
};
use crate::shape::{copied, descending, same_shape, sorted_descending};

verus! {

/// Takes the maximum of its input along the given axes, highest axis
/// first.
#[derive(Debug)]
pub struct Max {
    pub inp: Id,
    pub out: Id,
    pub axis: Vec<usize>,
    pub keep_dims: bool,
}

impl View for Max {
    type V = Node;

    open spec fn view(&self) -> Node {
        Node { kind: Kind::Max(self.axis@, self.keep_dims), inputs: seq![self.inp], out: self.out }
    }
}

/// Gradient rule of a maximum `out` of `inp` along `axes`: the gradient
/// goes to the entries of the input that equal the maximum of their group,
/// split evenly among ties. The gradient, the maximum and the count of
/// ties all have the reduced shape; each gets its reduced axes back and is
/// stretched to the shape of the input. The mask marks the entries that
/// equal the maximum, its sum along the reduced axes counts them. A
/// maximum along no axes is its input: the gradient passes unchanged and
/// nothing is appended.
pub open spec fn max_vjp(
    inp: Id,
    out: Id,
    axes: Seq<usize>,
    keep: bool,
    og: Id,
    ids: Seq<Id>,
) -> Seq<Node> {
    if axes.len() == 0 {
        Seq::empty()
    } else {
        seq![
            Node { kind: Kind::ReshapeForBroadcast(axes, keep), inputs: seq![og], out: ids[0] },
            Node { kind: Kind::BroadcastLike, inputs: seq![ids[0], inp], out: ids[1] },
            Node { kind: Kind::ReshapeForBroadcast(axes, keep), inputs: seq![out], out: ids[2] },
            Node { kind: Kind::BroadcastLike, inputs: seq![ids[2], inp], out: ids[3] },
            Node { kind: Kind::MaxGradMask, inputs: seq![inp, ids[3]], out: ids[4] },
            Node { kind: Kind::Sum(descending(axes), keep), inputs: seq![ids[4]], out: ids[5] },
            Node { kind: Kind::ReshapeForBroadcast(axes, keep), inputs: seq![ids[5]], out: ids[6] },
            Node { kind: Kind::BroadcastLike, inputs: seq![ids[6], inp], out: ids[7] },
            Node { kind: Kind::Mul, inputs: seq![ids[1], ids[4]], out: ids[8] },
            Node { kind: Kind::Div, inputs: seq![ids[8], ids[7]], out: ids[9] },
        ]
    }
}

/// Number of identifiers that the gradient rule of a maximum along `axes`
/// allocates.
pub open spec fn max_vjp_cost(axes: Seq<usize>) -> nat {
    if axes.len() == 0 {
        0
    } else {
        10
    }
}

/// The gradient that the rule of a maximum hands to its input.
pub open spec fn max_vjp_grad(axes: Seq<usize>, og: Id, ids: Seq<Id>) -> Id {
    if axes.len() == 0 {
        og
    } else {
        ids[9]
    }
}

impl Max {
    /// The axes are kept from highest to lowest, so that removing one
    /// never moves one still to be reduced.
    pub fn new(inp: Id, out: Id, axis: Vec<usize>, keep_dims: bool) -> (op: Max)
        ensures
            op@ == (Node {
                kind: Kind::Max(descending(axis@), keep_dims),
                inputs: seq![inp],
                out,
            }),
    {
        Max { inp, out, axis: sorted_descending(axis.as_slice()), keep_dims }
    }

    pub fn name(&self) -> (name: &'static str)
        ensures
            name@ == "max"@,
    {
        "max"
    }

    pub fn inputs(&self) -> (ids: Vec<Id>)
        ensures
            ids@ == self@.inputs,
    {
        vec![self.inp]
    }

    pub fn outputs(&self) -> (ids: Vec<Id>)
        ensures
            ids@ == seq![self@.out],
    {
        vec![self.out]
    }

    pub fn plan(&self, x: &[usize]) -> (plan: Result<Plan, ShapeError>)
        ensures
            self@.kind matches Kind::Max(axes, keep) && plan_view(plan) == reduce_plan(
                Kernel::MaxAxes,
                x@,
                axes,
                keep,
            ),
    {
        plan_reduce(Kernel::MaxAxes, x, self.axis.as_slice(), self.keep_dims)
    }

    #[verifier::rlimit(60)]
    pub fn vjp(&self, g: &mut Graph, out_grads: &[Id]) -> (grads: Option<Vec<Id>>)
        requires
            old(g)@.pool.headroom() >= max_vjp_cost(self.axis@),
        ensures
            (final(g)@, opt_view(grads)) == vjp_spec(self@, old(g)@, out_grads@),
    {
        if out_grads.len() == 0 {
            return None;
        }
        let og: Id = out_grads[0];
        if self.axis.len() == 0 {
            proof {
                assert(old(g)@.nodes + Seq::<Node>::empty() =~= old(g)@.nodes);
            }
            return Some(vec![og]);
        }
        let ghost pool = old(g)@.pool;
        let ghost nodes = old(g)@.nodes;
        let og_wide: Id = g.fresh();
        g.push(Op::ReshapeForBroadcast(self.widen(og, og_wide)));
        proof {
            pool.lemma_take_one_more(0);
        }
        let og_bc: Id = g.fresh();
        g.push(Op::BroadcastLike(BroadcastLike::new(og_wide, self.inp, og_bc)));
        proof {
            pool.lemma_take_one_more(1);
        }
        let y_wide: Id = g.fresh();
        g.push(Op::ReshapeForBroadcast(self.widen(self.out, y_wide)));
        proof {
            pool.lemma_take_one_more(2);
        }
        let y_bc: Id = g.fresh();
        g.push(Op::BroadcastLike(BroadcastLike::new(y_wide, self.inp, y_bc)));
        proof {
            pool.lemma_take_one_more(3);
        }
        let mask: Id = g.fresh();
        g.push(Op::MaxGradMask(MaxGradMask::new(self.inp, y_bc, mask)));
        proof {
            pool.lemma_take_one_more(4);
        }
        let ghost half = g@;
        assert(half.pool == pool.skip(5));
        assert(pool.take(5) =~= seq![og_wide, og_bc, y_wide, y_bc, mask]);
        assert(half.nodes =~= nodes + max_vjp(
            self.inp,
            self.out,
            self.axis@,
            self.keep_dims,
            og,
            pool.take(5),
        ).take(5));
        let count: Id = g.fresh();
        g.push(Op::Sum(Sum::new(mask, count, copied(self.axis.as_slice()), self.keep_dims)));
        proof {
            pool.lemma_take_one_more(5);
        }
        let count_wide: Id = g.fresh();
        g.push(Op::ReshapeForBroadcast(self.widen(count, count_wide)));
        proof {
            pool.lemma_take_one_more(6);
        }
        let count_bc: Id = g.fresh();
        g.push(Op::BroadcastLike(BroadcastLike::new(count_wide, self.inp, count_bc)));
        proof {
            pool.lemma_take_one_more(7);
        }
        let numer: Id = g.fresh();
        g.push(Op::Mul(Mul::new(og_bc, mask, numer)));
        proof {
            pool.lemma_take_one_more(8);
        }
        let grad_x: Id = g.fresh();
        g.push(Op::Div(Div::new(numer, count_bc, grad_x)));
        proof {
            pool.lemma_take_one_more(9);
            let ids = pool.take(10);
            assert(g@.pool == pool.skip(10));
            assert(ids =~= seq![
                og_wide,
                og_bc,
                y_wide,
                y_bc,
                mask,
                count,
                count_wide,
                count_bc,
                numer,
                grad_x,
            ]);
            assert(g@.nodes =~= nodes + max_vjp(
                self.inp,
                self.out,
                self.axis@,
                self.keep_dims,
                og,
                ids,
            ));
        }
        Some(vec![grad_x])
    }

    /// The node that gives a tensor of the reduced shape its reduced axes
    /// back.
    fn widen(&self, reduced: Id, out: Id) -> (op: ReshapeForBroadcast)
        ensures
            op@ == (Node {
                kind: Kind::ReshapeForBroadcast(self.axis@, self.keep_dims),
                inputs: seq![reduced],
                out,
            }),
    {
        ReshapeForBroadcast::new(reduced, out, copied(self.axis.as_slice()), self.keep_dims)
    }
}

impl Clone for Max {
    fn clone(&self) -> (copy: Max)
        ensures
            copy@ == self@,
    {
        Max {
            inp: self.inp,
            out: self.out,
            axis: copied(self.axis.as_slice()),
            keep_dims: self.keep_dims,
        }
    }
}

/// Shape rule of an equality mask: both operands must have the same
/// shape, which is then the shape of the mask.
pub open spec fn mask_plan(x: Seq<usize>, y: Seq<usize>) -> Result<PlanModel, ShapeError> {
    if x == y {
        Ok(simple_plan(Kernel::EqualMask, x))
    } else {
        Err(ShapeError::Mask)
    }
}

/// Indicator of where two equally shaped tensors agree: one where the
/// entries are equal, zero elsewhere.
#[derive(Debug, Clone, Copy)]
pub struct MaxGradMask {
    pub x: Id,
    pub y: Id,
    pub out: Id,
}

impl View for MaxGradMask {
    type V = Node;

    open spec fn view(&self) -> Node {
        Node { kind: Kind::MaxGradMask, inputs: seq![self.x, self.y], out: self.out }
    }
}

impl MaxGradMask {
    pub fn new(x: Id, y: Id, out: Id) -> (op: MaxGradMask)
        ensures
            op@ == (Node { kind: Kind::MaxGradMask, inputs: seq![x, y], out }),
    {
        MaxGradMask { x, y, out }
    }

    pub fn name(&self) -> (name: &'static str)
        ensures
            name@ == "max_mask"@,
    {
        "max_mask"
    }

    pub fn inputs(&self) -> (ids: Vec<Id>)
        ensures
            ids@ == self@.inputs,
    {
        vec![self.x, self.y]
    }

    pub fn outputs(&self) -> (ids: Vec<Id>)
        ensures
            ids@ == seq![self@.out],
    {
        vec![self.out]
    }

    pub fn plan(&self, x: &[usize], y: &[usize]) -> (plan: Result<Plan, ShapeError>)
        ensures
            plan_view(plan) == mask_plan(x@, y@),
    {
        if same_shape(x, y) {
            Ok(Plan::simple(Kernel::EqualMask, copied(x)))
        } else {
            Err(ShapeError::Mask)
        }
    }

    /// The mask is constant almost everywhere: no gradient flows.
    pub fn vjp(&self, g: &mut Graph, out_grads: &[Id]) -> (grads: Option<Vec<Id>>)
        ensures
            (final(g)@, opt_view(grads)) == vjp_spec(self@, old(g)@, out_grads@),
    {
        proof {
            assert(old(g)@.nodes + Seq::<Node>::empty() =~= old(g)@.nodes);
        }
        None
    }
}

} // verus!
