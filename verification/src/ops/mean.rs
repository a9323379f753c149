//! Arithmetic mean along axes.

use vstd::prelude::*;

use crate::graph::Graph;
use crate::identity::{Id, IdPool};
use crate::ops::constant::ONE;
use crate::ops::sum::{ReshapeForBroadcast, Sum};
use crate::ops::{
    opt_view, plan_view, reduction_plan, vjp_spec, BroadcastLike, Const, Div, Kernel, Kind, Node,
    Op, Plan, PlanModel, ShapeError,
};
use crate::shape::{
    apply_steps, copied, count_of, descending, lemma_steps_in_range, reduce_along,
    sorted_descending, steps_for, volume,
};

verus! {

/// The extents that a tensor of shape `x` has along `axes`.
pub open spec fn extents_along(x: Seq<usize>, axes: Seq<usize>) -> Seq<usize> {
    Seq::new(axes.len(), |i: int| x[axes[i] as int])
}

/// Shape rule of a mean: the tensor is summed along `axes` in the given
/// order and divided by the product of the extents it had along them.
pub open spec fn mean_plan(x: Seq<usize>, axes: Seq<usize>, keep: bool) -> Result<
    PlanModel,
    ShapeError,
> {
    match apply_steps(x, steps_for(axes, keep)) {
        Some(shape) => {
            let count = volume(extents_along(x, axes));
            if count <= usize::MAX {
                Ok(
                    reduction_plan(Kernel::MeanAxes(count as usize), steps_for(axes, keep), shape),
                )
            } else {
                Err(ShapeError::TooLarge)
            }
        },
        None => Err(ShapeError::Axis),
    }
}

/// Averages its input along the given axes, highest axis first.
#[derive(Debug)]
pub struct Mean {
    pub inp: Id,
    pub out: Id,
    pub axis: Vec<usize>,
    pub keep_dims: bool,
}

impl View for Mean {
    type V = Node;

    open spec fn view(&self) -> Node {
        Node { kind: Kind::Mean(self.axis@, self.keep_dims), inputs: seq![self.inp], out: self.out }
    }
}

/// Gradient rule of a mean of `inp` along `axes`: the output's gradient is
/// divided by the number of elements averaged into each entry, which is
/// found by summing a tensor of ones the way the input was summed, then
/// given back the axes that were summed away and stretched to the shape
/// of `inp`. A mean along no axes is its input: the gradient passes
/// unchanged and nothing is appended.
pub open spec fn mean_vjp(inp: Id, axes: Seq<usize>, keep: bool, og: Id, ids: Seq<Id>) -> Seq<
    Node,
> {
    if axes.len() == 0 {
        Seq::empty()
    } else {
        seq![
            Node { kind: Kind::Const(ONE), inputs: Seq::empty(), out: ids[0] },
            Node { kind: Kind::BroadcastLike, inputs: seq![ids[0], inp], out: ids[1] },
            Node { kind: Kind::Sum(descending(axes), keep), inputs: seq![ids[1]], out: ids[2] },
            Node { kind: Kind::Div, inputs: seq![og, ids[2]], out: ids[3] },
            Node { kind: Kind::ReshapeForBroadcast(axes, keep), inputs: seq![ids[3]], out: ids[4] },
            Node { kind: Kind::BroadcastLike, inputs: seq![ids[4], inp], out: ids[5] },
        ]
    }
}

/// Number of identifiers that the gradient rule of a mean along `axes`
/// allocates.
pub open spec fn mean_vjp_cost(axes: Seq<usize>) -> nat {
    if axes.len() == 0 {
        0
    } else {
        6
    }
}

/// The gradient that the rule of a mean hands to its input.
pub open spec fn mean_vjp_grad(axes: Seq<usize>, og: Id, ids: Seq<Id>) -> Id {
    if axes.len() == 0 {
        og
    } else {
        ids[5]
    }
}

impl Mean {
    /// The axes are kept from highest to lowest, so that removing one
    /// never moves one still to be reduced.
    pub fn new(inp: Id, out: Id, axis: Vec<usize>, keep_dims: bool) -> (op: Mean)
        ensures
            op@ == (Node {
                kind: Kind::Mean(descending(axis@), keep_dims),
                inputs: seq![inp],
                out,
            }),
    {
        Mean { inp, out, axis: sorted_descending(axis.as_slice()), keep_dims }
    }

    pub fn name(&self) -> (name: &'static str)
        ensures
            name@ == "mean"@,
    {
        "mean"
    }

    pub fn inputs(&self) -> (ids: Vec<Id>)
        ensures
            ids@ == self@.inputs,
    {
        vec![self.inp]
    }

    pub fn outputs(&self) -> (ids: Vec<Id>)
        ensures
            ids@ == seq![self@.out],
    {
        vec![self.out]
    }

    pub fn plan(&self, x: &[usize]) -> (plan: Result<Plan, ShapeError>)
        ensures
            self@.kind matches Kind::Mean(axes, keep) && plan_view(plan) == mean_plan(x@, axes, keep),
    {
        let (steps, shape) = match reduce_along(x, self.axis.as_slice(), self.keep_dims) {
            Some(reduced) => reduced,
            None => {
                return Err(ShapeError::Axis);
            },
        };
        proof {
            lemma_steps_in_range(x@, steps_for(self.axis@, self.keep_dims));
        }
        let mut extents: Vec<usize> = Vec::new();
        let n: usize = self.axis.len();
        let mut i: usize = 0;
        while i < n
            invariant
                n == self.axis@.len(),
                0 <= i <= n,
                forall|k: int|
                    0 <= k < n ==> (#[trigger] steps_for(self.axis@, self.keep_dims)[k]).axis
                        < x@.len(),
                extents@ == extents_along(x@, self.axis@).take(i as int),
            decreases n - i,
        {
            assert(steps_for(self.axis@, self.keep_dims)[i as int].axis == self.axis@[i as int]);
            extents.push(x[self.axis[i]]);
            assert(extents@ =~= extents_along(x@, self.axis@).take(i as int + 1));
            i += 1;
        }
        assert(extents@ =~= extents_along(x@, self.axis@));
        match count_of(extents.as_slice()) {
            Some(count) => Ok(Plan::reduction(Kernel::MeanAxes(count), steps, shape)),
            None => Err(ShapeError::TooLarge),
        }
    }

    pub fn vjp(&self, g: &mut Graph, out_grads: &[Id]) -> (grads: Option<Vec<Id>>)
        requires
            old(g)@.pool.headroom() >= mean_vjp_cost(self.axis@),
        ensures
            (final(g)@, opt_view(grads)) == vjp_spec(self@, old(g)@, out_grads@),
    {
        if out_grads.len() == 0 {
            return None;
        }
        let og: Id = out_grads[0];
        if self.axis.len() == 0 {
            proof {
                assert(old(g)@.nodes + Seq::<Node>::empty() =~= old(g)@.nodes);
            }
            return Some(vec![og]);
        }
        proof {
            reveal_with_fuel(IdPool::take, 7);
            reveal_with_fuel(IdPool::skip, 7);
        }
        let one: Id = g.fresh();
        g.push(Op::Const(Const::new(ONE, one)));
        let ones_like_x: Id = g.fresh();
        g.push(Op::BroadcastLike(BroadcastLike::new(one, self.inp, ones_like_x)));
        let counts_y: Id = g.fresh();
        g.push(
            Op::Sum(
                Sum::new(ones_like_x, counts_y, copied(self.axis.as_slice()), self.keep_dims),
            ),
        );
        let scaled_og: Id = g.fresh();
        g.push(Op::Div(Div::new(og, counts_y, scaled_og)));
        let reshaped: Id = g.fresh();
        g.push(
            Op::ReshapeForBroadcast(
                ReshapeForBroadcast::new(
                    scaled_og,
                    reshaped,
                    copied(self.axis.as_slice()),
                    self.keep_dims,
                ),
            ),
        );
        let grad_x: Id = g.fresh();
        g.push(Op::BroadcastLike(BroadcastLike::new(reshaped, self.inp, grad_x)));
        proof {
            let ids = old(g)@.pool.take(6);
            assert(ids =~= seq![one, ones_like_x, counts_y, scaled_og, reshaped, grad_x]);
            assert(g@.nodes =~= old(g)@.nodes + mean_vjp(
                self.inp,
                self.axis@,
                self.keep_dims,
                og,
                ids,
            ));
        }
        Some(vec![grad_x])
    }
}

impl Clone for Mean {
    fn clone(&self) -> (copy: Mean)
        ensures
            copy@ == self@,
    {
        Mean {
            inp: self.inp,
            out: self.out,
            axis: copied(self.axis.as_slice()),
            keep_dims: self.keep_dims,
        }
    }
}

} // verus!
