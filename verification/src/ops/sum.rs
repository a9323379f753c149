//! Summation along axes, and the helpers that carry gradients across
//! changes of shape.

use vstd::prelude::*;

use crate::graph::Graph;
use crate::identity::{Id, IdPool};
use crate::ops::{
    opt_view, plan_view, reduction_plan, simple_plan, vjp_spec, BroadcastLike, Kernel, Kind, Node,
    Op, Plan, PlanModel, ShapeError,
};
use crate::ops::broadcast::broadcast_plan;
use crate::shape::{
    apply_steps, ascending, broadcasts_to, copied, descending, insert_unit_axes,
    lemma_ascending_of_descending, lemma_kept_axes_stretch_back, lemma_reduction_reaches_target,
    lemma_removed_axes_come_back, lemma_steps_in_range, lemma_unit_axes_keep_volume,
    lemma_units_stretch, plan_reduction, reduce_along, reduce_steps, reducible, same_shape,
    sorted_ascending, sorted_descending, steps_for, strictly_descending, volume, with_unit_axes,
    with_units_at,
};

verus! {

/// Shape rule of a reduction with `kernel` along `axes` in the given
/// order: each step must name an axis that is still there.
pub open spec fn reduce_plan(kernel: Kernel, x: Seq<usize>, axes: Seq<usize>, keep: bool) -> Result<
    PlanModel,
    ShapeError,
> {
    match apply_steps(x, steps_for(axes, keep)) {
        Some(shape) => Ok(reduction_plan(kernel, steps_for(axes, keep), shape)),
        None => Err(ShapeError::Axis),
    }
}

/// Shape rule of a sum: without axes everything is summed to a scalar.
pub open spec fn sum_plan(x: Seq<usize>, axes: Seq<usize>, keep: bool) -> Result<
    PlanModel,
    ShapeError,
> {
    if axes.len() == 0 {
        Ok(simple_plan(Kernel::SumAll, Seq::empty()))
    } else {
        reduce_plan(Kernel::SumAxes, x, axes, keep)
    }
}

/// Plans a reduction with `kernel` along `axes` in the given order.
pub fn plan_reduce(kernel: Kernel, x: &[usize], axes: &[usize], keep: bool) -> (plan: Result<
    Plan,
    ShapeError,
>)
    ensures
        plan_view(plan) == reduce_plan(kernel, x@, axes@, keep),
{
    match reduce_along(x, axes, keep) {
        Some((steps, shape)) => Ok(Plan::reduction(kernel, steps, shape)),
        None => Err(ShapeError::Axis),
    }
}

/// Sums its input along the given axes, highest axis first.
#[derive(Debug)]
pub struct Sum {
    pub inp: Id,
    pub out: Id,
    pub axis: Vec<usize>,
    pub keep_dims: bool,
}

impl View for Sum {
    type V = Node;

    open spec fn view(&self) -> Node {
        Node { kind: Kind::Sum(self.axis@, self.keep_dims), inputs: seq![self.inp], out: self.out }
    }
}

/// Gradient rule of a sum of `inp`: the gradient gets back the axes that
/// were summed away and is stretched to the shape of `inp`.
pub open spec fn sum_vjp(inp: Id, axes: Seq<usize>, keep: bool, og: Id, ids: Seq<Id>) -> Seq<Node> {
    seq![
        Node { kind: Kind::ReshapeForBroadcast(axes, keep), inputs: seq![og], out: ids[0] },
        Node { kind: Kind::BroadcastLike, inputs: seq![ids[0], inp], out: ids[1] },
    ]
}

impl Sum {
    /// The axes are kept from highest to lowest, so that removing one
    /// never moves one still to be reduced.
    pub fn new(inp: Id, out: Id, axis: Vec<usize>, keep_dims: bool) -> (op: Sum)
        ensures
            op@ == (Node {
                kind: Kind::Sum(descending(axis@), keep_dims),
                inputs: seq![inp],
                out,
            }),
    {
        Sum { inp, out, axis: sorted_descending(axis.as_slice()), keep_dims }
    }

    pub fn name(&self) -> (name: &'static str)
        ensures
            name@ == "sum"@,
    {
        "sum"
    }

    pub fn inputs(&self) -> (ids: Vec<Id>)
        ensures
            ids@ == self@.inputs,
    {
        vec![self.inp]
    }

    pub fn outputs(&self) -> (ids: Vec<Id>)
        ensures
            ids@ == seq![self@.out],
    {
        vec![self.out]
    }

    pub fn plan(&self, x: &[usize]) -> (plan: Result<Plan, ShapeError>)
        ensures
            self@.kind matches Kind::Sum(axes, keep) && plan_view(plan) == sum_plan(x@, axes, keep),
    {
        if self.axis.len() == 0 {
            Ok(Plan::simple(Kernel::SumAll, Vec::new()))
        } else {
            plan_reduce(Kernel::SumAxes, x, self.axis.as_slice(), self.keep_dims)
        }
    }

    pub fn vjp(&self, g: &mut Graph, out_grads: &[Id]) -> (grads: Option<Vec<Id>>)
        requires
            old(g)@.pool.headroom() >= 2,
        ensures
            (final(g)@, opt_view(grads)) == vjp_spec(self@, old(g)@, out_grads@),
    {
        if out_grads.len() == 0 {
            return None;
        }
        let og: Id = out_grads[0];
        proof {
            reveal_with_fuel(IdPool::take, 3);
            reveal_with_fuel(IdPool::skip, 3);
        }
        let reshaped: Id = g.fresh();
        g.push(
            Op::ReshapeForBroadcast(
                ReshapeForBroadcast::new(
                    og,
                    reshaped,
                    copied(self.axis.as_slice()),
                    self.keep_dims,
                ),
            ),
        );
        let stretched: Id = g.fresh();
        g.push(Op::BroadcastLike(BroadcastLike::new(reshaped, self.inp, stretched)));
        proof {
            let ids = old(g)@.pool.take(2);
            assert(ids =~= seq![reshaped, stretched]);
            assert(g@.nodes =~= old(g)@.nodes + sum_vjp(
                self.inp,
                self.axis@,
                self.keep_dims,
                og,
                ids,
            ));
        }
        Some(vec![stretched])
    }
}

impl Clone for Sum {
    fn clone(&self) -> (copy: Sum)
        ensures
            copy@ == self@,
    {
        Sum {
            inp: self.inp,
            out: self.out,
            axis: copied(self.axis.as_slice()),
            keep_dims: self.keep_dims,
        }
    }
}

/// Shape rule of summing a tensor of shape `x` down to shape `like`: equal
/// shapes pass through; otherwise every leading axis that `like` lacks is
/// summed away and every aligned axis where `like` has extent one and `x`
/// more is summed and kept.
pub open spec fn reduce_to_like_plan(x: Seq<usize>, like: Seq<usize>) -> Result<
    PlanModel,
    ShapeError,
> {
    if x == like {
        Ok(simple_plan(Kernel::Copy, x))
    } else if x.len() < like.len() {
        Err(ShapeError::ReduceRank)
    } else if !reducible(x, like) {
        Err(ShapeError::ReduceDim)
    } else {
        Ok(reduction_plan(Kernel::SumAxes, reduce_steps(x, like, 0), like))
    }
}

/// The steps planned for a reduction to the shape of another tensor lead
/// there: applied in order to a tensor of shape `x`, they leave the
/// planned shape, which is `like`.
pub proof fn lemma_reduce_to_like_reaches(x: Seq<usize>, like: Seq<usize>)
    requires
        x.len() <= usize::MAX,
    ensures
        reduce_to_like_plan(x, like) matches Ok(plan) ==> plan.shape == like && (plan.kernel
            == Kernel::SumAxes ==> apply_steps(x, plan.steps) == Some(like)),
{
    if reduce_to_like_plan(x, like) is Ok && x != like {
        lemma_reduction_reaches_target(x, like);
    }
}

/// Sums its input down to the shape that another tensor has at run time.
#[derive(Debug, Clone, Copy)]
pub struct ReduceToLike {
    pub inp: Id,
    pub like: Id,
    pub out: Id,
}

impl View for ReduceToLike {
    type V = Node;

    open spec fn view(&self) -> Node {
        Node { kind: Kind::ReduceToLike, inputs: seq![self.inp, self.like], out: self.out }
    }
}

/// Gradient rule of summing `inp` down: the gradient is stretched back to
/// the shape of `inp`.
pub open spec fn reduce_to_like_vjp(inp: Id, og: Id, ids: Seq<Id>) -> Seq<Node> {
    seq![Node { kind: Kind::BroadcastLike, inputs: seq![og, inp], out: ids[0] }]
}

impl ReduceToLike {
    pub fn new(inp: Id, like: Id, out: Id) -> (op: ReduceToLike)
        ensures
            op@ == (Node { kind: Kind::ReduceToLike, inputs: seq![inp, like], out }),
    {
        ReduceToLike { inp, like, out }
    }

    pub fn name(&self) -> (name: &'static str)
        ensures
            name@ == "reduce_to_like"@,
    {
        "reduce_to_like"
    }

    pub fn inputs(&self) -> (ids: Vec<Id>)
        ensures
            ids@ == self@.inputs,
    {
        vec![self.inp, self.like]
    }

    pub fn outputs(&self) -> (ids: Vec<Id>)
        ensures
            ids@ == seq![self@.out],
    {
        vec![self.out]
    }

    pub fn plan(&self, x: &[usize], like: &[usize]) -> (plan: Result<Plan, ShapeError>)
        ensures
            plan_view(plan) == reduce_to_like_plan(x@, like@),
    {
        if same_shape(x, like) {
            return Ok(Plan::simple(Kernel::Copy, copied(x)));
        }
        if x.len() < like.len() {
            return Err(ShapeError::ReduceRank);
        }
        match plan_reduction(x, like) {
            Some(steps) => Ok(Plan::reduction(Kernel::SumAxes, steps, copied(like))),
            None => Err(ShapeError::ReduceDim),
        }
    }

    /// The reduced input receives the gradient stretched back to its own
    /// shape; the tensor that only lends its shape receives nothing.
    pub fn vjp(&self, g: &mut Graph, out_grads: &[Id]) -> (grads: Option<Vec<Id>>)
        requires
            old(g)@.pool.headroom() >= 1,
        ensures
            (final(g)@, opt_view(grads)) == vjp_spec(self@, old(g)@, out_grads@),
    {
        if out_grads.len() == 0 {
            return None;
        }
        let og: Id = out_grads[0];
        proof {
            reveal_with_fuel(IdPool::take, 2);
            reveal_with_fuel(IdPool::skip, 2);
        }
        let out: Id = g.fresh();
        g.push(Op::BroadcastLike(BroadcastLike::new(og, self.inp, out)));
        proof {
            let ids = old(g)@.pool.take(1);
            assert(ids =~= seq![out]);
            assert(g@.nodes =~= old(g)@.nodes + reduce_to_like_vjp(self.inp, og, ids));
        }
        Some(vec![out])
    }
}

/// Shape rule of giving a reduced gradient of shape `x` its summed axes
/// back: nothing changes if they were kept or everything was summed;
/// otherwise an axis of extent one is inserted at each of `axes`, lowest
/// first.
pub open spec fn reshape_for_broadcast_plan(x: Seq<usize>, axes: Seq<usize>, keep: bool) -> Result<
    PlanModel,
    ShapeError,
> {
    if keep || axes.len() == 0 {
        Ok(simple_plan(Kernel::Copy, x))
    } else {
        match with_unit_axes(x, ascending(axes)) {
            Some(shape) => Ok(simple_plan(Kernel::Reshape, shape)),
            None => Err(ShapeError::Axis),
        }
    }
}

/// The reshape planned for a reduced gradient keeps the number of
/// elements, so the backend can always carry it out.
pub proof fn lemma_reshape_for_broadcast_keeps_volume(x: Seq<usize>, axes: Seq<usize>, keep: bool)
    ensures
        reshape_for_broadcast_plan(x, axes, keep) matches Ok(plan) ==> volume(plan.shape) == volume(
            x,
        ),
{
    lemma_unit_axes_keep_volume(x, ascending(axes));
}

/// A reduction can be undone on shapes: where a tensor of shape `x` is
/// reduced along strictly descending axes, the gradient, which has the
/// reduced shape, gets its axes back and can then be stretched to exactly
/// the shape `x`.
pub proof fn lemma_reduction_round_trip(
    kernel: Kernel,
    x: Seq<usize>,
    axes: Seq<usize>,
    keep: bool,
)
    requires
        x.len() <= usize::MAX,
        strictly_descending(axes),
        reduce_plan(kernel, x, axes, keep) is Ok,
    ensures
        reshape_for_broadcast_plan(reduce_plan(kernel, x, axes, keep).unwrap().shape, axes, keep)
            matches Ok(back) && broadcast_plan(back.shape, x) == Ok::<PlanModel, ShapeError>(
            simple_plan(Kernel::Broadcast, x),
        ),
{
    let steps = steps_for(axes, keep);
    let y = apply_steps(x, steps).unwrap();
    if keep {
        lemma_kept_axes_stretch_back(x, steps);
        lemma_units_stretch(y, x);
    } else if axes.len() == 0 {
        lemma_units_stretch(y, x);
    } else {
        lemma_steps_in_range(x, steps);
        assert(steps[0].axis == axes[0]);
        lemma_removed_axes_come_back(x, axes);
        lemma_ascending_of_descending(axes);
        lemma_units_stretch(with_units_at(x, axes), x);
    }
}

/// A sum can be undone on shapes: the gradient of a sum along strictly
/// descending axes, or of a sum of everything, can be stretched back to
/// exactly the shape of the summed tensor.
pub proof fn lemma_sum_round_trip(x: Seq<usize>, axes: Seq<usize>, keep: bool)
    requires
        x.len() <= usize::MAX,
        strictly_descending(axes),
        sum_plan(x, axes, keep) is Ok,
    ensures
        reshape_for_broadcast_plan(sum_plan(x, axes, keep).unwrap().shape, axes, keep) matches Ok(
            back,
        ) && broadcast_plan(back.shape, x) == Ok::<PlanModel, ShapeError>(
            simple_plan(Kernel::Broadcast, x),
        ),
{
    if axes.len() == 0 {
        let scalar = Seq::<usize>::empty();
        assert(broadcasts_to(scalar, x));
    } else {
        lemma_reduction_round_trip(Kernel::SumAxes, x, axes, keep);
    }
}

/// Reinserts, with extent one, the axes that a reduction removed from its
/// input, so that the gradient can be stretched to the input's shape.
#[derive(Debug)]
pub struct ReshapeForBroadcast {
    pub inp_grad: Id,
    pub out: Id,
    pub axis: Vec<usize>,
    pub keep_dims: bool,
}

impl View for ReshapeForBroadcast {
    type V = Node;

    open spec fn view(&self) -> Node {
        Node {
            kind: Kind::ReshapeForBroadcast(self.axis@, self.keep_dims),
            inputs: seq![self.inp_grad],
            out: self.out,
        }
    }
}

impl ReshapeForBroadcast {
    pub fn new(inp_grad: Id, out: Id, axis: Vec<usize>, keep_dims: bool) -> (op:
        ReshapeForBroadcast)
        ensures
            op@ == (Node {
                kind: Kind::ReshapeForBroadcast(axis@, keep_dims),
                inputs: seq![inp_grad],
                out,
            }),
    {
        ReshapeForBroadcast { inp_grad, out, axis, keep_dims }
    }

    pub fn name(&self) -> (name: &'static str)
        ensures
            name@ == "reshape_for_broadcast"@,
    {
        "reshape_for_broadcast"
    }

    pub fn inputs(&self) -> (ids: Vec<Id>)
        ensures
            ids@ == self@.inputs,
    {
        vec![self.inp_grad]
    }

    pub fn outputs(&self) -> (ids: Vec<Id>)
        ensures
            ids@ == seq![self@.out],
    {
        vec![self.out]
    }

    pub fn plan(&self, x: &[usize]) -> (plan: Result<Plan, ShapeError>)
        ensures
            self@.kind matches Kind::ReshapeForBroadcast(axes, keep) && plan_view(plan)
                == reshape_for_broadcast_plan(x@, axes, keep),
    {
        if self.keep_dims || self.axis.len() == 0 {
            return Ok(Plan::simple(Kernel::Copy, copied(x)));
        }
        let sorted_axes: Vec<usize> = sorted_ascending(self.axis.as_slice());
        match insert_unit_axes(x, sorted_axes.as_slice()) {
            Some(shape) => Ok(Plan::simple(Kernel::Reshape, shape)),
            None => Err(ShapeError::Axis),
        }
    }

    /// No gradient flows through this helper.
    pub fn vjp(&self, g: &mut Graph, out_grads: &[Id]) -> (grads: Option<Vec<Id>>)
        ensures
            (final(g)@, opt_view(grads)) == vjp_spec(self@, old(g)@, out_grads@),
    {
        proof {
            assert(old(g)@.nodes + Seq::<Node>::empty() =~= old(g)@.nodes);
        }
        None
    }
}

impl Clone for ReshapeForBroadcast {
    fn clone(&self) -> (copy: ReshapeForBroadcast)
        ensures
            copy@ == self@,
    {
        ReshapeForBroadcast {
            inp_grad: self.inp_grad,
            out: self.out,
            axis: copied(self.axis.as_slice()),
            keep_dims: self.keep_dims,
        }
    }
}

} // verus!
