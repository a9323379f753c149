//! Broadcasting to an explicit shape or to the shape of another tensor.

use vstd::prelude::*;

use crate::graph::Graph;
use crate::identity::{Id, IdPool};
use crate::ops::{
    opt_view, plan_view, simple_plan, vjp_spec, Kernel, Kind, Node, Op, Plan, PlanModel,
    ReduceToLike, ShapeError,
};
use crate::ops::sum::reduce_to_like_plan;
use crate::shape::{
    apply_steps, broadcasts_to, can_broadcast, copied, dim_from_end, lemma_reduction_reaches_target,
    lemma_stretched_is_reducible,
};

verus! {

/// Shape rule of stretching a tensor of shape `x` to shape `target`.
pub open spec fn broadcast_plan(x: Seq<usize>, target: Seq<usize>) -> Result<
    PlanModel,
    ShapeError,
> {
    if broadcasts_to(x, target) {
        Ok(simple_plan(Kernel::Broadcast, target))
    } else {
        Err(ShapeError::Broadcast)
    }
}

/// Broadcasting and reduction are inverse on shapes: where a tensor of
/// shape `x` is stretched to `target`, the gradient, which has shape
/// `target`, is reduced to exactly the shape `x`. The reduction is planned
/// with `x` as its target, and applying its steps in order to `target`
/// leaves `x`. Axes stretched to extent zero are left out: nothing can be
/// summed back from them.
pub proof fn lemma_broadcast_round_trip(x: Seq<usize>, target: Seq<usize>)
    requires
        broadcast_plan(x, target) is Ok,
        target.len() <= usize::MAX,
        forall|i: int|
            0 <= i < x.len() && dim_from_end(x, i) == 1 ==> #[trigger] dim_from_end(target, i) >= 1,
    ensures
        reduce_to_like_plan(target, x) matches Ok(back) && back.shape == x && (back.kernel
            == Kernel::Copy ==> target == x) && (back.kernel == Kernel::SumAxes ==> apply_steps(
            target,
            back.steps,
        ) == Some(x)),
{
    lemma_stretched_is_reducible(x, target);
    lemma_reduction_reaches_target(target, x);
}

/// Plans stretching a tensor of shape `x` to shape `target`.
pub fn plan_broadcast(x: &[usize], target: &[usize]) -> (plan: Result<Plan, ShapeError>)
    ensures
        plan_view(plan) == broadcast_plan(x@, target@),
{
    if can_broadcast(x, target) {
        Ok(Plan::simple(Kernel::Broadcast, copied(target)))
    } else {
        Err(ShapeError::Broadcast)
    }
}

/// Gradient rule of stretching `inp`: the gradient is summed back down to
/// the shape of `inp`.
pub open spec fn broadcast_vjp(inp: Id, og: Id, ids: Seq<Id>) -> Seq<Node> {
    seq![Node { kind: Kind::ReduceToLike, inputs: seq![og, inp], out: ids[0] }]
}

/// Appends the node that sums the gradient of a stretched tensor back down
/// to the shape of `inp`, the tensor that was stretched.
fn reduce_gradient(inp: Id, g: &mut Graph, out_grads: &[Id]) -> (grads: Option<Vec<Id>>)
    requires
        old(g)@.pool.headroom() >= 1,
    ensures
        out_grads@.len() == 0 ==> grads is None && final(g)@ == old(g)@,
        out_grads@.len() > 0 ==> {
            &&& opt_view(grads) == Some(seq![old(g)@.pool.take(1)[0]])
            &&& final(g)@.pool == old(g)@.pool.skip(1)
            &&& final(g)@.nodes == old(g)@.nodes + broadcast_vjp(
                inp,
                out_grads@[0],
                old(g)@.pool.take(1),
            )
        },
{
    if out_grads.len() == 0 {
        return None;
    }
    let og: Id = out_grads[0];
    proof {
        reveal_with_fuel(IdPool::take, 2);
        reveal_with_fuel(IdPool::skip, 2);
    }
    let out: Id = g.fresh();
    g.push(Op::ReduceToLike(ReduceToLike::new(og, inp, out)));
    proof {
        let ids = old(g)@.pool.take(1);
        assert(ids =~= seq![out]);
        assert(g@.nodes =~= old(g)@.nodes + broadcast_vjp(inp, og, ids));
    }
    Some(vec![out])
}

/// Stretches its input to a fixed shape.
#[derive(Debug)]
pub struct Broadcast {
    pub inp: Id,
    pub out: Id,
    pub target_shape: Vec<usize>,
}

impl View for Broadcast {
    type V = Node;

    open spec fn view(&self) -> Node {
        Node { kind: Kind::Broadcast(self.target_shape@), inputs: seq![self.inp], out: self.out }
    }
}

impl Broadcast {
    pub fn new(inp: Id, out: Id, target: Vec<usize>) -> (op: Broadcast)
        ensures
            op@ == (Node { kind: Kind::Broadcast(target@), inputs: seq![inp], out }),
    {
        Broadcast { inp, out, target_shape: target }
    }

    pub fn name(&self) -> (name: &'static str)
        ensures
            name@ == "broadcast"@,
    {
        "broadcast"
    }

    pub fn inputs(&self) -> (ids: Vec<Id>)
        ensures
            ids@ == self@.inputs,
    {
        vec![self.inp]
    }

    pub fn outputs(&self) -> (ids: Vec<Id>)
        ensures
            ids@ == seq![self@.out],
    {
        vec![self.out]
    }

    pub fn plan(&self, x: &[usize]) -> (plan: Result<Plan, ShapeError>)
        ensures
            self@.kind matches Kind::Broadcast(target) && plan_view(plan) == broadcast_plan(
                x@,
                target,
            ),
    {
        plan_broadcast(x, self.target_shape.as_slice())
    }

    pub fn vjp(&self, g: &mut Graph, out_grads: &[Id]) -> (grads: Option<Vec<Id>>)
        requires
            old(g)@.pool.headroom() >= 1,
        ensures
            (final(g)@, opt_view(grads)) == vjp_spec(self@, old(g)@, out_grads@),
    {
        reduce_gradient(self.inp, g, out_grads)
    }
}

impl Clone for Broadcast {
    fn clone(&self) -> (copy: Broadcast)
        ensures
            copy@ == self@,
    {
        Broadcast {
            inp: self.inp,
            out: self.out,
            target_shape: copied(self.target_shape.as_slice()),
        }
    }
}

/// Stretches its input to the shape that another tensor has at run time.
#[derive(Debug, Clone, Copy)]
pub struct BroadcastLike {
    pub inp: Id,
    pub like: Id,
    pub out: Id,
}

impl View for BroadcastLike {
    type V = Node;

    open spec fn view(&self) -> Node {
        Node { kind: Kind::BroadcastLike, inputs: seq![self.inp, self.like], out: self.out }
    }
}

impl BroadcastLike {
    pub fn new(inp: Id, like: Id, out: Id) -> (op: BroadcastLike)
        ensures
            op@ == (Node { kind: Kind::BroadcastLike, inputs: seq![inp, like], out }),
    {
        BroadcastLike { inp, like, out }
    }

    pub fn name(&self) -> (name: &'static str)
        ensures
            name@ == "broadcast_like"@,
    {
        "broadcast_like"
    }

    pub fn inputs(&self) -> (ids: Vec<Id>)
        ensures
            ids@ == self@.inputs,
    {
        vec![self.inp, self.like]
    }

    pub fn outputs(&self) -> (ids: Vec<Id>)
        ensures
            ids@ == seq![self@.out],
    {
        vec![self.out]
    }

    pub fn plan(&self, x: &[usize], like: &[usize]) -> (plan: Result<Plan, ShapeError>)
        ensures
            plan_view(plan) == broadcast_plan(x@, like@),
    {
        plan_broadcast(x, like)
    }

    /// The stretched input receives the gradient summed back down to its
    /// own shape; the tensor that only lends its shape receives nothing.
    pub fn vjp(&self, g: &mut Graph, out_grads: &[Id]) -> (grads: Option<Vec<Id>>)
        requires
            old(g)@.pool.headroom() >= 1,
        ensures
            (final(g)@, opt_view(grads)) == vjp_spec(self@, old(g)@, out_grads@),
    {
        reduce_gradient(self.inp, g, out_grads)
    }
}

} // verus!
