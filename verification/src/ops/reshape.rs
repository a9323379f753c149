//! Reshaping to an explicit shape or to the shape of another tensor.

use vstd::prelude::*;

use crate::graph::Graph;
use crate::identity::{Id, IdPool};
use crate::ops::{
    opt_view, plan_view, simple_plan, vjp_spec, Kernel, Kind, Node, Op, Plan, PlanModel, ShapeError,
};
use crate::shape::{copied, representable, size_of, volume};

verus! {

/// Shape rule of a reshape from shape `x` to shape `target`: both must be
/// shapes a tensor can have, with the same number of elements.
pub open spec fn reshape_plan(x: Seq<usize>, target: Seq<usize>) -> Result<PlanModel, ShapeError> {
    if !representable(x) || !representable(target) {
        Err(ShapeError::TooLarge)
    } else if volume(x) != volume(target) {
        Err(ShapeError::Reshape)
    } else {
        Ok(simple_plan(Kernel::Reshape, target))
    }
}

/// A reshape can be undone: where `x` reshapes to `target`, a tensor of
/// shape `target` reshapes to `x`.
pub proof fn lemma_reshape_round_trip(x: Seq<usize>, target: Seq<usize>)
    requires
        reshape_plan(x, target) is Ok,
    ensures
        reshape_plan(target, x) == Ok::<PlanModel, ShapeError>(simple_plan(Kernel::Reshape, x)),
{
}

/// Plans a reshape from `x` to `target`.
pub fn plan_reshape(x: &[usize], target: &[usize]) -> (plan: Result<Plan, ShapeError>)
    ensures
        plan_view(plan) == reshape_plan(x@, target@),
{
    let have: usize = match size_of(x) {
        Some(n) => n,
        None => {
            return Err(ShapeError::TooLarge);
        },
    };
    let want: usize = match size_of(target) {
        Some(n) => n,
        None => {
            return Err(ShapeError::TooLarge);
        },
    };
    if have != want {
        return Err(ShapeError::Reshape);
    }
    Ok(Plan::simple(Kernel::Reshape, copied(target)))
}

/// Appends the node that reshapes the gradient of a reshaped tensor back
/// to the shape of `inp`, the tensor that was reshaped.
fn reshape_gradient(inp: Id, g: &mut Graph, out_grads: &[Id]) -> (grads: Option<Vec<Id>>)
    requires
        old(g)@.pool.headroom() >= 1,
    ensures
        out_grads@.len() == 0 ==> grads is None && final(g)@ == old(g)@,
        out_grads@.len() > 0 ==> {
            &&& opt_view(grads) == Some(seq![old(g)@.pool.take(1)[0]])
            &&& final(g)@.pool == old(g)@.pool.skip(1)
            &&& final(g)@.nodes == old(g)@.nodes + reshape_vjp(
                inp,
                out_grads@[0],
                old(g)@.pool.take(1),
            )
        },
{
    if out_grads.len() == 0 {
        return None;
    }
    let og: Id = out_grads[0];
    proof {
        reveal_with_fuel(IdPool::take, 2);
        reveal_with_fuel(IdPool::skip, 2);
    }
    let out: Id = g.fresh();
    g.push(Op::ReshapeLike(ReshapeLike::new(og, out, inp)));
    proof {
        let ids = old(g)@.pool.take(1);
        assert(ids =~= seq![out]);
        assert(g@.nodes =~= old(g)@.nodes + reshape_vjp(inp, og, ids));
    }
    Some(vec![out])
}

/// Reshapes its input to a fixed shape.
#[derive(Debug)]
pub struct Reshape {
    pub inp: Id,
    pub out: Id,
    pub target_shape: Vec<usize>,
}

impl View for Reshape {
    type V = Node;

    open spec fn view(&self) -> Node {
        Node { kind: Kind::Reshape(self.target_shape@), inputs: seq![self.inp], out: self.out }
    }
}

/// Gradient rule of a reshape of `inp`: the gradient is reshaped back to
/// the shape of `inp`.
pub open spec fn reshape_vjp(inp: Id, og: Id, ids: Seq<Id>) -> Seq<Node> {
    seq![Node { kind: Kind::ReshapeLike, inputs: seq![og, inp], out: ids[0] }]
}

impl Reshape {
    pub fn new(inp: Id, out: Id, target_shape: Vec<usize>) -> (op: Reshape)
        ensures
            op@ == (Node { kind: Kind::Reshape(target_shape@), inputs: seq![inp], out }),
    {
        Reshape { inp, out, target_shape }
    }

    pub fn name(&self) -> (name: &'static str)
        ensures
            name@ == "reshape"@,
    {
        "reshape"
    }

    pub fn inputs(&self) -> (ids: Vec<Id>)
        ensures
            ids@ == self@.inputs,
    {
        vec![self.inp]
    }

    pub fn outputs(&self) -> (ids: Vec<Id>)
        ensures
            ids@ == seq![self@.out],
    {
        vec![self.out]
    }

    pub fn plan(&self, x: &[usize]) -> (plan: Result<Plan, ShapeError>)
        ensures
            self@.kind matches Kind::Reshape(target) && plan_view(plan) == reshape_plan(x@, target),
    {
        plan_reshape(x, self.target_shape.as_slice())
    }

    pub fn vjp(&self, g: &mut Graph, out_grads: &[Id]) -> (grads: Option<Vec<Id>>)
        requires
            old(g)@.pool.headroom() >= 1,
        ensures
            (final(g)@, opt_view(grads)) == vjp_spec(self@, old(g)@, out_grads@),
    {
        reshape_gradient(self.inp, g, out_grads)
    }
}

impl Clone for Reshape {
    fn clone(&self) -> (copy: Reshape)
        ensures
            copy@ == self@,
    {
        Reshape {
            inp: self.inp,
            out: self.out,
            target_shape: copied(self.target_shape.as_slice()),
        }
    }
}

/// Reshapes its input to the shape that another tensor has at run time.
#[derive(Debug, Clone, Copy)]
pub struct ReshapeLike {
    pub inp: Id,
    pub out: Id,
    pub like: Id,
}

impl View for ReshapeLike {
    type V = Node;

    open spec fn view(&self) -> Node {
        Node { kind: Kind::ReshapeLike, inputs: seq![self.inp, self.like], out: self.out }
    }
}

impl ReshapeLike {
    pub fn new(inp: Id, out: Id, like: Id) -> (op: ReshapeLike)
        ensures
            op@ == (Node { kind: Kind::ReshapeLike, inputs: seq![inp, like], out }),
    {
        ReshapeLike { inp, out, like }
    }

    pub fn name(&self) -> (name: &'static str)
        ensures
            name@ == "reshape_like"@,
    {
        "reshape_like"
    }

    pub fn inputs(&self) -> (ids: Vec<Id>)
        ensures
            ids@ == self@.inputs,
    {
        vec![self.inp, self.like]
    }

    pub fn outputs(&self) -> (ids: Vec<Id>)
        ensures
            ids@ == seq![self@.out],
    {
        vec![self.out]
    }

    pub fn plan(&self, x: &[usize], like: &[usize]) -> (plan: Result<Plan, ShapeError>)
        ensures
            plan_view(plan) == reshape_plan(x@, like@),
    {
        plan_reshape(x, like)
    }

    /// The reshaped input receives the gradient reshaped back to its own
    /// shape; the tensor that only lends its shape receives nothing.
    pub fn vjp(&self, g: &mut Graph, out_grads: &[Id]) -> (grads: Option<Vec<Id>>)
        requires
            old(g)@.pool.headroom() >= 1,
        ensures
            (final(g)@, opt_view(grads)) == vjp_spec(self@, old(g)@, out_grads@),
    {
        reshape_gradient(self.inp, g, out_grads)
    }
}

} // verus!
