//! The gradient that a rule computes can be evaluated, and has the shape
//! of the input it belongs to.

use vstd::prelude::*;

use crate::identity::Id;
use crate::ops::broadcast::{broadcast_plan, lemma_broadcast_round_trip};
use crate::ops::max::{max_vjp, max_vjp_grad};
use crate::ops::reshape::lemma_reshape_round_trip;
use crate::ops::sum::{
    lemma_reduction_round_trip, lemma_sum_round_trip, reduce_plan, reduce_to_like_plan,
    reshape_for_broadcast_plan,
};
use crate::ops::transpose::lemma_swapped_twice;
use crate::ops::{
    first_missing, plan_of, vjp_block, vjp_cost, vjp_grads, EvalError, Kernel, Kind, Node,
    PlanModel,
};
use crate::shape::{
    apply_steps, ascending, broadcast_of, broadcastable, broadcasts_to, descending, dim_from_end,
    lemma_ascending_of_descending, lemma_unit_axes_keep_volume, representable, span, steps_for,
    strictly_descending, swapped,
};
use crate::tracing::function::run;

verus! {

/// Where every one of `inputs` is bound, none is missing.
pub proof fn lemma_none_missing(inputs: Seq<Id>, ctx: Map<Id, Seq<usize>>)
    requires
        forall|k: int| 0 <= k < inputs.len() ==> ctx.contains_key(#[trigger] inputs[k]),
    ensures
        first_missing(inputs, ctx) is None,
    decreases inputs.len(),
{
    if inputs.len() > 0 {
        assert(ctx.contains_key(inputs[0]));
        assert forall|k: int| 0 <= k < inputs.skip(1).len() implies ctx.contains_key(
            #[trigger] inputs.skip(1)[k],
        ) by {
            assert(inputs.skip(1)[k] == inputs[k + 1]);
        }
        lemma_none_missing(inputs.skip(1), ctx);
    }
}

/// A node whose inputs are bound and whose rule gives a shape that a
/// tensor can have is evaluated, and binds that shape to its output.
pub proof fn lemma_run_binds(
    nodes: Seq<Node>,
    i: int,
    ctx: Map<Id, Seq<usize>>,
    plans: Seq<PlanModel>,
    shape: Seq<usize>,
)
    requires
        0 <= i < nodes.len(),
        !(nodes[i].kind is Input),
        forall|k: int| 0 <= k < nodes[i].inputs.len() ==> ctx.contains_key(#[trigger] nodes[i].inputs[k]),
        plan_of(nodes[i], nodes[i].inputs.map_values(|id: Id| ctx[id])) matches Ok(plan)
            && plan.shape == shape,
        representable(shape),
    ensures
        run(nodes, i, ctx, plans) == run(
            nodes,
            i + 1,
            ctx.insert(nodes[i].out, shape),
            plans.push(plan_of(nodes[i], nodes[i].inputs.map_values(|id: Id| ctx[id])).unwrap()),
        ),
{
    lemma_none_missing(nodes[i].inputs, ctx);
}

/// A shape broadcasts against itself to itself.
pub proof fn lemma_broadcast_same(x: Seq<usize>)
    ensures
        broadcastable(x, x),
        broadcast_of(x, x) == x,
{
    assert(broadcast_of(x, x) =~= x) by {
        assert forall|j: int| 0 <= j < x.len() implies broadcast_of(x, x)[j] == x[j] by {
            assert(dim_from_end(x, x.len() - 1 - j) == x[j]);
        }
    }
}

/// Axes that descend strictly are sorted from highest to lowest.
pub proof fn lemma_descending_is_sorted(axes: Seq<usize>)
    requires
        strictly_descending(axes),
    ensures
        descending(axes) == axes,
{
    lemma_ascending_of_descending(axes);
    assert(axes.reverse().reverse() =~= axes);
}

/// What the rule of a maximum needs of the bindings it is evaluated in:
/// the input, the maximum and the gradient of the maximum are bound, the
/// maximum and its gradient to the shape that the forward rule gives, and
/// the identifiers that the rule allocates are new and differ from each
/// other.
pub open spec fn max_rule_ready(
    inp: Id,
    out: Id,
    axes: Seq<usize>,
    keep: bool,
    og: Id,
    ids: Seq<Id>,
    ctx: Map<Id, Seq<usize>>,
) -> bool {
    &&& strictly_descending(axes)
    &&& ctx.contains_key(inp)
    &&& ctx.contains_key(out)
    &&& ctx.contains_key(og)
    &&& ctx[inp].len() <= usize::MAX
    &&& representable(ctx[inp])
    &&& representable(ctx[out])
    &&& reduce_plan(Kernel::MaxAxes, ctx[inp], axes, keep) matches Ok(forward) && forward.shape
        == ctx[out]
    &&& ctx[og] == ctx[out]
    &&& forall|j: int| 0 <= j < ids.len() ==> #[trigger] ids[j] != inp && ids[j] != out && ids[j] != og
    &&& forall|i: int, j: int| 0 <= i < j < ids.len() ==> ids[i] != ids[j]
}

/// The gradient of a maximum can be evaluated and has the shape of the
/// input: where the maximum of a tensor along strictly descending axes
/// has been planned, the nodes that its gradient rule appends evaluate on
/// shapes without error, and the gradient they compute for the input has
/// exactly the shape of the input, whether or not the reduced axes were
/// kept.
pub proof fn lemma_max_gradient_has_input_shape(
    inp: Id,
    out: Id,
    axes: Seq<usize>,
    keep: bool,
    og: Id,
    ids: Seq<Id>,
    ctx: Map<Id, Seq<usize>>,
)
    requires
        max_rule_ready(inp, out, axes, keep, og, ids, ctx),
        ids.len() == 10,
    ensures
        run(max_vjp(inp, out, axes, keep, og, ids), 0, ctx, Seq::empty()) matches Ok(done)
            && done.1.contains_key(max_vjp_grad(axes, og, ids)) && done.1[max_vjp_grad(
            axes,
            og,
            ids,
        )] == ctx[inp],
{
    let block = max_vjp(inp, out, axes, keep, og, ids);
    let x = ctx[inp];
    let y = ctx[out];
    if axes.len() == 0 {
        assert(steps_for(axes, keep) =~= Seq::empty());
        assert(apply_steps(x, steps_for(axes, keep)) == Some(x));
    } else {
        lemma_reduction_round_trip(Kernel::MaxAxes, x, axes, keep);
        lemma_unit_axes_keep_volume(y, ascending(axes));
        lemma_descending_is_sorted(axes);
        lemma_broadcast_same(x);
        let wide = reshape_for_broadcast_plan(y, axes, keep).unwrap().shape;
        assert(representable(wide));
        assert(broadcast_plan(wide, x) is Ok);
        let none = Seq::<PlanModel>::empty();
        let bound0 = ctx;
        let bound1 = bound0.insert(ids[0], wide);
        lemma_run_step_unary(block, 0, bound0, none, og, wide);
        let plans1 = run_plans(block, 0, bound0, none);
        let bound2 = bound1.insert(ids[1], x);
        lemma_run_step_binary(block, 1, bound1, plans1, ids[0], inp, x);
        let plans2 = run_plans(block, 1, bound1, plans1);
        let bound3 = bound2.insert(ids[2], wide);
        lemma_run_step_unary(block, 2, bound2, plans2, out, wide);
        let plans3 = run_plans(block, 2, bound2, plans2);
        let bound4 = bound3.insert(ids[3], x);
        lemma_run_step_binary(block, 3, bound3, plans3, ids[2], inp, x);
        let plans4 = run_plans(block, 3, bound3, plans3);
        let bound5 = bound4.insert(ids[4], x);
        lemma_run_step_binary(block, 4, bound4, plans4, inp, ids[3], x);
        let plans5 = run_plans(block, 4, bound4, plans4);
        let bound6 = bound5.insert(ids[5], y);
        lemma_run_step_unary(block, 5, bound5, plans5, ids[4], y);
        let plans6 = run_plans(block, 5, bound5, plans5);
        let bound7 = bound6.insert(ids[6], wide);
        lemma_run_step_unary(block, 6, bound6, plans6, ids[5], wide);
        let plans7 = run_plans(block, 6, bound6, plans6);
        let bound8 = bound7.insert(ids[7], x);
        lemma_run_step_binary(block, 7, bound7, plans7, ids[6], inp, x);
        let plans8 = run_plans(block, 7, bound7, plans7);
        let bound9 = bound8.insert(ids[8], x);
        lemma_run_step_binary(block, 8, bound8, plans8, ids[1], ids[4], x);
        let plans9 = run_plans(block, 8, bound8, plans8);
        let bound10 = bound9.insert(ids[9], x);
        lemma_run_step_binary(block, 9, bound9, plans9, ids[8], ids[7], x);
        let plans10 = run_plans(block, 9, bound9, plans9);
        assert(run(block, 10, bound10, plans10) == finished(plans10, bound10));
    }
}

/// The result of an evaluation that has gathered `plans` and ends with
/// the bindings `ctx`.
pub open spec fn finished(plans: Seq<PlanModel>, ctx: Map<Id, Seq<usize>>) -> Result<
    (Seq<PlanModel>, Map<Id, Seq<usize>>),
    EvalError,
> {
    Ok((plans, ctx))
}

/// The plans gathered once the `i`-th node has been evaluated.
pub open spec fn run_plans(
    nodes: Seq<Node>,
    i: int,
    ctx: Map<Id, Seq<usize>>,
    plans: Seq<PlanModel>,
) -> Seq<PlanModel> {
    plans.push(plan_of(nodes[i], nodes[i].inputs.map_values(|id: Id| ctx[id])).unwrap())
}

/// One step of an evaluation, at a node with one input.
proof fn lemma_run_step_unary(
    nodes: Seq<Node>,
    i: int,
    ctx: Map<Id, Seq<usize>>,
    plans: Seq<PlanModel>,
    a: Id,
    shape: Seq<usize>,
)
    requires
        0 <= i < nodes.len(),
        !(nodes[i].kind is Input),
        nodes[i].inputs == seq![a],
        ctx.contains_key(a),
        plan_of(nodes[i], seq![ctx[a]]) matches Ok(plan) && plan.shape == shape,
        representable(shape),
    ensures
        run(nodes, i, ctx, plans) == run(
            nodes,
            i + 1,
            ctx.insert(nodes[i].out, shape),
            run_plans(nodes, i, ctx, plans),
        ),
{
    assert(nodes[i].inputs.map_values(|id: Id| ctx[id]) =~= seq![ctx[a]]);
    lemma_run_binds(nodes, i, ctx, plans, shape);
}

/// One step of an evaluation, at a node with two inputs.
proof fn lemma_run_step_binary(
    nodes: Seq<Node>,
    i: int,
    ctx: Map<Id, Seq<usize>>,
    plans: Seq<PlanModel>,
    a: Id,
    b: Id,
    shape: Seq<usize>,
)
    requires
        0 <= i < nodes.len(),
        !(nodes[i].kind is Input),
        nodes[i].inputs == seq![a, b],
        ctx.contains_key(a),
        ctx.contains_key(b),
        plan_of(nodes[i], seq![ctx[a], ctx[b]]) matches Ok(plan) && plan.shape == shape,
        representable(shape),
    ensures
        run(nodes, i, ctx, plans) == run(
            nodes,
            i + 1,
            ctx.insert(nodes[i].out, shape),
            run_plans(nodes, i, ctx, plans),
        ),
{
    assert(nodes[i].inputs.map_values(|id: Id| ctx[id]) =~= seq![ctx[a], ctx[b]]);
    lemma_run_binds(nodes, i, ctx, plans, shape);
}


/// What a gradient rule needs of the bindings it is evaluated in: the
/// node is well formed; its inputs, its output and the gradient of its
/// output are bound to shapes that tensors can have, the output to the
/// shape that the forward rule gives and its gradient to the same; and
/// the identifiers that the rule allocates are new and differ from each
/// other.
pub open spec fn rule_ready(node: Node, og: Id, ids: Seq<Id>, ctx: Map<Id, Seq<usize>>) -> bool {
    &&& node.well_formed()
    &&& forall|k: int|
        0 <= k < node.inputs.len() ==> ctx.contains_key(#[trigger] node.inputs[k]) && representable(
            ctx[node.inputs[k]],
        ) && ctx[node.inputs[k]].len() <= usize::MAX
    &&& ctx.contains_key(node.out)
    &&& ctx.contains_key(og)
    &&& plan_of(node, node.inputs.map_values(|id: Id| ctx[id])) matches Ok(forward) && forward.shape
        == ctx[node.out]
    &&& representable(ctx[node.out])
    &&& ctx[node.out].len() <= usize::MAX
    &&& ctx[og] == ctx[node.out]
    &&& ids.len() == vjp_cost(node.kind)
    &&& forall|j: int|
        0 <= j < ids.len() ==> #[trigger] ids[j] != og && ids[j] != node.out
            && !node.inputs.contains(ids[j])
    &&& forall|i: int, j: int| 0 <= i < j < ids.len() ==> ids[i] != ids[j]
}

/// The inputs on which the rule of a kind gives each input a gradient of
/// its own shape. The elementwise rules with two operands and the matrix
/// product pass gradients on without reducing them, so their operands
/// must agree in shape, or be matrices; a reduction must name each axis
/// once, highest first; and stretching must not make an axis empty.
pub open spec fn rule_fits(node: Node, ctx: Map<Id, Seq<usize>>) -> bool {
    match node.kind {
        Kind::Add | Kind::Sub | Kind::Mul | Kind::Div => ctx[node.inputs[0]] == ctx[node.inputs[1]],
        Kind::MatMul => ctx[node.inputs[0]].len() == 2 && ctx[node.inputs[1]].len() == 2,
        Kind::Broadcast(_) | Kind::BroadcastLike => forall|i: int|
            0 <= i < ctx[node.inputs[0]].len() && dim_from_end(ctx[node.inputs[0]], i) == 1
                ==> #[trigger] dim_from_end(ctx[node.out], i) >= 1,
        Kind::Sum(axes, _) | Kind::Mean(axes, _) | Kind::Max(axes, _) => strictly_descending(axes),
        _ => true,
    }
}

/// The nodes that the rule appends evaluate on shapes without error, and
/// each gradient that the rule returns is bound to the shape of the input
/// it belongs to.
pub open spec fn gradients_fit(node: Node, og: Id, ids: Seq<Id>, ctx: Map<Id, Seq<usize>>) -> bool {
    vjp_grads(node, og, ids) matches Some(parts) ==> (run(
        vjp_block(node, og, ids),
        0,
        ctx,
        Seq::empty(),
    ) matches Ok(done) && forall|k: int|
        0 <= k < parts.len() ==> done.1.contains_key(#[trigger] parts[k]) && done.1[parts[k]]
            == ctx[node.inputs[k]])
}

/// The identifiers that a rule allocates differ from the inputs of its
/// node.
proof fn lemma_inputs_apart(node: Node, og: Id, ids: Seq<Id>, ctx: Map<Id, Seq<usize>>)
    requires
        rule_ready(node, og, ids, ctx),
    ensures
        forall|j: int, k: int|
            0 <= j < ids.len() && 0 <= k < node.inputs.len() ==> #[trigger] ids[j]
                != #[trigger] node.inputs[k],
{
    assert forall|j: int, k: int|
        0 <= j < ids.len() && 0 <= k < node.inputs.len() implies #[trigger] ids[j]
        != #[trigger] node.inputs[k] by {
        if ids[j] == node.inputs[k] {
            assert(node.inputs.contains(ids[j]));
        }
    }
}

/// A tensor without axes broadcasts against any shape to that shape.
proof fn lemma_broadcast_scalar(x: Seq<usize>)
    ensures
        broadcastable(Seq::<usize>::empty(), x),
        broadcast_of(Seq::<usize>::empty(), x) == x,
        broadcasts_to(Seq::<usize>::empty(), x),
{
    let scalar = Seq::<usize>::empty();
    assert(broadcast_of(scalar, x) =~= x) by {
        assert forall|j: int| 0 <= j < x.len() implies broadcast_of(scalar, x)[j] == x[j] by {
            assert(dim_from_end(x, x.len() - 1 - j) == x[j]);
        }
    }
}

/// What a tensor was reduced to can be stretched back to its shape.
proof fn lemma_reduced_stretches_back(x: Seq<usize>, like: Seq<usize>)
    requires
        reduce_to_like_plan(x, like) is Ok,
    ensures
        broadcasts_to(like, x),
{
    if x != like {
        assert forall|i: int| 0 <= i < like.len() implies (#[trigger] dim_from_end(like, i)
            == dim_from_end(x, i) || dim_from_end(like, i) == 1) by {
            assert(dim_from_end(x, i) == dim_from_end(like, i) || (dim_from_end(like, i) == 1
                && dim_from_end(x, i) > 1));
        }
    }
}

/// Exchanging the two axes of a matrix shape changes no span.
proof fn lemma_swap_keeps_span(x: Seq<usize>)
    requires
        x.len() == 2,
    ensures
        span(swapped(x, 1, 0)) == span(x),
{
    let t = swapped(x, 1, 0);
    let f0: nat = if x[0] == 0 { 1 } else { x[0] as nat };
    let f1: nat = if x[1] == 0 { 1 } else { x[1] as nat };
    reveal_with_fuel(span, 3);
    assert(x.drop_last() =~= seq![x[0]]);
    assert(t.drop_last() =~= seq![x[1]]);
    assert(seq![x[0]].drop_last() =~= Seq::<usize>::empty());
    assert(seq![x[1]].drop_last() =~= Seq::<usize>::empty());
    assert(span(seq![x[0]]) == 1 * f0);
    assert(span(seq![x[1]]) == 1 * f1);
    assert(span(x) == (1 * f0) * f1);
    assert(span(t) == (1 * f1) * f0);
    assert((1 * f0) * f1 == (1 * f1) * f0) by (nonlinear_arith);
}

/// One step of an evaluation, at a node without inputs.
proof fn lemma_run_step_nullary(
    nodes: Seq<Node>,
    i: int,
    ctx: Map<Id, Seq<usize>>,
    plans: Seq<PlanModel>,
    shape: Seq<usize>,
)
    requires
        0 <= i < nodes.len(),
        !(nodes[i].kind is Input),
        nodes[i].inputs == Seq::<Id>::empty(),
        plan_of(nodes[i], Seq::empty()) matches Ok(plan) && plan.shape == shape,
        representable(shape),
    ensures
        run(nodes, i, ctx, plans) == run(
            nodes,
            i + 1,
            ctx.insert(nodes[i].out, shape),
            run_plans(nodes, i, ctx, plans),
        ),
{
    assert(nodes[i].inputs.map_values(|id: Id| ctx[id]) =~= Seq::<Seq<usize>>::empty());
    lemma_run_binds(nodes, i, ctx, plans, shape);
}

/// The gradients that the rule of an addition returns fit the inputs.
proof fn lemma_add_gradient(node: Node, og: Id, ids: Seq<Id>, ctx: Map<Id, Seq<usize>>)
    requires
        rule_ready(node, og, ids, ctx),
        rule_fits(node, ctx),
        node.kind matches Kind::Add,
    ensures
        gradients_fit(node, og, ids, ctx),
{
    let block = vjp_block(node, og, ids);
    let a = node.inputs[0];
    let b = node.inputs[1];
    let x = ctx[a];
    let y = ctx[node.out];
    lemma_inputs_apart(node, og, ids, ctx);
    assert(node.inputs.map_values(|id: Id| ctx[id])[0] == x);
    if node.inputs.len() > 1 {
        assert(node.inputs.map_values(|id: Id| ctx[id])[1] == ctx[b]);
    }
    {
        lemma_broadcast_same(x);
        let none = Seq::<PlanModel>::empty();
        let bound0 = ctx;
        let plans0 = none;
        assert(run(block, 0, bound0, plans0) == finished(plans0, bound0));
    }
}

/// The gradients that the rule of a subtraction returns fit the inputs.
proof fn lemma_sub_gradient(node: Node, og: Id, ids: Seq<Id>, ctx: Map<Id, Seq<usize>>)
    requires
        rule_ready(node, og, ids, ctx),
        rule_fits(node, ctx),
        node.kind matches Kind::Sub,
    ensures
        gradients_fit(node, og, ids, ctx),
{
    let block = vjp_block(node, og, ids);
    let a = node.inputs[0];
    let b = node.inputs[1];
    let x = ctx[a];
    let y = ctx[node.out];
    lemma_inputs_apart(node, og, ids, ctx);
    assert(node.inputs.map_values(|id: Id| ctx[id])[0] == x);
    if node.inputs.len() > 1 {
        assert(node.inputs.map_values(|id: Id| ctx[id])[1] == ctx[b]);
    }
    {
        lemma_broadcast_same(x);
        let none = Seq::<PlanModel>::empty();
        let bound0 = ctx;
        let plans0 = none;
        lemma_run_step_binary(block, 0, bound0, plans0, og, a, x);
        let bound1 = bound0.insert(ids[0], x);
        let plans1 = run_plans(block, 0, bound0, plans0);
        lemma_run_step_unary(block, 1, bound1, plans1, og, x);
        let bound2 = bound1.insert(ids[1], x);
        let plans2 = run_plans(block, 1, bound1, plans1);
        lemma_run_step_binary(block, 2, bound2, plans2, ids[1], b, x);
        let bound3 = bound2.insert(ids[2], x);
        let plans3 = run_plans(block, 2, bound2, plans2);
        assert(run(block, 3, bound3, plans3) == finished(plans3, bound3));
    }
}

/// The gradients that the rule of a product returns fit the inputs.
proof fn lemma_mul_gradient(node: Node, og: Id, ids: Seq<Id>, ctx: Map<Id, Seq<usize>>)
    requires
        rule_ready(node, og, ids, ctx),
        rule_fits(node, ctx),
        node.kind matches Kind::Mul,
    ensures
        gradients_fit(node, og, ids, ctx),
{
    let block = vjp_block(node, og, ids);
    let a = node.inputs[0];
    let b = node.inputs[1];
    let x = ctx[a];
    let y = ctx[node.out];
    lemma_inputs_apart(node, og, ids, ctx);
    assert(node.inputs.map_values(|id: Id| ctx[id])[0] == x);
    if node.inputs.len() > 1 {
        assert(node.inputs.map_values(|id: Id| ctx[id])[1] == ctx[b]);
    }
    {
        lemma_broadcast_same(x);
        let none = Seq::<PlanModel>::empty();
        let bound0 = ctx;
        let plans0 = none;
        lemma_run_step_binary(block, 0, bound0, plans0, og, b, x);
        let bound1 = bound0.insert(ids[0], x);
        let plans1 = run_plans(block, 0, bound0, plans0);
        lemma_run_step_binary(block, 1, bound1, plans1, og, a, x);
        let bound2 = bound1.insert(ids[1], x);
        let plans2 = run_plans(block, 1, bound1, plans1);
        assert(run(block, 2, bound2, plans2) == finished(plans2, bound2));
    }
}

/// The gradients that the rule of a quotient returns fit the inputs.
#[verifier::rlimit(100)]
proof fn lemma_div_gradient(node: Node, og: Id, ids: Seq<Id>, ctx: Map<Id, Seq<usize>>)
    requires
        rule_ready(node, og, ids, ctx),
        rule_fits(node, ctx),
        node.kind matches Kind::Div,
    ensures
        gradients_fit(node, og, ids, ctx),
{
    let block = vjp_block(node, og, ids);
    let a = node.inputs[0];
    let b = node.inputs[1];
    let x = ctx[a];
    let y = ctx[node.out];
    lemma_inputs_apart(node, og, ids, ctx);
    assert(node.inputs.map_values(|id: Id| ctx[id])[0] == x);
    if node.inputs.len() > 1 {
        assert(node.inputs.map_values(|id: Id| ctx[id])[1] == ctx[b]);
    }
    {
        lemma_broadcast_same(x);
        lemma_broadcast_scalar(x);
        let none = Seq::<PlanModel>::empty();
        let bound0 = ctx;
        let plans0 = none;
        lemma_run_step_nullary(block, 0, bound0, plans0, Seq::<usize>::empty());
        let bound1 = bound0.insert(ids[0], Seq::<usize>::empty());
        let plans1 = run_plans(block, 0, bound0, plans0);
        lemma_run_step_binary(block, 1, bound1, plans1, ids[0], b, x);
        let bound2 = bound1.insert(ids[1], x);
        let plans2 = run_plans(block, 1, bound1, plans1);
        lemma_run_step_binary(block, 2, bound2, plans2, og, ids[1], x);
        let bound3 = bound2.insert(ids[2], x);
        let plans3 = run_plans(block, 2, bound2, plans2);
        lemma_run_step_binary(block, 3, bound3, plans3, b, b, x);
        let bound4 = bound3.insert(ids[3], x);
        let plans4 = run_plans(block, 3, bound3, plans3);
        lemma_run_step_unary(block, 4, bound4, plans4, a, x);
        let bound5 = bound4.insert(ids[4], x);
        let plans5 = run_plans(block, 4, bound4, plans4);
        lemma_run_step_binary(block, 5, bound5, plans5, ids[4], ids[3], x);
        let bound6 = bound5.insert(ids[5], x);
        let plans6 = run_plans(block, 5, bound5, plans5);
        assert(run(block, 6, bound6, plans6) == finished(plans6, bound6));
    }
}

/// The gradients that the rule of a negation returns fit the inputs.
proof fn lemma_neg_gradient(node: Node, og: Id, ids: Seq<Id>, ctx: Map<Id, Seq<usize>>)
    requires
        rule_ready(node, og, ids, ctx),
        rule_fits(node, ctx),
        node.kind matches Kind::Neg,
    ensures
        gradients_fit(node, og, ids, ctx),
{
    let block = vjp_block(node, og, ids);
    let a = node.inputs[0];
    let b = node.inputs[1];
    let x = ctx[a];
    let y = ctx[node.out];
    lemma_inputs_apart(node, og, ids, ctx);
    assert(node.inputs.map_values(|id: Id| ctx[id])[0] == x);
    if node.inputs.len() > 1 {
        assert(node.inputs.map_values(|id: Id| ctx[id])[1] == ctx[b]);
    }
    {
        let none = Seq::<PlanModel>::empty();
        let bound0 = ctx;
        let plans0 = none;
        lemma_run_step_unary(block, 0, bound0, plans0, og, x);
        let bound1 = bound0.insert(ids[0], x);
        let plans1 = run_plans(block, 0, bound0, plans0);
        assert(run(block, 1, bound1, plans1) == finished(plans1, bound1));
    }
}

/// The gradients that the rule of an exponential returns fit the inputs.
proof fn lemma_exp_gradient(node: Node, og: Id, ids: Seq<Id>, ctx: Map<Id, Seq<usize>>)
    requires
        rule_ready(node, og, ids, ctx),
        rule_fits(node, ctx),
        node.kind matches Kind::Exp,
    ensures
        gradients_fit(node, og, ids, ctx),
{
    let block = vjp_block(node, og, ids);
    let a = node.inputs[0];
    let b = node.inputs[1];
    let x = ctx[a];
    let y = ctx[node.out];
    lemma_inputs_apart(node, og, ids, ctx);
    assert(node.inputs.map_values(|id: Id| ctx[id])[0] == x);
    if node.inputs.len() > 1 {
        assert(node.inputs.map_values(|id: Id| ctx[id])[1] == ctx[b]);
    }
    {
        lemma_broadcast_same(x);
        let none = Seq::<PlanModel>::empty();
        let bound0 = ctx;
        let plans0 = none;
        lemma_run_step_unary(block, 0, bound0, plans0, a, x);
        let bound1 = bound0.insert(ids[0], x);
        let plans1 = run_plans(block, 0, bound0, plans0);
        lemma_run_step_binary(block, 1, bound1, plans1, og, ids[0], x);
        let bound2 = bound1.insert(ids[1], x);
        let plans2 = run_plans(block, 1, bound1, plans1);
        assert(run(block, 2, bound2, plans2) == finished(plans2, bound2));
    }
}

/// The gradients that the rule of a logarithm returns fit the inputs.
proof fn lemma_log_gradient(node: Node, og: Id, ids: Seq<Id>, ctx: Map<Id, Seq<usize>>)
    requires
        rule_ready(node, og, ids, ctx),
        rule_fits(node, ctx),
        node.kind matches Kind::Log,
    ensures
        gradients_fit(node, og, ids, ctx),
{
    let block = vjp_block(node, og, ids);
    let a = node.inputs[0];
    let b = node.inputs[1];
    let x = ctx[a];
    let y = ctx[node.out];
    lemma_inputs_apart(node, og, ids, ctx);
    assert(node.inputs.map_values(|id: Id| ctx[id])[0] == x);
    if node.inputs.len() > 1 {
        assert(node.inputs.map_values(|id: Id| ctx[id])[1] == ctx[b]);
    }
    {
        lemma_broadcast_same(x);
        lemma_broadcast_scalar(x);
        let none = Seq::<PlanModel>::empty();
        let bound0 = ctx;
        let plans0 = none;
        lemma_run_step_nullary(block, 0, bound0, plans0, Seq::<usize>::empty());
        let bound1 = bound0.insert(ids[1], Seq::<usize>::empty());
        let plans1 = run_plans(block, 0, bound0, plans0);
        lemma_run_step_binary(block, 1, bound1, plans1, ids[1], a, x);
        let bound2 = bound1.insert(ids[2], x);
        let plans2 = run_plans(block, 1, bound1, plans1);
        lemma_run_step_binary(block, 2, bound2, plans2, og, ids[2], x);
        let bound3 = bound2.insert(ids[0], x);
        let plans3 = run_plans(block, 2, bound2, plans2);
        assert(run(block, 3, bound3, plans3) == finished(plans3, bound3));
    }
}

/// The gradients that the rule of a rectified linear unit returns fit the inputs.
proof fn lemma_relu_gradient(node: Node, og: Id, ids: Seq<Id>, ctx: Map<Id, Seq<usize>>)
    requires
        rule_ready(node, og, ids, ctx),
        rule_fits(node, ctx),
        node.kind matches Kind::ReLU,
    ensures
        gradients_fit(node, og, ids, ctx),
{
    let block = vjp_block(node, og, ids);
    let a = node.inputs[0];
    let b = node.inputs[1];
    let x = ctx[a];
    let y = ctx[node.out];
    lemma_inputs_apart(node, og, ids, ctx);
    assert(node.inputs.map_values(|id: Id| ctx[id])[0] == x);
    if node.inputs.len() > 1 {
        assert(node.inputs.map_values(|id: Id| ctx[id])[1] == ctx[b]);
    }
    {
        lemma_broadcast_same(x);
        let none = Seq::<PlanModel>::empty();
        let bound0 = ctx;
        let plans0 = none;
        lemma_run_step_unary(block, 0, bound0, plans0, a, x);
        let bound1 = bound0.insert(ids[0], x);
        let plans1 = run_plans(block, 0, bound0, plans0);
        lemma_run_step_binary(block, 1, bound1, plans1, og, ids[0], x);
        let bound2 = bound1.insert(ids[1], x);
        let plans2 = run_plans(block, 1, bound1, plans1);
        assert(run(block, 2, bound2, plans2) == finished(plans2, bound2));
    }
}

/// The gradients that the rule of a transpose of the last two axes returns fit the inputs.
proof fn lemma_transposedefault_gradient(node: Node, og: Id, ids: Seq<Id>, ctx: Map<Id, Seq<usize>>)
    requires
        rule_ready(node, og, ids, ctx),
        rule_fits(node, ctx),
        node.kind matches Kind::TransposeDefault,
    ensures
        gradients_fit(node, og, ids, ctx),
{
    let block = vjp_block(node, og, ids);
    let a = node.inputs[0];
    let b = node.inputs[1];
    let x = ctx[a];
    let y = ctx[node.out];
    lemma_inputs_apart(node, og, ids, ctx);
    assert(node.inputs.map_values(|id: Id| ctx[id])[0] == x);
    if node.inputs.len() > 1 {
        assert(node.inputs.map_values(|id: Id| ctx[id])[1] == ctx[b]);
    }
    {
        if x.len() > 1 {
            lemma_swapped_twice(x, x.len() - 1, x.len() - 2);
        }
        let none = Seq::<PlanModel>::empty();
        let bound0 = ctx;
        let plans0 = none;
        lemma_run_step_unary(block, 0, bound0, plans0, og, x);
        let bound1 = bound0.insert(ids[0], x);
        let plans1 = run_plans(block, 0, bound0, plans0);
        assert(run(block, 1, bound1, plans1) == finished(plans1, bound1));
    }
}

/// The gradients that the rule of a reshape returns fit the inputs.
proof fn lemma_reshape_gradient(node: Node, og: Id, ids: Seq<Id>, ctx: Map<Id, Seq<usize>>)
    requires
        rule_ready(node, og, ids, ctx),
        rule_fits(node, ctx),
        node.kind matches Kind::Reshape(_),
    ensures
        gradients_fit(node, og, ids, ctx),
{
    let block = vjp_block(node, og, ids);
    let a = node.inputs[0];
    let b = node.inputs[1];
    let x = ctx[a];
    let y = ctx[node.out];
    lemma_inputs_apart(node, og, ids, ctx);
    assert(node.inputs.map_values(|id: Id| ctx[id])[0] == x);
    if node.inputs.len() > 1 {
        assert(node.inputs.map_values(|id: Id| ctx[id])[1] == ctx[b]);
    }
    {
        lemma_reshape_round_trip(x, y);
        let none = Seq::<PlanModel>::empty();
        let bound0 = ctx;
        let plans0 = none;
        lemma_run_step_binary(block, 0, bound0, plans0, og, a, x);
        let bound1 = bound0.insert(ids[0], x);
        let plans1 = run_plans(block, 0, bound0, plans0);
        assert(run(block, 1, bound1, plans1) == finished(plans1, bound1));
    }
}

/// The gradients that the rule of a reshape to the shape of another
/// tensor returns fit the inputs.
proof fn lemma_reshapelike_gradient(node: Node, og: Id, ids: Seq<Id>, ctx: Map<Id, Seq<usize>>)
    requires
        rule_ready(node, og, ids, ctx),
        rule_fits(node, ctx),
        node.kind matches Kind::ReshapeLike,
    ensures
        gradients_fit(node, og, ids, ctx),
{
    let block = vjp_block(node, og, ids);
    let a = node.inputs[0];
    let b = node.inputs[1];
    let x = ctx[a];
    let y = ctx[node.out];
    lemma_inputs_apart(node, og, ids, ctx);
    assert(node.inputs.map_values(|id: Id| ctx[id])[0] == x);
    if node.inputs.len() > 1 {
        assert(node.inputs.map_values(|id: Id| ctx[id])[1] == ctx[b]);
    }
    {
        lemma_reshape_round_trip(x, y);
        let none = Seq::<PlanModel>::empty();
        let bound0 = ctx;
        let plans0 = none;
        lemma_run_step_binary(block, 0, bound0, plans0, og, a, x);
        let bound1 = bound0.insert(ids[0], x);
        let plans1 = run_plans(block, 0, bound0, plans0);
        assert(run(block, 1, bound1, plans1) == finished(plans1, bound1));
    }
}

/// The gradients that the rule of a reduction to the shape of another
/// tensor returns fit the inputs.
proof fn lemma_reducetolike_gradient(node: Node, og: Id, ids: Seq<Id>, ctx: Map<Id, Seq<usize>>)
    requires
        rule_ready(node, og, ids, ctx),
        rule_fits(node, ctx),
        node.kind matches Kind::ReduceToLike,
    ensures
        gradients_fit(node, og, ids, ctx),
{
    let block = vjp_block(node, og, ids);
    let a = node.inputs[0];
    let b = node.inputs[1];
    let x = ctx[a];
    let y = ctx[node.out];
    lemma_inputs_apart(node, og, ids, ctx);
    assert(node.inputs.map_values(|id: Id| ctx[id])[0] == x);
    if node.inputs.len() > 1 {
        assert(node.inputs.map_values(|id: Id| ctx[id])[1] == ctx[b]);
    }
    {
        lemma_reduced_stretches_back(x, y);
        let none = Seq::<PlanModel>::empty();
        let bound0 = ctx;
        let plans0 = none;
        lemma_run_step_binary(block, 0, bound0, plans0, og, a, x);
        let bound1 = bound0.insert(ids[0], x);
        let plans1 = run_plans(block, 0, bound0, plans0);
        assert(run(block, 1, bound1, plans1) == finished(plans1, bound1));
    }
}

/// The gradients that the rule of a product of two matrices returns fit the inputs.
#[verifier::rlimit(100)]
proof fn lemma_matmul_gradient(node: Node, og: Id, ids: Seq<Id>, ctx: Map<Id, Seq<usize>>)
    requires
        rule_ready(node, og, ids, ctx),
        rule_fits(node, ctx),
        node.kind matches Kind::MatMul,
    ensures
        gradients_fit(node, og, ids, ctx),
{
    let block = vjp_block(node, og, ids);
    let a = node.inputs[0];
    let b = node.inputs[1];
    let x = ctx[a];
    let y = ctx[node.out];
    lemma_inputs_apart(node, og, ids, ctx);
    assert(node.inputs.map_values(|id: Id| ctx[id])[0] == x);
    if node.inputs.len() > 1 {
        assert(node.inputs.map_values(|id: Id| ctx[id])[1] == ctx[b]);
    }
    let z = ctx[b];
    let zt = swapped(z, 1, 0);
    let xt = swapped(x, 1, 0);
    assert(zt =~= seq![z[1], z[0]]);
    assert(xt =~= seq![x[1], x[0]]);
    assert(x =~= seq![x[0], x[1]]);
    assert(z =~= seq![z[0], z[1]]);
    assert(y =~= seq![x[0], z[1]]);
    lemma_swap_keeps_span(z);
    lemma_swap_keeps_span(x);
    {
        let none = Seq::<PlanModel>::empty();
        let bound0 = ctx;
        let plans0 = none;
        lemma_run_step_unary(block, 0, bound0, plans0, b, zt);
        let bound1 = bound0.insert(ids[0], zt);
        let plans1 = run_plans(block, 0, bound0, plans0);
        lemma_run_step_binary(block, 1, bound1, plans1, og, ids[0], x);
        let bound2 = bound1.insert(ids[1], x);
        let plans2 = run_plans(block, 1, bound1, plans1);
        lemma_run_step_unary(block, 2, bound2, plans2, a, xt);
        let bound3 = bound2.insert(ids[2], xt);
        let plans3 = run_plans(block, 2, bound2, plans2);
        lemma_run_step_binary(block, 3, bound3, plans3, ids[2], og, z);
        let bound4 = bound3.insert(ids[3], z);
        let plans4 = run_plans(block, 3, bound3, plans3);
        assert(run(block, 4, bound4, plans4) == finished(plans4, bound4));
    }
}

/// The gradients that the rule of a transpose of two named axes returns fit the inputs.
proof fn lemma_transpose_gradient(node: Node, og: Id, ids: Seq<Id>, ctx: Map<Id, Seq<usize>>)
    requires
        rule_ready(node, og, ids, ctx),
        rule_fits(node, ctx),
        node.kind matches Kind::Transpose(_, _),
    ensures
        gradients_fit(node, og, ids, ctx),
{
    let block = vjp_block(node, og, ids);
    let a = node.inputs[0];
    let b = node.inputs[1];
    let x = ctx[a];
    let y = ctx[node.out];
    lemma_inputs_apart(node, og, ids, ctx);
    assert(node.inputs.map_values(|id: Id| ctx[id])[0] == x);
    if node.inputs.len() > 1 {
        assert(node.inputs.map_values(|id: Id| ctx[id])[1] == ctx[b]);
    }
    let (a1, a2) = match node.kind {
        Kind::Transpose(a1, a2) => (a1, a2),
        _ => (0usize, 0usize),
    };
    lemma_swapped_twice(x, a1 as int, a2 as int);
    {
        let none = Seq::<PlanModel>::empty();
        let bound0 = ctx;
        let plans0 = none;
        lemma_run_step_unary(block, 0, bound0, plans0, og, x);
        let bound1 = bound0.insert(ids[0], x);
        let plans1 = run_plans(block, 0, bound0, plans0);
        assert(run(block, 1, bound1, plans1) == finished(plans1, bound1));
    }
}

/// The gradients that the rule of a stretch to a fixed shape returns fit the inputs.
proof fn lemma_broadcast_gradient(node: Node, og: Id, ids: Seq<Id>, ctx: Map<Id, Seq<usize>>)
    requires
        rule_ready(node, og, ids, ctx),
        rule_fits(node, ctx),
        node.kind matches Kind::Broadcast(_),
    ensures
        gradients_fit(node, og, ids, ctx),
{
    let block = vjp_block(node, og, ids);
    let a = node.inputs[0];
    let b = node.inputs[1];
    let x = ctx[a];
    let y = ctx[node.out];
    lemma_inputs_apart(node, og, ids, ctx);
    assert(node.inputs.map_values(|id: Id| ctx[id])[0] == x);
    if node.inputs.len() > 1 {
        assert(node.inputs.map_values(|id: Id| ctx[id])[1] == ctx[b]);
    }
    lemma_broadcast_round_trip(x, y);
    {
        let none = Seq::<PlanModel>::empty();
        let bound0 = ctx;
        let plans0 = none;
        lemma_run_step_binary(block, 0, bound0, plans0, og, a, x);
        let bound1 = bound0.insert(ids[0], x);
        let plans1 = run_plans(block, 0, bound0, plans0);
        assert(run(block, 1, bound1, plans1) == finished(plans1, bound1));
    }
}

/// The gradients that the rule of a stretch to the shape of another
/// tensor returns fit the inputs.
proof fn lemma_broadcast_like_gradient(node: Node, og: Id, ids: Seq<Id>, ctx: Map<Id, Seq<usize>>)
    requires
        rule_ready(node, og, ids, ctx),
        rule_fits(node, ctx),
        node.kind matches Kind::BroadcastLike,
    ensures
        gradients_fit(node, og, ids, ctx),
{
    let block = vjp_block(node, og, ids);
    let a = node.inputs[0];
    let b = node.inputs[1];
    let x = ctx[a];
    let y = ctx[node.out];
    lemma_inputs_apart(node, og, ids, ctx);
    assert(node.inputs.map_values(|id: Id| ctx[id])[0] == x);
    if node.inputs.len() > 1 {
        assert(node.inputs.map_values(|id: Id| ctx[id])[1] == ctx[b]);
    }
    lemma_broadcast_round_trip(x, y);
    {
        let none = Seq::<PlanModel>::empty();
        let bound0 = ctx;
        let plans0 = none;
        lemma_run_step_binary(block, 0, bound0, plans0, og, a, x);
        let bound1 = bound0.insert(ids[0], x);
        let plans1 = run_plans(block, 0, bound0, plans0);
        assert(run(block, 1, bound1, plans1) == finished(plans1, bound1));
    }
}

/// The gradients that the rule of a sum returns fit the inputs.
#[verifier::rlimit(100)]
proof fn lemma_sum_gradient(node: Node, og: Id, ids: Seq<Id>, ctx: Map<Id, Seq<usize>>)
    requires
        rule_ready(node, og, ids, ctx),
        rule_fits(node, ctx),
        node.kind matches Kind::Sum(_, _),
    ensures
        gradients_fit(node, og, ids, ctx),
{
    let block = vjp_block(node, og, ids);
    let a = node.inputs[0];
    let b = node.inputs[1];
    let x = ctx[a];
    let y = ctx[node.out];
    lemma_inputs_apart(node, og, ids, ctx);
    assert(node.inputs.map_values(|id: Id| ctx[id])[0] == x);
    if node.inputs.len() > 1 {
        assert(node.inputs.map_values(|id: Id| ctx[id])[1] == ctx[b]);
    }
    let (axes, keep) = match node.kind {
        Kind::Sum(axes, keep) => (axes, keep),
        _ => (Seq::empty(), false),
    };
    lemma_sum_round_trip(x, axes, keep);
    lemma_unit_axes_keep_volume(y, ascending(axes));
    let wide = reshape_for_broadcast_plan(y, axes, keep).unwrap().shape;
    assert(representable(wide));
    {
        let none = Seq::<PlanModel>::empty();
        let bound0 = ctx;
        let plans0 = none;
        lemma_run_step_unary(block, 0, bound0, plans0, og, wide);
        let bound1 = bound0.insert(ids[0], wide);
        let plans1 = run_plans(block, 0, bound0, plans0);
        lemma_run_step_binary(block, 1, bound1, plans1, ids[0], a, x);
        let bound2 = bound1.insert(ids[1], x);
        let plans2 = run_plans(block, 1, bound1, plans1);
        assert(run(block, 2, bound2, plans2) == finished(plans2, bound2));
    }
}

/// The gradients that the rule of a mean returns fit the inputs.
#[verifier::rlimit(100)]
proof fn lemma_mean_gradient(node: Node, og: Id, ids: Seq<Id>, ctx: Map<Id, Seq<usize>>)
    requires
        rule_ready(node, og, ids, ctx),
        rule_fits(node, ctx),
        node.kind matches Kind::Mean(_, _),
    ensures
        gradients_fit(node, og, ids, ctx),
{
    let block = vjp_block(node, og, ids);
    let a = node.inputs[0];
    let b = node.inputs[1];
    let x = ctx[a];
    let y = ctx[node.out];
    lemma_inputs_apart(node, og, ids, ctx);
    assert(node.inputs.map_values(|id: Id| ctx[id])[0] == x);
    if node.inputs.len() > 1 {
        assert(node.inputs.map_values(|id: Id| ctx[id])[1] == ctx[b]);
    }
    let (axes, keep) = match node.kind {
        Kind::Mean(axes, keep) => (axes, keep),
        _ => (Seq::empty(), false),
    };
    if axes.len() == 0 {
        assert(steps_for(axes, keep) =~= Seq::empty());
        assert(apply_steps(x, steps_for(axes, keep)) == Some(x));
    } else {
        lemma_reduction_round_trip(Kernel::SumAxes, x, axes, keep);
        lemma_unit_axes_keep_volume(y, ascending(axes));
        lemma_descending_is_sorted(axes);
        lemma_broadcast_same(y);
        lemma_broadcast_scalar(x);
        let wide = reshape_for_broadcast_plan(y, axes, keep).unwrap().shape;
        let scalar = Seq::<usize>::empty();
        assert(representable(wide));
        assert(representable(scalar)) by {
            assert(span(scalar) == 1);
        }
        let none = Seq::<PlanModel>::empty();
        let bound0 = ctx;
        let plans0 = none;
        lemma_run_step_nullary(block, 0, bound0, plans0, scalar);
        let bound1 = bound0.insert(ids[0], scalar);
        let plans1 = run_plans(block, 0, bound0, plans0);
        lemma_run_step_binary(block, 1, bound1, plans1, ids[0], a, x);
        let bound2 = bound1.insert(ids[1], x);
        let plans2 = run_plans(block, 1, bound1, plans1);
        lemma_run_step_unary(block, 2, bound2, plans2, ids[1], y);
        let bound3 = bound2.insert(ids[2], y);
        let plans3 = run_plans(block, 2, bound2, plans2);
        lemma_run_step_binary(block, 3, bound3, plans3, og, ids[2], y);
        let bound4 = bound3.insert(ids[3], y);
        let plans4 = run_plans(block, 3, bound3, plans3);
        lemma_run_step_unary(block, 4, bound4, plans4, ids[3], wide);
        let bound5 = bound4.insert(ids[4], wide);
        let plans5 = run_plans(block, 4, bound4, plans4);
        lemma_run_step_binary(block, 5, bound5, plans5, ids[4], a, x);
        let bound6 = bound5.insert(ids[5], x);
        let plans6 = run_plans(block, 5, bound5, plans5);
        assert(run(block, 6, bound6, plans6) == finished(plans6, bound6));
    }
}

/// The gradients that the rule of a maximum returns fit the inputs.
proof fn lemma_max_gradient(node: Node, og: Id, ids: Seq<Id>, ctx: Map<Id, Seq<usize>>)
    requires
        rule_ready(node, og, ids, ctx),
        rule_fits(node, ctx),
        node.kind matches Kind::Max(_, _),
    ensures
        gradients_fit(node, og, ids, ctx),
{
    let block = vjp_block(node, og, ids);
    let a = node.inputs[0];
    let b = node.inputs[1];
    let x = ctx[a];
    let y = ctx[node.out];
    lemma_inputs_apart(node, og, ids, ctx);
    assert(node.inputs.map_values(|id: Id| ctx[id])[0] == x);
    if node.inputs.len() > 1 {
        assert(node.inputs.map_values(|id: Id| ctx[id])[1] == ctx[b]);
    }
    let (axes, keep) = match node.kind {
        Kind::Max(axes, keep) => (axes, keep),
        _ => (Seq::empty(), false),
    };
    if axes.len() == 0 {
        assert(steps_for(axes, keep) =~= Seq::empty());
        assert(apply_steps(x, steps_for(axes, keep)) == Some(x));
    } else {
        lemma_max_gradient_has_input_shape(a, node.out, axes, keep, og, ids, ctx);
    }
}

/// Every gradient can be evaluated and has the shape of its input: where
/// a node has been evaluated on inputs that fit its rule, the nodes that
/// its gradient rule appends evaluate on shapes without error, and each
/// gradient that the rule returns has exactly the shape of the input it
/// is the gradient of.
pub proof fn lemma_gradients_have_input_shapes(
    node: Node,
    og: Id,
    ids: Seq<Id>,
    ctx: Map<Id, Seq<usize>>,
)
    requires
        rule_ready(node, og, ids, ctx),
        rule_fits(node, ctx),
    ensures
        gradients_fit(node, og, ids, ctx),
{
    match node.kind {
        Kind::Add => lemma_add_gradient(node, og, ids, ctx),
        Kind::Sub => lemma_sub_gradient(node, og, ids, ctx),
        Kind::Mul => lemma_mul_gradient(node, og, ids, ctx),
        Kind::Div => lemma_div_gradient(node, og, ids, ctx),
        Kind::Neg => lemma_neg_gradient(node, og, ids, ctx),
        Kind::Exp => lemma_exp_gradient(node, og, ids, ctx),
        Kind::Log => lemma_log_gradient(node, og, ids, ctx),
        Kind::ReLU => lemma_relu_gradient(node, og, ids, ctx),
        Kind::MatMul => lemma_matmul_gradient(node, og, ids, ctx),
        Kind::TransposeDefault => lemma_transposedefault_gradient(node, og, ids, ctx),
        Kind::Transpose(_, _) => lemma_transpose_gradient(node, og, ids, ctx),
        Kind::Reshape(_) => lemma_reshape_gradient(node, og, ids, ctx),
        Kind::ReshapeLike => lemma_reshapelike_gradient(node, og, ids, ctx),
        Kind::Broadcast(_) => lemma_broadcast_gradient(node, og, ids, ctx),
        Kind::BroadcastLike => lemma_broadcast_like_gradient(node, og, ids, ctx),
        Kind::Sum(_, _) => lemma_sum_gradient(node, og, ids, ctx),
        Kind::Mean(_, _) => lemma_mean_gradient(node, og, ids, ctx),
        Kind::Max(_, _) => lemma_max_gradient(node, og, ids, ctx),
        Kind::ReduceToLike => lemma_reducetolike_gradient(node, og, ids, ctx),
        Kind::Input | Kind::Const(_) => {},
        Kind::ReLUGradMask | Kind::MaxGradMask | Kind::ReshapeForBroadcast(_, _) => {},
    }
}

} // verus!
