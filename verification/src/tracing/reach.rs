//! Which identifiers a gradient reaches: only those that the
//! differentiated scalar depends on.

use vstd::prelude::*;

use crate::graph::GraphModel;
use crate::identity::{Id, IdPool};
use crate::ops::constant::{ONE, ZERO};
use crate::ops::{vjp_spec, Kind, Node};
use crate::tracing::accumulation::lemma_collect_reads;
use crate::tracing::function::{
    accumulate, accumulate_all, backward, backward_step, collect, fold_outputs, grad_spec,
    objective, objective_id, GradState, TraceableModel,
};

verus! {

/// Some node reads `a` and produces `b`.
pub open spec fn feeds(nodes: Seq<Node>, a: Id, b: Id) -> bool {
    exists|j: int|
        0 <= j < nodes.len() && (#[trigger] nodes[j]).out == b && nodes[j].inputs.contains(a)
}

/// Each identifier of `path` feeds the next one.
pub open spec fn chain(nodes: Seq<Node>, path: Seq<Id>) -> bool {
    forall|t: int| 0 <= t < path.len() - 1 ==> feeds(nodes, #[trigger] path[t], path[t + 1])
}

/// The value of `y` depends on the value of `x`: they are the same, or a
/// chain of nodes leads from `x` to `y`.
pub open spec fn influences(nodes: Seq<Node>, x: Id, y: Id) -> bool {
    exists|path: Seq<Id>|
        #![trigger chain(nodes, path)]
        path.len() > 0 && path[0] == x && path.last() == y && chain(nodes, path)
}

/// A node of kind constant zero that produces `id`.
pub open spec fn zero_node(id: Id) -> Node {
    Node { kind: Kind::Const(ZERO), inputs: Seq::empty(), out: id }
}

/// Every identifier influences itself.
pub proof fn lemma_influences_itself(nodes: Seq<Node>, x: Id)
    ensures
        influences(nodes, x, x),
{
    let path = seq![x];
    assert(chain(nodes, path));
    assert(path.len() > 0 && path[0] == x && path.last() == x);
}

/// What feeds an identifier influences whatever that identifier
/// influences.
pub proof fn lemma_influence_extends(nodes: Seq<Node>, a: Id, b: Id, target: Id)
    requires
        feeds(nodes, a, b),
        influences(nodes, b, target),
    ensures
        influences(nodes, a, target),
{
    let path = choose|path: Seq<Id>|
        #![trigger chain(nodes, path)]
        path.len() > 0 && path[0] == b && path.last() == target && chain(nodes, path);
    let longer = seq![a] + path;
    assert forall|t: int| 0 <= t < longer.len() - 1 implies feeds(
        nodes,
        #[trigger] longer[t],
        longer[t + 1],
    ) by {
        if t == 0 {
            assert(longer[1] == path[0]);
        } else {
            assert(longer[t] == path[t - 1]);
            assert(longer[t + 1] == path[t]);
            assert(feeds(nodes, path[t - 1], path[t - 1 + 1]));
        }
    }
    assert(chain(nodes, longer));
    assert(longer.len() > 0 && longer[0] == a && longer.last() == target);
}

/// Accumulation gives gradients only to identifiers that had one and to
/// the inputs it is handed.
proof fn lemma_accumulate_all_keys(st: GradState, inputs: Seq<Id>, parts: Seq<Id>, i: int)
    requires
        0 <= i,
    ensures
        forall|key: Id| #[trigger]
            accumulate_all(st, inputs, parts, i).grads.contains_key(key)
                ==> st.grads.contains_key(key) || inputs.contains(key),
    decreases inputs.len() - i,
{
    if i < inputs.len() && i < parts.len() {
        let next = accumulate(st, inputs[i], parts[i]);
        lemma_accumulate_all_keys(next, inputs, parts, i + 1);
        assert forall|key: Id| #[trigger]
            accumulate_all(st, inputs, parts, i).grads.contains_key(key)
                implies st.grads.contains_key(key) || inputs.contains(key) by {
            assert(accumulate_all(st, inputs, parts, i) == accumulate_all(
                next,
                inputs,
                parts,
                i + 1,
            ));
            assert(next.grads.contains_key(key) ==> st.grads.contains_key(key) || key == inputs[i]);
        }
    }
}

/// The backward walk gives gradients only to identifiers that influence
/// `target`, if it starts with gradients only for such identifiers.
proof fn lemma_walk_reaches_only_influences(
    st: GradState,
    snapshot: Seq<Node>,
    n: int,
    target: Id,
)
    requires
        0 <= n <= snapshot.len(),
        forall|key: Id| #[trigger] st.grads.contains_key(key) ==> influences(snapshot, key, target),
    ensures
        forall|key: Id| #[trigger]
            backward(st, snapshot, n).grads.contains_key(key) ==> influences(
                snapshot,
                key,
                target,
            ),
    decreases n,
{
    if n > 0 {
        let node = snapshot[n - 1];
        let next = backward_step(st, node);
        assert forall|key: Id| #[trigger] next.grads.contains_key(key) implies influences(
            snapshot,
            key,
            target,
        ) by {
            if !st.grads.contains_key(key) {
                let (graph, parts) = vjp_spec(node, st.graph, seq![st.grads[node.out]]);
                let grown = GradState { graph, grads: st.grads };
                lemma_accumulate_all_keys(grown, node.inputs, parts.unwrap(), 0);
                assert(node.inputs.contains(key));
                assert(snapshot[n - 1].out == node.out);
                assert(feeds(snapshot, key, node.out));
                lemma_influence_extends(snapshot, key, node.out, target);
            }
        }
        lemma_walk_reaches_only_influences(next, snapshot, n - 1, target);
        assert(backward(st, snapshot, n) == backward(next, snapshot, n - 1));
    }
}

/// Gathering the gradients only appends nodes; each gathered gradient is
/// the accumulated one where there is one and otherwise the output of a
/// constant zero among the nodes.
proof fn lemma_collect_zero(
    g: GraphModel,
    grads: Map<Id, Id>,
    inputs: Seq<Id>,
    i: int,
    outs: Seq<Id>,
)
    requires
        0 <= i <= inputs.len(),
        outs.len() == i,
        forall|k: int|
            0 <= k < i && !grads.contains_key(inputs[k]) ==> exists|j: int|
                0 <= j < g.nodes.len() && #[trigger] g.nodes[j] == zero_node(outs[k]),
    ensures
        collect(g, grads, inputs, i, outs).1.len() == inputs.len(),
        forall|k: int|
            0 <= k < inputs.len() && !grads.contains_key(inputs[k]) ==> exists|j: int|
                0 <= j < collect(g, grads, inputs, i, outs).0.nodes.len() && #[trigger] collect(
                    g,
                    grads,
                    inputs,
                    i,
                    outs,
                ).0.nodes[j] == zero_node(collect(g, grads, inputs, i, outs).1[k]),
        forall|k: int|
            0 <= k < i ==> collect(g, grads, inputs, i, outs).1[k] == outs[k],
    decreases inputs.len() - i,
{
    let whole = collect(g, grads, inputs, i, outs);
    if i < inputs.len() {
        if grads.contains_key(inputs[i]) {
            let more = outs.push(grads[inputs[i]]);
            assert(whole == collect(g, grads, inputs, i + 1, more));
            assert forall|k: int| 0 <= k < i + 1 && !grads.contains_key(inputs[k]) implies exists|
                j: int,
            |
                0 <= j < g.nodes.len() && #[trigger] g.nodes[j] == zero_node(more[k]) by {
                assert(more[k] == outs[k]);
                let j = choose|j: int|
                    0 <= j < g.nodes.len() && #[trigger] g.nodes[j] == zero_node(outs[k]);
                assert(g.nodes[j] == zero_node(more[k]));
            }
            lemma_collect_zero(g, grads, inputs, i + 1, more);
            assert forall|k: int| 0 <= k < i implies collect(g, grads, inputs, i, outs).1[k]
                == outs[k] by {
                assert(more[k] == outs[k]);
            }
        } else {
            let next = g.record(Kind::Const(ZERO), Seq::empty());
            let more = outs.push(g.pool.next());
            assert(whole == collect(next, grads, inputs, i + 1, more));
            assert forall|k: int| 0 <= k < i + 1 && !grads.contains_key(inputs[k]) implies exists|
                j: int,
            |
                0 <= j < next.nodes.len() && #[trigger] next.nodes[j] == zero_node(more[k]) by {
                if k < i {
                    assert(more[k] == outs[k]);
                    let j = choose|j: int|
                        0 <= j < g.nodes.len() && #[trigger] g.nodes[j] == zero_node(outs[k]);
                    assert(next.nodes[j] == zero_node(more[k]));
                } else {
                    assert(next.nodes[g.nodes.len() as int] == zero_node(more[k]));
                }
            }
            lemma_collect_zero(next, grads, inputs, i + 1, more);
            assert forall|k: int| 0 <= k < i implies collect(g, grads, inputs, i, outs).1[k]
                == outs[k] by {
                assert(more[k] == outs[k]);
            }
        }
    } else {
        assert(whole == (g, outs));
        assert forall|k: int| 0 <= k < inputs.len() && !grads.contains_key(inputs[k]) implies exists|
            j: int,
        |
            0 <= j < whole.0.nodes.len() && #[trigger] whole.0.nodes[j] == zero_node(whole.1[k]) by {
            let j = choose|j: int|
                0 <= j < g.nodes.len() && #[trigger] g.nodes[j] == zero_node(outs[k]);
            assert(whole.0.nodes[j] == zero_node(whole.1[k]));
        }
    }
}

/// A gradient reaches only what the differentiated scalar depends on:
/// after the backward walk, an identifier that does not influence the
/// scalar has no gradient.
pub proof fn lemma_no_gradient_without_influence(f: TraceableModel, x: Id)
    requires
        f.outputs.len() > 0,
        !influences(objective(f).graph.nodes, x, objective_id(f)),
    ensures
        !backward(
            objective(f),
            objective(f).graph.nodes,
            objective(f).graph.nodes.len() as int,
        ).grads.contains_key(x),
{
    let start = objective(f);
    let target = objective_id(f);
    assert forall|key: Id| #[trigger] start.grads.contains_key(key) implies influences(
        start.graph.nodes,
        key,
        target,
    ) by {
        assert(key == target);
        lemma_influences_itself(start.graph.nodes, target);
    }
    lemma_walk_reaches_only_influences(
        start,
        start.graph.nodes,
        start.graph.nodes.len() as int,
        target,
    );
}

/// An input that the output does not depend on has gradient zero: the
/// gradient function has one output for each input, and where the `k`-th
/// input does not influence the differentiated scalar, the `k`-th output
/// is produced by a constant zero.
pub proof fn lemma_unused_input_has_zero_gradient(f: TraceableModel, k: int)
    requires
        f.outputs.len() > 0,
        0 <= k < f.inputs.len(),
        !influences(objective(f).graph.nodes, f.inputs[k], objective_id(f)),
    ensures
        grad_spec(f).outputs.len() == f.inputs.len(),
        exists|j: int|
            0 <= j < grad_spec(f).graph.nodes.len() && #[trigger] grad_spec(f).graph.nodes[j]
                == zero_node(grad_spec(f).outputs[k]),
{
    lemma_no_gradient_without_influence(f, f.inputs[k]);
    let start = objective(f);
    let walked = backward(start, start.graph.nodes, start.graph.nodes.len() as int);
    lemma_collect_zero(walked.graph, walked.grads, f.inputs, 0, Seq::empty());
    let gathered = collect(walked.graph, walked.grads, f.inputs, 0, Seq::empty());
    assert(grad_spec(f).graph == gathered.0);
    assert(grad_spec(f).outputs == gathered.1);
    let j = choose|j: int|
        0 <= j < gathered.0.nodes.len() && #[trigger] gathered.0.nodes[j] == zero_node(
            gathered.1[k],
        );
    assert(grad_spec(f).graph.nodes[j] == zero_node(grad_spec(f).outputs[k]));
}

/// The node was appended after `pool` issued its last identifier: its
/// output is not among the identifiers that `pool` has issued, and it reads
/// only declared outputs and identifiers of the same kind.
pub open spec fn foreign(node: Node, pool: IdPool, outputs: Seq<Id>) -> bool {
    &&& !pool.is_live(node.out)
    &&& forall|k: int|
        0 <= k < node.inputs.len() ==> outputs.contains(#[trigger] node.inputs[k]) || !pool.is_live(
            node.inputs[k],
        )
}

/// Every node from the `base`-th on is foreign to `pool`.
pub open spec fn appended_foreign(nodes: Seq<Node>, base: int, pool: IdPool, outputs: Seq<Id>) -> bool {
    forall|j: int|
        0 <= j && base <= j < nodes.len() ==> foreign(#[trigger] nodes[j], pool, outputs)
}

/// Every identifier that `old` has issued, `new` has issued too.
pub open spec fn keeps_live(new: IdPool, old: IdPool) -> bool {
    forall|id: Id| old.is_live(id) ==> #[trigger] new.is_live(id)
}

proof fn lemma_record_foreign(
    g: GraphModel,
    kind: Kind,
    inputs: Seq<Id>,
    pool: IdPool,
    base: int,
    outputs: Seq<Id>,
)
    requires
        g.pool.wf(),
        g.pool.headroom() > 0,
        keeps_live(g.pool, pool),
        appended_foreign(g.nodes, base, pool, outputs),
        forall|k: int|
            0 <= k < inputs.len() ==> outputs.contains(#[trigger] inputs[k]) || !pool.is_live(
                inputs[k],
            ),
    ensures
        g.record(kind, inputs).pool.wf(),
        keeps_live(g.record(kind, inputs).pool, pool),
        appended_foreign(g.record(kind, inputs).nodes, base, pool, outputs),
        !pool.is_live(g.pool.next()),
        g.record(kind, inputs).pool.headroom() == g.pool.headroom() - 1,
{
    g.pool.lemma_advance();
    let after = g.record(kind, inputs);
    assert forall|id: Id| pool.is_live(id) implies #[trigger] after.pool.is_live(id) by {
        assert(g.pool.is_live(id));
    }
    assert(!pool.is_live(g.pool.next())) by {
        if pool.is_live(g.pool.next()) {
            assert(g.pool.is_live(g.pool.next()));
        }
    }
    assert forall|j: int| 0 <= j && base <= j < after.nodes.len() implies foreign(
        #[trigger] after.nodes[j],
        pool,
        outputs,
    ) by {
        if j < g.nodes.len() {
            assert(after.nodes[j] == g.nodes[j]);
        }
    }
}

proof fn lemma_fold_outputs_foreign(
    g: GraphModel,
    acc: Id,
    outputs: Seq<Id>,
    i: int,
    pool: IdPool,
    base: int,
)
    requires
        0 <= i <= outputs.len(),
        g.pool.wf(),
        g.pool.headroom() >= outputs.len() - i,
        keeps_live(g.pool, pool),
        appended_foreign(g.nodes, base, pool, outputs),
        outputs.contains(acc) || !pool.is_live(acc),
    ensures
        fold_outputs(g, acc, outputs, i).0.pool.wf(),
        keeps_live(fold_outputs(g, acc, outputs, i).0.pool, pool),
        appended_foreign(fold_outputs(g, acc, outputs, i).0.nodes, base, pool, outputs),
        outputs.contains(fold_outputs(g, acc, outputs, i).1) || !pool.is_live(
            fold_outputs(g, acc, outputs, i).1,
        ),
        fold_outputs(g, acc, outputs, i).0.pool.headroom() == g.pool.headroom() - (outputs.len()
            - i),
    decreases outputs.len() - i,
{
    if i < outputs.len() {
        let inputs = seq![acc, outputs[i]];
        assert forall|k: int| 0 <= k < inputs.len() implies outputs.contains(
            #[trigger] inputs[k],
        ) || !pool.is_live(inputs[k]) by {
            if k == 1 {
                assert(outputs.contains(outputs[i]));
            }
        }
        lemma_record_foreign(g, Kind::Add, inputs, pool, base, outputs);
        lemma_fold_outputs_foreign(
            g.record(Kind::Add, inputs),
            g.pool.next(),
            outputs,
            i + 1,
            pool,
            base,
        );
    }
}

/// In the graph that the backward walk starts from, every node behind
/// those of `f` is foreign to the pool of `f`, and so is the scalar that is
/// differentiated.
proof fn lemma_objective_foreign(f: TraceableModel)
    requires
        f.outputs.len() > 0,
        f.graph.pool.wf(),
        f.graph.pool.headroom() >= f.outputs.len() + 1,
    ensures
        appended_foreign(
            objective(f).graph.nodes,
            f.graph.nodes.len() as int,
            f.graph.pool,
            f.outputs,
        ),
        !f.graph.pool.is_live(objective_id(f)),
        f.graph.nodes.len() <= objective(f).graph.nodes.len(),
        forall|j: int|
            0 <= j < f.graph.nodes.len() ==> #[trigger] objective(f).graph.nodes[j]
                == f.graph.nodes[j],
{
    let pool = f.graph.pool;
    let base = f.graph.nodes.len() as int;
    assert(f.outputs.contains(f.outputs[0]));
    lemma_fold_outputs_foreign(f.graph, f.outputs[0], f.outputs, 1, pool, base);
    let (folded, total) = fold_outputs(f.graph, f.outputs[0], f.outputs, 1);
    let inputs = seq![total];
    assert forall|k: int| 0 <= k < inputs.len() implies f.outputs.contains(#[trigger] inputs[k])
        || !pool.is_live(inputs[k]) by {}
    lemma_record_foreign(folded, Kind::Sum(Seq::empty(), false), inputs, pool, base, f.outputs);
    let summed = folded.record(Kind::Sum(Seq::empty(), false), inputs);
    let none = Seq::<Id>::empty();
    assert forall|k: int| 0 <= k < none.len() implies f.outputs.contains(#[trigger] none[k])
        || !pool.is_live(none[k]) by {}
    lemma_record_foreign(summed, Kind::Const(ONE), none, pool, base, f.outputs);
    crate::tracing::extension::lemma_grad_prefix_of_objective(f);
}

/// A chain that starts at an identifier issued by `pool` and ends at one
/// that `pool` has not issued leaves the nodes of the function through a
/// declared output.
proof fn lemma_chain_leaves_through_output(
    nodes: Seq<Node>,
    whole: Seq<Node>,
    pool: IdPool,
    outputs: Seq<Id>,
    path: Seq<Id>,
)
    requires
        nodes.len() <= whole.len(),
        forall|j: int| 0 <= j < nodes.len() ==> #[trigger] whole[j] == nodes[j],
        forall|j: int| 0 <= j < nodes.len() ==> pool.is_live((#[trigger] nodes[j]).out),
        appended_foreign(whole, nodes.len() as int, pool, outputs),
        path.len() > 0,
        pool.is_live(path[0]),
        !pool.is_live(path.last()),
        chain(whole, path),
    ensures
        exists|k: int| 0 <= k < outputs.len() && influences(nodes, path[0], #[trigger] outputs[k]),
    decreases path.len(),
{
    assert(path.len() >= 2);
    assert(feeds(whole, path[0int], path[0int + 1]));
    let j = choose|j: int|
        0 <= j < whole.len() && (#[trigger] whole[j]).out == path[1] && whole[j].inputs.contains(
            path[0],
        );
    if pool.is_live(path[1]) {
        if j >= nodes.len() {
            assert(foreign(whole[j], pool, outputs));
        }
        assert(nodes[j] == whole[j]);
        assert(feeds(nodes, path[0], path[1]));
        let rest = path.skip(1);
        assert forall|t: int| 0 <= t < rest.len() - 1 implies feeds(
            whole,
            #[trigger] rest[t],
            rest[t + 1],
        ) by {
            assert(feeds(whole, path[t + 1], path[t + 1 + 1]));
        }
        lemma_chain_leaves_through_output(nodes, whole, pool, outputs, rest);
        let k = choose|k: int|
            0 <= k < outputs.len() && influences(nodes, rest[0], #[trigger] outputs[k]);
        lemma_influence_extends(nodes, path[0], path[1], outputs[k]);
    } else {
        if j < nodes.len() {
            assert(pool.is_live(nodes[j].out));
        }
        assert(foreign(whole[j], pool, outputs));
        let k = choose|k: int| 0 <= k < whole[j].inputs.len() && whole[j].inputs[k] == path[0];
        assert(outputs.contains(whole[j].inputs[k]));
        let o = choose|o: int| 0 <= o < outputs.len() && outputs[o] == path[0];
        lemma_influences_itself(nodes, path[0]);
        assert(influences(nodes, path[0], outputs[o]));
    }
}

/// The differentiated scalar depends on nothing but through the declared
/// outputs: in a graph whose nodes produce only identifiers that its
/// allocator has issued, an issued identifier that influences the scalar
/// influences a declared output of `f`.
pub proof fn lemma_influence_comes_through_outputs(f: TraceableModel, x: Id)
    requires
        f.outputs.len() > 0,
        f.graph.consistent(),
        f.graph.pool.headroom() >= f.outputs.len() + 1,
        f.graph.pool.is_live(x),
        influences(objective(f).graph.nodes, x, objective_id(f)),
    ensures
        exists|k: int|
            0 <= k < f.outputs.len() && influences(f.graph.nodes, x, #[trigger] f.outputs[k]),
{
    lemma_objective_foreign(f);
    let whole = objective(f).graph.nodes;
    let path = choose|path: Seq<Id>|
        #![trigger chain(whole, path)]
        path.len() > 0 && path[0] == x && path.last() == objective_id(f) && chain(whole, path);
    lemma_chain_leaves_through_output(f.graph.nodes, whole, f.graph.pool, f.outputs, path);
}

/// An input that no output depends on has gradient zero: in a graph
/// whose nodes produce only identifiers that its allocator has issued,
/// where the `k`-th input is such an identifier and influences none of
/// the declared outputs, the `k`-th output of the gradient function is
/// produced by a constant zero.
pub proof fn lemma_input_unused_by_outputs_has_zero_gradient(f: TraceableModel, k: int)
    requires
        f.outputs.len() > 0,
        f.graph.consistent(),
        f.graph.pool.headroom() >= f.outputs.len() + 1,
        0 <= k < f.inputs.len(),
        f.graph.pool.is_live(f.inputs[k]),
        forall|o: int|
            0 <= o < f.outputs.len() ==> !influences(f.graph.nodes, f.inputs[k], #[trigger] f.outputs[o]),
    ensures
        exists|j: int|
            0 <= j < grad_spec(f).graph.nodes.len() && #[trigger] grad_spec(f).graph.nodes[j]
                == zero_node(grad_spec(f).outputs[k]),
{
    if influences(objective(f).graph.nodes, f.inputs[k], objective_id(f)) {
        lemma_influence_comes_through_outputs(f, f.inputs[k]);
    }
    lemma_unused_input_has_zero_gradient(f, k);
}

/// The gradient of an input does not depend on which other inputs are
/// declared: two functions with the same graph and the same outputs give
/// an input that both declare the same gradient where a gradient reaches
/// it, and a constant zero each where none does.
pub proof fn lemma_gradient_independent_of_other_inputs(
    f: TraceableModel,
    g: TraceableModel,
    k: int,
    j: int,
)
    requires
        f.outputs.len() > 0,
        f.graph == g.graph,
        f.outputs == g.outputs,
        0 <= k < f.inputs.len(),
        0 <= j < g.inputs.len(),
        f.inputs[k] == g.inputs[j],
    ensures
        grad_spec(f).outputs[k] == grad_spec(g).outputs[j] || (exists|m: int|
            0 <= m < grad_spec(f).graph.nodes.len() && #[trigger] grad_spec(f).graph.nodes[m]
                == zero_node(grad_spec(f).outputs[k])) && (exists|m: int|
            0 <= m < grad_spec(g).graph.nodes.len() && #[trigger] grad_spec(g).graph.nodes[m]
                == zero_node(grad_spec(g).outputs[j])),
{
    let start = objective(f);
    assert(start == objective(g));
    let walked = backward(start, start.graph.nodes, start.graph.nodes.len() as int);
    let of_f = collect(walked.graph, walked.grads, f.inputs, 0, Seq::empty());
    let of_g = collect(walked.graph, walked.grads, g.inputs, 0, Seq::empty());
    assert(grad_spec(f).outputs == of_f.1 && grad_spec(f).graph == of_f.0);
    assert(grad_spec(g).outputs == of_g.1 && grad_spec(g).graph == of_g.0);
    if walked.grads.contains_key(f.inputs[k]) {
        lemma_collect_reads(walked.graph, walked.grads, f.inputs, 0, Seq::empty());
        lemma_collect_reads(walked.graph, walked.grads, g.inputs, 0, Seq::empty());
        assert(of_f.1[k] == walked.grads[f.inputs[k]]);
        assert(of_g.1[j] == walked.grads[g.inputs[j]]);
    } else {
        lemma_collect_zero(walked.graph, walked.grads, f.inputs, 0, Seq::empty());
        lemma_collect_zero(walked.graph, walked.grads, g.inputs, 0, Seq::empty());
        let m = choose|m: int|
            0 <= m < of_f.0.nodes.len() && #[trigger] of_f.0.nodes[m] == zero_node(of_f.1[k]);
        assert(grad_spec(f).graph.nodes[m] == zero_node(grad_spec(f).outputs[k]));
        let n = choose|n: int|
            0 <= n < of_g.0.nodes.len() && #[trigger] of_g.0.nodes[n] == zero_node(of_g.1[j]);
        assert(grad_spec(g).graph.nodes[n] == zero_node(grad_spec(g).outputs[j]));
    }
}

} // verus!
