//! Differentiation only appends: the graph of the function being
//! differentiated is the beginning of the graph of its gradient.

use vstd::prelude::*;

use crate::graph::GraphModel;
use crate::identity::Id;
use crate::ops::constant::ZERO;
use crate::ops::{vjp_spec, Kind, Node};
use crate::tracing::function::{
    accumulate, accumulate_all, backward, backward_step, collect, fold_outputs, grad_spec,
    objective, GradState, TraceableModel,
};

verus! {

/// `longer` begins with the nodes of `shorter`.
pub open spec fn extends(longer: Seq<Node>, shorter: Seq<Node>) -> bool {
    &&& shorter.len() <= longer.len()
    &&& forall|j: int| 0 <= j < shorter.len() ==> #[trigger] longer[j] == shorter[j]
}

pub proof fn lemma_extends_transitive(a: Seq<Node>, b: Seq<Node>, c: Seq<Node>)
    requires
        extends(a, b),
        extends(b, c),
    ensures
        extends(a, c),
{
    assert forall|j: int| 0 <= j < c.len() implies #[trigger] a[j] == c[j] by {
        assert(b[j] == c[j]);
    }
}

pub proof fn lemma_fold_outputs_extends(g: GraphModel, acc: Id, outputs: Seq<Id>, i: int)
    requires
        0 <= i,
    ensures
        extends(fold_outputs(g, acc, outputs, i).0.nodes, g.nodes),
    decreases outputs.len() - i,
{
    if i < outputs.len() {
        let next = g.record(Kind::Add, seq![acc, outputs[i]]);
        lemma_fold_outputs_extends(next, g.pool.next(), outputs, i + 1);
        lemma_extends_transitive(
            fold_outputs(g, acc, outputs, i).0.nodes,
            next.nodes,
            g.nodes,
        );
    }
}

pub proof fn lemma_accumulate_all_extends(st: GradState, inputs: Seq<Id>, parts: Seq<Id>, i: int)
    requires
        0 <= i,
    ensures
        extends(accumulate_all(st, inputs, parts, i).graph.nodes, st.graph.nodes),
    decreases inputs.len() - i,
{
    if i < inputs.len() && i < parts.len() {
        let next = accumulate(st, inputs[i], parts[i]);
        lemma_accumulate_all_extends(next, inputs, parts, i + 1);
        lemma_extends_transitive(
            accumulate_all(st, inputs, parts, i).graph.nodes,
            next.graph.nodes,
            st.graph.nodes,
        );
    }
}

pub proof fn lemma_step_extends(st: GradState, node: Node)
    ensures
        extends(backward_step(st, node).graph.nodes, st.graph.nodes),
{
    if st.grads.contains_key(node.out) {
        let (graph, parts) = vjp_spec(node, st.graph, seq![st.grads[node.out]]);
        assert(extends(graph.nodes, st.graph.nodes));
        match parts {
            Some(parts) => {
                let grown = GradState { graph, grads: st.grads };
                lemma_accumulate_all_extends(grown, node.inputs, parts, 0);
                lemma_extends_transitive(
                    backward_step(st, node).graph.nodes,
                    graph.nodes,
                    st.graph.nodes,
                );
            },
            None => {},
        }
    }
}

pub proof fn lemma_backward_extends(st: GradState, snapshot: Seq<Node>, n: int)
    ensures
        extends(backward(st, snapshot, n).graph.nodes, st.graph.nodes),
    decreases n,
{
    if n > 0 {
        let next = backward_step(st, snapshot[n - 1]);
        lemma_step_extends(st, snapshot[n - 1]);
        lemma_backward_extends(next, snapshot, n - 1);
        lemma_extends_transitive(
            backward(st, snapshot, n).graph.nodes,
            next.graph.nodes,
            st.graph.nodes,
        );
    }
}

pub proof fn lemma_collect_extends(
    g: GraphModel,
    grads: Map<Id, Id>,
    inputs: Seq<Id>,
    i: int,
    outs: Seq<Id>,
)
    requires
        0 <= i <= inputs.len(),
        outs.len() == i,
    ensures
        extends(collect(g, grads, inputs, i, outs).0.nodes, g.nodes),
        collect(g, grads, inputs, i, outs).1.len() == inputs.len(),
    decreases inputs.len() - i,
{
    if i < inputs.len() {
        if grads.contains_key(inputs[i]) {
            lemma_collect_extends(g, grads, inputs, i + 1, outs.push(grads[inputs[i]]));
        } else {
            let next = g.record(Kind::Const(ZERO), Seq::empty());
            lemma_collect_extends(next, grads, inputs, i + 1, outs.push(g.pool.next()));
            lemma_extends_transitive(
                collect(g, grads, inputs, i, outs).0.nodes,
                next.nodes,
                g.nodes,
            );
        }
    }
}

/// The graph that the backward walk starts from begins with the nodes of
/// the function.
pub proof fn lemma_grad_prefix_of_objective(f: TraceableModel)
    requires
        f.outputs.len() > 0,
    ensures
        extends(objective(f).graph.nodes, f.graph.nodes),
{
    lemma_fold_outputs_extends(f.graph, f.outputs[0], f.outputs, 1);
    let folded = fold_outputs(f.graph, f.outputs[0], f.outputs, 1).0;
    assert(extends(objective(f).graph.nodes, folded.nodes));
    lemma_extends_transitive(objective(f).graph.nodes, folded.nodes, f.graph.nodes);
}

/// The gradient function keeps what it was derived from: its graph begins
/// with the nodes of `f`, in the same order; it has the inputs of `f`,
/// and one output for each of them.
pub proof fn lemma_grad_extends(f: TraceableModel)
    requires
        f.outputs.len() > 0,
    ensures
        extends(grad_spec(f).graph.nodes, f.graph.nodes),
        grad_spec(f).inputs == f.inputs,
        grad_spec(f).outputs.len() == f.inputs.len(),
{
    lemma_fold_outputs_extends(f.graph, f.outputs[0], f.outputs, 1);
    let start = objective(f);
    let folded = fold_outputs(f.graph, f.outputs[0], f.outputs, 1).0;
    assert(extends(start.graph.nodes, folded.nodes));
    lemma_extends_transitive(start.graph.nodes, folded.nodes, f.graph.nodes);
    let walked = backward(start, start.graph.nodes, start.graph.nodes.len() as int);
    lemma_backward_extends(start, start.graph.nodes, start.graph.nodes.len() as int);
    lemma_extends_transitive(walked.graph.nodes, start.graph.nodes, f.graph.nodes);
    lemma_collect_extends(walked.graph, walked.grads, f.inputs, 0, Seq::empty());
    lemma_extends_transitive(grad_spec(f).graph.nodes, walked.graph.nodes, f.graph.nodes);
}

} // verus!
