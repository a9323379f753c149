//! Differentiation names every new value with a new identifier.

use vstd::prelude::*;

use crate::graph::{lemma_record_keeps_consistent, GraphModel};
use crate::identity::Id;
use crate::ops::constant::{ONE, ZERO};
use crate::ops::{vjp_block, vjp_cost, vjp_spec, Kind, Node};
use crate::tracing::function::{
    accumulate, accumulate_all, backward, backward_step, collect, fold_outputs, grad_budget,
    grad_spec, objective, GradState, TraceableModel,
};

verus! {

/// Which of the identifiers that a gradient rule allocates names the
/// output of the `j`-th node it appends.
pub open spec fn slot(kind: Kind, j: int) -> int {
    if kind is Log {
        (j + 1) % 3
    } else {
        j
    }
}

/// A gradient rule appends as many nodes as it allocates identifiers, and
/// each of these identifiers names the output of exactly one of the nodes.
pub proof fn lemma_block_outputs(node: Node, og: Id, ids: Seq<Id>)
    ensures
        vjp_block(node, og, ids).len() == vjp_cost(node.kind),
        forall|j: int|
            0 <= j < vjp_block(node, og, ids).len() ==> (#[trigger] vjp_block(node, og, ids)[j]).out
                == ids[slot(node.kind, j)],
        forall|j: int|
            0 <= j < vjp_cost(node.kind) ==> 0 <= #[trigger] slot(node.kind, j) < vjp_cost(
                node.kind,
            ),
        forall|i: int, j: int|
            0 <= i < j < vjp_cost(node.kind) ==> slot(node.kind, i) != slot(node.kind, j),
{
}

/// Appending nodes whose outputs are named by distinct identifiers taken
/// from the allocator keeps a graph consistent.
proof fn lemma_block_keeps_consistent(g: GraphModel, node: Node, og: Id)
    requires
        g.consistent(),
        g.pool.headroom() >= vjp_cost(node.kind),
    ensures
        vjp_spec(node, g, seq![og]).0.consistent(),
        vjp_spec(node, g, seq![og]).0.pool.headroom() == g.pool.headroom() - vjp_cost(node.kind),
{
    let cost = vjp_cost(node.kind);
    let ids = g.pool.take(cost);
    let block = vjp_block(node, og, ids);
    let after = vjp_spec(node, g, seq![og]).0;
    lemma_block_outputs(node, og, ids);
    g.pool.lemma_take(cost);
    g.pool.lemma_skip_headroom(cost);
    assert(after.nodes == g.nodes + block);
    assert forall|j: int| 0 <= j < after.nodes.len() implies after.pool.is_live(
        (#[trigger] after.nodes[j]).out,
    ) by {
        if j < g.nodes.len() {
            assert(g.pool.is_live(g.nodes[j].out));
        } else {
            let b = j - g.nodes.len();
            assert(after.nodes[j] == block[b]);
            assert(block[b].out == ids[slot(node.kind, b)]);
            assert(0 <= slot(node.kind, b) < cost);
        }
    }
    assert forall|i: int, j: int| 0 <= i < j < after.nodes.len() implies (
    #[trigger] after.nodes[i]).out != (#[trigger] after.nodes[j]).out by {
        if j < g.nodes.len() {
            assert(g.nodes[i].out != g.nodes[j].out);
        } else {
            let b = j - g.nodes.len();
            assert(after.nodes[j] == block[b]);
            assert(block[b].out == ids[slot(node.kind, b)]);
            assert(0 <= slot(node.kind, b) < cost);
            if i < g.nodes.len() {
                assert(g.pool.is_live(g.nodes[i].out));
                assert(!g.pool.is_live(ids[slot(node.kind, b)]));
            } else {
                let a = i - g.nodes.len();
                assert(after.nodes[i] == block[a]);
                assert(block[a].out == ids[slot(node.kind, a)]);
                assert(0 <= slot(node.kind, a) < cost);
                assert(slot(node.kind, a) != slot(node.kind, b));
                if slot(node.kind, a) < slot(node.kind, b) {
                    assert(ids[slot(node.kind, a)] != ids[slot(node.kind, b)]);
                } else {
                    assert(ids[slot(node.kind, b)] != ids[slot(node.kind, a)]);
                }
            }
        }
    }
}

proof fn lemma_accumulate_all_consistent(st: GradState, inputs: Seq<Id>, parts: Seq<Id>, i: int)
    requires
        0 <= i <= parts.len(),
        st.graph.consistent(),
        st.graph.pool.headroom() >= parts.len() - i,
    ensures
        accumulate_all(st, inputs, parts, i).graph.consistent(),
        accumulate_all(st, inputs, parts, i).graph.pool.headroom() >= st.graph.pool.headroom() - (
        parts.len() - i),
    decreases inputs.len() - i,
{
    if i < inputs.len() && i < parts.len() {
        let next = accumulate(st, inputs[i], parts[i]);
        if st.grads.contains_key(inputs[i]) {
            lemma_record_keeps_consistent(
                st.graph,
                Kind::Add,
                seq![st.grads[inputs[i]], parts[i]],
            );
            st.graph.pool.lemma_advance();
        }
        lemma_accumulate_all_consistent(next, inputs, parts, i + 1);
    }
}

proof fn lemma_step_consistent(st: GradState, node: Node)
    requires
        st.graph.consistent(),
        st.graph.pool.headroom() >= 12,
    ensures
        backward_step(st, node).graph.consistent(),
        backward_step(st, node).graph.pool.headroom() >= st.graph.pool.headroom() - 12,
{
    if st.grads.contains_key(node.out) {
        let og = st.grads[node.out];
        lemma_block_keeps_consistent(st.graph, node, og);
        let (graph, parts) = vjp_spec(node, st.graph, seq![og]);
        match parts {
            Some(parts) => {
                assert(parts.len() <= 2);
                lemma_accumulate_all_consistent(
                    GradState { graph, grads: st.grads },
                    node.inputs,
                    parts,
                    0,
                );
            },
            None => {},
        }
    }
}

proof fn lemma_backward_consistent(st: GradState, snapshot: Seq<Node>, n: int)
    requires
        0 <= n,
        st.graph.consistent(),
        st.graph.pool.headroom() >= 12 * n,
    ensures
        backward(st, snapshot, n).graph.consistent(),
        backward(st, snapshot, n).graph.pool.headroom() >= st.graph.pool.headroom() - 12 * n,
    decreases n,
{
    if n > 0 {
        lemma_step_consistent(st, snapshot[n - 1]);
        lemma_backward_consistent(backward_step(st, snapshot[n - 1]), snapshot, n - 1);
    }
}

proof fn lemma_fold_outputs_consistent(g: GraphModel, acc: Id, outputs: Seq<Id>, i: int)
    requires
        0 <= i <= outputs.len(),
        g.consistent(),
        g.pool.headroom() >= outputs.len() - i,
    ensures
        fold_outputs(g, acc, outputs, i).0.consistent(),
        fold_outputs(g, acc, outputs, i).0.pool.headroom() == g.pool.headroom() - (outputs.len()
            - i),
        fold_outputs(g, acc, outputs, i).0.nodes.len() == g.nodes.len() + outputs.len() - i,
    decreases outputs.len() - i,
{
    if i < outputs.len() {
        lemma_record_keeps_consistent(g, Kind::Add, seq![acc, outputs[i]]);
        g.pool.lemma_advance();
        lemma_fold_outputs_consistent(
            g.record(Kind::Add, seq![acc, outputs[i]]),
            g.pool.next(),
            outputs,
            i + 1,
        );
    }
}

proof fn lemma_collect_consistent(
    g: GraphModel,
    grads: Map<Id, Id>,
    inputs: Seq<Id>,
    i: int,
    outs: Seq<Id>,
)
    requires
        0 <= i <= inputs.len(),
        g.consistent(),
        g.pool.headroom() >= inputs.len() - i,
    ensures
        collect(g, grads, inputs, i, outs).0.consistent(),
    decreases inputs.len() - i,
{
    if i < inputs.len() {
        if grads.contains_key(inputs[i]) {
            lemma_collect_consistent(g, grads, inputs, i + 1, outs.push(grads[inputs[i]]));
        } else {
            lemma_record_keeps_consistent(g, Kind::Const(ZERO), Seq::empty());
            g.pool.lemma_advance();
            lemma_collect_consistent(
                g.record(Kind::Const(ZERO), Seq::empty()),
                grads,
                inputs,
                i + 1,
                outs.push(g.pool.next()),
            );
        }
    }
}

/// Differentiation never reuses an identifier: where every node of `f`
/// produces an identifier of its own that the allocator has issued, the
/// same holds of the gradient function of `f`.
pub proof fn lemma_grad_keeps_consistent(f: TraceableModel)
    requires
        f.outputs.len() > 0,
        f.graph.consistent(),
        f.graph.pool.headroom() >= grad_budget(f),
    ensures
        grad_spec(f).graph.consistent(),
{
    lemma_fold_outputs_consistent(f.graph, f.outputs[0], f.outputs, 1);
    let (folded, total) = fold_outputs(f.graph, f.outputs[0], f.outputs, 1);
    lemma_record_keeps_consistent(folded, Kind::Sum(Seq::empty(), false), seq![total]);
    folded.pool.lemma_advance();
    let summed = folded.record(Kind::Sum(Seq::empty(), false), seq![total]);
    lemma_record_keeps_consistent(summed, Kind::Const(ONE), Seq::empty());
    summed.pool.lemma_advance();
    let start = objective(f);
    let n = start.graph.nodes.len() as int;
    assert(n == f.graph.nodes.len() + f.outputs.len() + 1);
    lemma_backward_consistent(start, start.graph.nodes, n);
    let walked = backward(start, start.graph.nodes, n);
    lemma_collect_consistent(walked.graph, walked.grads, f.inputs, 0, Seq::empty());
}

} // verus!
