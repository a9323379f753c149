//! Differentiation keeps the order of a graph an order of evaluation.

use vstd::prelude::*;

use crate::graph::{lemma_push_keeps_order, produced_before, ready, well_ordered, GraphModel};
use crate::identity::Id;
use crate::ops::constant::{ONE, ZERO};
use crate::ops::{vjp_block, vjp_cost, vjp_grads, vjp_spec, Kind, Node};
use crate::tracing::function::{
    accumulate, accumulate_all, backward, backward_step, collect, fold_outputs, grad_spec,
    objective, GradState, TraceableModel,
};

verus! {

/// Every identifier that a node of `block` reads is in `base` or is
/// produced by an earlier node of `block`.
pub open spec fn block_closed(block: Seq<Node>, base: Set<Id>) -> bool {
    forall|i: int, k: int|
        0 <= i < block.len() && 0 <= k < block[i].inputs.len() ==> base.contains(
            #[trigger] block[i].inputs[k],
        ) || produced_before(block, i, block[i].inputs[k])
}

/// What the gradient rule of `node` may read besides what it produces
/// itself: the gradient of the node's output, the node's inputs and the
/// node's output.
pub open spec fn base_of(node: Node, og: Id) -> Set<Id> {
    Set::new(|id: Id| id == og || id == node.out || node.inputs.contains(id))
}

/// Every one of `parts` is in `base` or is produced by a node of `block`.
pub open spec fn parts_closed(parts: Seq<Id>, block: Seq<Node>, base: Set<Id>) -> bool {
    forall|k: int|
        0 <= k < parts.len() ==> base.contains(#[trigger] parts[k]) || produced_before(
            block,
            block.len() as int,
            parts[k],
        )
}

/// Appending a block that reads only what is ready or what it produces
/// itself keeps the order an order of evaluation, makes the outputs of
/// the block ready and keeps ready what was.
pub proof fn lemma_append_block(
    nodes: Seq<Node>,
    block: Seq<Node>,
    declared: Set<Id>,
    base: Set<Id>,
)
    requires
        well_ordered(nodes, declared),
        forall|id: Id| base.contains(id) ==> ready(nodes, declared, id),
        block_closed(block, base),
    ensures
        well_ordered(nodes + block, declared),
        forall|j: int|
            0 <= j < block.len() ==> ready(nodes + block, declared, (#[trigger] block[j]).out),
        forall|id: Id| ready(nodes, declared, id) ==> #[trigger] ready(nodes + block, declared, id),
    decreases block.len(),
{
    if block.len() == 0 {
        assert(nodes + block =~= nodes);
    } else {
        let init = block.drop_last();
        let last = block.last();
        assert(block_closed(init, base)) by {
            assert forall|i: int, k: int|
                0 <= i < init.len() && 0 <= k < init[i].inputs.len() implies base.contains(
                #[trigger] init[i].inputs[k],
            ) || produced_before(init, i, init[i].inputs[k]) by {
                let id = init[i].inputs[k];
                assert(init[i] == block[i]);
                assert(base.contains(block[i].inputs[k]) || produced_before(block, i, id));
                if !base.contains(id) {
                    let j = choose|j: int|
                        0 <= j < i && j < block.len() && (#[trigger] block[j]).out == id;
                    assert(init[j].out == id);
                }
            }
        }
        lemma_append_block(nodes, init, declared, base);
        let mid = nodes + init;
        assert(nodes + block =~= mid.push(last));
        assert forall|k: int| 0 <= k < last.inputs.len() implies ready(
            mid,
            declared,
            #[trigger] last.inputs[k],
        ) by {
            let id = last.inputs[k];
            let at = block.len() - 1;
            assert(block[at] == last);
            assert(base.contains(block[at].inputs[k]) || produced_before(block, at, id));
            if !base.contains(id) {
                let j = choose|j: int|
                    0 <= j < at && j < block.len() && (#[trigger] block[j]).out == id;
                assert(init[j].out == id);
            }
        }
        lemma_push_keeps_order(mid, last, declared);
        assert forall|j: int| 0 <= j < block.len() implies ready(
            nodes + block,
            declared,
            (#[trigger] block[j]).out,
        ) by {
            if j < init.len() {
                assert(init[j] == block[j]);
                assert(ready(mid, declared, init[j].out));
            }
        }
    }
}

/// The gradient rule of every kind reads only its base and what it has
/// produced before, and returns only identifiers of its base or of nodes
/// it appends.
pub proof fn lemma_rule_closed(node: Node, og: Id, ids: Seq<Id>)
    requires
        node.well_formed(),
    ensures
        block_closed(vjp_block(node, og, ids), base_of(node, og)),
        vjp_grads(node, og, ids) matches Some(parts) ==> parts_closed(
            parts,
            vjp_block(node, og, ids),
            base_of(node, og),
        ),
{
    let block = vjp_block(node, og, ids);
    let base = base_of(node, og);
    assert(base.contains(og));
    assert(base.contains(node.out));
    assert forall|k: int| 0 <= k < node.inputs.len() implies base.contains(
        #[trigger] node.inputs[k],
    ) by {
        assert(node.inputs.contains(node.inputs[k]));
    }
    assert forall|j: int| 0 <= j < block.len() implies produced_before(
        block,
        j + 1,
        (#[trigger] block[j]).out,
    ) by {
        assert(block[j].out == block[j].out);
    }
    assert forall|i: int, k: int|
        0 <= i < block.len() && 0 <= k < block[i].inputs.len() implies base.contains(
        #[trigger] block[i].inputs[k],
    ) || produced_before(block, i, block[i].inputs[k]) by {
        let id = block[i].inputs[k];
        if !base.contains(id) {
            lemma_block_reads_earlier(node, og, ids, i, k);
        }
    }
    match vjp_grads(node, og, ids) {
        Some(parts) => {
            assert forall|k: int| 0 <= k < parts.len() implies base.contains(
                #[trigger] parts[k],
            ) || produced_before(block, block.len() as int, parts[k]) by {
                lemma_part_is_produced(node, og, ids, k);
            }
        },
        None => {},
    }
}

/// An identifier that a node of a rule's block reads and that is not in
/// the rule's base is the output of an earlier node of the block.
proof fn lemma_block_reads_earlier(node: Node, og: Id, ids: Seq<Id>, i: int, k: int)
    requires
        node.well_formed(),
        0 <= i < vjp_block(node, og, ids).len(),
        0 <= k < vjp_block(node, og, ids)[i].inputs.len(),
        !base_of(node, og).contains(vjp_block(node, og, ids)[i].inputs[k]),
    ensures
        produced_before(vjp_block(node, og, ids), i, vjp_block(node, og, ids)[i].inputs[k]),
{
    let block = vjp_block(node, og, ids);
    let base = base_of(node, og);
    assert(base.contains(og));
    assert(base.contains(node.out));
    if node.inputs.len() > 0 {
        assert(node.inputs.contains(node.inputs[0]));
    }
    if node.inputs.len() > 1 {
        assert(node.inputs.contains(node.inputs[1]));
    }
    let id = block[i].inputs[k];
    if i >= 1 && block[0].out == id {
    } else if i >= 2 && block[1].out == id {
    } else if i >= 3 && block[2].out == id {
    } else if i >= 4 && block[3].out == id {
    } else if i >= 5 && block[4].out == id {
    } else if i >= 6 && block[5].out == id {
    } else if i >= 7 && block[6].out == id {
    } else if i >= 8 && block[7].out == id {
    } else if i >= 9 && block[8].out == id {
    }
}

/// A gradient that a rule returns and that is not in the rule's base is
/// the output of a node of the rule's block.
proof fn lemma_part_is_produced(node: Node, og: Id, ids: Seq<Id>, k: int)
    requires
        node.well_formed(),
        vjp_grads(node, og, ids) is Some,
        0 <= k < vjp_grads(node, og, ids).unwrap().len(),
    ensures
        base_of(node, og).contains(vjp_grads(node, og, ids).unwrap()[k]) || produced_before(
            vjp_block(node, og, ids),
            vjp_block(node, og, ids).len() as int,
            vjp_grads(node, og, ids).unwrap()[k],
        ),
{
    let block = vjp_block(node, og, ids);
    let base = base_of(node, og);
    let id = vjp_grads(node, og, ids).unwrap()[k];
    assert(base.contains(og));
    if block.len() >= 1 && block[0].out == id {
    } else if block.len() >= 2 && block[1].out == id {
    } else if block.len() >= 3 && block[2].out == id {
    } else if block.len() >= 4 && block[3].out == id {
    } else if block.len() >= 5 && block[4].out == id {
    } else if block.len() >= 6 && block[5].out == id {
    } else if block.len() >= 7 && block[6].out == id {
    } else if block.len() >= 8 && block[7].out == id {
    } else if block.len() >= 9 && block[8].out == id {
    } else if block.len() >= 10 && block[9].out == id {
    }
}

/// What holds of a differentiation under way when it started from a
/// graph in evaluation order: the graph is in evaluation order, every
/// gradient is ready, and the nodes being walked are still where they
/// were.
pub open spec fn orderly(st: GradState, declared: Set<Id>, snapshot: Seq<Node>) -> bool {
    &&& well_ordered(st.graph.nodes, declared)
    &&& forall|key: Id|
        st.grads.contains_key(key) ==> ready(st.graph.nodes, declared, #[trigger] st.grads[key])
    &&& snapshot.len() <= st.graph.nodes.len()
    &&& forall|j: int| 0 <= j < snapshot.len() ==> #[trigger] st.graph.nodes[j] == snapshot[j]
    &&& forall|j: int| 0 <= j < snapshot.len() ==> (#[trigger] snapshot[j]).well_formed()
}

proof fn lemma_accumulate_keeps(
    st: GradState,
    inp: Id,
    part: Id,
    declared: Set<Id>,
    snapshot: Seq<Node>,
)
    requires
        orderly(st, declared, snapshot),
        ready(st.graph.nodes, declared, part),
    ensures
        orderly(accumulate(st, inp, part), declared, snapshot),
        forall|id: Id|
            ready(st.graph.nodes, declared, id) ==> #[trigger] ready(
                accumulate(st, inp, part).graph.nodes,
                declared,
                id,
            ),
{
    let after = accumulate(st, inp, part);
    if st.grads.contains_key(inp) {
        let node = Node {
            kind: Kind::Add,
            inputs: seq![st.grads[inp], part],
            out: st.graph.pool.next(),
        };
        assert(after.graph.nodes == st.graph.nodes.push(node));
        lemma_push_keeps_order(st.graph.nodes, node, declared);
        assert forall|key: Id| after.grads.contains_key(key) implies ready(
            after.graph.nodes,
            declared,
            #[trigger] after.grads[key],
        ) by {
            if key != inp {
                assert(ready(st.graph.nodes, declared, st.grads[key]));
            }
        }
        assert forall|j: int| 0 <= j < snapshot.len() implies #[trigger] after.graph.nodes[j]
            == snapshot[j] by {
            assert(st.graph.nodes[j] == snapshot[j]);
        }
    } else {
        assert forall|key: Id| after.grads.contains_key(key) implies ready(
            after.graph.nodes,
            declared,
            #[trigger] after.grads[key],
        ) by {
            if key != inp {
                assert(ready(st.graph.nodes, declared, st.grads[key]));
            }
        }
    }
}

proof fn lemma_accumulate_all_keeps(
    st: GradState,
    inputs: Seq<Id>,
    parts: Seq<Id>,
    i: int,
    declared: Set<Id>,
    snapshot: Seq<Node>,
)
    requires
        0 <= i,
        orderly(st, declared, snapshot),
        forall|k: int| 0 <= k < parts.len() ==> ready(st.graph.nodes, declared, #[trigger] parts[k]),
    ensures
        orderly(accumulate_all(st, inputs, parts, i), declared, snapshot),
    decreases inputs.len() - i,
{
    if i < inputs.len() && i < parts.len() {
        let next = accumulate(st, inputs[i], parts[i]);
        lemma_accumulate_keeps(st, inputs[i], parts[i], declared, snapshot);
        assert forall|k: int| 0 <= k < parts.len() implies ready(
            next.graph.nodes,
            declared,
            #[trigger] parts[k],
        ) by {
            assert(ready(st.graph.nodes, declared, parts[k]));
        }
        lemma_accumulate_all_keeps(next, inputs, parts, i + 1, declared, snapshot);
    }
}

proof fn lemma_step_keeps(st: GradState, declared: Set<Id>, snapshot: Seq<Node>, at: int)
    requires
        orderly(st, declared, snapshot),
        0 <= at < snapshot.len(),
    ensures
        orderly(backward_step(st, snapshot[at]), declared, snapshot),
{
    let node = snapshot[at];
    if st.grads.contains_key(node.out) {
        let og = st.grads[node.out];
        let ids = st.graph.pool.take(vjp_cost(node.kind));
        let block = vjp_block(node, og, ids);
        let base = base_of(node, og);
        let nodes = st.graph.nodes;
        assert(nodes[at] == node);
        assert forall|id: Id| base.contains(id) implies ready(nodes, declared, id) by {
            if id == og {
            } else if id == node.out {
                assert(nodes[at].out == id);
            } else {
                let k = choose|k: int| 0 <= k < node.inputs.len() && node.inputs[k] == id;
                assert(declared.contains(nodes[at].inputs[k]) || produced_before(
                    nodes,
                    at,
                    nodes[at].inputs[k],
                ));
                if !declared.contains(id) {
                    let j = choose|j: int|
                        0 <= j < at && j < nodes.len() && (#[trigger] nodes[j]).out == id;
                    assert(nodes[j].out == id);
                }
            }
        }
        lemma_rule_closed(node, og, ids);
        lemma_append_block(nodes, block, declared, base);
        let (graph, parts) = vjp_spec(node, st.graph, seq![og]);
        assert(graph.nodes == nodes + block);
        let grown = GradState { graph, grads: st.grads };
        assert(orderly(grown, declared, snapshot)) by {
            assert forall|key: Id| grown.grads.contains_key(key) implies ready(
                grown.graph.nodes,
                declared,
                #[trigger] grown.grads[key],
            ) by {
                assert(ready(nodes, declared, st.grads[key]));
            }
            assert forall|j: int| 0 <= j < snapshot.len() implies #[trigger] grown.graph.nodes[j]
                == snapshot[j] by {
                assert(nodes[j] == snapshot[j]);
            }
        }
        match parts {
            Some(parts) => {
                assert forall|k: int| 0 <= k < parts.len() implies ready(
                    graph.nodes,
                    declared,
                    #[trigger] parts[k],
                ) by {
                    let id = parts[k];
                    if base.contains(id) {
                        assert(ready(nodes, declared, id));
                    } else {
                        let j = choose|j: int|
                            0 <= j < block.len() && j < block.len() && (#[trigger] block[j]).out
                                == id;
                        assert(ready(graph.nodes, declared, block[j].out));
                    }
                }
                lemma_accumulate_all_keeps(grown, node.inputs, parts, 0, declared, snapshot);
            },
            None => {},
        }
    }
}

proof fn lemma_backward_keeps(st: GradState, declared: Set<Id>, snapshot: Seq<Node>, n: int)
    requires
        orderly(st, declared, snapshot),
        0 <= n <= snapshot.len(),
    ensures
        orderly(backward(st, snapshot, n), declared, snapshot),
    decreases n,
{
    if n > 0 {
        lemma_step_keeps(st, declared, snapshot, n - 1);
        lemma_backward_keeps(backward_step(st, snapshot[n - 1]), declared, snapshot, n - 1);
    }
}

proof fn lemma_record_keeps(g: GraphModel, kind: Kind, inputs: Seq<Id>, declared: Set<Id>)
    requires
        well_ordered(g.nodes, declared),
        forall|j: int| 0 <= j < g.nodes.len() ==> (#[trigger] g.nodes[j]).well_formed(),
        (Node { kind, inputs, out: g.pool.next() }).well_formed(),
        forall|k: int| 0 <= k < inputs.len() ==> ready(g.nodes, declared, #[trigger] inputs[k]),
    ensures
        well_ordered(g.record(kind, inputs).nodes, declared),
        ready(g.record(kind, inputs).nodes, declared, g.pool.next()),
        forall|id: Id|
            ready(g.nodes, declared, id) ==> #[trigger] ready(
                g.record(kind, inputs).nodes,
                declared,
                id,
            ),
        forall|j: int|
            0 <= j < g.record(kind, inputs).nodes.len() ==> (#[trigger] g.record(
                kind,
                inputs,
            ).nodes[j]).well_formed(),
{
    let node = Node { kind, inputs, out: g.pool.next() };
    lemma_push_keeps_order(g.nodes, node, declared);
    assert forall|j: int| 0 <= j < g.record(kind, inputs).nodes.len() implies (#[trigger] g.record(
        kind,
        inputs,
    ).nodes[j]).well_formed() by {
        if j < g.nodes.len() {
            assert(g.nodes[j].well_formed());
        }
    }
}

proof fn lemma_fold_outputs_keeps(
    g: GraphModel,
    acc: Id,
    outputs: Seq<Id>,
    i: int,
    declared: Set<Id>,
)
    requires
        0 <= i,
        well_ordered(g.nodes, declared),
        forall|j: int| 0 <= j < g.nodes.len() ==> (#[trigger] g.nodes[j]).well_formed(),
        ready(g.nodes, declared, acc),
        forall|k: int| 0 <= k < outputs.len() ==> ready(g.nodes, declared, #[trigger] outputs[k]),
    ensures
        well_ordered(fold_outputs(g, acc, outputs, i).0.nodes, declared),
        ready(fold_outputs(g, acc, outputs, i).0.nodes, declared, fold_outputs(g, acc, outputs, i).1),
        forall|j: int|
            0 <= j < fold_outputs(g, acc, outputs, i).0.nodes.len() ==> (#[trigger] fold_outputs(
                g,
                acc,
                outputs,
                i,
            ).0.nodes[j]).well_formed(),
    decreases outputs.len() - i,
{
    if i < outputs.len() {
        let inputs = seq![acc, outputs[i]];
        assert forall|k: int| 0 <= k < inputs.len() implies ready(
            g.nodes,
            declared,
            #[trigger] inputs[k],
        ) by {
            if k == 1 {
                assert(ready(g.nodes, declared, outputs[i]));
            }
        }
        lemma_record_keeps(g, Kind::Add, inputs, declared);
        let next = g.record(Kind::Add, inputs);
        assert forall|k: int| 0 <= k < outputs.len() implies ready(
            next.nodes,
            declared,
            #[trigger] outputs[k],
        ) by {
            assert(ready(g.nodes, declared, outputs[k]));
        }
        lemma_fold_outputs_keeps(next, g.pool.next(), outputs, i + 1, declared);
    }
}

proof fn lemma_collect_keeps(
    g: GraphModel,
    grads: Map<Id, Id>,
    inputs: Seq<Id>,
    i: int,
    outs: Seq<Id>,
    declared: Set<Id>,
)
    requires
        0 <= i,
        well_ordered(g.nodes, declared),
        forall|key: Id| grads.contains_key(key) ==> ready(g.nodes, declared, #[trigger] grads[key]),
        forall|k: int| 0 <= k < outs.len() ==> ready(g.nodes, declared, #[trigger] outs[k]),
    ensures
        well_ordered(collect(g, grads, inputs, i, outs).0.nodes, declared),
        forall|k: int|
            0 <= k < collect(g, grads, inputs, i, outs).1.len() ==> ready(
                collect(g, grads, inputs, i, outs).0.nodes,
                declared,
                #[trigger] collect(g, grads, inputs, i, outs).1[k],
            ),
    decreases inputs.len() - i,
{
    if i < inputs.len() {
        if grads.contains_key(inputs[i]) {
            let more = outs.push(grads[inputs[i]]);
            assert forall|k: int| 0 <= k < more.len() implies ready(
                g.nodes,
                declared,
                #[trigger] more[k],
            ) by {
                if k < outs.len() {
                    assert(ready(g.nodes, declared, outs[k]));
                }
            }
            lemma_collect_keeps(g, grads, inputs, i + 1, more, declared);
        } else {
            let node = Node { kind: Kind::Const(ZERO), inputs: Seq::empty(), out: g.pool.next() };
            lemma_push_keeps_order(g.nodes, node, declared);
            let next = g.record(Kind::Const(ZERO), Seq::empty());
            let more = outs.push(g.pool.next());
            assert forall|k: int| 0 <= k < more.len() implies ready(
                next.nodes,
                declared,
                #[trigger] more[k],
            ) by {
                if k < outs.len() {
                    assert(ready(g.nodes, declared, outs[k]));
                }
            }
            assert forall|key: Id| grads.contains_key(key) implies ready(
                next.nodes,
                declared,
                #[trigger] grads[key],
            ) by {
                assert(ready(g.nodes, declared, grads[key]));
            }
            lemma_collect_keeps(next, grads, inputs, i + 1, more, declared);
        }
    }
}

/// Differentiation keeps the order of evaluation: if every node of `f`
/// reads only declared inputs and what earlier nodes produce, and every
/// declared output is a declared input or produced by a node, then the
/// same holds of the gradient function of `f`.
pub proof fn lemma_grad_keeps_order(f: TraceableModel)
    requires
        f.outputs.len() > 0,
        f.well_formed(),
        f.well_ordered(),
    ensures
        grad_spec(f).well_ordered(),
{
    let declared = f.inputs.to_set();
    assert forall|k: int| 0 <= k < f.outputs.len() implies ready(
        f.graph.nodes,
        declared,
        #[trigger] f.outputs[k],
    ) by {}
    lemma_fold_outputs_keeps(f.graph, f.outputs[0], f.outputs, 1, declared);
    let (folded, total) = fold_outputs(f.graph, f.outputs[0], f.outputs, 1);
    let inputs = seq![total];
    assert forall|k: int| 0 <= k < inputs.len() implies ready(
        folded.nodes,
        declared,
        #[trigger] inputs[k],
    ) by {}
    lemma_record_keeps(folded, Kind::Sum(Seq::empty(), false), inputs, declared);
    let summed = folded.record(Kind::Sum(Seq::empty(), false), inputs);
    lemma_record_keeps(summed, Kind::Const(ONE), Seq::empty(), declared);
    let start = objective(f);
    let snapshot = start.graph.nodes;
    assert(orderly(start, declared, snapshot)) by {
        assert forall|key: Id| start.grads.contains_key(key) implies ready(
            start.graph.nodes,
            declared,
            #[trigger] start.grads[key],
        ) by {
            assert(key == folded.pool.next());
            assert(start.grads[key] == summed.pool.next());
        }
    }
    lemma_backward_keeps(start, declared, snapshot, snapshot.len() as int);
    let walked = backward(start, snapshot, snapshot.len() as int);
    lemma_collect_keeps(walked.graph, walked.grads, f.inputs, 0, Seq::empty(), declared);
}

} // verus!
