//! What gradient accumulation computes: the sum of the terms that reach an
//! identifier, whatever the order of their arrival.

use vstd::prelude::*;
use vstd::seq_lib::lemma_fold_right_permutation;

use crate::graph::GraphModel;
use crate::identity::Id;
use crate::ops::constant::ZERO;
use crate::ops::{vjp_spec, Kind, Node};
use crate::tracing::extension::{
    extends, lemma_accumulate_all_extends, lemma_backward_extends, lemma_collect_extends,
};
use crate::tracing::function::{
    accumulate, accumulate_all, backward, backward_step, collect, grad_spec, objective,
    objective_id, GradState, TraceableModel,
};

verus! {

/// The valuation `v` gives the output of every addition node among
/// `nodes` the sum of what it gives the node's operands.
pub open spec fn respects_additions(v: Map<Id, int>, nodes: Seq<Node>) -> bool {
    forall|i: int|
        0 <= i < nodes.len() && (#[trigger] nodes[i]).kind is Add ==> v[nodes[i].out]
            == v[nodes[i].inputs[0]] + v[nodes[i].inputs[1]]
}

/// Adds the value of one term to a running total.
pub open spec fn adding(v: Map<Id, int>) -> spec_fn(Id, int) -> int {
    |term: Id, total: int| total + v[term]
}

/// The sum of the values that `v` gives to `terms`.
pub open spec fn sum_of(v: Map<Id, int>, terms: Seq<Id>) -> int {
    terms.fold_right(adding(v), 0int)
}

/// The state after the terms from the `i`-th on have been accumulated,
/// in order, into the gradient of `x`.
pub open spec fn accumulate_terms(st: GradState, x: Id, terms: Seq<Id>, i: int) -> GradState {
    accumulate_all(st, Seq::new(terms.len(), |k: int| x), terms, i)
}

/// The sum of a sequence is its first term plus the sum of the rest.
proof fn lemma_sum_unfolds(v: Map<Id, int>, terms: Seq<Id>)
    requires
        terms.len() > 0,
    ensures
        sum_of(v, terms) == v[terms[0]] + sum_of(v, terms.skip(1)),
    decreases terms.len(),
{
    let f = adding(v);
    if terms.len() == 1 {
        assert(terms.drop_last() =~= Seq::<Id>::empty());
        assert(terms.skip(1) =~= Seq::<Id>::empty());
        assert(terms.fold_right(f, 0int) == terms.drop_last().fold_right(f, f(terms.last(), 0int)));
    } else {
        terms.lemma_fold_right_alt(f, 0int);
        terms.skip(1).lemma_fold_right_alt(f, 0int);
        assert(terms.drop_first() =~= terms.skip(1));
    }
}

/// One accumulation into an identifier that has a gradient appends one
/// addition node, and the new gradient is worth the old one plus the term.
pub proof fn lemma_accumulate_adds(st: GradState, x: Id, term: Id, v: Map<Id, int>)
    requires
        st.grads.contains_key(x),
        respects_additions(v, accumulate(st, x, term).graph.nodes),
    ensures
        accumulate(st, x, term).grads.contains_key(x),
        v[accumulate(st, x, term).grads[x]] == v[st.grads[x]] + v[term],
{
    let after = accumulate(st, x, term);
    let added = after.graph.nodes[st.graph.nodes.len() as int];
    assert(added.kind is Add);
    assert(added.inputs[0] == st.grads[x]);
    assert(added.inputs[1] == term);
}

/// Accumulating further terms into an identifier that has a gradient only
/// appends nodes, and the final gradient is worth the gradient at the
/// start plus the sum of the terms.
pub proof fn lemma_accumulate_terms_from(
    st: GradState,
    x: Id,
    terms: Seq<Id>,
    i: int,
    v: Map<Id, int>,
)
    requires
        0 <= i <= terms.len(),
        st.grads.contains_key(x),
        respects_additions(v, accumulate_terms(st, x, terms, i).graph.nodes),
    ensures
        accumulate_terms(st, x, terms, i).grads.contains_key(x),
        v[accumulate_terms(st, x, terms, i).grads[x]] == v[st.grads[x]] + sum_of(v, terms.skip(i)),
    decreases terms.len() - i,
{
    let xs = Seq::new(terms.len(), |k: int| x);
    if i == terms.len() {
        assert(terms.skip(i) =~= Seq::<Id>::empty());
    } else {
        let next = accumulate(st, xs[i], terms[i]);
        let last = accumulate_terms(st, x, terms, i);
        assert(last == accumulate_terms(next, x, terms, i + 1));
        lemma_accumulation_extends(next, x, terms, i + 1);
        assert(respects_additions(v, next.graph.nodes)) by {
            let nodes = next.graph.nodes;
            assert forall|j: int|
                0 <= j < nodes.len() && (#[trigger] nodes[j]).kind is Add implies v[nodes[j].out]
                == v[nodes[j].inputs[0]] + v[nodes[j].inputs[1]] by {
                assert(last.graph.nodes[j] == nodes[j]);
            }
        }
        lemma_accumulate_adds(st, x, terms[i], v);
        lemma_accumulate_terms_from(next, x, terms, i + 1, v);
        lemma_sum_unfolds(v, terms.skip(i));
        assert(terms.skip(i).skip(1) =~= terms.skip(i + 1));
    }
}

/// Accumulation never changes a node that is there: it only appends.
pub proof fn lemma_accumulation_extends(st: GradState, x: Id, terms: Seq<Id>, i: int)
    requires
        0 <= i <= terms.len(),
    ensures
        accumulate_terms(st, x, terms, i).graph.nodes.len() >= st.graph.nodes.len(),
        forall|j: int|
            0 <= j < st.graph.nodes.len() ==> #[trigger] accumulate_terms(
                st,
                x,
                terms,
                i,
            ).graph.nodes[j] == st.graph.nodes[j],
    decreases terms.len() - i,
{
    let xs = Seq::new(terms.len(), |k: int| x);
    if i < terms.len() {
        let next = accumulate(st, xs[i], terms[i]);
        lemma_accumulation_extends(next, x, terms, i + 1);
        assert(accumulate_terms(st, x, terms, i) == accumulate_terms(next, x, terms, i + 1));
        assert forall|j: int| 0 <= j < st.graph.nodes.len() implies #[trigger] accumulate_terms(
            st,
            x,
            terms,
            i,
        ).graph.nodes[j] == st.graph.nodes[j] by {
            assert(next.graph.nodes[j] == st.graph.nodes[j]);
        }
    }
}

/// The accumulated gradient is the sum of its terms: after the terms
/// `terms` have been accumulated into an identifier `x` that had no
/// gradient, the gradient of `x` is worth the sum of the terms under
/// every valuation that respects the addition nodes of the graph.
pub proof fn lemma_gradient_is_sum_of_terms(st: GradState, x: Id, terms: Seq<Id>, v: Map<Id, int>)
    requires
        terms.len() > 0,
        !st.grads.contains_key(x),
        respects_additions(v, accumulate_terms(st, x, terms, 0).graph.nodes),
    ensures
        accumulate_terms(st, x, terms, 0).grads.contains_key(x),
        v[accumulate_terms(st, x, terms, 0).grads[x]] == sum_of(v, terms),
{
    let xs = Seq::new(terms.len(), |k: int| x);
    let first = accumulate(st, xs[0], terms[0]);
    assert(accumulate_terms(st, x, terms, 0) == accumulate_terms(first, x, terms, 1));
    lemma_accumulate_terms_from(first, x, terms, 1, v);
    lemma_sum_unfolds(v, terms);
}

/// The accumulated gradient does not depend on the order in which its
/// terms arrive: two accumulations of the same terms, each as often, into
/// an identifier without a gradient give gradients of equal worth under
/// every valuation that respects the addition nodes of both graphs.
pub proof fn lemma_gradient_independent_of_order(
    st1: GradState,
    st2: GradState,
    x: Id,
    terms1: Seq<Id>,
    terms2: Seq<Id>,
    v: Map<Id, int>,
)
    requires
        terms1.len() > 0,
        terms1.to_multiset() == terms2.to_multiset(),
        !st1.grads.contains_key(x),
        !st2.grads.contains_key(x),
        respects_additions(v, accumulate_terms(st1, x, terms1, 0).graph.nodes),
        respects_additions(v, accumulate_terms(st2, x, terms2, 0).graph.nodes),
    ensures
        v[accumulate_terms(st1, x, terms1, 0).grads[x]] == v[accumulate_terms(
            st2,
            x,
            terms2,
            0,
        ).grads[x]],
{
    broadcast use vstd::seq_lib::group_to_multiset_ensures;

    assert(terms2.len() > 0) by {
        assert(terms1.to_multiset().len() == terms1.len());
        assert(terms2.to_multiset().len() == terms2.len());
    }
    lemma_gradient_is_sum_of_terms(st1, x, terms1, v);
    lemma_gradient_is_sum_of_terms(st2, x, terms2, v);
    assert(vstd::seq_lib::commutative_foldr(adding(v)));
    lemma_fold_right_permutation(terms1, terms2, adding(v), 0int);
}

/// Folding from a starting total adds that total to the sum.
proof fn lemma_sum_from(v: Map<Id, int>, terms: Seq<Id>, start: int)
    ensures
        terms.fold_right(adding(v), start) == start + sum_of(v, terms),
    decreases terms.len(),
{
    if terms.len() > 0 {
        lemma_sum_from(v, terms.drop_last(), start + v[terms.last()]);
        lemma_sum_from(v, terms.drop_last(), 0 + v[terms.last()]);
    }
}

/// The sum of two sequences of terms, one after the other, is the sum of
/// their sums.
pub proof fn lemma_sum_of_concat(v: Map<Id, int>, first: Seq<Id>, second: Seq<Id>)
    ensures
        sum_of(v, first + second) == sum_of(v, first) + sum_of(v, second),
    decreases second.len(),
{
    if second.len() == 0 {
        assert(first + second =~= first);
    } else {
        let whole = first + second;
        assert(whole.drop_last() =~= first + second.drop_last());
        assert(whole.last() == second.last());
        lemma_sum_from(v, whole.drop_last(), 0 + v[second.last()]);
        lemma_sum_from(v, second.drop_last(), 0 + v[second.last()]);
        lemma_sum_of_concat(v, first, second.drop_last());
    }
}

/// The terms that an accumulation hands to `x`, from position `i` on, in
/// order.
pub open spec fn parts_for(x: Id, inputs: Seq<Id>, parts: Seq<Id>, i: int) -> Seq<Id>
    decreases inputs.len() - i,
{
    if i < 0 || i >= inputs.len() || i >= parts.len() {
        Seq::empty()
    } else if inputs[i] == x {
        seq![parts[i]] + parts_for(x, inputs, parts, i + 1)
    } else {
        parts_for(x, inputs, parts, i + 1)
    }
}

/// The terms that one step of the backward walk hands to `x`.
pub open spec fn step_terms(st: GradState, node: Node, x: Id) -> Seq<Id> {
    if !st.grads.contains_key(node.out) {
        Seq::empty()
    } else {
        match vjp_spec(node, st.graph, seq![st.grads[node.out]]).1 {
            Some(parts) => parts_for(x, node.inputs, parts, 0),
            None => Seq::empty(),
        }
    }
}

/// The terms that the backward walk over the first `n` nodes of
/// `snapshot` hands to `x`, in the order of their arrival. A node that
/// reads `x` in two places hands it two terms.
pub open spec fn walk_terms(st: GradState, snapshot: Seq<Node>, n: int, x: Id) -> Seq<Id>
    decreases n,
{
    if n <= 0 {
        Seq::empty()
    } else {
        step_terms(st, snapshot[n - 1], x) + walk_terms(
            backward_step(st, snapshot[n - 1]),
            snapshot,
            n - 1,
            x,
        )
    }
}

/// What accumulation has made of the gradient of `x`, given what it was
/// before and the terms handed to `x` since: nothing if there was nothing
/// and no term came, else the sum of what there was and of the terms.
pub open spec fn gradient_holds(
    before: GradState,
    after: GradState,
    x: Id,
    terms: Seq<Id>,
    v: Map<Id, int>,
) -> bool {
    if before.grads.contains_key(x) {
        after.grads.contains_key(x) && v[after.grads[x]] == v[before.grads[x]] + sum_of(v, terms)
    } else if terms.len() == 0 {
        !after.grads.contains_key(x)
    } else {
        after.grads.contains_key(x) && v[after.grads[x]] == sum_of(v, terms)
    }
}

/// A valuation that respects the additions of a graph respects those of
/// every graph that the graph extends.
proof fn lemma_respects_prefix(v: Map<Id, int>, longer: Seq<Node>, shorter: Seq<Node>)
    requires
        respects_additions(v, longer),
        extends(longer, shorter),
    ensures
        respects_additions(v, shorter),
{
    assert forall|i: int| 0 <= i < shorter.len() && (#[trigger] shorter[i]).kind is Add implies v[shorter[i].out]
        == v[shorter[i].inputs[0]] + v[shorter[i].inputs[1]] by {
        assert(longer[i] == shorter[i]);
    }
}

/// Accumulating the parts of one rule gives `x` the sum of the parts
/// handed to it.
proof fn lemma_accumulate_all_sums(
    st: GradState,
    inputs: Seq<Id>,
    parts: Seq<Id>,
    i: int,
    x: Id,
    v: Map<Id, int>,
)
    requires
        0 <= i,
        respects_additions(v, accumulate_all(st, inputs, parts, i).graph.nodes),
    ensures
        gradient_holds(
            st,
            accumulate_all(st, inputs, parts, i),
            x,
            parts_for(x, inputs, parts, i),
            v,
        ),
    decreases inputs.len() - i,
{
    if i < inputs.len() && i < parts.len() {
        let next = accumulate(st, inputs[i], parts[i]);
        let last = accumulate_all(st, inputs, parts, i);
        let rest = parts_for(x, inputs, parts, i + 1);
        assert(last == accumulate_all(next, inputs, parts, i + 1));
        lemma_accumulate_all_extends(next, inputs, parts, i + 1);
        lemma_respects_prefix(v, last.graph.nodes, next.graph.nodes);
        lemma_accumulate_all_sums(next, inputs, parts, i + 1, x, v);
        if inputs[i] == x {
            let terms = seq![parts[i]] + rest;
            assert(terms[0] == parts[i]);
            assert(terms.skip(1) =~= rest);
            lemma_sum_unfolds(v, terms);
            if st.grads.contains_key(x) {
                lemma_accumulate_adds(st, x, parts[i], v);
            }
        }
    }
}

/// One step of the backward walk gives `x` the sum of the terms that the
/// step hands to it.
proof fn lemma_step_sums(st: GradState, node: Node, x: Id, v: Map<Id, int>)
    requires
        respects_additions(v, backward_step(st, node).graph.nodes),
    ensures
        gradient_holds(st, backward_step(st, node), x, step_terms(st, node, x), v),
{
    if st.grads.contains_key(node.out) {
        let (graph, parts) = vjp_spec(node, st.graph, seq![st.grads[node.out]]);
        match parts {
            Some(parts) => {
                let grown = GradState { graph, grads: st.grads };
                lemma_accumulate_all_sums(grown, node.inputs, parts, 0, x, v);
            },
            None => {},
        }
    }
}

/// The backward walk gives `x` the sum of the terms that arrive for it:
/// under every valuation that respects the addition nodes of the graph,
/// the gradient of `x` after the walk is worth what it was worth before
/// plus the sum of the terms, and `x` has no gradient if it had none and
/// no term arrived.
pub proof fn lemma_walk_sums(st: GradState, snapshot: Seq<Node>, n: int, x: Id, v: Map<Id, int>)
    requires
        respects_additions(v, backward(st, snapshot, n).graph.nodes),
    ensures
        gradient_holds(st, backward(st, snapshot, n), x, walk_terms(st, snapshot, n, x), v),
    decreases n,
{
    if n > 0 {
        let node = snapshot[n - 1];
        let next = backward_step(st, node);
        let last = backward(st, snapshot, n);
        let now = step_terms(st, node, x);
        let later = walk_terms(next, snapshot, n - 1, x);
        assert(last == backward(next, snapshot, n - 1));
        lemma_backward_extends(next, snapshot, n - 1);
        lemma_respects_prefix(v, last.graph.nodes, next.graph.nodes);
        lemma_step_sums(st, node, x, v);
        lemma_walk_sums(next, snapshot, n - 1, x, v);
        lemma_sum_of_concat(v, now, later);
        if now.len() == 0 {
            assert(now + later =~= later);
        }
        if later.len() == 0 {
            assert(now + later =~= now);
        }
    }
}

/// What differentiation records for an input is the sum of the terms
/// that reach it: under every valuation that respects the addition nodes
/// of the gradient graph, the `k`-th output of the gradient function, if
/// any term arrives for the `k`-th input, is worth the sum of those
/// terms. By `lemma_fold_right_permutation` that sum is the same for
/// every order of arrival.
pub proof fn lemma_grad_records_sum(f: TraceableModel, k: int, v: Map<Id, int>)
    requires
        f.outputs.len() > 0,
        0 <= k < f.inputs.len(),
        f.inputs[k] != objective_id(f),
        respects_additions(v, grad_spec(f).graph.nodes),
        walk_terms(
            objective(f),
            objective(f).graph.nodes,
            objective(f).graph.nodes.len() as int,
            f.inputs[k],
        ).len() > 0,
    ensures
        v[grad_spec(f).outputs[k]] == sum_of(
            v,
            walk_terms(
                objective(f),
                objective(f).graph.nodes,
                objective(f).graph.nodes.len() as int,
                f.inputs[k],
            ),
        ),
{
    let start = objective(f);
    let n = start.graph.nodes.len() as int;
    let walked = backward(start, start.graph.nodes, n);
    lemma_collect_extends(walked.graph, walked.grads, f.inputs, 0, Seq::empty());
    lemma_respects_prefix(v, grad_spec(f).graph.nodes, walked.graph.nodes);
    lemma_walk_sums(start, start.graph.nodes, n, f.inputs[k], v);
    assert(!start.grads.contains_key(f.inputs[k]));
    lemma_collect_reads(walked.graph, walked.grads, f.inputs, 0, Seq::empty());
}

/// Gathering reads, for an input that has a gradient, that gradient.
pub proof fn lemma_collect_reads(
    g: GraphModel,
    grads: Map<Id, Id>,
    inputs: Seq<Id>,
    i: int,
    outs: Seq<Id>,
)
    requires
        0 <= i <= inputs.len(),
        outs.len() == i,
        forall|k: int| 0 <= k < i && grads.contains_key(inputs[k]) ==> #[trigger] outs[k] == grads[inputs[k]],
    ensures
        forall|k: int|
            0 <= k < inputs.len() && grads.contains_key(inputs[k]) ==> #[trigger] collect(
                g,
                grads,
                inputs,
                i,
                outs,
            ).1[k] == grads[inputs[k]],
    decreases inputs.len() - i,
{
    let whole = collect(g, grads, inputs, i, outs);
    if i < inputs.len() {
        if grads.contains_key(inputs[i]) {
            let more = outs.push(grads[inputs[i]]);
            assert(whole == collect(g, grads, inputs, i + 1, more));
            assert forall|k: int| 0 <= k < i + 1 && grads.contains_key(inputs[k]) implies #[trigger] more[k]
                == grads[inputs[k]] by {
                if k < i {
                    assert(outs[k] == grads[inputs[k]]);
                }
            }
            lemma_collect_reads(g, grads, inputs, i + 1, more);
        } else {
            let next = g.record(Kind::Const(ZERO), Seq::empty());
            let more = outs.push(g.pool.next());
            assert(whole == collect(next, grads, inputs, i + 1, more));
            assert forall|k: int| 0 <= k < i + 1 && grads.contains_key(inputs[k]) implies #[trigger] more[k]
                == grads[inputs[k]] by {
                if k < i {
                    assert(outs[k] == grads[inputs[k]]);
                }
            }
            lemma_collect_reads(next, grads, inputs, i + 1, more);
        }
    } else {
        assert(whole == (g, outs));
    }
}

} // verus!
