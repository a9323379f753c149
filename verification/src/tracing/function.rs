//! Traced functions: forward evaluation on shapes and reverse-mode
//! differentiation.

use vstd::prelude::*;

use crate::context::Context;
use crate::graph::{ready, well_ordered, Graph, GraphModel};
use crate::identity::{Id, IdPool};
use crate::ops::constant::{ONE, ZERO};
use crate::ops::{
    eval_node, shape_map, shapes_view, vjp_cost, vjp_spec, Add, Const, EvalError, Kind, Node, Op,
    Plan, PlanModel, ShapeError, Sum,
};
use crate::shape::{ascending, copied, descending, leq, representable, size_of};
use crate::tracing::consistency::lemma_grad_keeps_consistent;
use crate::tracing::extension::{extends, lemma_grad_extends};
use crate::tracing::ordering::lemma_grad_keeps_order;
use crate::tracing::tracer::Tracer;

verus! {

/// Mathematical model of a [`TraceableFn`].
pub struct TraceableModel {
    pub graph: GraphModel,
    pub inputs: Seq<Id>,
    pub outputs: Seq<Id>,
}

impl TraceableModel {
    /// Every node has as many inputs as its kind reads.
    pub open spec fn well_formed(self) -> bool {
        forall|i: int| 0 <= i < self.graph.nodes.len() ==> (#[trigger] self.graph.nodes[i]).well_formed()
    }

    /// The node sequence is an order of evaluation: every identifier that
    /// a node reads is a declared input or is produced by an earlier node,
    /// and every declared output is a declared input or is produced by
    /// some node.
    pub open spec fn well_ordered(self) -> bool {
        &&& well_ordered(self.graph.nodes, self.inputs.to_set())
        &&& forall|k: int|
            0 <= k < self.outputs.len() ==> ready(
                self.graph.nodes,
                self.inputs.to_set(),
                #[trigger] self.outputs[k],
            )
    }
}

/// A finished graph with its declared inputs and outputs, in order.
#[derive(Debug)]
pub struct TraceableFn {
    pub graph: Graph,
    pub inputs: Vec<Id>,
    pub outputs: Vec<Id>,
}

impl View for TraceableFn {
    type V = TraceableModel;

    open spec fn view(&self) -> TraceableModel {
        TraceableModel { graph: self.graph@, inputs: self.inputs@, outputs: self.outputs@ }
    }
}

/// Mathematical model of an [`Evaluation`].
pub struct EvaluationModel {
    pub plans: Seq<PlanModel>,
    pub outputs: Seq<Seq<usize>>,
}

/// What a forward evaluation on shapes finds: for each node of the graph,
/// in order, what the backend has to do, and the shape of each declared
/// output.
#[derive(Debug)]
pub struct Evaluation {
    pub plans: Vec<Plan>,
    pub outputs: Vec<Vec<usize>>,
}

impl View for Evaluation {
    type V = EvaluationModel;

    open spec fn view(&self) -> EvaluationModel {
        EvaluationModel {
            plans: self.plans@.map_values(|p: Plan| p@),
            outputs: shapes_view(self.outputs@),
        }
    }
}

/// Binds the arguments from the `i`-th on to the declared inputs at the
/// same positions; a later binding of an identifier replaces an earlier
/// one.
pub open spec fn bind(
    ctx: Map<Id, Seq<usize>>,
    inputs: Seq<Id>,
    args: Seq<Seq<usize>>,
    i: int,
) -> Map<Id, Seq<usize>>
    decreases inputs.len() - i,
{
    if i < 0 || i >= inputs.len() || i >= args.len() {
        ctx
    } else {
        bind(ctx.insert(inputs[i], args[i]), inputs, args, i + 1)
    }
}

/// Evaluates the nodes from the `i`-th on, in order, starting from the
/// bindings `ctx`; gives the plans behind `plans` and the bindings at the
/// end, or the first error.
pub open spec fn run(
    nodes: Seq<Node>,
    i: int,
    ctx: Map<Id, Seq<usize>>,
    plans: Seq<PlanModel>,
) -> Result<(Seq<PlanModel>, Map<Id, Seq<usize>>), EvalError>
    decreases nodes.len() - i,
{
    if i < 0 || i >= nodes.len() {
        Ok((plans, ctx))
    } else {
        match eval_node(nodes[i], ctx) {
            Ok((plan, after)) => run(nodes, i + 1, after, plans.push(plan)),
            Err(e) => Err(e),
        }
    }
}

/// Reads the shapes bound to the outputs from the `i`-th on behind
/// `shapes`, or names the first output that nothing is bound to.
pub open spec fn gather(
    ctx: Map<Id, Seq<usize>>,
    outputs: Seq<Id>,
    i: int,
    shapes: Seq<Seq<usize>>,
) -> Result<Seq<Seq<usize>>, EvalError>
    decreases outputs.len() - i,
{
    if i < 0 || i >= outputs.len() {
        Ok(shapes)
    } else if !ctx.contains_key(outputs[i]) {
        Err(EvalError::MissingBinding(outputs[i]))
    } else {
        gather(ctx, outputs, i + 1, shapes.push(ctx[outputs[i]]))
    }
}

/// Forward evaluation of `f` on arguments of the shapes `args`: there
/// must be one argument for each declared input, each of a shape that a
/// tensor can have; the arguments are bound to the inputs, every node is
/// evaluated in graph order, and the shapes bound to the declared outputs
/// are read.
pub open spec fn eval_spec(f: TraceableModel, args: Seq<Seq<usize>>) -> Result<
    EvaluationModel,
    EvalError,
> {
    if args.len() != f.inputs.len() {
        Err(EvalError::Arity)
    } else if exists|k: int| 0 <= k < args.len() && !representable(#[trigger] args[k]) {
        Err(EvalError::Shape(ShapeError::TooLarge))
    } else {
        match run(f.graph.nodes, 0, bind(Map::empty(), f.inputs, args, 0), Seq::empty()) {
            Err(e) => Err(e),
            Ok((plans, ctx)) => match gather(ctx, f.outputs, 0, Seq::empty()) {
                Err(e) => Err(e),
                Ok(outputs) => Ok(EvaluationModel { plans, outputs }),
            },
        }
    }
}

pub open spec fn evaluation_view(r: Result<Evaluation, EvalError>) -> Result<
    EvaluationModel,
    EvalError,
> {
    match r {
        Ok(evaluation) => Ok(evaluation@),
        Err(e) => Err(e),
    }
}

/// State of a differentiation under way: the graph as extended so far and
/// the gradient accumulated for each identifier reached.
pub struct GradState {
    pub graph: GraphModel,
    pub grads: Map<Id, Id>,
}

/// Folds the declared outputs from the `i`-th on into `acc` by pairwise
/// addition; gives the extended graph and the identifier of the total.
pub open spec fn fold_outputs(g: GraphModel, acc: Id, outputs: Seq<Id>, i: int) -> (GraphModel, Id)
    decreases outputs.len() - i,
{
    if i < 0 || i >= outputs.len() {
        (g, acc)
    } else {
        fold_outputs(g.record(Kind::Add, seq![acc, outputs[i]]), g.pool.next(), outputs, i + 1)
    }
}

/// The identifier of the scalar that is differentiated: the sum of all
/// elements of all declared outputs.
pub open spec fn objective_id(f: TraceableModel) -> Id {
    fold_outputs(f.graph, f.outputs[0], f.outputs, 1).0.pool.next()
}

/// The state in which the backward walk starts: the graph extended by the
/// nodes that fold the outputs and sum them to a scalar and by a constant
/// one, which is the gradient of that scalar.
pub open spec fn objective(f: TraceableModel) -> GradState {
    let (folded, total) = fold_outputs(f.graph, f.outputs[0], f.outputs, 1);
    let summed = folded.record(Kind::Sum(Seq::empty(), false), seq![total]);
    let seeded = summed.record(Kind::Const(ONE), Seq::empty());
    GradState {
        graph: seeded,
        grads: Map::<Id, Id>::empty().insert(folded.pool.next(), summed.pool.next()),
    }
}

/// Adds the contribution `part` to the gradient of `inp`: the first
/// contribution is stored as it is, each later one is added to what is
/// there by a new addition node.
pub open spec fn accumulate(st: GradState, inp: Id, part: Id) -> GradState {
    if st.grads.contains_key(inp) {
        GradState {
            graph: st.graph.record(Kind::Add, seq![st.grads[inp], part]),
            grads: st.grads.insert(inp, st.graph.pool.next()),
        }
    } else {
        GradState { graph: st.graph, grads: st.grads.insert(inp, part) }
    }
}

/// Accumulates `parts`, from the `i`-th on, into the gradients of the
/// inputs at the same positions; a position that only one of the two has
/// is left out.
pub open spec fn accumulate_all(st: GradState, inputs: Seq<Id>, parts: Seq<Id>, i: int) -> GradState
    decreases inputs.len() - i,
{
    if i < 0 || i >= inputs.len() || i >= parts.len() {
        st
    } else {
        accumulate_all(accumulate(st, inputs[i], parts[i]), inputs, parts, i + 1)
    }
}

/// One step of the backward walk: a node whose output has no gradient is
/// passed over; otherwise its gradient rule runs on the gradient of its
/// output and what it returns is accumulated into its inputs.
pub open spec fn backward_step(st: GradState, node: Node) -> GradState {
    if !st.grads.contains_key(node.out) {
        st
    } else {
        let (graph, parts) = vjp_spec(node, st.graph, seq![st.grads[node.out]]);
        match parts {
            Some(parts) => accumulate_all(
                GradState { graph, grads: st.grads },
                node.inputs,
                parts,
                0,
            ),
            None => GradState { graph, grads: st.grads },
        }
    }
}

/// The backward walk over the first `n` nodes of `snapshot`, last node
/// first.
pub open spec fn backward(st: GradState, snapshot: Seq<Node>, n: int) -> GradState
    decreases n,
{
    if n <= 0 {
        st
    } else {
        backward(backward_step(st, snapshot[n - 1]), snapshot, n - 1)
    }
}

/// Gathers the gradient of each declared input from the `i`-th on behind
/// `outs`; an input that no gradient has reached gets a new constant zero.
pub open spec fn collect(
    g: GraphModel,
    grads: Map<Id, Id>,
    inputs: Seq<Id>,
    i: int,
    outs: Seq<Id>,
) -> (GraphModel, Seq<Id>)
    decreases inputs.len() - i,
{
    if i < 0 || i >= inputs.len() {
        (g, outs)
    } else if grads.contains_key(inputs[i]) {
        collect(g, grads, inputs, i + 1, outs.push(grads[inputs[i]]))
    } else {
        collect(
            g.record(Kind::Const(ZERO), Seq::empty()),
            grads,
            inputs,
            i + 1,
            outs.push(g.pool.next()),
        )
    }
}

/// The function that computes, for each declared input of `f`, the
/// gradient of the sum of all elements of the outputs of `f`.
pub open spec fn grad_spec(f: TraceableModel) -> TraceableModel {
    let start = objective(f);
    let walked = backward(start, start.graph.nodes, start.graph.nodes.len() as int);
    let (graph, outputs) = collect(walked.graph, walked.grads, f.inputs, 0, Seq::empty());
    TraceableModel { graph, inputs: f.inputs, outputs }
}

/// Identifiers that a differentiation of `f` may allocate at most: twelve
/// for each node it walks and one for each declared input and output.
pub open spec fn grad_budget(f: TraceableModel) -> nat {
    (12 * (f.graph.nodes.len() + f.outputs.len() + 1) + f.outputs.len() + 1
        + f.inputs.len()) as nat
}

/// Sorting no axes gives no axes.
pub proof fn lemma_descending_empty()
    ensures
        descending(Seq::<usize>::empty()) == Seq::<usize>::empty(),
{
    let none = Seq::<usize>::empty();
    assert(vstd::relations::total_ordering(leq()));
    none.lemma_sort_by_ensures(leq());
    assert(ascending(none).to_multiset().len() == none.to_multiset().len());
    none.to_multiset_ensures();
    ascending(none).to_multiset_ensures();
    assert(ascending(none) =~= none);
    assert(descending(none) =~= none);
}

/// Adds the contribution `part` to the gradient accumulated for `inp`.
pub fn accumulate_gradient(g: &mut Graph, gradients: &mut Context<Id>, inp: Id, part: Id)
    requires
        old(g)@.pool.headroom() > 0,
    ensures
        (GradState { graph: final(g)@, grads: final(gradients)@ }) == accumulate(
            GradState { graph: old(g)@, grads: old(gradients)@ },
            inp,
            part,
        ),
        final(g)@.pool.headroom() >= old(g)@.pool.headroom() - 1,
{
    proof {
        reveal_with_fuel(IdPool::skip, 2);
        old(g)@.pool.lemma_skip_headroom(1);
    }
    let existing: Option<Id> = match gradients.get(&inp) {
        Some(id) => Some(*id),
        None => None,
    };
    match existing {
        Some(existing) => {
            let out: Id = g.fresh();
            g.push(Op::Add(Add::new(existing, part, out)));
            gradients.insert(inp, out);
        },
        None => {
            gradients.insert(inp, part);
        },
    }
}

impl TraceableFn {
    /// Packages a graph with its declared inputs and its single output.
    pub fn new(graph: Graph, inputs: Vec<Id>, output: Tracer) -> (traced: TraceableFn)
        ensures
            traced.graph == graph,
            traced.inputs == inputs,
            traced.outputs@ == seq![output@],
    {
        TraceableFn { graph, inputs, outputs: vec![output.id()] }
    }

    /// Forward evaluation on shapes. `args` holds the shape of each
    /// argument, in the order of the declared inputs. The result tells the
    /// backend what to compute for each node and what shape each output
    /// has, or why the function cannot be evaluated on such arguments.
    pub fn eval(&self, args: &Vec<Vec<usize>>) -> (evaluation: Result<Evaluation, EvalError>)
        ensures
            evaluation_view(evaluation) == eval_spec(self@, shapes_view(args@)),
    {
        let arity: usize = self.inputs.len();
        if args.len() != arity {
            return Err(EvalError::Arity);
        }
        let ghost given = shapes_view(args@);
        assert(given.len() == args@.len());
        let mut ctx: Context<Vec<usize>> = Context::new();
        assert(shape_map(ctx@) =~= Map::<Id, Seq<usize>>::empty());
        let mut i: usize = 0;
        while i < arity
            invariant
                arity == self.inputs@.len(),
                arity == args@.len(),
                given == shapes_view(args@),
                0 <= i <= arity,
                forall|k: int| 0 <= k < i ==> representable(#[trigger] given[k]),
                bind(Map::empty(), self.inputs@, given, 0) == bind(
                    shape_map(ctx@),
                    self.inputs@,
                    given,
                    i as int,
                ),
            decreases arity - i,
        {
            if size_of(args[i].as_slice()).is_none() {
                assert(!representable(given[i as int]));
                return Err(EvalError::Shape(ShapeError::TooLarge));
            }
            let ghost before = shape_map(ctx@);
            ctx.insert(self.inputs[i], copied(args[i].as_slice()));
            assert(shape_map(ctx@) =~= before.insert(self.inputs@[i as int], given[i as int]));
            i += 1;
        }
        let ghost bound = shape_map(ctx@);
        assert(bound == bind(Map::empty(), self.inputs@, given, 0));
        assert(!exists|k: int| 0 <= k < given.len() && !representable(#[trigger] given[k]));
        let ghost whole = eval_spec(self@, given);
        assert(whole == match run(self.graph@.nodes, 0, bound, Seq::empty()) {
            Err(e) => Err(e),
            Ok((plans, ctx)) => match gather(ctx, self.outputs@, 0, Seq::empty()) {
                Err(e) => Err(e),
                Ok(outputs) => Ok(EvaluationModel { plans, outputs }),
            },
        });
        let mut plans: Vec<Plan> = Vec::new();
        let count: usize = self.graph.len();
        let mut n: usize = 0;
        assert(plans@.map_values(|p: Plan| p@) =~= Seq::<PlanModel>::empty());
        while n < count
            invariant
                count == self.graph@.nodes.len(),
                0 <= n <= count,
                whole == eval_spec(self@, shapes_view(args@)),
                whole == match run(self.graph@.nodes, 0, bound, Seq::empty()) {
                    Err(e) => Err(e),
                    Ok((plans, ctx)) => match gather(ctx, self.outputs@, 0, Seq::empty()) {
                        Err(e) => Err(e),
                        Ok(outputs) => Ok(EvaluationModel { plans, outputs }),
                    },
                },
                run(self.graph@.nodes, 0, bound, Seq::empty()) == run(
                    self.graph@.nodes,
                    n as int,
                    shape_map(ctx@),
                    plans@.map_values(|p: Plan| p@),
                ),
            decreases count - n,
        {
            let ghost so_far = plans@.map_values(|p: Plan| p@);
            match self.graph.node(n).eval(&mut ctx) {
                Ok(plan) => {
                    plans.push(plan);
                    assert(plans@.map_values(|p: Plan| p@) =~= so_far.push(plan@));
                },
                Err(e) => {
                    return Err(e);
                },
            }
            n += 1;
        }
        let ghost last = shape_map(ctx@);
        let ghost planned = plans@.map_values(|p: Plan| p@);
        assert(run(self.graph@.nodes, 0, bound, Seq::empty()) == Ok::<
            (Seq<PlanModel>, Map<Id, Seq<usize>>),
            EvalError,
        >((planned, last)));
        let mut outputs: Vec<Vec<usize>> = Vec::new();
        let results: usize = self.outputs.len();
        let mut j: usize = 0;
        assert(shapes_view(outputs@) =~= Seq::<Seq<usize>>::empty());
        while j < results
            invariant
                results == self.outputs@.len(),
                0 <= j <= results,
                last == shape_map(ctx@),
                planned == plans@.map_values(|p: Plan| p@),
                whole == eval_spec(self@, shapes_view(args@)),
                whole == match gather(last, self.outputs@, 0, Seq::empty()) {
                    Err(e) => Err(e),
                    Ok(outputs) => Ok(EvaluationModel { plans: planned, outputs }),
                },
                gather(last, self.outputs@, 0, Seq::empty()) == gather(
                    last,
                    self.outputs@,
                    j as int,
                    shapes_view(outputs@),
                ),
            decreases results - j,
        {
            let ghost so_far = shapes_view(outputs@);
            match ctx.get(&self.outputs[j]) {
                Some(shape) => {
                    outputs.push(copied(shape.as_slice()));
                    assert(shapes_view(outputs@) =~= so_far.push(last[self.outputs@[j as int]]));
                },
                None => {
                    return Err(EvalError::MissingBinding(self.outputs[j]));
                },
            }
            j += 1;
        }
        Ok(Evaluation { plans, outputs })
    }

    /// Reverse-mode differentiation. The result has the inputs of `self`
    /// and one output for each of them: the gradient, with respect to that
    /// input, of the sum of all elements of the outputs of `self`. Its
    /// graph extends a copy of the graph of `self`, which is left as it
    /// is.
    pub fn grad(&self) -> (derivative: TraceableFn)
        requires
            self.outputs@.len() > 0,
            self.graph@.pool.headroom() >= grad_budget(self@),
        ensures
            derivative@ == grad_spec(self@),
            derivative@.inputs == self@.inputs,
            derivative@.outputs.len() == self@.inputs.len(),
            extends(derivative@.graph.nodes, self@.graph.nodes),
            self@.well_ordered() ==> derivative@.well_ordered(),
            self@.graph.consistent() ==> derivative@.graph.consistent(),
    {
        proof {
            lemma_grad_extends(self@);
            if self@.graph.consistent() {
                lemma_grad_keeps_consistent(self@);
            }
            self.graph.lemma_nodes_well_formed();
            if self@.well_ordered() {
                lemma_grad_keeps_order(self@);
            }
        }
        let mut g: Graph = self.graph.clone();
        let mut final_output_id: Id = self.outputs[0];
        let count: usize = self.outputs.len();
        let mut i: usize = 1;
        while i < count
            invariant
                count == self.outputs@.len(),
                1 <= i <= count,
                fold_outputs(self.graph@, self.outputs@[0], self.outputs@, 1) == fold_outputs(
                    g@,
                    final_output_id,
                    self.outputs@,
                    i as int,
                ),
                g@.nodes.len() == self.graph@.nodes.len() + i - 1,
                g@.pool.headroom() >= grad_budget(self@) - (i - 1),
            decreases count - i,
        {
            let new_sum_id: Id = g.fresh();
            g.push(Op::Add(Add::new(final_output_id, self.outputs[i], new_sum_id)));
            final_output_id = new_sum_id;
            i += 1;
        }
        let scalar_output_id: Id = g.fresh();
        proof {
            lemma_descending_empty();
        }
        g.push(Op::Sum(Sum::new(final_output_id, scalar_output_id, Vec::new(), false)));
        let mut gradients: Context<Id> = Context::new();
        let seed: Id = g.fresh();
        g.push(Op::Const(Const::new(ONE, seed)));
        gradients.insert(scalar_output_id, seed);
        let vjp_nodes: Graph = g.clone();
        let ghost start = GradState { graph: g@, grads: gradients@ };
        assert(start == objective(self@));
        let ghost snapshot = vjp_nodes@.nodes;
        let mut n: usize = vjp_nodes.len();
        while n > 0
            invariant
                snapshot == vjp_nodes@.nodes,
                snapshot == start.graph.nodes,
                snapshot.len() == self.graph@.nodes.len() + self.outputs@.len() + 1,
                0 <= n <= snapshot.len(),
                backward(start, snapshot, snapshot.len() as int) == backward(
                    GradState { graph: g@, grads: gradients@ },
                    snapshot,
                    n as int,
                ),
                g@.pool.headroom() >= 12 * n + self.inputs@.len(),
            decreases n,
        {
            n -= 1;
            let node: &Op = vjp_nodes.node(n);
            let out: Id = node.out();
            let reached: Option<Id> = match gradients.get(&out) {
                Some(id) => Some(*id),
                None => None,
            };
            if let Some(out_grad) = reached {
                let out_grads: Vec<Id> = vec![out_grad];
                let ghost before = g@;
                proof {
                    assert(vjp_cost(node@.kind) <= 10);
                    before.pool.lemma_skip_headroom(vjp_cost(node@.kind));
                }
                let parts: Option<Vec<Id>> = node.vjp(&mut g, out_grads.as_slice());
                if let Some(inp_grad) = parts {
                    let ins: Vec<Id> = node.inputs();
                    let ghost entered = GradState { graph: g@, grads: gradients@ };
                    let mut k: usize = 0;
                    while k < ins.len() && k < inp_grad.len()
                        invariant
                            0 <= k <= inp_grad@.len(),
                            inp_grad@.len() <= 2,
                            accumulate_all(entered, ins@, inp_grad@, 0) == accumulate_all(
                                GradState { graph: g@, grads: gradients@ },
                                ins@,
                                inp_grad@,
                                k as int,
                            ),
                            g@.pool.headroom() >= 12 * n + self.inputs@.len() + 2 - k,
                        decreases ins@.len() - k,
                    {
                        accumulate_gradient(&mut g, &mut gradients, ins[k], inp_grad[k]);
                        k += 1;
                    }
                }
            }
        }
        let mut grads_out: Vec<Id> = Vec::new();
        let arity: usize = self.inputs.len();
        let ghost walked = GradState { graph: g@, grads: gradients@ };
        let mut j: usize = 0;
        while j < arity
            invariant
                arity == self.inputs@.len(),
                0 <= j <= arity,
                walked.grads == gradients@,
                collect(walked.graph, walked.grads, self.inputs@, 0, Seq::empty()) == collect(
                    g@,
                    gradients@,
                    self.inputs@,
                    j as int,
                    grads_out@,
                ),
                g@.pool.headroom() >= arity - j,
            decreases arity - j,
        {
            let reached: Option<Id> = match gradients.get(&self.inputs[j]) {
                Some(id) => Some(*id),
                None => None,
            };
            match reached {
                Some(id) => {
                    grads_out.push(id);
                },
                None => {
                    let z: Id = g.fresh();
                    g.push(Op::Const(Const::new(ZERO, z)));
                    grads_out.push(z);
                },
            }
            j += 1;
        }
        TraceableFn { graph: g, inputs: copied(self.inputs.as_slice()), outputs: grads_out }
    }
}

} // verus!
