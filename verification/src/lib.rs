//! Reverse-mode automatic differentiation over a recorded tensor program.
//!
//! A program is recorded through a [`TraceSession`] as a [`Graph`]: an
//! append-only list of operation records, each naming its inputs and its
//! output by identifiers. A [`TraceableFn`] packages a graph with its
//! declared inputs and outputs. It can be differentiated, which gives
//! another traced function whose graph extends a copy of the first, and it
//! can be evaluated.
//!
//! The library works on identifiers and shapes only. Evaluation decides,
//! for every node, which routine of a dense backend computes its value,
//! with which axes and to which shape, and rejects programs whose shapes do
//! not fit; the backend then carries the plan out on numbers. Scalar
//! constants travel through the graph as bit patterns of binary64 numbers.
//!
//! What is proved of differentiation: the gradient graph is exactly the
//! one that the backward walk over the nodes describes; it begins with the
//! nodes it was derived from, stays in evaluation order, never reuses an
//! identifier, accumulates the gradient of a shared value as the sum of
//! its terms, and gives a constant zero to inputs that the outputs do not
//! depend on. What is proved of shapes: broadcasting and reduction,
//! reduction and re-insertion of axes, reshaping and transposition undo
//! each other.

pub mod context;
pub mod graph;
pub mod identity;
pub mod ops;
pub mod shape;
pub mod tracing;

use vstd::prelude::*;

pub use crate::graph::Graph;
use crate::graph::GraphModel;
use crate::identity::IdPool;
pub use crate::identity::Id;
pub use crate::tracing::{Tensor, TraceSession, TraceableFn, Tracer};

verus! {

/// The graph that a trace starts from: no nodes, no identifier issued.
pub open spec fn empty_graph() -> GraphModel {
    GraphModel { nodes: Seq::empty(), pool: IdPool { counter: 0, free: Seq::empty() } }
}

/// Builds a traced function: runs `builder` once on a session over an
/// empty graph and packages the graph that the session holds afterwards
/// with the inputs and the output that `builder` returns.
pub fn trace_fn<F>(builder: F) -> (traced: TraceableFn)
    where F: FnOnce(&mut TraceSession) -> (Vec<Id>, Tracer)
    requires
        forall|session: &mut TraceSession|
            session.graph() == empty_graph() ==> call_requires(builder, (session,)),
    ensures
        exists|session: &mut TraceSession, output: Tracer|
            #![trigger call_ensures(builder, (session,), (traced.inputs, output))]
            {
                &&& session.graph() == empty_graph()
                &&& call_ensures(builder, (session,), (traced.inputs, output))
                &&& traced.graph@ == final(session).graph()
                &&& traced.outputs@ == seq![output@]
            },
{
    let mut g = Graph::new();
    let mut sess = TraceSession::new(&mut g);
    let (inputs, output) = builder(&mut sess);
    let graph = sess.take_graph();
    TraceableFn::new(graph, inputs, output)
}

} // verus!
