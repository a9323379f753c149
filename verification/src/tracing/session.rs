//! The builder that records operations into a graph.

use vstd::prelude::*;

use crate::graph::{Graph, GraphModel};
use crate::identity::Id;
use crate::ops::{
    Add, Broadcast, Const, Div, Exp, Input, Kind, Log, MatMul, Max, Mean, Mul, Neg, Op, ReLU,
    Reshape, Sub, Sum, Transpose, TransposeDefault,
};
use crate::shape::descending;
use crate::tracing::tracer::Tracer;

verus! {

/// A builder over a graph. Each primitive has a method that allocates the
/// identifier of its result, appends the operation record and returns a
/// placeholder for the result.
pub struct TraceSession<'graph> {
    pub g: &'graph mut Graph,
}

impl<'graph> TraceSession<'graph> {
    /// The graph as the session has built it so far.
    pub open spec fn graph(&self) -> GraphModel {
        (*self.g)@
    }

    pub fn new(g: &'graph mut Graph) -> (session: TraceSession<'graph>)
        ensures
            session.graph() == old(g)@,
            *final(session.g) == *final(g),
    {
        TraceSession { g }
    }

    /// Hands out the graph as the session has built it, leaving an empty
    /// graph behind.
    pub fn take_graph(&mut self) -> (graph: Graph)
        ensures
            graph@ == old(self).graph(),
    {
        let mut taken = Graph::new();
        core::mem::swap(&mut *self.g, &mut taken);
        taken
    }

    /// Appends `op` and returns a placeholder for `out`.
    pub fn emit(&mut self, op: Op, out: Id) -> (tracer: Tracer)
        ensures
            tracer@ == out,
            final(self).graph().nodes == old(self).graph().nodes.push(op@),
            final(self).graph().pool == old(self).graph().pool,
            *final(final(self).g) == *final(old(self).g),
    {
        self.g.push(op);
        Tracer::new(out)
    }

    /// Declares the next parameter of the function being traced.
    pub fn input(&mut self) -> (tracer: Tracer)
        requires
            old(self).graph().pool.headroom() > 0,
        ensures
            tracer@ == old(self).graph().pool.next(),
            *final(final(self).g) == *final(old(self).g),
            final(self).graph() == old(self).graph().record(Kind::Input, Seq::empty()),
    {
        let out: Id = self.g.fresh();
        self.emit(Op::Input(Input::new(out)), out)
    }

    /// Records a scalar constant, given as the bit pattern of a binary64
    /// number.
    pub fn constant(&mut self, value: u64) -> (tracer: Tracer)
        requires
            old(self).graph().pool.headroom() > 0,
        ensures
            tracer@ == old(self).graph().pool.next(),
            *final(final(self).g) == *final(old(self).g),
            final(self).graph() == old(self).graph().record(Kind::Const(value), Seq::empty()),
    {
        let out: Id = self.g.fresh();
        self.emit(Op::Const(Const::new(value, out)), out)
    }

    pub fn add(&mut self, a: Tracer, b: Tracer) -> (tracer: Tracer)
        requires
            old(self).graph().pool.headroom() > 0,
        ensures
            tracer@ == old(self).graph().pool.next(),
            *final(final(self).g) == *final(old(self).g),
            final(self).graph() == old(self).graph().record(Kind::Add, seq![a@, b@]),
    {
        let out: Id = self.g.fresh();
        self.emit(Op::Add(Add::new(a.id(), b.id(), out)), out)
    }

    pub fn sub(&mut self, a: Tracer, b: Tracer) -> (tracer: Tracer)
        requires
            old(self).graph().pool.headroom() > 0,
        ensures
            tracer@ == old(self).graph().pool.next(),
            *final(final(self).g) == *final(old(self).g),
            final(self).graph() == old(self).graph().record(Kind::Sub, seq![a@, b@]),
    {
        let out: Id = self.g.fresh();
        self.emit(Op::Sub(Sub::new(a.id(), b.id(), out)), out)
    }

    pub fn mul(&mut self, a: Tracer, b: Tracer) -> (tracer: Tracer)
        requires
            old(self).graph().pool.headroom() > 0,
        ensures
            tracer@ == old(self).graph().pool.next(),
            *final(final(self).g) == *final(old(self).g),
            final(self).graph() == old(self).graph().record(Kind::Mul, seq![a@, b@]),
    {
        let out: Id = self.g.fresh();
        self.emit(Op::Mul(Mul::new(a.id(), b.id(), out)), out)
    }

    pub fn div(&mut self, a: Tracer, b: Tracer) -> (tracer: Tracer)
        requires
            old(self).graph().pool.headroom() > 0,
        ensures
            tracer@ == old(self).graph().pool.next(),
            *final(final(self).g) == *final(old(self).g),
            final(self).graph() == old(self).graph().record(Kind::Div, seq![a@, b@]),
    {
        let out: Id = self.g.fresh();
        self.emit(Op::Div(Div::new(a.id(), b.id(), out)), out)
    }

    pub fn neg(&mut self, a: Tracer) -> (tracer: Tracer)
        requires
            old(self).graph().pool.headroom() > 0,
        ensures
            tracer@ == old(self).graph().pool.next(),
            *final(final(self).g) == *final(old(self).g),
            final(self).graph() == old(self).graph().record(Kind::Neg, seq![a@]),
    {
        let out: Id = self.g.fresh();
        self.emit(Op::Neg(Neg::new(a.id(), out)), out)
    }

    pub fn exp(&mut self, a: Tracer) -> (tracer: Tracer)
        requires
            old(self).graph().pool.headroom() > 0,
        ensures
            tracer@ == old(self).graph().pool.next(),
            *final(final(self).g) == *final(old(self).g),
            final(self).graph() == old(self).graph().record(Kind::Exp, seq![a@]),
    {
        let out: Id = self.g.fresh();
        self.emit(Op::Exp(Exp::new(a.id(), out)), out)
    }

    pub fn log(&mut self, a: Tracer) -> (tracer: Tracer)
        requires
            old(self).graph().pool.headroom() > 0,
        ensures
            tracer@ == old(self).graph().pool.next(),
            *final(final(self).g) == *final(old(self).g),
            final(self).graph() == old(self).graph().record(Kind::Log, seq![a@]),
    {
        let out: Id = self.g.fresh();
        self.emit(Op::Log(Log::new(a.id(), out)), out)
    }

    pub fn relu(&mut self, a: Tracer) -> (tracer: Tracer)
        requires
            old(self).graph().pool.headroom() > 0,
        ensures
            tracer@ == old(self).graph().pool.next(),
            *final(final(self).g) == *final(old(self).g),
            final(self).graph() == old(self).graph().record(Kind::ReLU, seq![a@]),
    {
        let out: Id = self.g.fresh();
        self.emit(Op::ReLU(ReLU::new(a.id(), out)), out)
    }

    pub fn matmul(&mut self, a: Tracer, b: Tracer) -> (tracer: Tracer)
        requires
            old(self).graph().pool.headroom() > 0,
        ensures
            tracer@ == old(self).graph().pool.next(),
            *final(final(self).g) == *final(old(self).g),
            final(self).graph() == old(self).graph().record(Kind::MatMul, seq![a@, b@]),
    {
        let out: Id = self.g.fresh();
        self.emit(Op::MatMul(MatMul::new(a.id(), b.id(), out)), out)
    }

    /// Records a transpose of the last two axes.
    pub fn t(&mut self, a: Tracer) -> (tracer: Tracer)
        requires
            old(self).graph().pool.headroom() > 0,
        ensures
            tracer@ == old(self).graph().pool.next(),
            *final(final(self).g) == *final(old(self).g),
            final(self).graph() == old(self).graph().record(Kind::TransposeDefault, seq![a@]),
    {
        let out: Id = self.g.fresh();
        self.emit(Op::TransposeDefault(TransposeDefault::new(a.id(), out)), out)
    }

    pub fn transpose(&mut self, a: Tracer, a1: usize, a2: usize) -> (tracer: Tracer)
        requires
            old(self).graph().pool.headroom() > 0,
        ensures
            tracer@ == old(self).graph().pool.next(),
            *final(final(self).g) == *final(old(self).g),
            final(self).graph() == old(self).graph().record(Kind::Transpose(a1, a2), seq![a@]),
    {
        let out: Id = self.g.fresh();
        self.emit(Op::Transpose(Transpose::new(a.id(), out, a1, a2)), out)
    }

    pub fn reshape(&mut self, t: Tracer, shape: Vec<usize>) -> (tracer: Tracer)
        requires
            old(self).graph().pool.headroom() > 0,
        ensures
            tracer@ == old(self).graph().pool.next(),
            *final(final(self).g) == *final(old(self).g),
            final(self).graph() == old(self).graph().record(Kind::Reshape(shape@), seq![t@]),
    {
        let out: Id = self.g.fresh();
        self.emit(Op::Reshape(Reshape::new(t.id(), out, shape)), out)
    }

    pub fn broadcast(&mut self, t: Tracer, shape: Vec<usize>) -> (tracer: Tracer)
        requires
            old(self).graph().pool.headroom() > 0,
        ensures
            tracer@ == old(self).graph().pool.next(),
            *final(final(self).g) == *final(old(self).g),
            final(self).graph() == old(self).graph().record(Kind::Broadcast(shape@), seq![t@]),
    {
        let out: Id = self.g.fresh();
        self.emit(Op::Broadcast(Broadcast::new(t.id(), out, shape)), out)
    }

    pub fn sum(&mut self, a: Tracer, axis: Vec<usize>, keep_dims: bool) -> (tracer: Tracer)
        requires
            old(self).graph().pool.headroom() > 0,
        ensures
            tracer@ == old(self).graph().pool.next(),
            *final(final(self).g) == *final(old(self).g),
            final(self).graph() == old(self).graph().record(
                Kind::Sum(descending(axis@), keep_dims),
                seq![a@],
            ),
    {
        let out: Id = self.g.fresh();
        self.emit(Op::Sum(Sum::new(a.id(), out, axis, keep_dims)), out)
    }

    pub fn mean(&mut self, a: Tracer, axis: Vec<usize>, keep_dims: bool) -> (tracer: Tracer)
        requires
            old(self).graph().pool.headroom() > 0,
        ensures
            tracer@ == old(self).graph().pool.next(),
            *final(final(self).g) == *final(old(self).g),
            final(self).graph() == old(self).graph().record(
                Kind::Mean(descending(axis@), keep_dims),
                seq![a@],
            ),
    {
        let out: Id = self.g.fresh();
        self.emit(Op::Mean(Mean::new(a.id(), out, axis, keep_dims)), out)
    }

    pub fn max(&mut self, a: Tracer, axis: Vec<usize>, keep_dims: bool) -> (tracer: Tracer)
        requires
            old(self).graph().pool.headroom() > 0,
        ensures
            tracer@ == old(self).graph().pool.next(),
            *final(final(self).g) == *final(old(self).g),
            final(self).graph() == old(self).graph().record(
                Kind::Max(descending(axis@), keep_dims),
                seq![a@],
            ),
    {
        let out: Id = self.g.fresh();
        self.emit(Op::Max(Max::new(a.id(), out, axis, keep_dims)), out)
    }
}

} // verus!
