//! Scalar constants.

use vstd::prelude::*;

use crate::graph::Graph;
use crate::identity::Id;
use crate::ops::{opt_view, simple_plan, vjp_spec, Kernel, Kind, Node, Plan};

verus! {

/// Bit pattern of the binary64 number one.
pub const ONE: u64 = 0x3FF0_0000_0000_0000;

/// Bit pattern of the binary64 number zero.
pub const ZERO: u64 = 0;

/// A scalar constant. The graph carries its value as the bit pattern of a
/// binary64 number; the backend turns it into a rank-0 tensor of its own
/// element type.
#[derive(Debug, Clone, Copy)]
pub struct Const {
    pub value: u64,
    pub out: Id,
}

impl View for Const {
    type V = Node;

    open spec fn view(&self) -> Node {
        Node { kind: Kind::Const(self.value), inputs: Seq::empty(), out: self.out }
    }
}

impl Const {
    pub fn new(value: u64, out: Id) -> (op: Const)
        ensures
            op.value == value,
            op.out == out,
    {
        Const { value, out }
    }

    pub fn boxed(value: u64, out: Id) -> (op: Box<Const>)
        ensures
            op.value == value,
            op.out == out,
    {
        Box::new(Const::new(value, out))
    }

    pub fn name(&self) -> (name: &'static str)
        ensures
            name@ == "const"@,
    {
        "const"
    }

    pub fn inputs(&self) -> (ids: Vec<Id>)
        ensures
            ids@ == self@.inputs,
    {
        Vec::new()
    }

    pub fn outputs(&self) -> (ids: Vec<Id>)
        ensures
            ids@ == seq![self@.out],
    {
        vec![self.out]
    }

    /// Shape rule: a constant is a tensor without axes.
    pub fn plan(&self) -> (plan: Plan)
        ensures
            plan@ == simple_plan(Kernel::Scalar(self.value), Seq::empty()),
    {
        Plan::simple(Kernel::Scalar(self.value), Vec::new())
    }

    /// A constant does not depend on anything: no gradient flows.
    pub fn vjp(&self, g: &mut Graph, out_grads: &[Id]) -> (grads: Option<Vec<Id>>)
        ensures
            (final(g)@, opt_view(grads)) == vjp_spec(self@, old(g)@, out_grads@),
    {
        proof {
            assert(old(g)@.nodes + Seq::<Node>::empty() =~= old(g)@.nodes);
        }
        None
    }
}

} // verus!
