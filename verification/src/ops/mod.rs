//! The primitive catalog: operation records, their gradient rules and
//! their shape rules.

pub mod add;
pub mod broadcast;
pub mod constant;
pub mod div;
pub mod exp;
pub mod gradient_shapes;
pub mod input;
pub mod log;
pub mod matmul;
pub mod max;
pub mod mean;
pub mod mul;
pub mod neg;
pub mod relu;
pub mod reshape;
pub mod sub;
pub mod sum;
pub mod transpose;

use vstd::prelude::*;

pub use add::Add;
pub use broadcast::{Broadcast, BroadcastLike};
pub use constant::Const;
pub use div::Div;
pub use exp::Exp;
pub use input::Input;
pub use log::Log;
pub use matmul::MatMul;
pub use max::{Max, MaxGradMask};
pub use mean::Mean;
pub use mul::Mul;
pub use neg::Neg;
pub use relu::{ReLU, ReLUGradMask};
pub use reshape::{Reshape, ReshapeLike};
pub use sub::Sub;
pub use sum::{ReduceToLike, ReshapeForBroadcast, Sum};
pub use transpose::{Transpose, TransposeDefault};

use crate::context::Context;
use crate::graph::{Graph, GraphModel};
use crate::identity::Id;
use crate::shape::{
    broadcast_of, broadcast_shapes_spec, broadcastable, copied, dim_from_end, dims_agree, max_len,
    merged_dim, representable, size_of, ReduceStep,
};

verus! {

/// Primitive kind of a node together with its static parameters.
pub enum Kind {
    Input,
    /// A scalar constant, given as the bit pattern of a binary64 number.
    Const(u64),
    Add,
    Sub,
    Mul,
    Div,
    Neg,
    Exp,
    Log,
    ReLU,
    ReLUGradMask,
    MatMul,
    TransposeDefault,
    Transpose(usize, usize),
    Reshape(Seq<usize>),
    ReshapeLike,
    Broadcast(Seq<usize>),
    BroadcastLike,
    Sum(Seq<usize>, bool),
    Mean(Seq<usize>, bool),
    Max(Seq<usize>, bool),
    ReduceToLike,
    ReshapeForBroadcast(Seq<usize>, bool),
    MaxGradMask,
}

/// Mathematical model of an operation record.
pub struct Node {
    pub kind: Kind,
    pub inputs: Seq<Id>,
    pub out: Id,
}

/// Why an evaluation cannot proceed on the shapes it was given.
#[derive(Debug, Clone, Copy, PartialEq, Eq, Structural)]
pub enum ShapeError {
    /// Two shapes have no common broadcast shape, or a tensor cannot be
    /// stretched to the requested shape.
    Broadcast,
    /// A gradient has fewer axes than the tensor it is reduced to.
    ReduceRank,
    /// An aligned pair of extents differs although the target's is not one.
    ReduceDim,
    /// A reshape would change the number of elements.
    Reshape,
    /// The contracted extents of a matrix product differ.
    MatMulInner,
    /// A batched matrix product got an operand with fewer than two axes.
    MatMulRank,
    /// An axis does not exist in the tensor it is applied to.
    Axis,
    /// The operands of an equality mask differ in shape.
    Mask,
    /// The result would have more elements than can be addressed.
    TooLarge,
}

/// Why an evaluation stopped.
#[derive(Debug, Clone, Copy, PartialEq, Eq, Structural)]
pub enum EvalError {
    /// The number of arguments differs from the number of declared inputs.
    Arity,
    /// A node reads, or the function returns, an identifier that nothing
    /// has been bound to.
    MissingBinding(Id),
    /// The shapes reaching a node do not fit its rule.
    Shape(ShapeError),
}

/// How the backend multiplies two tensors.
#[derive(Debug, Clone, Copy, PartialEq, Eq, Structural)]
pub enum MatMulKind {
    /// One operand is a scalar: elementwise product.
    Scale,
    /// Vector by vector: inner product, a scalar.
    Dot,
    /// Vector by matrix.
    VecMat,
    /// Matrix by vector.
    MatVec,
    /// Matrix by matrix.
    MatMat,
    /// `batch` independent products of an `m`-by-`k` and a `k`-by-`n`
    /// matrix, after both operands are stretched to the common batch shape.
    Batched { batch: usize, m: usize, k: usize, n: usize },
}

/// The backend routine that computes a node's value.
#[derive(Debug, Clone, Copy, PartialEq, Eq, Structural)]
pub enum Kernel {
    /// Nothing to compute: the value is supplied by the caller.
    Load,
    /// A rank-0 tensor holding the number with this bit pattern.
    Scalar(u64),
    Add,
    Sub,
    Mul,
    Div,
    Neg,
    Exp,
    Log,
    Relu,
    /// One where the input is positive, zero elsewhere.
    ReluMask,
    /// One where both inputs are equal, zero elsewhere.
    EqualMask,
    MatMul(MatMulKind),
    /// The first input, unchanged.
    Copy,
    SwapAxes(usize, usize),
    /// The first input, reshaped to the planned shape.
    Reshape,
    /// The first input, stretched to the planned shape.
    Broadcast,
    /// Sum of all elements, a scalar.
    SumAll,
    /// Sum along each planned step in turn.
    SumAxes,
    /// Sum along each planned step in turn, divided by the given count.
    MeanAxes(usize),
    /// Maximum along each planned step in turn.
    MaxAxes,
}

/// Mathematical model of a [`Plan`].
pub struct PlanModel {
    pub kernel: Kernel,
    pub steps: Seq<ReduceStep>,
    pub shape: Seq<usize>,
    pub operands: Seq<Seq<usize>>,
}

/// What the backend has to do for one node, and the shape of what comes out.
#[derive(Debug)]
pub struct Plan {
    /// The routine that computes the value.
    pub kernel: Kernel,
    /// The reductions that a reducing kernel makes, in order.
    pub steps: Vec<ReduceStep>,
    /// The shape of the value.
    pub shape: Vec<usize>,
    /// The shapes that the inputs are stretched to before the kernel runs,
    /// in input order; empty where the kernel takes its inputs as they
    /// are.
    pub operands: Vec<Vec<usize>>,
}

impl View for Plan {
    type V = PlanModel;

    open spec fn view(&self) -> PlanModel {
        PlanModel {
            kernel: self.kernel,
            steps: self.steps@,
            shape: self.shape@,
            operands: shapes_view(self.operands@),
        }
    }
}

/// A plan of reduction steps on the input as it is.
pub open spec fn reduction_plan(kernel: Kernel, steps: Seq<ReduceStep>, shape: Seq<usize>) -> PlanModel {
    PlanModel { kernel, steps, shape, operands: Seq::empty() }
}

/// A plan without reduction steps, on the inputs as they are.
pub open spec fn simple_plan(kernel: Kernel, shape: Seq<usize>) -> PlanModel {
    reduction_plan(kernel, Seq::empty(), shape)
}

impl Plan {
    /// A plan of reduction steps on the input as it is.
    pub fn reduction(kernel: Kernel, steps: Vec<ReduceStep>, shape: Vec<usize>) -> (plan: Plan)
        ensures
            plan@ == reduction_plan(kernel, steps@, shape@),
    {
        let plan = Plan { kernel, steps, shape, operands: Vec::new() };
        assert(shapes_view(plan.operands@) =~= Seq::<Seq<usize>>::empty());
        plan
    }

    /// A plan without reduction steps, on the inputs as they are.
    pub fn simple(kernel: Kernel, shape: Vec<usize>) -> (plan: Plan)
        ensures
            plan@ == simple_plan(kernel, shape@),
    {
        Plan::reduction(kernel, Vec::new(), shape)
    }
}

/// Plan of an elementwise binary kernel on operands of shapes `x` and `y`.
pub open spec fn elementwise_plan(kernel: Kernel, x: Seq<usize>, y: Seq<usize>) -> Result<
    PlanModel,
    ShapeError,
> {
    match broadcast_shapes_spec(x, y) {
        Some(shape) => Ok(simple_plan(kernel, shape)),
        None => Err(ShapeError::Broadcast),
    }
}

pub open spec fn plan_view(plan: Result<Plan, ShapeError>) -> Result<PlanModel, ShapeError> {
    match plan {
        Ok(plan) => Ok(plan@),
        Err(e) => Err(e),
    }
}

pub open spec fn plan_view_of(plan: Result<Plan, EvalError>) -> Option<PlanModel> {
    match plan {
        Ok(plan) => Some(plan@),
        Err(_) => None,
    }
}

pub open spec fn opt_view<T>(v: Option<Vec<T>>) -> Option<Seq<T>> {
    match v {
        Some(v) => Some(v@),
        None => None,
    }
}

/// The common shape of `a` and `b` under broadcasting, aligned at the last
/// axis, or `None` if some aligned pair of extents differs with neither
/// being one.
pub fn broadcast_shapes(a: &[usize], b: &[usize]) -> (shape: Option<Vec<usize>>)
    ensures
        opt_view(shape) == broadcast_shapes_spec(a@, b@),
{
    let n: usize = if a.len() >= b.len() { a.len() } else { b.len() };
    let mut result: Vec<usize> = Vec::new();
    let mut j: usize = 0;
    while j < n
        invariant
            n == max_len(a@, b@),
            0 <= j <= n,
            result@.len() == j,
            forall|k: int|
                0 <= k < j ==> #[trigger] result@[k] == merged_dim(
                    dim_from_end(a@, n - 1 - k),
                    dim_from_end(b@, n - 1 - k),
                ),
            forall|k: int|
                0 <= k < j ==> dims_agree(
                    #[trigger] dim_from_end(a@, n - 1 - k),
                    dim_from_end(b@, n - 1 - k),
                ),
        decreases n - j,
    {
        let i: usize = n - 1 - j;
        let dim_a: usize = if i < a.len() { a[a.len() - 1 - i] } else { 1 };
        let dim_b: usize = if i < b.len() { b[b.len() - 1 - i] } else { 1 };
        assert(dim_a == dim_from_end(a@, i as int));
        assert(dim_b == dim_from_end(b@, i as int));
        if dim_a == dim_b || dim_a == 1 {
            result.push(dim_b);
        } else if dim_b == 1 {
            result.push(dim_a);
        } else {
            assert(!broadcastable(a@, b@));
            return None;
        }
        j += 1;
    }
    proof {
        assert forall|i: int| 0 <= i < max_len(a@, b@) implies dims_agree(
            #[trigger] dim_from_end(a@, i),
            dim_from_end(b@, i),
        ) by {
            let k = n - 1 - i;
            assert(dim_from_end(a@, n - 1 - k) == dim_from_end(a@, i));
        }
        assert(result@ =~= broadcast_of(a@, b@));
    }
    Some(result)
}

/// An operation record of any primitive kind.
#[derive(Debug)]
pub enum Op {
    Input(Input),
    Const(Const),
    Add(Add),
    Sub(Sub),
    Mul(Mul),
    Div(Div),
    Neg(Neg),
    Exp(Exp),
    Log(Log),
    ReLU(ReLU),
    ReLUGradMask(ReLUGradMask),
    MatMul(MatMul),
    TransposeDefault(TransposeDefault),
    Transpose(Transpose),
    Reshape(Reshape),
    ReshapeLike(ReshapeLike),
    Broadcast(Broadcast),
    BroadcastLike(BroadcastLike),
    Sum(Sum),
    Mean(Mean),
    Max(Max),
    ReduceToLike(ReduceToLike),
    ReshapeForBroadcast(ReshapeForBroadcast),
    MaxGradMask(MaxGradMask),
}

impl View for Op {
    type V = Node;

    open spec fn view(&self) -> Node {
        match self {
            Op::Input(op) => op@,
            Op::Const(op) => op@,
            Op::Add(op) => op@,
            Op::Sub(op) => op@,
            Op::Mul(op) => op@,
            Op::Div(op) => op@,
            Op::Neg(op) => op@,
            Op::Exp(op) => op@,
            Op::Log(op) => op@,
            Op::ReLU(op) => op@,
            Op::ReLUGradMask(op) => op@,
            Op::MatMul(op) => op@,
            Op::TransposeDefault(op) => op@,
            Op::Transpose(op) => op@,
            Op::Reshape(op) => op@,
            Op::ReshapeLike(op) => op@,
            Op::Broadcast(op) => op@,
            Op::BroadcastLike(op) => op@,
            Op::Sum(op) => op@,
            Op::Mean(op) => op@,
            Op::Max(op) => op@,
            Op::ReduceToLike(op) => op@,
            Op::ReshapeForBroadcast(op) => op@,
            Op::MaxGradMask(op) => op@,
        }
    }
}

/// The name under which a primitive of this kind is displayed.
pub open spec fn name_of(kind: Kind) -> Seq<char> {
    match kind {
        Kind::Input => "input"@,
        Kind::Const(_) => "const"@,
        Kind::Add => "add"@,
        Kind::Sub => "sub"@,
        Kind::Mul => "mul"@,
        Kind::Div => "div"@,
        Kind::Neg => "neg"@,
        Kind::Exp => "exp"@,
        Kind::Log => "log"@,
        Kind::ReLU => "relu"@,
        Kind::ReLUGradMask => "relu_mask"@,
        Kind::MatMul => "matmul"@,
        Kind::TransposeDefault => "transpose_default"@,
        Kind::Transpose(_, _) => "transpose"@,
        Kind::Reshape(_) => "reshape"@,
        Kind::ReshapeLike => "reshape_like"@,
        Kind::Broadcast(_) => "broadcast"@,
        Kind::BroadcastLike => "broadcast_like"@,
        Kind::Sum(_, _) => "sum"@,
        Kind::Mean(_, _) => "mean"@,
        Kind::Max(_, _) => "max"@,
        Kind::ReduceToLike => "reduce_to_like"@,
        Kind::ReshapeForBroadcast(_, _) => "reshape_for_broadcast"@,
        Kind::MaxGradMask => "max_mask"@,
    }
}

/// Number of inputs that an operation of this kind reads.
pub open spec fn arity(kind: Kind) -> nat {
    match kind {
        Kind::Input | Kind::Const(_) => 0,
        Kind::Add | Kind::Sub | Kind::Mul | Kind::Div | Kind::MatMul => 2,
        Kind::ReshapeLike | Kind::BroadcastLike | Kind::ReduceToLike | Kind::MaxGradMask => 2,
        _ => 1,
    }
}

impl Node {
    /// The node has as many inputs as its kind reads.
    pub open spec fn well_formed(self) -> bool {
        self.inputs.len() == arity(self.kind)
    }
}

/// Number of identifiers that the gradient rule of a node of this kind
/// allocates; it appends as many nodes.
pub open spec fn vjp_cost(kind: Kind) -> nat {
    match kind {
        Kind::Input | Kind::Const(_) | Kind::Add => 0,
        Kind::ReLUGradMask | Kind::MaxGradMask | Kind::ReshapeForBroadcast(_, _) => 0,
        Kind::Neg | Kind::TransposeDefault | Kind::Transpose(_, _) => 1,
        Kind::Reshape(_) | Kind::ReshapeLike => 1,
        Kind::Broadcast(_) | Kind::BroadcastLike | Kind::ReduceToLike => 1,
        Kind::Mul | Kind::Exp | Kind::ReLU | Kind::Sum(_, _) => 2,
        Kind::Sub | Kind::Log => 3,
        Kind::MatMul => 4,
        Kind::Div => 6,
        Kind::Mean(axes, _) => mean::mean_vjp_cost(axes),
        Kind::Max(axes, _) => max::max_vjp_cost(axes),
    }
}

/// The nodes that the gradient rule of `node` appends, given the gradient
/// `og` of its output and the identifiers `ids` it allocates.
pub open spec fn vjp_block(node: Node, og: Id, ids: Seq<Id>) -> Seq<Node> {
    match node.kind {
        Kind::Input | Kind::Const(_) | Kind::Add => Seq::empty(),
        Kind::ReLUGradMask | Kind::MaxGradMask | Kind::ReshapeForBroadcast(_, _) => Seq::empty(),
        Kind::Sub => sub::sub_vjp(node.inputs[0], node.inputs[1], og, ids),
        Kind::Mul => mul::mul_vjp(node.inputs[0], node.inputs[1], og, ids),
        Kind::Div => div::div_vjp(node.inputs[0], node.inputs[1], og, ids),
        Kind::Neg => neg::neg_vjp(og, ids),
        Kind::Exp => exp::exp_vjp(node.inputs[0], og, ids),
        Kind::Log => log::log_vjp(node.inputs[0], og, ids),
        Kind::ReLU => relu::relu_vjp(node.inputs[0], og, ids),
        Kind::MatMul => matmul::matmul_vjp(node.inputs[0], node.inputs[1], og, ids),
        Kind::TransposeDefault => transpose::transpose_default_vjp(og, ids),
        Kind::Transpose(a1, a2) => transpose::transpose_vjp(a1, a2, og, ids),
        Kind::Reshape(_) | Kind::ReshapeLike => reshape::reshape_vjp(node.inputs[0], og, ids),
        Kind::Broadcast(_) | Kind::BroadcastLike => broadcast::broadcast_vjp(
            node.inputs[0],
            og,
            ids,
        ),
        Kind::Sum(axes, keep) => sum::sum_vjp(node.inputs[0], axes, keep, og, ids),
        Kind::Mean(axes, keep) => mean::mean_vjp(node.inputs[0], axes, keep, og, ids),
        Kind::Max(axes, keep) => max::max_vjp(node.inputs[0], node.out, axes, keep, og, ids),
        Kind::ReduceToLike => sum::reduce_to_like_vjp(node.inputs[0], og, ids),
    }
}

/// The gradients that the rule of `node` hands to the node's inputs, in
/// input order, or `None` where no gradient flows. An input that only
/// lends its shape stands last and receives none.
pub open spec fn vjp_grads(node: Node, og: Id, ids: Seq<Id>) -> Option<Seq<Id>> {
    match node.kind {
        Kind::Input | Kind::Const(_) => None,
        Kind::ReLUGradMask | Kind::MaxGradMask | Kind::ReshapeForBroadcast(_, _) => None,
        Kind::Add => Some(seq![og, og]),
        Kind::Sub => Some(seq![ids[0], ids[2]]),
        Kind::Mul => Some(seq![ids[0], ids[1]]),
        Kind::Div => Some(seq![ids[2], ids[5]]),
        Kind::MatMul => Some(seq![ids[1], ids[3]]),
        Kind::Neg | Kind::TransposeDefault | Kind::Transpose(_, _) => Some(seq![ids[0]]),
        Kind::Reshape(_) | Kind::ReshapeLike => Some(seq![ids[0]]),
        Kind::Broadcast(_) | Kind::BroadcastLike | Kind::ReduceToLike => Some(seq![ids[0]]),
        Kind::Log => Some(seq![ids[0]]),
        Kind::Exp | Kind::ReLU | Kind::Sum(_, _) => Some(seq![ids[1]]),
        Kind::Mean(axes, _) => Some(seq![mean::mean_vjp_grad(axes, og, ids)]),
        Kind::Max(axes, _) => Some(seq![max::max_vjp_grad(axes, og, ids)]),
    }
}

/// Effect of a node's gradient rule on the graph, and the gradients it
/// returns. Without an output gradient nothing happens.
pub open spec fn vjp_spec(node: Node, g: GraphModel, out_grads: Seq<Id>) -> (
    GraphModel,
    Option<Seq<Id>>,
) {
    if out_grads.len() == 0 {
        (g, None)
    } else {
        let cost = vjp_cost(node.kind);
        let ids = g.pool.take(cost);
        (
            GraphModel {
                nodes: g.nodes + vjp_block(node, out_grads[0], ids),
                pool: g.pool.skip(cost),
            },
            vjp_grads(node, out_grads[0], ids),
        )
    }
}

/// What the backend has to do for `node` when its inputs have the shapes
/// `shapes`, in input order, or why it cannot be done.
pub open spec fn plan_of(node: Node, shapes: Seq<Seq<usize>>) -> Result<PlanModel, ShapeError> {
    match node.kind {
        Kind::Input => Ok(simple_plan(Kernel::Load, Seq::empty())),
        Kind::Const(bits) => Ok(simple_plan(Kernel::Scalar(bits), Seq::empty())),
        Kind::Add => elementwise_plan(Kernel::Add, shapes[0], shapes[1]),
        Kind::Sub => elementwise_plan(Kernel::Sub, shapes[0], shapes[1]),
        Kind::Mul => elementwise_plan(Kernel::Mul, shapes[0], shapes[1]),
        Kind::Div => elementwise_plan(Kernel::Div, shapes[0], shapes[1]),
        Kind::Neg => Ok(simple_plan(Kernel::Neg, shapes[0])),
        Kind::Exp => Ok(simple_plan(Kernel::Exp, shapes[0])),
        Kind::Log => Ok(simple_plan(Kernel::Log, shapes[0])),
        Kind::ReLU => Ok(simple_plan(Kernel::Relu, shapes[0])),
        Kind::ReLUGradMask => Ok(simple_plan(Kernel::ReluMask, shapes[0])),
        Kind::MatMul => matmul::matmul_plan(shapes[0], shapes[1]),
        Kind::TransposeDefault => Ok(transpose::transpose_default_plan(shapes[0])),
        Kind::Transpose(a1, a2) => transpose::transpose_plan(shapes[0], a1, a2),
        Kind::Reshape(target) => reshape::reshape_plan(shapes[0], target),
        Kind::ReshapeLike => reshape::reshape_plan(shapes[0], shapes[1]),
        Kind::Broadcast(target) => broadcast::broadcast_plan(shapes[0], target),
        Kind::BroadcastLike => broadcast::broadcast_plan(shapes[0], shapes[1]),
        Kind::Sum(axes, keep) => sum::sum_plan(shapes[0], axes, keep),
        Kind::Mean(axes, keep) => mean::mean_plan(shapes[0], axes, keep),
        Kind::Max(axes, keep) => sum::reduce_plan(Kernel::MaxAxes, shapes[0], axes, keep),
        Kind::ReduceToLike => sum::reduce_to_like_plan(shapes[0], shapes[1]),
        Kind::ReshapeForBroadcast(axes, keep) => sum::reshape_for_broadcast_plan(
            shapes[0],
            axes,
            keep,
        ),
        Kind::MaxGradMask => max::mask_plan(shapes[0], shapes[1]),
    }
}

/// The shapes bound in a context, as sequences.
pub open spec fn shape_map(ctx: Map<Id, Vec<usize>>) -> Map<Id, Seq<usize>> {
    ctx.map_values(|s: Vec<usize>| s@)
}

/// The first of `inputs` that `ctx` has no binding for.
pub open spec fn first_missing(inputs: Seq<Id>, ctx: Map<Id, Seq<usize>>) -> Option<Id>
    decreases inputs.len(),
{
    if inputs.len() == 0 {
        None
    } else if !ctx.contains_key(inputs[0]) {
        Some(inputs[0])
    } else {
        first_missing(inputs.skip(1), ctx)
    }
}

/// Forward rule of `node` on the shapes bound in `ctx`: the plan for the
/// backend and the bindings afterwards. Every input must be bound; the
/// shapes must fit the node's rule and the result must be a shape that a
/// tensor can have; then the result's shape is bound to the node's output.
/// An input node binds nothing: its value is bound before evaluation.
pub open spec fn eval_node(node: Node, ctx: Map<Id, Seq<usize>>) -> Result<
    (PlanModel, Map<Id, Seq<usize>>),
    EvalError,
> {
    match first_missing(node.inputs, ctx) {
        Some(id) => Err(EvalError::MissingBinding(id)),
        None => match plan_of(node, node.inputs.map_values(|id: Id| ctx[id])) {
            Err(e) => Err(EvalError::Shape(e)),
            Ok(plan) => if node.kind is Input {
                Ok((plan, ctx))
            } else if !representable(plan.shape) {
                Err(EvalError::Shape(ShapeError::TooLarge))
            } else {
                Ok((plan, ctx.insert(node.out, plan.shape)))
            },
        },
    }
}

/// The shapes held by `shapes`, as sequences.
pub open spec fn shapes_view(shapes: Seq<Vec<usize>>) -> Seq<Seq<usize>> {
    shapes.map_values(|s: Vec<usize>| s@)
}

impl Op {
    pub fn name(&self) -> (name: &'static str)
        ensures
            name@ == name_of(self@.kind),
    {
        match self {
            Op::Input(op) => op.name(),
            Op::Const(op) => op.name(),
            Op::Add(op) => op.name(),
            Op::Sub(op) => op.name(),
            Op::Mul(op) => op.name(),
            Op::Div(op) => op.name(),
            Op::Neg(op) => op.name(),
            Op::Exp(op) => op.name(),
            Op::Log(op) => op.name(),
            Op::ReLU(op) => op.name(),
            Op::ReLUGradMask(op) => op.name(),
            Op::MatMul(op) => op.name(),
            Op::TransposeDefault(op) => op.name(),
            Op::Transpose(op) => op.name(),
            Op::Reshape(op) => op.name(),
            Op::ReshapeLike(op) => op.name(),
            Op::Broadcast(op) => op.name(),
            Op::BroadcastLike(op) => op.name(),
            Op::Sum(op) => op.name(),
            Op::Mean(op) => op.name(),
            Op::Max(op) => op.name(),
            Op::ReduceToLike(op) => op.name(),
            Op::ReshapeForBroadcast(op) => op.name(),
            Op::MaxGradMask(op) => op.name(),
        }
    }

    /// The identifiers this operation reads, in declaration order.
    pub fn inputs(&self) -> (ids: Vec<Id>)
        ensures
            ids@ == self@.inputs,
    {
        match self {
            Op::Input(op) => op.inputs(),
            Op::Const(op) => op.inputs(),
            Op::Add(op) => op.inputs(),
            Op::Sub(op) => op.inputs(),
            Op::Mul(op) => op.inputs(),
            Op::Div(op) => op.inputs(),
            Op::Neg(op) => op.inputs(),
            Op::Exp(op) => op.inputs(),
            Op::Log(op) => op.inputs(),
            Op::ReLU(op) => op.inputs(),
            Op::ReLUGradMask(op) => op.inputs(),
            Op::MatMul(op) => op.inputs(),
            Op::TransposeDefault(op) => op.inputs(),
            Op::Transpose(op) => op.inputs(),
            Op::Reshape(op) => op.inputs(),
            Op::ReshapeLike(op) => op.inputs(),
            Op::Broadcast(op) => op.inputs(),
            Op::BroadcastLike(op) => op.inputs(),
            Op::Sum(op) => op.inputs(),
            Op::Mean(op) => op.inputs(),
            Op::Max(op) => op.inputs(),
            Op::ReduceToLike(op) => op.inputs(),
            Op::ReshapeForBroadcast(op) => op.inputs(),
            Op::MaxGradMask(op) => op.inputs(),
        }
    }

    /// The identifiers this operation writes.
    pub fn outputs(&self) -> (ids: Vec<Id>)
        ensures
            ids@ == seq![self@.out],
    {
        match self {
            Op::Input(op) => op.outputs(),
            Op::Const(op) => op.outputs(),
            Op::Add(op) => op.outputs(),
            Op::Sub(op) => op.outputs(),
            Op::Mul(op) => op.outputs(),
            Op::Div(op) => op.outputs(),
            Op::Neg(op) => op.outputs(),
            Op::Exp(op) => op.outputs(),
            Op::Log(op) => op.outputs(),
            Op::ReLU(op) => op.outputs(),
            Op::ReLUGradMask(op) => op.outputs(),
            Op::MatMul(op) => op.outputs(),
            Op::TransposeDefault(op) => op.outputs(),
            Op::Transpose(op) => op.outputs(),
            Op::Reshape(op) => op.outputs(),
            Op::ReshapeLike(op) => op.outputs(),
            Op::Broadcast(op) => op.outputs(),
            Op::BroadcastLike(op) => op.outputs(),
            Op::Sum(op) => op.outputs(),
            Op::Mean(op) => op.outputs(),
            Op::Max(op) => op.outputs(),
            Op::ReduceToLike(op) => op.outputs(),
            Op::ReshapeForBroadcast(op) => op.outputs(),
            Op::MaxGradMask(op) => op.outputs(),
        }
    }

    /// Symbolic vector-Jacobian product: appends to `g` the nodes that
    /// compute the gradient of each input from the gradient of the output
    /// and returns their identifiers.
    pub fn vjp(&self, g: &mut Graph, out_grads: &[Id]) -> (grads: Option<Vec<Id>>)
        requires
            old(g)@.pool.headroom() >= vjp_cost(self@.kind),
        ensures
            (final(g)@, opt_view(grads)) == vjp_spec(self@, old(g)@, out_grads@),
    {
        match self {
            Op::Input(op) => op.vjp(g, out_grads),
            Op::Const(op) => op.vjp(g, out_grads),
            Op::Add(op) => op.vjp(g, out_grads),
            Op::Sub(op) => op.vjp(g, out_grads),
            Op::Mul(op) => op.vjp(g, out_grads),
            Op::Div(op) => op.vjp(g, out_grads),
            Op::Neg(op) => op.vjp(g, out_grads),
            Op::Exp(op) => op.vjp(g, out_grads),
            Op::Log(op) => op.vjp(g, out_grads),
            Op::ReLU(op) => op.vjp(g, out_grads),
            Op::ReLUGradMask(op) => op.vjp(g, out_grads),
            Op::MatMul(op) => op.vjp(g, out_grads),
            Op::TransposeDefault(op) => op.vjp(g, out_grads),
            Op::Transpose(op) => op.vjp(g, out_grads),
            Op::Reshape(op) => op.vjp(g, out_grads),
            Op::ReshapeLike(op) => op.vjp(g, out_grads),
            Op::Broadcast(op) => op.vjp(g, out_grads),
            Op::BroadcastLike(op) => op.vjp(g, out_grads),
            Op::Sum(op) => op.vjp(g, out_grads),
            Op::Mean(op) => op.vjp(g, out_grads),
            Op::Max(op) => op.vjp(g, out_grads),
            Op::ReduceToLike(op) => op.vjp(g, out_grads),
            Op::ReshapeForBroadcast(op) => op.vjp(g, out_grads),
            Op::MaxGradMask(op) => op.vjp(g, out_grads),
        }
    }

    /// Every operation record has as many inputs as its kind reads.
    pub proof fn lemma_well_formed(self)
        ensures
            self@.well_formed(),
    {
    }

    /// The identifier this operation writes.
    pub fn out(&self) -> (id: Id)
        ensures
            id == self@.out,
    {
        let ids = self.outputs();
        ids[0]
    }

    /// Forward evaluation on shapes: reads the shapes of the inputs from
    /// `ctx`, plans the backend's work and binds the shape of the result.
    /// On an error `ctx` is left as it was.
    pub fn eval(&self, ctx: &mut Context<Vec<usize>>) -> (plan: Result<Plan, EvalError>)
        ensures
            match eval_node(self@, shape_map(old(ctx)@)) {
                Ok((planned, after)) => plan_view_of(plan) == Some(planned) && shape_map(
                    final(ctx)@,
                ) == after,
                Err(e) => plan == Err::<Plan, EvalError>(e) && final(ctx)@ == old(ctx)@,
            },
    {
        let ids: Vec<Id> = self.inputs();
        let mut shapes: Vec<Vec<usize>> = Vec::new();
        let n: usize = ids.len();
        let mut i: usize = 0;
        let ghost bound = shape_map(ctx@);
        assert(ids@.skip(0) =~= ids@);
        while i < n
            invariant
                n == ids@.len(),
                ids@ == self@.inputs,
                0 <= i <= n,
                *ctx == *old(ctx),
                bound == shape_map(ctx@),
                first_missing(ids@, bound) == first_missing(ids@.skip(i as int), bound),
                shapes@.len() == i,
                forall|k: int| 0 <= k < i ==> (#[trigger] shapes@[k])@ == bound[ids@[k]],
            decreases n - i,
        {
            assert(ids@.skip(i as int)[0] == ids@[i as int]);
            assert(ids@.skip(i as int).skip(1) =~= ids@.skip(i as int + 1));
            match ctx.get(&ids[i]) {
                Some(shape) => {
                    shapes.push(copied(shape.as_slice()));
                },
                None => {
                    return Err(EvalError::MissingBinding(ids[i]));
                },
            }
            i += 1;
        }
        assert(shapes_view(shapes@) =~= self@.inputs.map_values(|id: Id| bound[id]));
        let plan: Plan = match self.plan(&shapes) {
            Ok(plan) => plan,
            Err(e) => {
                return Err(EvalError::Shape(e));
            },
        };
        if let Op::Input(_) = self {
            return Ok(plan);
        }
        if size_of(plan.shape.as_slice()).is_none() {
            return Err(EvalError::Shape(ShapeError::TooLarge));
        }
        ctx.insert(self.out(), copied(plan.shape.as_slice()));
        assert(shape_map(ctx@) =~= bound.insert(self@.out, plan@.shape));
        Ok(plan)
    }

    /// Forward rule on shapes: what the backend has to do for this
    /// operation when its inputs have the shapes `shapes`, in input order.
    pub fn plan(&self, shapes: &Vec<Vec<usize>>) -> (plan: Result<Plan, ShapeError>)
        requires
            shapes@.len() == self@.inputs.len(),
        ensures
            plan_view(plan) == plan_of(self@, shapes_view(shapes@)),
    {
        match self {
            Op::Input(op) => Ok(op.plan()),
            Op::Const(op) => Ok(op.plan()),
            Op::Add(op) => op.plan(shapes[0].as_slice(), shapes[1].as_slice()),
            Op::Sub(op) => op.plan(shapes[0].as_slice(), shapes[1].as_slice()),
            Op::Mul(op) => op.plan(shapes[0].as_slice(), shapes[1].as_slice()),
            Op::Div(op) => op.plan(shapes[0].as_slice(), shapes[1].as_slice()),
            Op::Neg(op) => Ok(op.plan(shapes[0].as_slice())),
            Op::Exp(op) => Ok(op.plan(shapes[0].as_slice())),
            Op::Log(op) => Ok(op.plan(shapes[0].as_slice())),
            Op::ReLU(op) => Ok(op.plan(shapes[0].as_slice())),
            Op::ReLUGradMask(op) => Ok(op.plan(shapes[0].as_slice())),
            Op::MatMul(op) => op.plan(shapes[0].as_slice(), shapes[1].as_slice()),
            Op::TransposeDefault(op) => Ok(op.plan(shapes[0].as_slice())),
            Op::Transpose(op) => op.plan(shapes[0].as_slice()),
            Op::Reshape(op) => op.plan(shapes[0].as_slice()),
            Op::ReshapeLike(op) => op.plan(shapes[0].as_slice(), shapes[1].as_slice()),
            Op::Broadcast(op) => op.plan(shapes[0].as_slice()),
            Op::BroadcastLike(op) => op.plan(shapes[0].as_slice(), shapes[1].as_slice()),
            Op::Sum(op) => op.plan(shapes[0].as_slice()),
            Op::Mean(op) => op.plan(shapes[0].as_slice()),
            Op::Max(op) => op.plan(shapes[0].as_slice()),
            Op::ReduceToLike(op) => op.plan(shapes[0].as_slice(), shapes[1].as_slice()),
            Op::ReshapeForBroadcast(op) => op.plan(shapes[0].as_slice()),
            Op::MaxGradMask(op) => op.plan(shapes[0].as_slice(), shapes[1].as_slice()),
        }
    }
}

impl Clone for Op {
    fn clone(&self) -> (copy: Op)
        ensures
            copy@ == self@,
    {
        match self {
            Op::Input(op) => Op::Input(*op),
            Op::Const(op) => Op::Const(*op),
            Op::Add(op) => Op::Add(*op),
            Op::Sub(op) => Op::Sub(*op),
            Op::Mul(op) => Op::Mul(*op),
            Op::Div(op) => Op::Div(*op),
            Op::Neg(op) => Op::Neg(*op),
            Op::Exp(op) => Op::Exp(*op),
            Op::Log(op) => Op::Log(*op),
            Op::ReLU(op) => Op::ReLU(*op),
            Op::ReLUGradMask(op) => Op::ReLUGradMask(*op),
            Op::MatMul(op) => Op::MatMul(*op),
            Op::TransposeDefault(op) => Op::TransposeDefault(*op),
            Op::Transpose(op) => Op::Transpose(*op),
            Op::Reshape(op) => Op::Reshape(op.clone()),
            Op::ReshapeLike(op) => Op::ReshapeLike(*op),
            Op::Broadcast(op) => Op::Broadcast(op.clone()),
            Op::BroadcastLike(op) => Op::BroadcastLike(*op),
            Op::Sum(op) => Op::Sum(op.clone()),
            Op::Mean(op) => Op::Mean(op.clone()),
            Op::Max(op) => Op::Max(op.clone()),
            Op::ReduceToLike(op) => Op::ReduceToLike(*op),
            Op::ReshapeForBroadcast(op) => Op::ReshapeForBroadcast(op.clone()),
            Op::MaxGradMask(op) => Op::MaxGradMask(*op),
        }
    }
}

} // verus!
