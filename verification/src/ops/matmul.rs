//! Matrix multiplication.

use vstd::pervasive::unreached;
use vstd::prelude::*;

use crate::graph::Graph;
use crate::identity::{Id, IdPool};
use crate::ops::{
    broadcast_shapes, opt_view, plan_view, shapes_view, simple_plan, vjp_spec, Kernel, Kind,
    MatMulKind, Node, Op, Plan, PlanModel, ShapeError, TransposeDefault,
};
use crate::shape::{broadcast_of, broadcastable, copied, leading, representable, size_of, volume};

verus! {

/// The leading axes of a shape, all but the last two.
pub open spec fn batch_of(s: Seq<usize>) -> Seq<usize> {
    s.take(s.len() - 2)
}

/// The ranks of `lhs` and `rhs` admit a product, and for operands of rank
/// above two the leading axes can be broadcast against each other.
pub open spec fn matmul_defined(lhs: Seq<usize>, rhs: Seq<usize>) -> bool {
    ||| lhs.len() == 0
    ||| rhs.len() == 0
    ||| (lhs.len() <= 2 && rhs.len() <= 2)
    ||| (lhs.len() >= 2 && rhs.len() >= 2 && broadcastable(batch_of(lhs), batch_of(rhs)))
}

/// Shape of the product of tensors of shapes `lhs` and `rhs`.
pub open spec fn matmul_shape(lhs: Seq<usize>, rhs: Seq<usize>) -> Seq<usize> {
    if lhs.len() == 0 {
        rhs
    } else if rhs.len() == 0 {
        lhs
    } else if lhs.len() == 1 && rhs.len() == 1 {
        Seq::empty()
    } else if lhs.len() == 1 && rhs.len() == 2 {
        seq![rhs[1]]
    } else if lhs.len() == 2 && rhs.len() == 1 {
        seq![lhs[0]]
    } else if lhs.len() == 2 && rhs.len() == 2 {
        seq![lhs[0], rhs[1]]
    } else {
        broadcast_of(batch_of(lhs), batch_of(rhs)).push(lhs[lhs.len() - 2]).push(
            rhs[rhs.len() - 1],
        )
    }
}

/// Plan of a batched product: both operands have at least two axes, the
/// contracted extents agree, the leading axes broadcast to a common batch
/// shape, and each operand stretched to that batch shape can exist. The
/// plan names the shapes that the operands are stretched to.
pub open spec fn batched_plan(lhs: Seq<usize>, rhs: Seq<usize>) -> Result<PlanModel, ShapeError> {
    if lhs.len() < 2 || rhs.len() < 2 {
        Err(ShapeError::MatMulRank)
    } else {
        let m = lhs[lhs.len() - 2];
        let k = lhs[lhs.len() - 1];
        let n = rhs[rhs.len() - 1];
        let batch = broadcast_of(batch_of(lhs), batch_of(rhs));
        if k != rhs[rhs.len() - 2] {
            Err(ShapeError::MatMulInner)
        } else if !broadcastable(batch_of(lhs), batch_of(rhs)) {
            Err(ShapeError::Broadcast)
        } else if !representable(batch.push(m).push(k)) || !representable(batch.push(k).push(n))
            || !representable(batch) {
            Err(ShapeError::TooLarge)
        } else {
            Ok(
                PlanModel {
                    kernel: Kernel::MatMul(
                        MatMulKind::Batched { batch: volume(batch) as usize, m, k, n },
                    ),
                    steps: Seq::empty(),
                    shape: batch.push(m).push(n),
                    operands: seq![batch.push(m).push(k), batch.push(k).push(n)],
                },
            )
        }
    }
}

/// Plan of the product of tensors of shapes `lhs` and `rhs`, chosen by
/// their ranks.
pub open spec fn matmul_plan(lhs: Seq<usize>, rhs: Seq<usize>) -> Result<PlanModel, ShapeError> {
    if lhs.len() == 0 || rhs.len() == 0 {
        Ok(simple_plan(Kernel::MatMul(MatMulKind::Scale), matmul_shape(lhs, rhs)))
    } else if lhs.len() == 1 && rhs.len() == 1 {
        if lhs[0] == rhs[0] {
            Ok(simple_plan(Kernel::MatMul(MatMulKind::Dot), Seq::empty()))
        } else {
            Err(ShapeError::MatMulInner)
        }
    } else if lhs.len() == 1 && rhs.len() == 2 {
        if lhs[0] == rhs[0] {
            Ok(simple_plan(Kernel::MatMul(MatMulKind::VecMat), seq![rhs[1]]))
        } else {
            Err(ShapeError::MatMulInner)
        }
    } else if lhs.len() == 2 && rhs.len() == 1 {
        if rhs[0] == lhs[1] {
            Ok(simple_plan(Kernel::MatMul(MatMulKind::MatVec), seq![lhs[0]]))
        } else {
            Err(ShapeError::MatMulInner)
        }
    } else if lhs.len() == 2 && rhs.len() == 2 {
        if lhs[1] == rhs[0] {
            Ok(simple_plan(Kernel::MatMul(MatMulKind::MatMat), seq![lhs[0], rhs[1]]))
        } else {
            Err(ShapeError::MatMulInner)
        }
    } else {
        batched_plan(lhs, rhs)
    }
}

/// Wherever a product is planned, its shape is the inferred one.
pub proof fn lemma_plan_has_inferred_shape(lhs: Seq<usize>, rhs: Seq<usize>)
    ensures
        matmul_plan(lhs, rhs) matches Ok(plan) ==> matmul_defined(lhs, rhs) && plan.shape
            == matmul_shape(lhs, rhs),
{
}

/// `batch` followed by the two extents `rows` and `cols`.
fn with_matrix(batch: &[usize], rows: usize, cols: usize) -> (shape: Vec<usize>)
    ensures
        shape@ == batch@.push(rows).push(cols),
{
    let mut shape: Vec<usize> = copied(batch);
    shape.push(rows);
    shape.push(cols);
    shape
}

/// Shape of the product of tensors of shapes `lhs` and `rhs`. The
/// contracted extents are not compared.
pub fn infer_matmul_shape(lhs: &[usize], rhs: &[usize]) -> (shape: Vec<usize>)
    requires
        matmul_defined(lhs@, rhs@),
    ensures
        shape@ == matmul_shape(lhs@, rhs@),
{
    let l: usize = lhs.len();
    let r: usize = rhs.len();
    if l == 0 {
        copied(rhs)
    } else if r == 0 {
        copied(lhs)
    } else if l == 1 && r == 1 {
        Vec::new()
    } else if l == 1 && r == 2 {
        vec![rhs[1]]
    } else if l == 2 && r == 1 {
        vec![lhs[0]]
    } else if l == 2 && r == 2 {
        vec![lhs[0], rhs[1]]
    } else {
        let batch_a: Vec<usize> = leading(lhs, l - 2);
        let batch_b: Vec<usize> = leading(rhs, r - 2);
        match broadcast_shapes(batch_a.as_slice(), batch_b.as_slice()) {
            Some(batch) => with_matrix(batch.as_slice(), lhs[l - 2], rhs[r - 1]),
            None => unreached(),
        }
    }
}

/// Plan of a batched product.
fn batched_matmul(lhs: &[usize], rhs: &[usize]) -> (plan: Result<Plan, ShapeError>)
    ensures
        plan_view(plan) == batched_plan(lhs@, rhs@),
{
    let l: usize = lhs.len();
    let r: usize = rhs.len();
    if l < 2 || r < 2 {
        return Err(ShapeError::MatMulRank);
    }
    let m: usize = lhs[l - 2];
    let k1: usize = lhs[l - 1];
    let k2: usize = rhs[r - 2];
    let n: usize = rhs[r - 1];
    if k1 != k2 {
        return Err(ShapeError::MatMulInner);
    }
    let batch_a: Vec<usize> = leading(lhs, l - 2);
    let batch_b: Vec<usize> = leading(rhs, r - 2);
    let batch_shape: Vec<usize> = match broadcast_shapes(batch_a.as_slice(), batch_b.as_slice()) {
        Some(shape) => shape,
        None => {
            return Err(ShapeError::Broadcast);
        },
    };
    let stretched_lhs: Vec<usize> = with_matrix(batch_shape.as_slice(), m, k1);
    let stretched_rhs: Vec<usize> = with_matrix(batch_shape.as_slice(), k2, n);
    if size_of(stretched_lhs.as_slice()).is_none() || size_of(stretched_rhs.as_slice()).is_none() {
        return Err(ShapeError::TooLarge);
    }
    let batch: usize = match size_of(batch_shape.as_slice()) {
        Some(count) => count,
        None => {
            return Err(ShapeError::TooLarge);
        },
    };
    let plan = Plan {
        kernel: Kernel::MatMul(MatMulKind::Batched { batch, m, k: k1, n }),
        steps: Vec::new(),
        shape: with_matrix(batch_shape.as_slice(), m, n),
        operands: vec![stretched_lhs, stretched_rhs],
    };
    assert(shapes_view(plan.operands@) =~= seq![
        batch_shape@.push(m).push(k1),
        batch_shape@.push(k2).push(n),
    ]);
    Ok(plan)
}

/// Chooses how two tensors of shapes `lhs` and `rhs` are multiplied: a
/// scalar scales the other operand, two vectors give their inner product,
/// a vector and a matrix give a vector, two matrices a matrix, and
/// anything of higher rank is multiplied batch by batch.
pub fn matmul(lhs: &[usize], rhs: &[usize]) -> (plan: Result<Plan, ShapeError>)
    ensures
        plan_view(plan) == matmul_plan(lhs@, rhs@),
{
    let l: usize = lhs.len();
    let r: usize = rhs.len();
    if l == 0 || r == 0 {
        Ok(
            Plan::simple(Kernel::MatMul(MatMulKind::Scale), infer_matmul_shape(lhs, rhs)),
        )
    } else if l == 1 && r == 1 {
        if lhs[0] != rhs[0] {
            return Err(ShapeError::MatMulInner);
        }
        Ok(
            Plan::simple(Kernel::MatMul(MatMulKind::Dot), infer_matmul_shape(lhs, rhs)),
        )
    } else if l == 1 && r == 2 {
        if lhs[0] != rhs[0] {
            return Err(ShapeError::MatMulInner);
        }
        Ok(
            Plan::simple(Kernel::MatMul(MatMulKind::VecMat), infer_matmul_shape(lhs, rhs)),
        )
    } else if l == 2 && r == 1 {
        if rhs[0] != lhs[1] {
            return Err(ShapeError::MatMulInner);
        }
        Ok(
            Plan::simple(Kernel::MatMul(MatMulKind::MatVec), infer_matmul_shape(lhs, rhs)),
        )
    } else if l == 2 && r == 2 {
        if lhs[1] != rhs[0] {
            return Err(ShapeError::MatMulInner);
        }
        Ok(
            Plan::simple(Kernel::MatMul(MatMulKind::MatMat), infer_matmul_shape(lhs, rhs)),
        )
    } else {
        batched_matmul(lhs, rhs)
    }
}

#[derive(Debug, Clone, Copy)]
pub struct MatMul {
    pub lhs: Id,
    pub rhs: Id,
    pub out: Id,
}

impl View for MatMul {
    type V = Node;

    open spec fn view(&self) -> Node {
        Node { kind: Kind::MatMul, inputs: seq![self.lhs, self.rhs], out: self.out }
    }
}

/// Gradient rule of `lhs @ rhs`: the left operand receives the output's
/// gradient times the transposed right operand, the right operand the
/// transposed left operand times the output's gradient.
pub open spec fn matmul_vjp(lhs: Id, rhs: Id, og: Id, ids: Seq<Id>) -> Seq<Node> {
    seq![
        Node { kind: Kind::TransposeDefault, inputs: seq![rhs], out: ids[0] },
        Node { kind: Kind::MatMul, inputs: seq![og, ids[0]], out: ids[1] },
        Node { kind: Kind::TransposeDefault, inputs: seq![lhs], out: ids[2] },
        Node { kind: Kind::MatMul, inputs: seq![ids[2], og], out: ids[3] },
    ]
}

impl MatMul {
    pub fn new(lhs: Id, rhs: Id, out: Id) -> (op: MatMul)
        ensures
            op.lhs == lhs,
            op.rhs == rhs,
            op.out == out,
    {
        MatMul { lhs, rhs, out }
    }

    pub fn name(&self) -> (name: &'static str)
        ensures
            name@ == "matmul"@,
    {
        "matmul"
    }

    pub fn inputs(&self) -> (ids: Vec<Id>)
        ensures
            ids@ == self@.inputs,
    {
        vec![self.lhs, self.rhs]
    }

    pub fn outputs(&self) -> (ids: Vec<Id>)
        ensures
            ids@ == seq![self@.out],
    {
        vec![self.out]
    }

    pub fn plan(&self, lhs: &[usize], rhs: &[usize]) -> (plan: Result<Plan, ShapeError>)
        ensures
            plan_view(plan) == matmul_plan(lhs@, rhs@),
    {
        matmul(lhs, rhs)
    }

    pub fn vjp(&self, g: &mut Graph, out_grads: &[Id]) -> (grads: Option<Vec<Id>>)
        requires
            old(g)@.pool.headroom() >= 4,
        ensures
            (final(g)@, opt_view(grads)) == vjp_spec(self@, old(g)@, out_grads@),
    {
        if out_grads.len() == 0 {
            return None;
        }
        let og: Id = out_grads[0];
        proof {
            reveal_with_fuel(IdPool::take, 5);
            reveal_with_fuel(IdPool::skip, 5);
        }
        let rhs_t: Id = g.fresh();
        g.push(Op::TransposeDefault(TransposeDefault::new(self.rhs, rhs_t)));
        let grad_lhs: Id = g.fresh();
        g.push(Op::MatMul(MatMul::new(og, rhs_t, grad_lhs)));
        let lhs_t: Id = g.fresh();
        g.push(Op::TransposeDefault(TransposeDefault::new(self.lhs, lhs_t)));
        let grad_rhs: Id = g.fresh();
        g.push(Op::MatMul(MatMul::new(lhs_t, og, grad_rhs)));
        proof {
            let ids = old(g)@.pool.take(4);
            assert(ids =~= seq![rhs_t, grad_lhs, lhs_t, grad_rhs]);
            assert(g@.nodes =~= old(g)@.nodes + matmul_vjp(self.lhs, self.rhs, og, ids));
        }
        Some(vec![grad_lhs, grad_rhs])
    }
}

} // verus!
