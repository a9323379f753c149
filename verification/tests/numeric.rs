//! Runs traced functions and their gradients on a dense backend, following
//! the plans that the library makes, and compares with direct computation.

use std::collections::HashMap;

use chainrule::identity::Id;
use chainrule::ops::{Kernel, MatMulKind, Plan};
use chainrule::tracing::{TraceSession, TraceableFn, Tracer};
use chainrule::trace_fn;
use ndarray::linalg::{general_mat_mul, general_mat_vec_mul};
use ndarray::{arr0, arr1, arr2, Array, ArrayD, Axis, Ix1, Ix2, IxDyn};

type Tensor = ArrayD<f32>;

fn batched(a: &Tensor, b: &Tensor, batch: usize, m: usize, k: usize, n: usize, plan: &Plan) -> Tensor {
    let a_bc = a.broadcast(IxDyn(&plan.operands[0])).unwrap();
    let b_bc = b.broadcast(IxDyn(&plan.operands[1])).unwrap();
    let mut result = ArrayD::zeros(IxDyn(&plan.shape));
    let a3 = a_bc.to_shape((batch, m, k)).unwrap();
    let b3 = b_bc.to_shape((batch, k, n)).unwrap();
    let mut r3 = result.view_mut().into_shape_with_order((batch, m, n)).unwrap();
    ndarray::Zip::from(a3.outer_iter())
        .and(b3.outer_iter())
        .and(r3.outer_iter_mut())
        .for_each(|ai, bi, mut ri| general_mat_mul(1.0, &ai, &bi, 0.0, &mut ri));
    result
}

fn multiply(kind: MatMulKind, a: &Tensor, b: &Tensor, plan: &Plan) -> Tensor {
    match kind {
        MatMulKind::Scale => a * b,
        MatMulKind::Dot => {
            let a1 = a.view().into_dimensionality::<Ix1>().unwrap();
            let b1 = b.view().into_dimensionality::<Ix1>().unwrap();
            Tensor::from_elem(vec![], a1.dot(&b1))
        }
        MatMulKind::VecMat => {
            let a1 = a.view().into_dimensionality::<Ix1>().unwrap();
            let b2 = b.view().into_dimensionality::<Ix2>().unwrap();
            let mut result = Array::zeros(b.shape()[1]);
            general_mat_vec_mul(1.0, &b2.t(), &a1, 0.0, &mut result);
            result.into_dyn()
        }
        MatMulKind::MatVec => {
            let a2 = a.view().into_dimensionality::<Ix2>().unwrap();
            let b1 = b.view().into_dimensionality::<Ix1>().unwrap();
            let mut result = Array::zeros(a.shape()[0]);
            general_mat_vec_mul(1.0, &a2, &b1, 0.0, &mut result);
            result.into_dyn()
        }
        MatMulKind::MatMat => {
            let a2 = a.view().into_dimensionality::<Ix2>().unwrap();
            let b2 = b.view().into_dimensionality::<Ix2>().unwrap();
            let mut result = Array::zeros((a.shape()[0], b.shape()[1]));
            general_mat_mul(1.0, &a2, &b2, 0.0, &mut result);
            result.into_dyn()
        }
        MatMulKind::Batched { batch, m, k, n } => batched(a, b, batch, m, k, n, plan),
    }
}

fn execute(plan: &Plan, inputs: &[&Tensor]) -> Tensor {
    match plan.kernel {
        Kernel::Load => unreachable!(),
        Kernel::Scalar(bits) => arr0(f64::from_bits(bits) as f32).into_dyn(),
        Kernel::Add => inputs[0] + inputs[1],
        Kernel::Sub => inputs[0] - inputs[1],
        Kernel::Mul => inputs[0] * inputs[1],
        Kernel::Div => inputs[0] / inputs[1],
        Kernel::Neg => -inputs[0],
        Kernel::Exp => inputs[0].mapv(f32::exp),
        Kernel::Log => inputs[0].mapv(f32::ln),
        Kernel::Relu => inputs[0].mapv(|a| if a > 0.0 { a } else { 0.0 }),
        Kernel::ReluMask => inputs[0].mapv(|a| if a > 0.0 { 1.0 } else { 0.0 }),
        Kernel::EqualMask => ndarray::Zip::from(inputs[0])
            .and(inputs[1])
            .map_collect(|a, b| if a == b { 1.0 } else { 0.0 }),
        Kernel::MatMul(kind) => multiply(kind, inputs[0], inputs[1], plan),
        Kernel::Copy => inputs[0].clone(),
        Kernel::SwapAxes(a1, a2) => {
            let mut t = inputs[0].clone();
            t.swap_axes(a1, a2);
            t
        }
        Kernel::Reshape => inputs[0].to_shape(plan.shape.clone()).unwrap().to_owned(),
        Kernel::Broadcast => inputs[0].broadcast(plan.shape.clone()).unwrap().to_owned(),
        Kernel::SumAll => arr0(inputs[0].sum()).into_dyn(),
        Kernel::SumAxes | Kernel::MeanAxes(_) | Kernel::MaxAxes => {
            let mut t = inputs[0].clone();
            for step in &plan.steps {
                let axis = Axis(step.axis);
                let reduced = match plan.kernel {
                    Kernel::MaxAxes => t.fold_axis(axis, f32::NEG_INFINITY, |&acc, &x| {
                        if acc > x {
                            acc
                        } else {
                            x
                        }
                    }),
                    _ => t.sum_axis(axis),
                };
                t = if step.keep { reduced.insert_axis(axis) } else { reduced };
            }
            match plan.kernel {
                Kernel::MeanAxes(count) => t.mapv(|v| v / count as f32),
                _ => t,
            }
        }
    }
}

/// Evaluates `f` on `args`: the library plans, the backend computes, and
/// every computed tensor must have the planned shape.
fn run(f: &TraceableFn, args: &[&Tensor]) -> Vec<Tensor> {
    let shapes: Vec<Vec<usize>> = args.iter().map(|a| a.shape().to_vec()).collect();
    let evaluation = f.eval(&shapes).expect("the shapes fit the graph");
    let mut values: HashMap<Id, Tensor> = HashMap::new();
    for (id, value) in f.inputs.iter().zip(args) {
        values.insert(*id, (*value).clone());
    }
    for i in 0..f.graph.len() {
        let node = f.graph.node(i);
        let plan = &evaluation.plans[i];
        if plan.kernel == Kernel::Load {
            continue;
        }
        let ids = node.inputs();
        let inputs: Vec<&Tensor> = ids.iter().map(|id| &values[id]).collect();
        let out = execute(plan, &inputs);
        assert_eq!(out.shape(), &plan.shape[..], "node {} ({})", i, node.name());
        values.insert(node.out(), out);
    }
    let outputs: Vec<Tensor> = f.outputs.iter().map(|id| values[id].clone()).collect();
    for (value, shape) in outputs.iter().zip(&evaluation.outputs) {
        assert_eq!(value.shape(), &shape[..]);
    }
    outputs
}

fn assert_all_close(a: &Tensor, b: &Tensor, tol: f32) {
    assert_eq!(a.shape(), b.shape(), "Shapes do not match.\nA: {:?}\nB: {:?}", a, b);
    let close = a.iter().zip(b.iter()).all(|(v1, v2)| (v1 - v2).abs() < tol);
    assert!(close, "Tensors are not close.\nA: {:?}\nB: {:?}", a, b);
}

fn unary(build: fn(&mut TraceSession, Tracer) -> Tracer) -> TraceableFn {
    trace_fn(move |sess: &mut TraceSession| {
        let x = sess.input();
        let out = build(sess, x);
        (vec![x.id()], out)
    })
}

fn binary(build: fn(&mut TraceSession, Tracer, Tracer) -> Tracer) -> TraceableFn {
    trace_fn(move |sess: &mut TraceSession| {
        let x = sess.input();
        let y = sess.input();
        let out = build(sess, x, y);
        (vec![x.id(), y.id()], out)
    })
}

#[test]
fn test_add_op() {
    let traced = binary(|sess, x, y| {
        let s = sess.add(x, y);
        sess.sum(s, vec![], false)
    });
    let x = arr1(&[1., 2., 3.]).into_dyn();
    let y = arr1(&[10., 20., 30.]).into_dyn();

    let out = run(&traced, &[&x, &y]);
    let expected = arr0((&x + &y).sum()).into_dyn();
    assert_all_close(&out[0], &expected, 1e-6);
    assert_eq!(out[0], arr0(66.0).into_dyn());

    let grads = run(&traced.grad(), &[&x, &y]);
    assert_eq!(grads[0], Array::ones(x.dim()).into_dyn());
    assert_eq!(grads[1], Array::ones(y.dim()).into_dyn());
}

#[test]
fn test_sub_op() {
    let traced = binary(|sess, x, y| {
        let d = sess.sub(x, y);
        sess.sum(d, vec![], false)
    });
    let x = arr1(&[5., 8.]).into_dyn();
    let y = arr1(&[2., 3.]).into_dyn();

    let out = run(&traced, &[&x, &y]);
    let expected = arr0((&x - &y).sum()).into_dyn();
    assert_all_close(&out[0], &expected, 1e-6);

    let grads = run(&traced.grad(), &[&x, &y]);
    assert_eq!(grads[0], arr1(&[1.0, 1.0]).into_dyn());
    assert_eq!(grads[1], arr1(&[-1.0, -1.0]).into_dyn());
}

#[test]
fn test_mul_op() {
    let traced = binary(|sess, x, y| {
        let p = sess.mul(x, y);
        sess.sum(p, vec![], false)
    });
    let x = arr1(&[2., 3.]).into_dyn();
    let y = arr1(&[4., 5.]).into_dyn();

    let out = run(&traced, &[&x, &y]);
    let expected = arr0((&x * &y).sum()).into_dyn();
    assert_all_close(&out[0], &expected, 1e-6);
    assert_eq!(out[0], arr0(23.0).into_dyn());

    let grads = run(&traced.grad(), &[&x, &y]);
    assert_eq!(grads[0], y);
    assert_eq!(grads[1], x);
}

#[test]
fn test_div_op() {
    let traced = binary(|sess, x, y| {
        let q = sess.div(x, y);
        sess.sum(q, vec![], false)
    });
    let x = arr1(&[10.0, 20.0]).into_dyn();
    let y = arr1(&[2.0, 5.0]).into_dyn();

    let out = run(&traced, &[&x, &y]);
    let expected = arr0((&x / &y).sum()).into_dyn();
    assert_all_close(&out[0], &expected, 1e-6);

    let grads = run(&traced.grad(), &[&x, &y]);
    assert_all_close(&grads[0], &(1.0 / &y), 1e-6);
    assert_all_close(&grads[1], &(-&x / (&y * &y)), 1e-6);
}

#[test]
fn test_neg_op() {
    let traced = unary(|sess, x| {
        let n = sess.neg(x);
        sess.sum(n, vec![], false)
    });
    let x = arr1(&[1.0, -2.0, 3.0]).into_dyn();

    let out = run(&traced, &[&x]);
    let expected = arr0((-&x).sum()).into_dyn();
    assert_all_close(&out[0], &expected, 1e-6);

    let grads = run(&traced.grad(), &[&x]);
    assert_eq!(grads[0], Array::from_elem(x.dim(), -1.0).into_dyn());
}

#[test]
fn test_matmul_op() {
    let traced = binary(|sess, a, b| {
        let p = sess.matmul(a, b);
        sess.sum(p, vec![], false)
    });
    let a = arr2(&[[1., 2.], [3., 4.]]).into_dyn();
    let b = arr2(&[[5., 6.], [7., 8.]]).into_dyn();

    let out = run(&traced, &[&a, &b]);
    let a_ix2: Array<f32, Ix2> = a.clone().into_dimensionality().unwrap();
    let b_ix2: Array<f32, Ix2> = b.clone().into_dimensionality().unwrap();
    let expected = arr0(a_ix2.dot(&b_ix2).sum()).into_dyn();
    assert_all_close(&out[0], &expected, 1e-6);

    let grads = run(&traced.grad(), &[&a, &b]);
    let expected_grad_a = arr2(&[[11.0, 15.0], [11.0, 15.0]]).into_dyn();
    let expected_grad_b = arr2(&[[4.0, 4.0], [6.0, 6.0]]).into_dyn();
    assert_all_close(&grads[0], &expected_grad_a, 1e-6);
    assert_all_close(&grads[1], &expected_grad_b, 1e-6);
}

#[test]
fn test_transpose_op() {
    let traced = unary(|sess, x| {
        let t = sess.t(x);
        sess.sum(t, vec![], false)
    });
    let x = arr2(&[[1., 2., 3.], [4., 5., 6.]]).into_dyn();

    let out = run(&traced, &[&x]);
    let expected = arr0(x.t().sum()).into_dyn();
    assert_all_close(&out[0], &expected, 1e-6);

    let grads = run(&traced.grad(), &[&x]);
    assert_eq!(grads[0], Array::ones(x.dim()).into_dyn());
}

#[test]
fn test_sum_op() {
    let traced = unary(|sess, x| {
        let s = sess.sum(x, vec![1], false);
        sess.sum(s, vec![], false)
    });
    let x = arr2(&[[1., 2., 3.], [4., 5., 6.]]).into_dyn();

    let out = run(&traced, &[&x]);
    let expected = arr0(x.sum_axis(Axis(1)).sum()).into_dyn();
    assert_all_close(&out[0], &expected, 1e-6);

    let grads = run(&traced.grad(), &[&x]);
    assert_eq!(grads[0], Array::ones(x.dim()).into_dyn());
}

#[test]
fn test_log_op() {
    let traced = unary(|sess, x| {
        let l = sess.log(x);
        sess.sum(l, vec![], false)
    });
    let x = arr1(&[1.0, 2.0, 3.0]).into_dyn();

    let out = run(&traced, &[&x]);
    let expected = arr0(x.mapv(f32::ln).sum()).into_dyn();
    assert_all_close(&out[0], &expected, 1e-6);

    let grads = run(&traced.grad(), &[&x]);
    assert_all_close(&grads[0], &(1.0 / &x), 1e-6);
}

#[test]
fn test_exp_op() {
    let traced = unary(|sess, x| {
        let e = sess.exp(x);
        sess.sum(e, vec![], false)
    });
    let x = arr1(&[1.0, 2.0, 3.0]).into_dyn();

    let out = run(&traced, &[&x]);
    let expected_fwd = x.mapv(f32::exp);
    assert_all_close(&out[0], &arr0(expected_fwd.sum()).into_dyn(), 1e-6);

    let grads = run(&traced.grad(), &[&x]);
    assert_all_close(&grads[0], &expected_fwd, 1e-6);
}

#[test]
fn test_relu_op() {
    let traced = unary(|sess, x| {
        let r = sess.relu(x);
        sess.sum(r, vec![], false)
    });
    let x = arr1(&[1.0, -2.0, 0.0, 4.0]).into_dyn();

    let out = run(&traced, &[&x]);
    let expected = arr0(x.mapv(|v| if v > 0.0 { v } else { 0.0 }).sum()).into_dyn();
    assert_all_close(&out[0], &expected, 1e-6);

    let grads = run(&traced.grad(), &[&x]);
    assert_eq!(grads[0], arr1(&[1.0, 0.0, 0.0, 1.0]).into_dyn());
}

#[test]
fn test_mean_op() {
    let traced = unary(|sess, x| {
        let m = sess.mean(x, vec![1], false);
        sess.sum(m, vec![], false)
    });
    let x = arr2(&[[1., 3., 2.], [4., 0., 4.]]).into_dyn();

    let out = run(&traced, &[&x]);
    let expected = arr0(x.mean_axis(Axis(1)).unwrap().sum()).into_dyn();
    assert_all_close(&out[0], &expected, 1e-6);

    let grads = run(&traced.grad(), &[&x]);
    let n = x.shape()[1] as f32;
    let expected_grad = arr2(&[[1.0 / n, 1.0 / n, 1.0 / n], [1.0 / n, 1.0 / n, 1.0 / n]]).into_dyn();
    assert_all_close(&grads[0], &expected_grad, 1e-6);
}

#[test]
fn test_higher_order_grad() {
    let traced = unary(|sess, x| {
        let sq = sess.mul(x, x);
        sess.sum(sq, vec![], false)
    });
    let x = arr1(&[3.0, 5.0]).into_dyn();

    let grad_fn = traced.grad();
    let grad1 = run(&grad_fn, &[&x]);
    assert_all_close(&grad1[0], &(2.0 * &x), 1e-6);
    assert_all_close(&grad1[0], &arr1(&[6.0, 10.0]).into_dyn(), 1e-6);

    let grad2 = run(&grad_fn.grad(), &[&x]);
    assert_all_close(&grad2[0], &arr1(&[2.0, 2.0]).into_dyn(), 1e-6);
}

#[test]
fn test_add() {
    let traced = binary(|sess, x, y| sess.add(x, y));
    let x = arr1(&[1., 2., 3.]).into_dyn();
    let y = arr1(&[10., 20., 30.]).into_dyn();
    let out = run(&traced, &[&x, &y]);
    let expected = &x + &y;
    assert_eq!(out[0], expected);
}

#[test]
fn test_sub() {
    let traced = binary(|sess, x, y| sess.sub(x, y));
    let x = arr1(&[5., 6.]).into_dyn();
    let y = arr1(&[2., 3.]).into_dyn();
    let out = run(&traced, &[&x, &y]);
    let expected = &x - &y;
    assert_eq!(out[0], expected);
    assert_eq!(out[0], arr1(&[3., 3.]).into_dyn());

    let ones = traced.grad();
    let grads = run(&ones, &[&x, &y]);
    assert_eq!(grads[0], arr1(&[1., 1.]).into_dyn());
    assert_eq!(grads[1], arr1(&[-1., -1.]).into_dyn());
}

#[test]
fn test_mul() {
    let traced = binary(|sess, x, y| sess.mul(x, y));
    let x = arr1(&[2., 3.]).into_dyn();
    let y = arr1(&[4., 5.]).into_dyn();
    let out = run(&traced, &[&x, &y]);
    let expected = &x * &y;
    assert_eq!(out[0], expected);
}

#[test]
fn test_neg() {
    let traced = unary(|sess, x| sess.neg(x));
    let x = arr1(&[2., -3., 4.]).into_dyn();
    let out = run(&traced, &[&x]);
    let expected = -&x;
    assert_eq!(out[0], expected);
}

#[test]
fn test_matmul() {
    let traced = binary(|sess, x, w| sess.matmul(x, w));
    let x = arr2(&[[1., 2.], [3., 4.]]);
    let w = arr2(&[[5., 6.], [7., 8.]]);
    let x2 = arr2(&[[1., 2.], [3., 4.]]).into_dyn();
    let w2 = arr2(&[[5., 6.], [7., 8.]]).into_dyn();
    let out = run(&traced, &[&x2, &w2]);
    let expected = x.dot(&w);
    assert_eq!(out[0], expected.into_dyn());
}

#[test]
fn test_max_forward() {
    let traced = unary(|sess, x| sess.max(x, vec![1], false));
    let x = arr2(&[[1., 3., 2.], [4., 0., 4.]]).into_dyn();
    let out = run(&traced, &[&x]);
    let expected = x
        .clone()
        .into_dimensionality::<Ix2>()
        .unwrap()
        .map_axis(Axis(1), |lane| lane.iter().cloned().fold(f32::NEG_INFINITY, f32::max))
        .into_dyn();
    assert_eq!(out[0], expected);
}

#[test]
fn test_mean_forward() {
    let traced = unary(|sess, x| sess.mean(x, vec![1], false));
    let x = arr2(&[[1., 3., 2.], [4., 0., 4.]]).into_dyn();
    let out = run(&traced, &[&x]);
    let expected = x
        .clone()
        .into_dimensionality::<Ix2>()
        .unwrap()
        .mean_axis(Axis(1))
        .unwrap()
        .into_dyn();
    assert_eq!(out[0], expected);
}

#[test]
fn test_transpose_default() {
    let traced = unary(|sess, x| sess.t(x));
    let x = arr2(&[[1., 2., 3.], [4., 5., 6.]]).into_dyn();
    let out = run(&traced, &[&x]);
    let expected = x.t().into_owned().into_dyn();
    assert_eq!(out[0], expected);
}

#[test]
fn broadcast_gradient_is_summed_back_to_the_input_shape() {
    let traced = unary(|sess, x| {
        let b = sess.broadcast(x, vec![2, 3]);
        sess.sum(b, vec![], false)
    });
    let x = arr1(&[1., 2., 3.]).into_dyn();
    let out = run(&traced, &[&x]);
    assert_eq!(out[0], arr0(12.0).into_dyn());
    let grads = run(&traced.grad(), &[&x]);
    assert_eq!(grads[0], arr1(&[2., 2., 2.]).into_dyn());
}

#[test]
fn reshape_gradient_has_the_input_shape() {
    let traced = unary(|sess, x| {
        let r = sess.reshape(x, vec![3, 2]);
        let sq = sess.mul(r, r);
        sess.sum(sq, vec![], false)
    });
    let x = arr2(&[[1., 2., 3.], [4., 5., 6.]]).into_dyn();
    let out = run(&traced, &[&x]);
    assert_eq!(out[0], arr0(91.0).into_dyn());
    let grads = run(&traced.grad(), &[&x]);
    assert_eq!(grads[0], 2.0 * &x);
}

#[test]
fn subtraction_reduces_gradients_to_operand_shapes() {
    let traced = binary(|sess, x, y| {
        let d = sess.sub(x, y);
        sess.sum(d, vec![], false)
    });
    let x = arr2(&[[1., 2., 3.], [4., 5., 6.]]).into_dyn();
    let y = arr1(&[1., 1., 1.]).into_dyn();
    let out = run(&traced, &[&x, &y]);
    assert_eq!(out[0], arr0(15.0).into_dyn());
    let grads = run(&traced.grad(), &[&x, &y]);
    assert_eq!(grads[0], Array::ones((2, 3)).into_dyn());
    assert_eq!(grads[1], arr1(&[-2., -2., -2.]).into_dyn());
}

#[test]
fn max_gradient_is_split_among_ties() {
    let traced = unary(|sess, x| {
        let m = sess.max(x, vec![1], true);
        sess.sum(m, vec![], false)
    });
    let x = arr2(&[[1., 3., 2.], [4., 0., 4.]]).into_dyn();
    let out = run(&traced, &[&x]);
    assert_eq!(out[0], arr0(7.0).into_dyn());
    let grads = run(&traced.grad(), &[&x]);
    assert_eq!(grads[0], arr2(&[[0., 1., 0.], [0.5, 0., 0.5]]).into_dyn());
}

#[test]
fn mean_keeping_axes() {
    let traced = unary(|sess, x| sess.mean(x, vec![0, 1], true));
    let x = arr2(&[[1., 3., 2.], [4., 0., 2.]]).into_dyn();
    let out = run(&traced, &[&x]);
    assert_eq!(out[0], arr2(&[[2.0]]).into_dyn());
    let grads = run(&traced.grad(), &[&x]);
    assert_all_close(&grads[0], &Array::from_elem((2, 3), 1.0 / 6.0).into_dyn(), 1e-6);
}

#[test]
fn sum_over_several_axes() {
    let traced = unary(|sess, x| sess.sum(x, vec![0, 2], false));
    let x = Array::from_shape_vec((2, 2, 2), vec![1., 2., 3., 4., 5., 6., 7., 8.]).unwrap().into_dyn();
    let out = run(&traced, &[&x]);
    assert_eq!(out[0], arr1(&[14., 22.]).into_dyn());
    let grads = run(&traced.grad(), &[&x]);
    assert_eq!(grads[0], Array::ones((2, 2, 2)).into_dyn());
}

#[test]
fn matmul_of_vectors_and_matrices() {
    let traced = binary(|sess, a, b| sess.matmul(a, b));
    let v = arr1(&[1., 2.]).into_dyn();
    let w = arr1(&[3., 4.]).into_dyn();
    let m = arr2(&[[1., 2., 3.], [4., 5., 6.]]).into_dyn();
    let u = arr1(&[1., 0., 2.]).into_dyn();
    let half = arr0(0.5).into_dyn();
    assert_eq!(run(&traced, &[&v, &w])[0], arr0(11.0).into_dyn());
    assert_eq!(run(&traced, &[&v, &m])[0], arr1(&[9., 12., 15.]).into_dyn());
    assert_eq!(run(&traced, &[&m, &u])[0], arr1(&[7., 16.]).into_dyn());
    assert_eq!(run(&traced, &[&half, &v])[0], arr1(&[0.5, 1.]).into_dyn());
}

#[test]
fn batched_matmul_broadcasts_the_batch() {
    let traced = binary(|sess, a, b| sess.matmul(a, b));
    let a = Array::from_shape_vec((2, 1, 2), vec![1., 2., 3., 4.]).unwrap().into_dyn();
    let b = arr2(&[[1., 0.], [0., 2.]]).into_dyn();
    let out = run(&traced, &[&a, &b]);
    let expected = Array::from_shape_vec((2, 1, 2), vec![1., 4., 3., 8.]).unwrap().into_dyn();
    assert_eq!(out[0], expected);
}

#[test]
fn named_transpose_swaps_the_axes() {
    let traced = unary(|sess, x| sess.transpose(x, 0, 2));
    let x = Array::from_shape_vec((1, 2, 3), vec![1., 2., 3., 4., 5., 6.]).unwrap().into_dyn();
    let out = run(&traced, &[&x]);
    assert_eq!(out[0].shape(), &[3, 2, 1]);
    assert_eq!(out[0][[2, 1, 0]], 6.0);
    let summed = unary(|sess, x| {
        let t = sess.transpose(x, 0, 2);
        sess.sum(t, vec![], false)
    });
    let grads = run(&summed.grad(), &[&x]);
    assert_eq!(grads[0], Array::ones((1, 2, 3)).into_dyn());
}

#[test]
fn constants_enter_as_scalars() {
    let traced = unary(|sess, x| {
        let two = sess.constant(2.0f64.to_bits());
        sess.mul(x, two)
    });
    let x = arr1(&[1., 2.]).into_dyn();
    assert_eq!(run(&traced, &[&x])[0], arr1(&[2., 4.]).into_dyn());
}

#[test]
fn unused_input_has_gradient_zero() {
    let traced = binary(|sess, x, _unused| {
        let n = sess.neg(x);
        sess.sum(n, vec![], false)
    });
    let x = arr1(&[1., 2.]).into_dyn();
    let y = arr1(&[5., 6., 7.]).into_dyn();
    let grads = run(&traced.grad(), &[&x, &y]);
    assert_eq!(grads[0], arr1(&[-1., -1.]).into_dyn());
    assert_eq!(grads[1], arr0(0.0).into_dyn());
}

#[test]
fn gradients_through_several_uses_add_up() {
    let traced = unary(|sess, x| {
        let a = sess.mul(x, x);
        let b = sess.add(a, x);
        let c = sess.add(b, x);
        sess.sum(c, vec![], false)
    });
    let x = arr1(&[1., 2., 3.]).into_dyn();
    let grads = run(&traced.grad(), &[&x]);
    assert_eq!(grads[0], 2.0 * &x + 2.0);
}

#[test]
fn max_gradient_without_kept_axes() {
    let traced = unary(|sess, x| {
        let m = sess.max(x, vec![1], false);
        sess.sum(m, vec![], false)
    });
    let x = arr2(&[[1., 3., 2.], [4., 0., 4.]]).into_dyn();
    let out = run(&traced, &[&x]);
    assert_eq!(out[0], arr0(7.0).into_dyn());
    let grads = run(&traced.grad(), &[&x]);
    assert_eq!(grads[0], arr2(&[[0., 1., 0.], [0.5, 0., 0.5]]).into_dyn());
}

#[test]
fn max_gradient_over_several_axes() {
    let traced = unary(|sess, x| {
        let m = sess.max(x, vec![0, 2], false);
        sess.sum(m, vec![], false)
    });
    let x = Array::from_shape_vec((2, 2, 2), vec![1., 8., 3., 4., 8., 6., 7., 2.]).unwrap().into_dyn();
    let out = run(&traced, &[&x]);
    assert_eq!(out[0], arr0(15.0).into_dyn());
    let grads = run(&traced.grad(), &[&x]);
    let expected =
        Array::from_shape_vec((2, 2, 2), vec![0., 0.5, 0., 0., 0.5, 0., 1., 0.]).unwrap().into_dyn();
    assert_eq!(grads[0], expected);
}

#[test]
fn max_along_no_axes_passes_the_gradient() {
    let traced = unary(|sess, x| {
        let m = sess.max(x, vec![], false);
        sess.sum(m, vec![], false)
    });
    let x = arr2(&[[1., 3.], [4., 0.]]).into_dyn();
    let out = run(&traced, &[&x]);
    assert_eq!(out[0], arr0(8.0).into_dyn());
    let grads = run(&traced.grad(), &[&x]);
    assert_eq!(grads[0], Array::ones((2, 2)).into_dyn());
}

#[test]
fn mean_along_no_axes_passes_the_gradient() {
    let traced = unary(|sess, x| {
        let m = sess.mean(x, vec![], false);
        sess.sum(m, vec![], false)
    });
    let x = arr2(&[[1., 3.], [4., 0.]]).into_dyn();
    let out = run(&traced, &[&x]);
    assert_eq!(out[0], arr0(8.0).into_dyn());
    let grads = run(&traced.grad(), &[&x]);
    assert_eq!(grads[0], Array::ones((2, 2)).into_dyn());
}
