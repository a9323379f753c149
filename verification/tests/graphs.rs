use chainrule::context::Context;
use chainrule::graph::Graph;
use chainrule::identity::Id;
use chainrule::ops::constant::{ONE, ZERO};
use chainrule::ops::{
    Add, Const, Div, EvalError, Input, Kernel, Mul, Neg, Op, ShapeError, Sum,
};
use chainrule::tracing::function::accumulate_gradient;
use chainrule::tracing::{TraceSession, TraceableFn, Tracer};
use chainrule::trace_fn;

fn listing(g: &Graph) -> Vec<(&'static str, Vec<Id>, Id)> {
    (0..g.len()).map(|i| (g.node(i).name(), g.node(i).inputs(), g.node(i).out())).collect()
}

/// Every node reads only declared inputs or what earlier nodes produce.
fn in_evaluation_order(f: &TraceableFn) -> bool {
    (0..f.graph.len()).all(|i| {
        f.graph.node(i).inputs().iter().all(|id| {
            f.inputs.contains(id) || (0..i).any(|j| f.graph.node(j).out() == *id)
        })
    })
}

#[test]
fn session_records_operations_in_order() {
    let mut g = Graph::new();
    let mut sess = TraceSession::new(&mut g);
    let x = sess.input();
    let y = sess.input();
    let s = sess.add(x, y);
    let c = sess.constant(ONE);
    let p = sess.mul(s, c);
    assert_eq!(p.id(), Id(5));
    assert_eq!(
        listing(&g),
        vec![
            ("input", vec![], Id(1)),
            ("input", vec![], Id(2)),
            ("add", vec![Id(1), Id(2)], Id(3)),
            ("const", vec![], Id(4)),
            ("mul", vec![Id(3), Id(4)], Id(5)),
        ]
    );
}

#[test]
fn session_has_a_method_for_each_primitive() {
    let mut g = Graph::new();
    let mut sess = TraceSession::new(&mut g);
    let x = sess.input();
    let a = sess.sub(x, x);
    let b = sess.div(a, x);
    let c = sess.neg(b);
    let d = sess.exp(c);
    let e = sess.log(d);
    let f = sess.relu(e);
    let h = sess.matmul(f, x);
    let i = sess.t(h);
    let j = sess.transpose(i, 0, 1);
    let k = sess.reshape(j, vec![4]);
    let l = sess.broadcast(k, vec![2, 4]);
    let m = sess.sum(l, vec![0], true);
    let n = sess.mean(m, vec![1], false);
    let o = sess.max(n, vec![0], false);
    let p = sess.emit(Op::Neg(Neg::new(o.id(), Id(99))), Id(99));
    assert_eq!(p.id(), Id(99));
    let names: Vec<&str> = (0..g.len()).map(|i| g.node(i).name()).collect();
    assert_eq!(
        names,
        vec![
            "input", "sub", "div", "neg", "exp", "log", "relu", "matmul", "transpose_default",
            "transpose", "reshape", "broadcast", "sum", "mean", "max", "neg",
        ]
    );
}

#[test]
fn tracer_stands_for_its_identifier() {
    let t = Tracer::new(Id(12));
    assert_eq!(t.id(), Id(12));
    assert_eq!(t, Tracer::new(Id(12)));
}

#[test]
fn operations_report_inputs_and_outputs() {
    let add = Op::Add(Add::new(Id(1), Id(2), Id(3)));
    assert_eq!(add.name(), "add");
    assert_eq!(add.inputs(), vec![Id(1), Id(2)]);
    assert_eq!(add.outputs(), vec![Id(3)]);
    assert_eq!(add.out(), Id(3));
    let input = Op::Input(Input::new(Id(4)));
    assert_eq!(input.inputs(), vec![]);
    assert_eq!(input.outputs(), vec![Id(4)]);
    let copy = add.clone();
    assert_eq!(copy.inputs(), add.inputs());
    let boxed = Neg::boxed(Id(1), Id(2));
    assert_eq!(boxed.inputs(), vec![Id(1)]);
    let constant = Const::boxed(ONE, Id(5));
    assert_eq!(constant.value, 1.0f64.to_bits());
    assert_eq!(ZERO, 0.0f64.to_bits());
}

#[test]
fn mul_rule_swaps_operands() {
    let mut g = Graph::new();
    let x = g.fresh();
    let y = g.fresh();
    let out = g.fresh();
    let og = g.fresh();
    let mul = Op::Mul(Mul::new(x, y, out));
    let grads = mul.vjp(&mut g, &[og]).unwrap();
    assert_eq!(grads, vec![Id(5), Id(6)]);
    assert_eq!(
        listing(&g),
        vec![("mul", vec![og, y], Id(5)), ("mul", vec![og, x], Id(6))]
    );
}

#[test]
fn div_rule_builds_reciprocal_and_quotient() {
    let mut g = Graph::new();
    let x = g.fresh();
    let y = g.fresh();
    let out = g.fresh();
    let og = g.fresh();
    let grads = Op::Div(Div::new(x, y, out)).vjp(&mut g, &[og]).unwrap();
    assert_eq!(grads, vec![Id(7), Id(10)]);
    assert_eq!(
        listing(&g),
        vec![
            ("const", vec![], Id(5)),
            ("div", vec![Id(5), y], Id(6)),
            ("mul", vec![og, Id(6)], Id(7)),
            ("mul", vec![y, y], Id(8)),
            ("neg", vec![x], Id(9)),
            ("div", vec![Id(9), Id(8)], Id(10)),
        ]
    );
}

#[test]
fn rules_without_gradient_leave_the_graph_alone() {
    let mut g = Graph::new();
    let out = g.fresh();
    let og = g.fresh();
    assert_eq!(Op::Input(Input::new(out)).vjp(&mut g, &[og]), None);
    assert_eq!(Op::Const(Const::new(ONE, out)).vjp(&mut g, &[og]), None);
    assert_eq!(Op::Neg(Neg::new(out, og)).vjp(&mut g, &[]), None);
    assert_eq!(g.len(), 0);
    assert_eq!(Op::Add(Add::new(out, out, og)).vjp(&mut g, &[og]), Some(vec![og, og]));
    assert_eq!(g.len(), 0);
}

#[test]
fn gradient_of_a_product_is_recorded_node_by_node() {
    let f = trace_fn(|sess: &mut TraceSession| {
        let x = sess.input();
        let y = sess.input();
        let p = sess.mul(x, y);
        (vec![x.id(), y.id()], p)
    });
    assert_eq!(f.outputs, vec![Id(3)]);
    let d = f.grad();
    assert_eq!(d.inputs, f.inputs);
    assert_eq!(d.outputs, vec![Id(8), Id(9)]);
    assert_eq!(
        listing(&d.graph),
        vec![
            ("input", vec![], Id(1)),
            ("input", vec![], Id(2)),
            ("mul", vec![Id(1), Id(2)], Id(3)),
            ("sum", vec![Id(3)], Id(4)),
            ("const", vec![], Id(5)),
            ("reshape_for_broadcast", vec![Id(5)], Id(6)),
            ("broadcast_like", vec![Id(6), Id(3)], Id(7)),
            ("mul", vec![Id(7), Id(2)], Id(8)),
            ("mul", vec![Id(7), Id(1)], Id(9)),
        ]
    );
    assert_eq!(f.graph.len(), 3);
}

#[test]
fn several_outputs_are_folded_by_addition() {
    let mut g = Graph::new();
    let (x, a, b) = {
        let mut sess = TraceSession::new(&mut g);
        let x = sess.input();
        let a = sess.neg(x);
        let b = sess.exp(x);
        (x, a, b)
    };
    let f = TraceableFn { graph: g, inputs: vec![x.id()], outputs: vec![a.id(), b.id(), a.id()] };
    let d = f.grad();
    let nodes = listing(&d.graph);
    assert_eq!(nodes[3], ("add", vec![a.id(), b.id()], Id(4)));
    assert_eq!(nodes[4], ("add", vec![Id(4), a.id()], Id(5)));
    assert_eq!(nodes[5], ("sum", vec![Id(5)], Id(6)));
    assert_eq!(nodes[6], ("const", vec![], Id(7)));
    assert_eq!(d.outputs.len(), 1);
    assert!(in_evaluation_order(&d));
}

#[test]
fn differentiation_keeps_the_evaluation_order() {
    let f = trace_fn(|sess: &mut TraceSession| {
        let x = sess.input();
        let w = sess.input();
        let h = sess.matmul(x, w);
        let r = sess.relu(h);
        let m = sess.mean(r, vec![1], false);
        let q = sess.div(m, x);
        let e = sess.max(q, vec![0], true);
        (vec![x.id(), w.id()], e)
    });
    assert!(in_evaluation_order(&f));
    let d = f.grad();
    assert!(in_evaluation_order(&d));
    let dd = d.grad();
    assert!(in_evaluation_order(&dd));
    for i in 0..f.graph.len() {
        assert_eq!(d.graph.node(i).out(), f.graph.node(i).out());
        assert_eq!(d.graph.node(i).name(), f.graph.node(i).name());
    }
}

#[test]
fn gradients_of_a_shared_value_are_added() {
    let mut g = Graph::new();
    let x = g.fresh();
    let terms = [g.fresh(), g.fresh(), g.fresh()];
    let mut gradients: Context<Id> = Context::new();
    for term in terms {
        accumulate_gradient(&mut g, &mut gradients, x, term);
    }
    let total = *gradients.get(&x).unwrap();
    assert_eq!(
        listing(&g),
        vec![("add", vec![terms[0], terms[1]], Id(5)), ("add", vec![Id(5), terms[2]], total)]
    );
}

#[test]
fn unused_input_gets_a_constant_zero() {
    let f = trace_fn(|sess: &mut TraceSession| {
        let x = sess.input();
        let unused = sess.input();
        let y = sess.neg(x);
        (vec![x.id(), unused.id()], y)
    });
    let d = f.grad();
    let zero = d.outputs[1];
    let producer = (0..d.graph.len()).find(|&i| d.graph.node(i).out() == zero).unwrap();
    match d.graph.node(producer) {
        Op::Const(c) => assert_eq!(c.value, ZERO),
        other => panic!("expected a constant, found {}", other.name()),
    }
    let shapes = d.eval(&vec![vec![3], vec![4, 5]]).unwrap();
    assert_eq!(shapes.outputs, vec![vec![3], vec![]]);
    assert_eq!(shapes.plans[producer].kernel, Kernel::Scalar(ZERO));
}

#[test]
fn evaluation_on_shapes_plans_every_node() {
    let f = trace_fn(|sess: &mut TraceSession| {
        let x = sess.input();
        let y = sess.input();
        let s = sess.add(x, y);
        let t = sess.sum(s, vec![0], false);
        (vec![x.id(), y.id()], t)
    });
    let evaluation = f.eval(&vec![vec![2, 3], vec![3]]).unwrap();
    let kernels: Vec<Kernel> = evaluation.plans.iter().map(|p| p.kernel).collect();
    assert_eq!(kernels, vec![Kernel::Load, Kernel::Load, Kernel::Add, Kernel::SumAxes]);
    assert_eq!(evaluation.plans[2].shape, vec![2, 3]);
    assert_eq!(evaluation.outputs, vec![vec![3]]);
}

#[test]
fn evaluation_reports_each_error() {
    let f = trace_fn(|sess: &mut TraceSession| {
        let x = sess.input();
        let y = sess.input();
        let s = sess.add(x, y);
        (vec![x.id(), y.id()], s)
    });
    assert_eq!(f.eval(&vec![vec![2]]).unwrap_err(), EvalError::Arity);
    assert_eq!(
        f.eval(&vec![vec![2], vec![3]]).unwrap_err(),
        EvalError::Shape(ShapeError::Broadcast)
    );
    assert_eq!(
        f.eval(&vec![vec![usize::MAX, 2], vec![1]]).unwrap_err(),
        EvalError::Shape(ShapeError::TooLarge)
    );
    assert_eq!(
        f.eval(&vec![vec![usize::MAX / 4, 1], vec![1, 8]]).unwrap_err(),
        EvalError::Shape(ShapeError::TooLarge)
    );

    let mut g = Graph::new();
    g.push(Op::Sum(Sum::new(Id(7), Id(8), vec![], false)));
    let dangling = TraceableFn { graph: g, inputs: vec![], outputs: vec![Id(8)] };
    assert_eq!(dangling.eval(&vec![]).unwrap_err(), EvalError::MissingBinding(Id(7)));
    let unbound = TraceableFn { graph: Graph::new(), inputs: vec![], outputs: vec![Id(3)] };
    assert_eq!(unbound.eval(&vec![]).unwrap_err(), EvalError::MissingBinding(Id(3)));
}

#[test]
fn node_evaluation_binds_the_result_shape() {
    let mut ctx: Context<Vec<usize>> = Context::new();
    ctx.insert(Id(1), vec![2, 3]);
    ctx.insert(Id(2), vec![3]);
    let add = Op::Add(Add::new(Id(1), Id(2), Id(3)));
    let plan = add.eval(&mut ctx).unwrap();
    assert_eq!(plan.kernel, Kernel::Add);
    assert_eq!(ctx.get(&Id(3)), Some(&vec![2, 3]));
    let missing = Op::Add(Add::new(Id(1), Id(9), Id(4)));
    assert_eq!(missing.eval(&mut ctx).unwrap_err(), EvalError::MissingBinding(Id(9)));
    assert!(!ctx.contains(&Id(4)));
    let input = Op::Input(Input::new(Id(5)));
    assert_eq!(input.eval(&mut ctx).unwrap().kernel, Kernel::Load);
    assert!(!ctx.contains(&Id(5)));
}

#[test]
fn context_overwrites_and_reads_back() {
    let mut ctx: Context<u8> = Context::default();
    assert_eq!(ctx.get(&Id(1)), None);
    ctx.insert(Id(1), 10);
    ctx.insert(Id(1), 11);
    assert!(ctx.contains(&Id(1)));
    assert_eq!(*ctx.checked_get(&Id(1)), 11);
    assert_eq!(ctx.get(&Id(2)), None);
}

#[test]
fn max_rule_gives_reduced_tensors_their_axes_back() {
    let mut g = Graph::new();
    let x = g.fresh();
    let out = g.fresh();
    let og = g.fresh();
    let max = Op::Max(chainrule::ops::Max::new(x, out, vec![1], false));
    let grads = max.vjp(&mut g, &[og]).unwrap();
    assert_eq!(grads, vec![Id(13)]);
    assert_eq!(
        listing(&g),
        vec![
            ("reshape_for_broadcast", vec![og], Id(4)),
            ("broadcast_like", vec![Id(4), x], Id(5)),
            ("reshape_for_broadcast", vec![out], Id(6)),
            ("broadcast_like", vec![Id(6), x], Id(7)),
            ("max_mask", vec![x, Id(7)], Id(8)),
            ("sum", vec![Id(8)], Id(9)),
            ("reshape_for_broadcast", vec![Id(9)], Id(10)),
            ("broadcast_like", vec![Id(10), x], Id(11)),
            ("mul", vec![Id(5), Id(8)], Id(12)),
            ("div", vec![Id(12), Id(11)], Id(13)),
        ]
    );
    let mut h = Graph::new();
    let none = Op::Max(chainrule::ops::Max::new(x, out, vec![], false));
    assert_eq!(none.vjp(&mut h, &[og]), Some(vec![og]));
    assert_eq!(h.len(), 0);
}

#[test]
fn traced_function_holds_what_the_builder_recorded() {
    let f = trace_fn(|sess: &mut TraceSession| {
        let x = sess.input();
        let y = sess.exp(x);
        (vec![x.id()], y)
    });
    assert_eq!(f.inputs, vec![Id(1)]);
    assert_eq!(f.outputs, vec![Id(2)]);
    assert_eq!(listing(&f.graph), vec![("input", vec![], Id(1)), ("exp", vec![Id(1)], Id(2))]);
    assert!(in_evaluation_order(&f));
}

#[test]
fn session_hands_out_its_graph() {
    let mut g = Graph::new();
    let mut sess = TraceSession::new(&mut g);
    let x = sess.input();
    let _ = sess.neg(x);
    let taken = sess.take_graph();
    assert_eq!(taken.len(), 2);
    assert_eq!(g.len(), 0);
}

#[test]
fn gradient_does_not_depend_on_other_declared_inputs() {
    let build = |declared: fn(Id, Id) -> Vec<Id>| {
        let mut g = Graph::new();
        let (x, y, out) = {
            let mut sess = TraceSession::new(&mut g);
            let x = sess.input();
            let y = sess.input();
            let out = sess.exp(x);
            (x, y, out)
        };
        TraceableFn { graph: g, inputs: declared(x.id(), y.id()), outputs: vec![out.id()] }
    };
    let both = build(|x, y| vec![y, x]).grad();
    let one = build(|x, _| vec![x]).grad();
    assert_eq!(both.outputs[1], one.outputs[0]);
    let zero = both.outputs[0];
    let producer = (0..both.graph.len()).find(|&i| both.graph.node(i).out() == zero).unwrap();
    assert_eq!(both.graph.node(producer).name(), "const");
}

#[test]
fn placeholders_are_equal_exactly_when_their_identifiers_are() {
    assert_eq!(Tracer::new(Id(3)), Tracer::new(Id(3)));
    assert_ne!(Tracer::new(Id(3)), Tracer::new(Id(4)));
}
