use chainrule::ops::matmul::{infer_matmul_shape, matmul};
use chainrule::ops::{
    broadcast_shapes, Broadcast, Kernel, MatMulKind, MaxGradMask, Mean, ReduceToLike, Reshape,
    ReshapeForBroadcast, ReshapeLike, ShapeError, Sum, Transpose, TransposeDefault,
};
use chainrule::identity::Id;
use chainrule::ops::Max;
use chainrule::shape::{
    can_broadcast, count_of, insert_unit_axes, plan_reduction, reduce_along, same_shape, size_of,
    sorted_ascending, sorted_descending, ReduceStep,
};

fn keep(axis: usize) -> ReduceStep {
    ReduceStep { axis, keep: true }
}

fn drop(axis: usize) -> ReduceStep {
    ReduceStep { axis, keep: false }
}

#[test]
fn broadcast_shapes_aligns_at_the_last_axis() {
    assert_eq!(broadcast_shapes(&[2, 3], &[3]), Some(vec![2, 3]));
    assert_eq!(broadcast_shapes(&[3], &[2, 3]), Some(vec![2, 3]));
    assert_eq!(broadcast_shapes(&[4, 1, 3], &[5, 1]), Some(vec![4, 5, 3]));
    assert_eq!(broadcast_shapes(&[], &[7, 2]), Some(vec![7, 2]));
    assert_eq!(broadcast_shapes(&[], &[]), Some(vec![]));
    assert_eq!(broadcast_shapes(&[1], &[0]), Some(vec![0]));
}

#[test]
fn broadcast_shapes_rejects_disagreeing_extents() {
    assert_eq!(broadcast_shapes(&[2, 3], &[4]), None);
    assert_eq!(broadcast_shapes(&[2, 3], &[3, 3]), None);
    assert_eq!(broadcast_shapes(&[2], &[0]), None);
}

#[test]
fn stretching_goes_one_way() {
    assert!(can_broadcast(&[3], &[2, 3]));
    assert!(can_broadcast(&[1, 3], &[2, 3]));
    assert!(can_broadcast(&[], &[2, 3]));
    assert!(!can_broadcast(&[2, 3], &[3]));
    assert!(!can_broadcast(&[2], &[3]));
    assert!(!can_broadcast(&[2, 3], &[1, 3]));
}

#[test]
fn size_is_the_product_of_the_extents() {
    assert_eq!(size_of(&[]), Some(1));
    assert_eq!(size_of(&[2, 3, 4]), Some(24));
    assert_eq!(size_of(&[2, 0, 4]), Some(0));
    assert_eq!(size_of(&[isize::MAX as usize]), Some(isize::MAX as usize));
    assert_eq!(size_of(&[isize::MAX as usize, 2]), None);
    assert_eq!(size_of(&[usize::MAX, 2, 0]), None);
    assert_eq!(count_of(&[usize::MAX, 2, 0]), Some(0));
    assert_eq!(count_of(&[usize::MAX, 2]), None);
    assert_eq!(count_of(&[usize::MAX]), Some(usize::MAX));
    assert_eq!(count_of(&[]), Some(1));
}

#[test]
fn shapes_compare_by_extents() {
    assert!(same_shape(&[2, 3], &[2, 3]));
    assert!(!same_shape(&[2, 3], &[3, 2]));
    assert!(!same_shape(&[2], &[2, 1]));
}

#[test]
fn axes_are_sorted_both_ways() {
    assert_eq!(sorted_ascending(&[2, 0, 1]), vec![0, 1, 2]);
    assert_eq!(sorted_descending(&[0, 2, 1]), vec![2, 1, 0]);
    assert_eq!(sorted_descending(&[1, 1, 3]), vec![3, 1, 1]);
    assert_eq!(sorted_ascending(&[]), Vec::<usize>::new());
}

#[test]
fn reduction_along_axes_follows_the_given_order() {
    let (steps, left) = reduce_along(&[2, 3, 4], &[2, 0], false).unwrap();
    assert_eq!(steps, vec![drop(2), drop(0)]);
    assert_eq!(left, vec![3]);
    let (steps, left) = reduce_along(&[2, 3, 4], &[2, 0], true).unwrap();
    assert_eq!(steps, vec![keep(2), keep(0)]);
    assert_eq!(left, vec![1, 3, 1]);
    assert_eq!(reduce_along(&[2, 3], &[0, 1], false), None);
    assert_eq!(reduce_along(&[2, 3], &[2], true), None);
}

#[test]
fn unit_axes_are_inserted_in_turn() {
    assert_eq!(insert_unit_axes(&[2, 4], &[1]), Some(vec![2, 1, 4]));
    assert_eq!(insert_unit_axes(&[3], &[0, 2]), Some(vec![1, 3, 1]));
    assert_eq!(insert_unit_axes(&[3], &[3]), None);
}

#[test]
fn reduction_to_a_target_sums_stretched_and_leading_axes() {
    assert_eq!(plan_reduction(&[2, 3], &[2, 3]), Some(vec![]));
    assert_eq!(plan_reduction(&[2, 3], &[1, 3]), Some(vec![keep(0)]));
    assert_eq!(plan_reduction(&[4, 2, 3], &[3]), Some(vec![drop(1), drop(0)]));
    assert_eq!(plan_reduction(&[4, 2, 3], &[2, 1]), Some(vec![keep(2), drop(0)]));
    assert_eq!(plan_reduction(&[2, 3], &[2, 2]), None);
    assert_eq!(plan_reduction(&[0, 3], &[1, 3]), None);
}

#[test]
fn reduce_to_like_plans() {
    let op = ReduceToLike::new(Id(1), Id(2), Id(3));
    let same = op.plan(&[2, 3], &[2, 3]).unwrap();
    assert_eq!(same.kernel, Kernel::Copy);
    assert_eq!(same.shape, vec![2, 3]);
    let reduced = op.plan(&[5, 2, 3], &[2, 1]).unwrap();
    assert_eq!(reduced.kernel, Kernel::SumAxes);
    assert_eq!(reduced.steps, vec![keep(2), drop(0)]);
    assert_eq!(reduced.shape, vec![2, 1]);
    assert_eq!(op.plan(&[3], &[2, 3]).unwrap_err(), ShapeError::ReduceRank);
    assert_eq!(op.plan(&[2, 3], &[2, 2]).unwrap_err(), ShapeError::ReduceDim);
}

#[test]
fn broadcast_and_reduction_restore_the_shape() {
    let stretch = Broadcast::new(Id(1), Id(2), vec![4, 2, 3]);
    let forward = stretch.plan(&[2, 1]).unwrap();
    assert_eq!(forward.kernel, Kernel::Broadcast);
    assert_eq!(forward.shape, vec![4, 2, 3]);
    let back = ReduceToLike::new(Id(3), Id(1), Id(4)).plan(&forward.shape, &[2, 1]).unwrap();
    assert_eq!(back.shape, vec![2, 1]);
    assert_eq!(stretch.plan(&[2, 2]).unwrap_err(), ShapeError::Broadcast);
}

#[test]
fn reshape_preserves_the_element_count() {
    let op = Reshape::new(Id(1), Id(2), vec![3, 2]);
    let plan = op.plan(&[2, 3]).unwrap();
    assert_eq!(plan.kernel, Kernel::Reshape);
    assert_eq!(plan.shape, vec![3, 2]);
    assert_eq!(op.plan(&[2, 2]).unwrap_err(), ShapeError::Reshape);
    let back = ReshapeLike::new(Id(3), Id(4), Id(1)).plan(&plan.shape, &[2, 3]).unwrap();
    assert_eq!(back.shape, vec![2, 3]);
    let huge = Reshape::new(Id(1), Id(2), vec![usize::MAX, 2]);
    assert_eq!(huge.plan(&[2]).unwrap_err(), ShapeError::TooLarge);
}

#[test]
fn transposes_exchange_extents() {
    let t = TransposeDefault::new(Id(1), Id(2));
    let plan = t.plan(&[2, 3, 4]);
    assert_eq!(plan.kernel, Kernel::SwapAxes(2, 1));
    assert_eq!(plan.shape, vec![2, 4, 3]);
    assert_eq!(t.plan(&[5]).kernel, Kernel::Copy);
    assert_eq!(t.plan(&[5]).shape, vec![5]);
    assert_eq!(t.plan(&[]).kernel, Kernel::Copy);
    let named = Transpose::new(Id(1), Id(2), 0, 2);
    let plan = named.plan(&[2, 3, 4]).unwrap();
    assert_eq!(plan.kernel, Kernel::SwapAxes(0, 2));
    assert_eq!(plan.shape, vec![4, 3, 2]);
    assert_eq!(named.plan(&[2, 3]).unwrap_err(), ShapeError::Axis);
}

#[test]
fn sum_reduces_highest_axis_first() {
    let op = Sum::new(Id(1), Id(2), vec![0, 2, 1], false);
    let plan = op.plan(&[2, 3, 4, 5]).unwrap();
    assert_eq!(plan.kernel, Kernel::SumAxes);
    assert_eq!(plan.steps, vec![drop(2), drop(1), drop(0)]);
    assert_eq!(plan.shape, vec![5]);
    let kept = Sum::new(Id(1), Id(2), vec![0, 1], true).plan(&[2, 3, 4]).unwrap();
    assert_eq!(kept.steps, vec![keep(1), keep(0)]);
    assert_eq!(kept.shape, vec![1, 1, 4]);
    let all = Sum::new(Id(1), Id(2), vec![], false).plan(&[2, 3]).unwrap();
    assert_eq!(all.kernel, Kernel::SumAll);
    assert_eq!(all.shape, Vec::<usize>::new());
    assert_eq!(Sum::new(Id(1), Id(2), vec![2], false).plan(&[2, 3]).unwrap_err(), ShapeError::Axis);
}

#[test]
fn mean_divides_by_the_product_of_reduced_extents() {
    let plan = Mean::new(Id(1), Id(2), vec![0, 2], false).plan(&[2, 3, 4]).unwrap();
    assert_eq!(plan.kernel, Kernel::MeanAxes(8));
    assert_eq!(plan.steps, vec![drop(2), drop(0)]);
    assert_eq!(plan.shape, vec![3]);
    let none = Mean::new(Id(1), Id(2), vec![], false).plan(&[2, 3]).unwrap();
    assert_eq!(none.kernel, Kernel::MeanAxes(1));
    assert_eq!(none.shape, vec![2, 3]);
    assert_eq!(Mean::new(Id(1), Id(2), vec![5], true).plan(&[2]).unwrap_err(), ShapeError::Axis);
}

#[test]
fn max_reduces_like_sum_but_never_to_a_scalar_by_default() {
    let plan = Max::new(Id(1), Id(2), vec![1], true).plan(&[2, 3]).unwrap();
    assert_eq!(plan.kernel, Kernel::MaxAxes);
    assert_eq!(plan.steps, vec![keep(1)]);
    assert_eq!(plan.shape, vec![2, 1]);
    let none = Max::new(Id(1), Id(2), vec![], false).plan(&[2, 3]).unwrap();
    assert_eq!(none.steps, vec![]);
    assert_eq!(none.shape, vec![2, 3]);
}

#[test]
fn mask_needs_equal_shapes() {
    let op = MaxGradMask::new(Id(1), Id(2), Id(3));
    let plan = op.plan(&[2, 3], &[2, 3]).unwrap();
    assert_eq!(plan.kernel, Kernel::EqualMask);
    assert_eq!(plan.shape, vec![2, 3]);
    assert_eq!(op.plan(&[2, 3], &[3, 2]).unwrap_err(), ShapeError::Mask);
}

#[test]
fn reshape_for_broadcast_puts_summed_axes_back() {
    let op = ReshapeForBroadcast::new(Id(1), Id(2), vec![2, 0], false);
    let plan = op.plan(&[3]).unwrap();
    assert_eq!(plan.kernel, Kernel::Reshape);
    assert_eq!(plan.shape, vec![1, 3, 1]);
    let kept = ReshapeForBroadcast::new(Id(1), Id(2), vec![2, 0], true).plan(&[1, 3, 1]).unwrap();
    assert_eq!(kept.kernel, Kernel::Copy);
    assert_eq!(kept.shape, vec![1, 3, 1]);
    let all = ReshapeForBroadcast::new(Id(1), Id(2), vec![], false).plan(&[]).unwrap();
    assert_eq!(all.kernel, Kernel::Copy);
    let off = ReshapeForBroadcast::new(Id(1), Id(2), vec![4], false);
    assert_eq!(off.plan(&[3]).unwrap_err(), ShapeError::Axis);
}

#[test]
fn matmul_dispatches_on_rank() {
    assert_eq!(matmul(&[], &[2, 3]).unwrap().kernel, Kernel::MatMul(MatMulKind::Scale));
    assert_eq!(matmul(&[], &[2, 3]).unwrap().shape, vec![2, 3]);
    assert_eq!(matmul(&[4], &[]).unwrap().shape, vec![4]);
    let dot = matmul(&[3], &[3]).unwrap();
    assert_eq!(dot.kernel, Kernel::MatMul(MatMulKind::Dot));
    assert_eq!(dot.shape, Vec::<usize>::new());
    let vm = matmul(&[3], &[3, 5]).unwrap();
    assert_eq!(vm.kernel, Kernel::MatMul(MatMulKind::VecMat));
    assert_eq!(vm.shape, vec![5]);
    let mv = matmul(&[2, 3], &[3]).unwrap();
    assert_eq!(mv.kernel, Kernel::MatMul(MatMulKind::MatVec));
    assert_eq!(mv.shape, vec![2]);
    let mm = matmul(&[2, 3], &[3, 5]).unwrap();
    assert_eq!(mm.kernel, Kernel::MatMul(MatMulKind::MatMat));
    assert_eq!(mm.shape, vec![2, 5]);
    let batched = matmul(&[7, 1, 2, 3], &[4, 3, 5]).unwrap();
    assert_eq!(
        batched.kernel,
        Kernel::MatMul(MatMulKind::Batched { batch: 28, m: 2, k: 3, n: 5 })
    );
    assert_eq!(batched.shape, vec![7, 4, 2, 5]);
    assert_eq!(batched.operands, vec![vec![7, 4, 2, 3], vec![7, 4, 3, 5]]);
    assert!(mm.operands.is_empty());
}

#[test]
fn matmul_rejects_what_cannot_be_multiplied() {
    assert_eq!(matmul(&[3], &[4]).unwrap_err(), ShapeError::MatMulInner);
    assert_eq!(matmul(&[3], &[4, 5]).unwrap_err(), ShapeError::MatMulInner);
    assert_eq!(matmul(&[2, 3], &[4]).unwrap_err(), ShapeError::MatMulInner);
    assert_eq!(matmul(&[2, 3], &[4, 5]).unwrap_err(), ShapeError::MatMulInner);
    assert_eq!(matmul(&[3], &[2, 3, 5]).unwrap_err(), ShapeError::MatMulRank);
    assert_eq!(matmul(&[2, 2, 3], &[2, 4, 5]).unwrap_err(), ShapeError::MatMulInner);
    assert_eq!(matmul(&[2, 2, 3], &[3, 3, 5]).unwrap_err(), ShapeError::Broadcast);
}

#[test]
fn inferred_matmul_shapes() {
    assert_eq!(infer_matmul_shape(&[], &[2, 3]), vec![2, 3]);
    assert_eq!(infer_matmul_shape(&[2, 3], &[]), vec![2, 3]);
    assert_eq!(infer_matmul_shape(&[3], &[3]), Vec::<usize>::new());
    assert_eq!(infer_matmul_shape(&[3], &[3, 5]), vec![5]);
    assert_eq!(infer_matmul_shape(&[2, 3], &[3]), vec![2]);
    assert_eq!(infer_matmul_shape(&[2, 3], &[3, 5]), vec![2, 5]);
    assert_eq!(infer_matmul_shape(&[6, 2, 3], &[3, 5]), vec![6, 2, 5]);
    assert_eq!(infer_matmul_shape(&[1, 4, 2, 3], &[9, 1, 3, 5]), vec![9, 4, 2, 5]);
}

#[test]
fn reduction_and_reinsertion_restore_the_shape() {
    let x = [2, 3, 4, 5];
    let forward = Sum::new(Id(1), Id(2), vec![1, 3], false).plan(&x).unwrap();
    assert_eq!(forward.shape, vec![2, 4]);
    let back = ReshapeForBroadcast::new(Id(3), Id(4), vec![3, 1], false).plan(&forward.shape).unwrap();
    assert_eq!(back.shape, vec![2, 1, 4, 1]);
    assert!(can_broadcast(&back.shape, &x));
    assert_eq!(size_of(&back.shape), size_of(&forward.shape));
}

#[test]
fn transposing_twice_restores_the_shape() {
    let op = Transpose::new(Id(1), Id(2), 0, 2);
    let once = op.plan(&[2, 3, 4]).unwrap();
    let twice = op.plan(&once.shape).unwrap();
    assert_eq!(twice.shape, vec![2, 3, 4]);
}
