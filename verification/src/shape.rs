//! Shape algebra: element counts, broadcasting and axis reduction.

use itertools::{EitherOrBoth, Itertools};
use vstd::prelude::*;
use vstd::relations::{sorted_by, total_ordering};
use vstd::seq_lib::lemma_sorted_unique;

verus! {

/// Product of the extents of `s`, counting an empty axis as one.
pub open spec fn span(s: Seq<usize>) -> nat
    decreases s.len(),
{
    if s.len() == 0 {
        1
    } else {
        span(s.drop_last()) * (if s.last() == 0 {
            1nat
        } else {
            s.last() as nat
        })
    }
}

/// Number of elements of a tensor of shape `s`.
pub open spec fn volume(s: Seq<usize>) -> nat {
    if s.contains(0) {
        0
    } else {
        span(s)
    }
}

/// A tensor of shape `s` can exist: the product of its non-empty extents
/// is addressable.
pub open spec fn representable(s: Seq<usize>) -> bool {
    span(s) <= isize::MAX
}

/// Number of elements of a tensor of shape `s`, if such a tensor can exist.
pub open spec fn size_spec(s: Seq<usize>) -> Option<usize> {
    if representable(s) {
        Some(volume(s) as usize)
    } else {
        None
    }
}

/// Extent of the axis `i` places from the last one; missing leading axes
/// count as extent one.
pub open spec fn dim_from_end(s: Seq<usize>, i: int) -> usize {
    if 0 <= i < s.len() {
        s[s.len() - 1 - i]
    } else {
        1
    }
}

/// Two aligned extents can be broadcast against each other.
pub open spec fn dims_agree(a: usize, b: usize) -> bool {
    a == b || a == 1 || b == 1
}

/// The extent two agreeing aligned extents broadcast to.
pub open spec fn merged_dim(a: usize, b: usize) -> usize {
    if a == b || a == 1 {
        b
    } else {
        a
    }
}

pub open spec fn max_len(a: Seq<usize>, b: Seq<usize>) -> nat {
    if a.len() >= b.len() {
        a.len()
    } else {
        b.len()
    }
}

/// Shapes `a` and `b` have a common broadcast shape.
pub open spec fn broadcastable(a: Seq<usize>, b: Seq<usize>) -> bool {
    forall|i: int|
        0 <= i < max_len(a, b) ==> dims_agree(#[trigger] dim_from_end(a, i), dim_from_end(b, i))
}

/// The common shape of `a` and `b`, aligned at the last axis.
pub open spec fn broadcast_of(a: Seq<usize>, b: Seq<usize>) -> Seq<usize> {
    let n = max_len(a, b);
    Seq::new(n, |j: int| merged_dim(dim_from_end(a, n - 1 - j), dim_from_end(b, n - 1 - j)))
}

/// Result of broadcasting two shapes against each other.
pub open spec fn broadcast_shapes_spec(a: Seq<usize>, b: Seq<usize>) -> Option<Seq<usize>> {
    if broadcastable(a, b) {
        Some(broadcast_of(a, b))
    } else {
        None
    }
}

/// A tensor of shape `from` can be stretched to shape `to`: aligned at the
/// last axis, every extent of `from` equals that of `to` or is one.
pub open spec fn broadcasts_to(from: Seq<usize>, to: Seq<usize>) -> bool {
    &&& from.len() <= to.len()
    &&& forall|i: int|
        0 <= i < from.len() ==> (#[trigger] dim_from_end(from, i) == dim_from_end(to, i)
            || dim_from_end(from, i) == 1)
}

/// One reduction of a single axis: the axis is folded away and, when
/// `keep` is set, put back with extent one.
#[derive(Debug, Clone, Copy, PartialEq, Eq, Structural)]
pub struct ReduceStep {
    pub axis: usize,
    pub keep: bool,
}

/// Shape left by one reduction step, if the axis exists.
pub open spec fn apply_step(s: Seq<usize>, step: ReduceStep) -> Option<Seq<usize>> {
    if step.axis < s.len() {
        if step.keep {
            Some(s.update(step.axis as int, 1usize))
        } else {
            Some(s.remove(step.axis as int))
        }
    } else {
        None
    }
}

/// Shape left by a sequence of reduction steps applied in order.
pub open spec fn apply_steps(s: Seq<usize>, steps: Seq<ReduceStep>) -> Option<Seq<usize>>
    decreases steps.len(),
{
    if steps.len() == 0 {
        Some(s)
    } else {
        match apply_step(s, steps[0]) {
            Some(t) => apply_steps(t, steps.skip(1)),
            None => None,
        }
    }
}

/// The steps that reduce each of `axes`, in the given order.
pub open spec fn steps_for(axes: Seq<usize>, keep: bool) -> Seq<ReduceStep> {
    Seq::new(axes.len(), |i: int| ReduceStep { axis: axes[i], keep })
}

/// Shape with the extents of two axes exchanged.
pub open spec fn swapped(s: Seq<usize>, a1: int, a2: int) -> Seq<usize> {
    s.update(a1, s[a2]).update(a2, s[a1])
}

/// Shape with an axis of extent one inserted at each of `axes` in turn.
pub open spec fn with_unit_axes(s: Seq<usize>, axes: Seq<usize>) -> Option<Seq<usize>>
    decreases axes.len(),
{
    if axes.len() == 0 {
        Some(s)
    } else if axes[0] <= s.len() {
        with_unit_axes(s.insert(axes[0] as int, 1usize), axes.skip(1))
    } else {
        None
    }
}

pub proof fn lemma_span_positive(s: Seq<usize>)
    ensures
        span(s) >= 1,
    decreases s.len(),
{
    if s.len() > 0 {
        lemma_span_positive(s.drop_last());
        let f = if s.last() == 0 { 1nat } else { s.last() as nat };
        assert(span(s.drop_last()) * f >= 1) by (nonlinear_arith)
            requires
                span(s.drop_last()) >= 1,
                f >= 1,
        ;
    }
}

/// The span of a prefix never exceeds the span of the whole.
pub proof fn lemma_span_prefix(s: Seq<usize>, i: int)
    requires
        0 <= i <= s.len(),
    ensures
        span(s.take(i)) <= span(s),
    decreases s.len() - i,
{
    if i < s.len() {
        lemma_span_prefix(s, i + 1);
        let t = s.take(i + 1);
        assert(t.drop_last() =~= s.take(i));
        lemma_span_positive(s.take(i));
        let f = if t.last() == 0 { 1nat } else { t.last() as nat };
        assert(span(s.take(i)) <= span(s.take(i)) * f) by (nonlinear_arith)
            requires
                f >= 1,
        ;
    } else {
        assert(s.take(i) =~= s);
    }
}

/// The span of `shape`, unless it exceeds `limit`.
fn bounded_span(shape: &[usize], limit: usize) -> (bounded: Option<usize>)
    ensures
        bounded == (if span(shape@) <= limit {
            Some(span(shape@) as usize)
        } else {
            None
        }),
{
    let n: usize = shape.len();
    let mut acc: usize = 1;
    let mut i: usize = 0;
    assert(shape@.take(0) =~= Seq::<usize>::empty());
    if limit == 0 {
        proof {
            lemma_span_positive(shape@);
        }
        return None;
    }
    while i < n
        invariant
            n == shape@.len(),
            0 <= i <= n,
            acc == span(shape@.take(i as int)),
            acc <= limit,
        decreases n - i,
    {
        let d: usize = shape[i];
        proof {
            let t = shape@.take(i as int + 1);
            assert(t.drop_last() =~= shape@.take(i as int));
            assert(t.last() == d);
        }
        if d != 0 {
            if acc > limit / d {
                proof {
                    assert(acc * d > limit) by (nonlinear_arith)
                        requires
                            acc > limit / d,
                            d > 0,
                    ;
                    lemma_span_prefix(shape@, i as int + 1);
                }
                return None;
            }
            assert(acc * d <= limit) by (nonlinear_arith)
                requires
                    acc <= limit / d,
                    d > 0,
            ;
            acc = acc * d;
        }
        i += 1;
    }
    assert(shape@.take(n as int) =~= shape@);
    Some(acc)
}

/// Whether some axis of `shape` has extent zero.
fn has_empty_axis(shape: &[usize]) -> (empty: bool)
    ensures
        empty == shape@.contains(0),
{
    let n: usize = shape.len();
    let mut i: usize = 0;
    while i < n
        invariant
            n == shape@.len(),
            0 <= i <= n,
            forall|k: int| 0 <= k < i ==> shape@[k] != 0,
        decreases n - i,
    {
        if shape[i] == 0 {
            return true;
        }
        i += 1;
    }
    false
}

/// Number of elements of a tensor of shape `shape`, if such a tensor can
/// exist.
pub fn size_of(shape: &[usize]) -> (size: Option<usize>)
    ensures
        size == size_spec(shape@),
{
    match bounded_span(shape, isize::MAX as usize) {
        Some(product) => {
            if has_empty_axis(shape) {
                Some(0)
            } else {
                Some(product)
            }
        },
        None => None,
    }
}

/// Product of `factors`, if the machine can hold it.
pub fn count_of(factors: &[usize]) -> (count: Option<usize>)
    ensures
        count == (if volume(factors@) <= usize::MAX {
            Some(volume(factors@) as usize)
        } else {
            None
        }),
{
    if has_empty_axis(factors) {
        Some(0)
    } else {
        bounded_span(factors, usize::MAX)
    }
}

/// Where a sequence of steps applies to a shape, every step names an axis
/// of that shape.
pub proof fn lemma_steps_in_range(s: Seq<usize>, steps: Seq<ReduceStep>)
    requires
        apply_steps(s, steps) is Some,
    ensures
        forall|i: int| 0 <= i < steps.len() ==> (#[trigger] steps[i]).axis < s.len(),
    decreases steps.len(),
{
    if steps.len() > 0 {
        let t = apply_step(s, steps[0]).unwrap();
        lemma_steps_in_range(t, steps.skip(1));
        assert forall|i: int| 0 <= i < steps.len() implies (#[trigger] steps[i]).axis < s.len() by {
            if i > 0 {
                assert(steps.skip(1)[i - 1] == steps[i]);
            }
        }
    }
}

/// The first `n` of `items`, copied.
pub fn leading<T: Copy>(items: &[T], n: usize) -> (head: Vec<T>)
    requires
        n <= items@.len(),
    ensures
        head@ == items@.take(n as int),
{
    let mut head: Vec<T> = Vec::new();
    let mut i: usize = 0;
    while i < n
        invariant
            n <= items@.len(),
            0 <= i <= n,
            head@ == items@.take(i as int),
        decreases n - i,
    {
        head.push(items[i]);
        assert(items@.take(i as int).push(items@[i as int]) =~= items@.take(i as int + 1));
        i += 1;
    }
    head
}

/// An owned copy of `items`.
pub fn copied<T: Copy>(items: &[T]) -> (copy: Vec<T>)
    ensures
        copy@ == items@,
{
    assert(items@.take(items@.len() as int) =~= items@);
    leading(items, items.len())
}

/// Whether two shapes are the same.
pub fn same_shape(a: &[usize], b: &[usize]) -> (same: bool)
    ensures
        same == (a@ == b@),
{
    if a.len() != b.len() {
        return false;
    }
    let n: usize = a.len();
    let mut i: usize = 0;
    while i < n
        invariant
            n == a@.len(),
            n == b@.len(),
            0 <= i <= n,
            forall|k: int| 0 <= k < i ==> a@[k] == b@[k],
        decreases n - i,
    {
        if a[i] != b[i] {
            return false;
        }
        i += 1;
    }
    assert(a@ =~= b@);
    true
}

/// Whether a tensor of shape `from` can be stretched to shape `to`.
pub fn can_broadcast(from: &[usize], to: &[usize]) -> (ok: bool)
    ensures
        ok == broadcasts_to(from@, to@),
{
    if from.len() > to.len() {
        return false;
    }
    let n: usize = from.len();
    let mut i: usize = 0;
    while i < n
        invariant
            n == from@.len(),
            n <= to@.len(),
            0 <= i <= n,
            forall|k: int|
                0 <= k < i ==> (#[trigger] dim_from_end(from@, k) == dim_from_end(to@, k)
                    || dim_from_end(from@, k) == 1),
        decreases n - i,
    {
        let d: usize = from[n - 1 - i];
        let t: usize = to[to.len() - 1 - i];
        assert(d == dim_from_end(from@, i as int));
        assert(t == dim_from_end(to@, i as int));
        if d != t && d != 1 {
            return false;
        }
        i += 1;
    }
    true
}

/// The order of extents and axis indices.
pub open spec fn leq() -> spec_fn(usize, usize) -> bool {
    |a: usize, b: usize| a <= b
}

/// `s` rearranged from lowest to highest.
pub open spec fn ascending(s: Seq<usize>) -> Seq<usize> {
    s.sort_by(leq())
}

/// `s` rearranged from highest to lowest.
pub open spec fn descending(s: Seq<usize>) -> Seq<usize> {
    ascending(s).reverse()
}

/// Sorts `v` with `slice::sort_unstable`: afterwards `v` holds the same
/// numbers as before, each as often as before, from lowest to highest.
#[verifier::external_body]
fn sort_in_place(v: &mut Vec<usize>)
    ensures
        final(v)@.to_multiset() == old(v)@.to_multiset(),
        sorted_by(final(v)@, leq()),
{
    v.sort_unstable();
}

/// A copy of `axes` sorted from lowest to highest.
pub fn sorted_ascending(axes: &[usize]) -> (sorted: Vec<usize>)
    ensures
        sorted@ == ascending(axes@),
{
    let mut sorted: Vec<usize> = copied(axes);
    sort_in_place(&mut sorted);
    proof {
        assert(total_ordering(leq()));
        axes@.lemma_sort_by_ensures(leq());
        lemma_sorted_unique(sorted@, ascending(axes@), leq());
    }
    sorted
}

/// A copy of `axes` sorted from highest to lowest.
pub fn sorted_descending(axes: &[usize]) -> (sorted: Vec<usize>)
    ensures
        sorted@ == descending(axes@),
{
    let up: Vec<usize> = sorted_ascending(axes);
    let mut sorted: Vec<usize> = Vec::new();
    let n: usize = up.len();
    let mut i: usize = 0;
    while i < n
        invariant
            n == up@.len(),
            0 <= i <= n,
            sorted@.len() == i,
            forall|k: int| 0 <= k < i ==> #[trigger] sorted@[k] == up@[n - 1 - k],
        decreases n - i,
    {
        sorted.push(up[n - 1 - i]);
        i += 1;
    }
    assert(sorted@ =~= up@.reverse());
    sorted
}

/// One pair of the alignment of two shapes at their last axes.
#[derive(Debug, Clone, Copy, PartialEq, Eq, Structural)]
pub enum Aligned {
    /// Both shapes have an axis here: the axis index in the first shape,
    /// its extent there, and the extent in the second shape.
    Both(usize, usize, usize),
    /// Only the first shape has an axis here: its index and extent.
    Left(usize, usize),
    /// Only the second shape has an axis here: its extent.
    Right(usize),
}

/// The pair `i` places from the last axis.
pub open spec fn aligned_at(a: Seq<usize>, b: Seq<usize>, i: int) -> Aligned {
    if i < a.len() && i < b.len() {
        Aligned::Both((a.len() - 1 - i) as usize, a[a.len() - 1 - i], b[b.len() - 1 - i])
    } else if i < a.len() {
        Aligned::Left((a.len() - 1 - i) as usize, a[a.len() - 1 - i])
    } else {
        Aligned::Right(b[b.len() - 1 - i])
    }
}

/// The alignment of two shapes, from the last axis to the first, as long
/// as either shape has axes left.
pub open spec fn aligned(a: Seq<usize>, b: Seq<usize>) -> Seq<Aligned> {
    Seq::new(max_len(a, b), |i: int| aligned_at(a, b, i))
}

/// Pairs the axes of `a`, each with its index, and the axes of `b`, both
/// walked from the last to the first, with `Itertools::zip_longest`: while
/// both have axes left it yields both, afterwards the rest of the longer
/// one alone.
#[verifier::external_body]
fn align_from_end(a: &[usize], b: &[usize]) -> (pairs: Vec<Aligned>)
    ensures
        pairs@ == aligned(a@, b@),
{
    a.iter()
        .enumerate()
        .rev()
        .zip_longest(b.iter().rev())
        .map(|pair| match pair {
            EitherOrBoth::Both((axis, x), y) => Aligned::Both(axis, *x, *y),
            EitherOrBoth::Left((axis, x)) => Aligned::Left(axis, *x),
            EitherOrBoth::Right(y) => Aligned::Right(*y),
        })
        .collect()
}

/// Every aligned extent of `a` equals that of `b`, or exceeds one where
/// that of `b` is one; `a` has at least the axes of `b`.
pub open spec fn reducible(a: Seq<usize>, b: Seq<usize>) -> bool {
    &&& a.len() >= b.len()
    &&& forall|i: int|
        0 <= i < b.len() ==> (#[trigger] dim_from_end(a, i) == dim_from_end(b, i) || (dim_from_end(
            b,
            i,
        ) == 1 && dim_from_end(a, i) > 1))
}

/// The reductions that bring shape `a` down to shape `b`, for the axes `i`
/// places and more from the last one: an aligned axis that differs is
/// summed and kept with extent one, a leading axis that `b` lacks is summed
/// away.
pub open spec fn reduce_steps(a: Seq<usize>, b: Seq<usize>, i: int) -> Seq<ReduceStep>
    decreases a.len() - i,
{
    if i < 0 || i >= a.len() {
        Seq::empty()
    } else {
        let axis = (a.len() - 1 - i) as usize;
        let rest = reduce_steps(a, b, i + 1);
        if i < b.len() {
            if a[axis as int] == b[b.len() - 1 - i] {
                rest
            } else {
                seq![ReduceStep { axis, keep: true }] + rest
            }
        } else {
            seq![ReduceStep { axis, keep: false }] + rest
        }
    }
}

/// The steps that reduce a tensor of shape `a` to shape `b`, or `None`
/// where the shapes do not allow it.
pub fn plan_reduction(a: &[usize], b: &[usize]) -> (steps: Option<Vec<ReduceStep>>)
    requires
        a@.len() >= b@.len(),
    ensures
        steps matches Some(steps) ==> reducible(a@, b@) && steps@ == reduce_steps(a@, b@, 0),
        steps is None ==> !reducible(a@, b@),
{
    let pairs: Vec<Aligned> = align_from_end(a, b);
    let mut steps: Vec<ReduceStep> = Vec::new();
    let n: usize = pairs.len();
    let mut i: usize = 0;
    while i < n
        invariant
            n == a@.len(),
            a@.len() >= b@.len(),
            pairs@ == aligned(a@, b@),
            0 <= i <= n,
            steps@ + reduce_steps(a@, b@, i as int) =~= reduce_steps(a@, b@, 0),
            forall|k: int|
                0 <= k < i && k < b@.len() ==> (#[trigger] dim_from_end(a@, k) == dim_from_end(b@, k)
                    || (dim_from_end(b@, k) == 1 && dim_from_end(a@, k) > 1)),
        decreases n - i,
    {
        let ghost before = steps@;
        assert(pairs@[i as int] == aligned_at(a@, b@, i as int));
        match pairs[i] {
            Aligned::Left(axis, _) => {
                steps.push(ReduceStep { axis, keep: false });
            },
            Aligned::Both(axis, in_a, in_b) => {
                assert(in_a == dim_from_end(a@, i as int));
                assert(in_b == dim_from_end(b@, i as int));
                if in_a == in_b {
                } else if in_b == 1 && in_a > 1 {
                    steps.push(ReduceStep { axis, keep: true });
                } else {
                    return None;
                }
            },
            Aligned::Right(_) => {
                return None;
            },
        }
        assert(steps@ + reduce_steps(a@, b@, i as int + 1) =~= before + reduce_steps(
            a@,
            b@,
            i as int,
        ));
        i += 1;
    }
    assert(steps@ + Seq::<ReduceStep>::empty() =~= steps@);
    Some(steps)
}

/// The steps along `axes`, in the given order, and the shape they leave of
/// a tensor of shape `shape`, or `None` if a step names an axis that the
/// tensor no longer has.
pub fn reduce_along(shape: &[usize], axes: &[usize], keep: bool) -> (reduced: Option<
    (Vec<ReduceStep>, Vec<usize>),
>)
    ensures
        match reduced {
            Some((steps, left)) => steps@ == steps_for(axes@, keep) && apply_steps(
                shape@,
                steps_for(axes@, keep),
            ) == Some(left@),
            None => apply_steps(shape@, steps_for(axes@, keep)) is None,
        },
{
    let ghost all = steps_for(axes@, keep);
    let mut left: Vec<usize> = copied(shape);
    let mut steps: Vec<ReduceStep> = Vec::new();
    let n: usize = axes.len();
    let mut i: usize = 0;
    assert(all.skip(0) =~= all);
    while i < n
        invariant
            n == axes@.len(),
            all == steps_for(axes@, keep),
            0 <= i <= n,
            steps@ == all.take(i as int),
            apply_steps(shape@, all) == apply_steps(left@, all.skip(i as int)),
        decreases n - i,
    {
        let axis: usize = axes[i];
        let ghost rest = all.skip(i as int);
        assert(rest[0] == ReduceStep { axis, keep });
        assert(rest.skip(1) =~= all.skip(i as int + 1));
        if axis >= left.len() {
            return None;
        }
        if keep {
            left.set(axis, 1);
        } else {
            left.remove(axis);
        }
        steps.push(ReduceStep { axis, keep });
        assert(all.take(i as int).push(all[i as int]) =~= all.take(i as int + 1));
        i += 1;
    }
    assert(all.take(n as int) =~= all);
    Some((steps, left))
}

/// Shape `shape` with an axis of extent one inserted at each of `axes` in
/// turn, or `None` if an insertion point lies beyond the end.
pub fn insert_unit_axes(shape: &[usize], axes: &[usize]) -> (widened: Option<Vec<usize>>)
    ensures
        match widened {
            Some(w) => with_unit_axes(shape@, axes@) == Some(w@),
            None => with_unit_axes(shape@, axes@) is None,
        },
{
    let mut wide: Vec<usize> = copied(shape);
    let n: usize = axes.len();
    let mut i: usize = 0;
    assert(axes@.skip(0) =~= axes@);
    while i < n
        invariant
            n == axes@.len(),
            0 <= i <= n,
            with_unit_axes(shape@, axes@) == with_unit_axes(wide@, axes@.skip(i as int)),
        decreases n - i,
    {
        let axis: usize = axes[i];
        assert(axes@.skip(i as int)[0] == axis);
        assert(axes@.skip(i as int).skip(1) =~= axes@.skip(i as int + 1));
        if axis > wide.len() {
            return None;
        }
        wide.insert(axis, 1);
        i += 1;
    }
    Some(wide)
}

/// Shape `a` after the reductions of its last `i` axes towards `b` have
/// been made: the axes not yet visited are those of `a`, the others those
/// of `b`.
pub open spec fn partly_reduced(a: Seq<usize>, b: Seq<usize>, i: int) -> Seq<usize> {
    a.take(a.len() - i) + b.skip(if b.len() >= i {
        b.len() - i
    } else {
        0
    })
}

/// The reductions planned for the axes `i` places and more from the last
/// one finish the way from `a` to `b`.
pub proof fn lemma_reduce_steps_from(a: Seq<usize>, b: Seq<usize>, i: int)
    requires
        reducible(a, b),
        a.len() <= usize::MAX,
        0 <= i <= a.len(),
    ensures
        apply_steps(partly_reduced(a, b, i), reduce_steps(a, b, i)) == Some(b),
    decreases a.len() - i,
{
    let here = partly_reduced(a, b, i);
    if i == a.len() {
        assert(here =~= b);
    } else {
        lemma_reduce_steps_from(a, b, i + 1);
        let next = partly_reduced(a, b, i + 1);
        let rest = reduce_steps(a, b, i + 1);
        let axis = (a.len() - 1 - i) as usize;
        if i < b.len() {
            assert(dim_from_end(a, i) == a[axis as int]);
            assert(dim_from_end(b, i) == b[b.len() - 1 - i]);
            if a[axis as int] == b[b.len() - 1 - i] {
                assert(here =~= next);
            } else {
                let step = ReduceStep { axis, keep: true };
                let steps = seq![step] + rest;
                assert(steps[0] == step);
                assert(steps.skip(1) =~= rest);
                assert(here.update(axis as int, 1usize) =~= next);
            }
        } else {
            let step = ReduceStep { axis, keep: false };
            let steps = seq![step] + rest;
            assert(steps[0] == step);
            assert(steps.skip(1) =~= rest);
            assert(here.remove(axis as int) =~= next);
        }
    }
}

/// Reduction reaches its target: where shape `a` can be reduced to shape
/// `b`, the planned steps, applied to `a` in order, leave exactly `b`.
pub proof fn lemma_reduction_reaches_target(a: Seq<usize>, b: Seq<usize>)
    requires
        reducible(a, b),
        a.len() <= usize::MAX,
    ensures
        apply_steps(a, reduce_steps(a, b, 0)) == Some(b),
{
    lemma_reduce_steps_from(a, b, 0);
    assert(partly_reduced(a, b, 0) =~= a);
}

/// Whatever a tensor was stretched to can be reduced back, provided no
/// axis was stretched to extent zero.
pub proof fn lemma_stretched_is_reducible(x: Seq<usize>, target: Seq<usize>)
    requires
        broadcasts_to(x, target),
        forall|i: int|
            0 <= i < x.len() && dim_from_end(x, i) == 1 ==> #[trigger] dim_from_end(target, i) >= 1,
    ensures
        reducible(target, x),
{
    assert forall|i: int| 0 <= i < x.len() implies (#[trigger] dim_from_end(target, i)
        == dim_from_end(x, i) || (dim_from_end(x, i) == 1 && dim_from_end(target, i) > 1)) by {
        assert(dim_from_end(x, i) == dim_from_end(target, i) || dim_from_end(x, i) == 1);
    }
}

/// Each axis is lower than the one before it.
pub open spec fn strictly_descending(axes: Seq<usize>) -> bool {
    forall|i: int, j: int| 0 <= i < j < axes.len() ==> axes[i] > axes[j]
}

/// Shape `x` with extent one at each of `axes`.
pub open spec fn with_units_at(x: Seq<usize>, axes: Seq<usize>) -> Seq<usize> {
    Seq::new(
        x.len(),
        |i: int|
            if axes.contains(i as usize) {
                1usize
            } else {
                x[i]
            },
    )
}

/// A sequence read backwards holds the same numbers, each as often.
proof fn lemma_reverse_multiset(s: Seq<usize>)
    ensures
        s.reverse().to_multiset() == s.to_multiset(),
    decreases s.len(),
{
    if s.len() == 0 {
        assert(s.reverse() =~= s);
    } else {
        let init = s.drop_last();
        lemma_reverse_multiset(init);
        assert(s =~= init.push(s.last()));
        assert(s.reverse() =~= init.reverse().insert(0, s.last()));
        vstd::seq_lib::to_multiset_insert(init.reverse(), 0, s.last());
        vstd::seq_lib::to_multiset_build(init, s.last());
    }
}

/// Axes that descend strictly, read backwards, are sorted from lowest to
/// highest.
pub proof fn lemma_ascending_of_descending(axes: Seq<usize>)
    requires
        strictly_descending(axes),
    ensures
        ascending(axes) == axes.reverse(),
{
    lemma_reverse_multiset(axes);
    assert(total_ordering(leq()));
    axes.lemma_sort_by_ensures(leq());
    let back = axes.reverse();
    assert(sorted_by(back, leq())) by {
        assert forall|i: int, j: int| 0 <= i < j < back.len() implies #[trigger] leq()(
            back[i],
            back[j],
        ) by {
            assert(back[i] == axes[axes.len() - 1 - i]);
            assert(back[j] == axes[axes.len() - 1 - j]);
        }
    }
    lemma_sorted_unique(ascending(axes), back, leq());
}

/// Inserting one more unit axis after the others.
proof fn lemma_unit_axes_push(s: Seq<usize>, axes: Seq<usize>, a: usize)
    ensures
        with_unit_axes(s, axes.push(a)) == match with_unit_axes(s, axes) {
            Some(w) => if a <= w.len() {
                Some(w.insert(a as int, 1usize))
            } else {
                None
            },
            None => None,
        },
    decreases axes.len(),
{
    let more = axes.push(a);
    if axes.len() == 0 {
        assert(more.skip(1) =~= Seq::<usize>::empty());
        assert(more[0] == a);
        if a <= s.len() {
            assert(with_unit_axes(s.insert(a as int, 1usize), more.skip(1)) == Some(
                s.insert(a as int, 1usize),
            ));
        }
    } else {
        assert(more[0] == axes[0]);
        assert(more.skip(1) =~= axes.skip(1).push(a));
        if axes[0] <= s.len() {
            lemma_unit_axes_push(s.insert(axes[0] as int, 1usize), axes.skip(1), a);
        }
    }
}

/// Unit axes change neither the span nor the number of elements.
pub proof fn lemma_unit_axis_keeps_volume(s: Seq<usize>, i: int)
    requires
        0 <= i <= s.len(),
    ensures
        span(s.insert(i, 1usize)) == span(s),
        volume(s.insert(i, 1usize)) == volume(s),
    decreases s.len() - i,
{
    let w = s.insert(i, 1usize);
    if i == s.len() {
        assert(w.drop_last() =~= s);
        assert(w.last() == 1);
        assert(span(s) * 1 == span(s)) by (nonlinear_arith);
    } else {
        lemma_unit_axis_keeps_volume(s.drop_last(), i);
        assert(w.drop_last() =~= s.drop_last().insert(i, 1usize));
        assert(w.last() == s.last());
    }
    assert(w.contains(0) == s.contains(0)) by {
        if w.contains(0) {
            let j = choose|j: int| 0 <= j < w.len() && w[j] == 0;
            if j < i {
                assert(s[j] == 0);
            } else {
                assert(s[j - 1] == 0);
            }
        }
        if s.contains(0) {
            let j = choose|j: int| 0 <= j < s.len() && s[j] == 0;
            if j < i {
                assert(w[j] == 0);
            } else {
                assert(w[j + 1] == 0);
            }
        }
    }
}

/// Inserting unit axes changes neither the span nor the number of
/// elements: a tensor can always be reshaped to the widened shape.
pub proof fn lemma_unit_axes_keep_volume(s: Seq<usize>, axes: Seq<usize>)
    ensures
        with_unit_axes(s, axes) matches Some(w) ==> span(w) == span(s) && volume(w) == volume(s),
    decreases axes.len(),
{
    if axes.len() > 0 && axes[0] <= s.len() {
        lemma_unit_axis_keeps_volume(s, axes[0] as int);
        lemma_unit_axes_keep_volume(s.insert(axes[0] as int, 1usize), axes.skip(1));
    }
}

/// Axes that a reduction removed come back as unit axes: removing
/// strictly descending axes from `x` and then inserting unit axes at the
/// same places, lowest first, gives `x` with extent one at those places.
pub proof fn lemma_removed_axes_come_back(x: Seq<usize>, axes: Seq<usize>)
    requires
        strictly_descending(axes),
        axes.len() > 0 ==> axes[0] < x.len(),
        x.len() <= usize::MAX,
    ensures
        apply_steps(x, steps_for(axes, false)) matches Some(y) && with_unit_axes(
            y,
            axes.reverse(),
        ) == Some(with_units_at(x, axes)),
    decreases axes.len(),
{
    let steps = steps_for(axes, false);
    if axes.len() == 0 {
        assert(axes.reverse() =~= Seq::<usize>::empty());
        assert(with_units_at(x, axes) =~= x);
    } else {
        let a = axes[0];
        let rest = axes.skip(1);
        let x1 = x.remove(a as int);
        assert(steps[0] == ReduceStep { axis: a, keep: false });
        assert(steps.skip(1) =~= steps_for(rest, false));
        assert(strictly_descending(rest)) by {
            assert forall|i: int, j: int| 0 <= i < j < rest.len() implies rest[i] > rest[j] by {
                assert(axes[i + 1] > axes[j + 1]);
            }
        }
        if rest.len() > 0 {
            assert(axes[0] > axes[1]);
        }
        lemma_removed_axes_come_back(x1, rest);
        let y = apply_steps(x1, steps_for(rest, false)).unwrap();
        let r1 = with_units_at(x1, rest);
        assert(axes.reverse() =~= rest.reverse().push(a));
        lemma_unit_axes_push(y, rest.reverse(), a);
        assert(r1.insert(a as int, 1usize) =~= with_units_at(x, axes)) by {
            let w = r1.insert(a as int, 1usize);
            let target = with_units_at(x, axes);
            assert forall|i: int| 0 <= i < w.len() implies w[i] == target[i] by {
                assert forall|v: usize| rest.contains(v) implies v < a by {
                    let m = choose|m: int| 0 <= m < rest.len() && rest[m] == v;
                    assert(axes[0] > axes[m + 1]);
                }
                assert forall|v: usize| axes.contains(v) <==> (v == a || rest.contains(v)) by {
                    if axes.contains(v) {
                        let m = choose|m: int| 0 <= m < axes.len() && axes[m] == v;
                        if m > 0 {
                            assert(rest[m - 1] == v);
                        }
                    }
                    if rest.contains(v) {
                        let m = choose|m: int| 0 <= m < rest.len() && rest[m] == v;
                        assert(axes[m + 1] == v);
                    }
                    if v == a {
                        assert(axes[0] == v);
                    }
                }
                if i < a {
                    assert(w[i] == r1[i]);
                    assert(x1[i] == x[i]);
                } else if i == a {
                } else {
                    assert(w[i] == r1[i - 1]);
                    assert(x1[i - 1] == x[i]);
                    assert(!rest.contains((i - 1) as usize)) by {
                        if rest.contains((i - 1) as usize) {
                            assert(((i - 1) as usize) < a);
                        }
                    }
                    assert(!axes.contains(i as usize));
                }
            }
        }
    }
}

/// A reduction that keeps its axes leaves a shape that can be stretched
/// back: it has the rank of `x`, and each extent is that of `x` or one.
pub proof fn lemma_kept_axes_stretch_back(x: Seq<usize>, steps: Seq<ReduceStep>)
    requires
        forall|i: int| 0 <= i < steps.len() ==> (#[trigger] steps[i]).keep,
    ensures
        apply_steps(x, steps) matches Some(y) ==> y.len() == x.len() && forall|i: int|
            0 <= i < x.len() ==> #[trigger] y[i] == x[i] || y[i] == 1,
    decreases steps.len(),
{
    if steps.len() > 0 && steps[0].axis < x.len() {
        let step = steps[0];
        let t = x.update(step.axis as int, 1usize);
        assert(step.keep);
        assert forall|i: int| 0 <= i < steps.skip(1).len() implies (#[trigger] steps.skip(
            1,
        )[i]).keep by {
            assert(steps[i + 1].keep);
        }
        lemma_kept_axes_stretch_back(t, steps.skip(1));
    }
}

/// A shape with the rank of `x` whose extents are those of `x` or one can
/// be stretched to `x`.
pub proof fn lemma_units_stretch(y: Seq<usize>, x: Seq<usize>)
    requires
        y.len() == x.len(),
        forall|i: int| 0 <= i < x.len() ==> #[trigger] y[i] == x[i] || y[i] == 1,
    ensures
        broadcasts_to(y, x),
{
    assert forall|i: int| 0 <= i < y.len() implies (#[trigger] dim_from_end(y, i) == dim_from_end(
        x,
        i,
    ) || dim_from_end(y, i) == 1) by {
        let at = y.len() - 1 - i;
        assert(y[at] == x[at] || y[at] == 1);
    }
}

} // verus!
