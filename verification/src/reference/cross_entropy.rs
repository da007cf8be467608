//! Fused cross-entropy, forward and backward, for one row of logits.
//!
//! The loss is the negative log-likelihood of the target under the softmax of the row;
//! the gradient is `softmax - onehot`. With label smoothing `alpha` over `V` classes the
//! target keeps `1 - alpha` and every class gets `alpha / V`. An ignored row has neither
//! loss nor gradient.

use vstd::prelude::*;
use crate::arith::Arith;
use crate::mat::{repeat, Mat};
use crate::reference::softmax::{row_exp_sum, row_peak, row_total, widen_row};
#[allow(unused_imports)]
use crate::reference::softmax::{exp_sum, peak, total, widened};

verus! {

/// The negative log-likelihood of class `y` in a row whose entries are taken relative to
/// `m`, smoothed by `alpha` where that is positive.
pub open spec fn nll<A: Arith>(z: Seq<A::D>, m: A::D, y: int, alpha: A::D) -> A::D {
    let v = z.len() as int;
    let lse = A::dadd_spec(m, A::dln_spec(exp_sum::<A>(z, m, v)));
    if A::dlt_spec(A::dint_spec(0), alpha) {
        A::dsub_spec(
            A::dsub_spec(lse, A::dmul_spec(A::dsub_spec(A::dint_spec(1), alpha), z[y])),
            A::dmul_spec(A::ddiv_spec(alpha, A::dint_spec(v)), total::<A>(z, v)),
        )
    } else {
        A::dsub_spec(lse, z[y])
    }
}

/// The derivative of that with respect to entry `j`, before it is weighted.
pub open spec fn nll_slope<A: Arith>(z: Seq<A::D>, m: A::D, y: int, alpha: A::D, j: int) -> A::D {
    let v = z.len() as int;
    let p = A::ddiv_spec(A::dexp_spec(A::dsub_spec(z[j], m)), exp_sum::<A>(z, m, v));
    let smoothed = if A::dlt_spec(A::dint_spec(0), alpha) {
        A::dsub_spec(p, A::ddiv_spec(alpha, A::dint_spec(v)))
    } else {
        p
    };
    if j == y {
        A::dsub_spec(smoothed, A::dsub_spec(A::dint_spec(1), alpha))
    } else {
        smoothed
    }
}

/// The cross-entropy loss of a row of logits.
pub open spec fn ce_loss<A: Arith>(
    x: Seq<A::F>,
    y: i64,
    ignore_index: i64,
    label_smoothing: A::F,
) -> A::F {
    let z = widened::<A>(x);
    if y == ignore_index {
        A::narrow_spec(A::dint_spec(0))
    } else {
        A::narrow_spec(
            nll::<A>(z, peak::<A>(z, z.len() as int), y as int, A::widen_spec(label_smoothing)),
        )
    }
}

/// The cross-entropy gradient of a row of logits, weighted by `scale`.
pub open spec fn ce_grad<A: Arith>(
    x: Seq<A::F>,
    y: i64,
    ignore_index: i64,
    label_smoothing: A::F,
    scale: A::F,
) -> Seq<A::F> {
    let z = widened::<A>(x);
    let m = peak::<A>(z, z.len() as int);
    let weight = A::widen_spec(scale);
    let alpha = A::widen_spec(label_smoothing);
    if y == ignore_index || A::deq_spec(weight, A::dint_spec(0)) {
        Seq::new(x.len(), |j: int| A::fint_spec(0))
    } else {
        Seq::new(
            x.len(),
            |j: int|
                A::narrow_spec(A::dmul_spec(nll_slope::<A>(z, m, y as int, alpha, j), weight)),
        )
    }
}

/// A target is usable with a row of `v` logits: it is ignored, or it is a class.
pub open spec fn target_ok(y: i64, ignore_index: i64, v: int) -> bool {
    y == ignore_index || 0 <= y < v
}

/// The negative log-likelihood of class `y` in a row of wide logits relative to `m`.
pub fn row_nll<A: Arith>(z: &[A::D], m: A::D, y: usize, alpha: A::D) -> (r: A::D)
    requires
        y < z@.len(),
    ensures
        r == nll::<A>(z@, m, y as int, alpha),
{
    let v: usize = z.len();
    let d = row_exp_sum::<A>(z, m);
    let lse = A::dadd(m, A::dln(d));
    let logit_tgt = z[y];
    if A::dlt(A::dint(0), alpha) {
        let sum_x = row_total::<A>(z);
        let kept = A::dmul(A::dsub(A::dint(1), alpha), logit_tgt);
        let spread = A::dmul(A::ddiv(alpha, A::dint(v as i128)), sum_x);
        A::dsub(A::dsub(lse, kept), spread)
    } else {
        A::dsub(lse, logit_tgt)
    }
}

/// The loss and the gradient of a single row.
///
/// * `x`: the logits of the row, one for each class.
/// * `y`: the target class, or `ignore_index`.
/// * `label_smoothing`: `alpha`, between zero and one.
/// * `scale`: the weight of the row.
///
/// `grad[j] = scale * ((p_j - alpha / V) - [j == y] * (1 - alpha))` with `p = softmax(x)`.
/// For an ignored row, both are zero.
pub fn ce_fwdbwd_row<A: Arith>(
    x: &[A::F],
    y: i64,
    ignore_index: i64,
    label_smoothing: A::F,
    scale: A::F,
) -> (r: (A::F, Vec<A::F>))
    requires
        x@.len() > 0,
        target_ok(y, ignore_index, x@.len() as int),
    ensures
        r.0 == ce_loss::<A>(x@, y, ignore_index, label_smoothing),
        r.1@ == ce_grad::<A>(x@, y, ignore_index, label_smoothing, scale),
{
    let v: usize = x.len();
    if y == ignore_index {
        return (A::narrow(A::dint(0)), repeat(A::fint(0), v));
    }
    let alpha = A::widen(label_smoothing);
    let z = widen_row::<A>(x);
    let m = row_peak::<A>(z.as_slice());
    let target: usize = y as usize;
    let loss = row_nll::<A>(z.as_slice(), m, target, alpha);

    let weight = A::widen(scale);
    if A::deq(weight, A::dint(0)) {
        return (A::narrow(loss), repeat(A::fint(0), v));
    }
    let d = row_exp_sum::<A>(z.as_slice(), m);
    let smooth = A::dlt(A::dint(0), alpha);
    let eps = A::ddiv(alpha, A::dint(v as i128));
    let kept = A::dsub(A::dint(1), alpha);
    let mut grad: Vec<A::F> = Vec::new();
    for j in 0..v
        invariant
            v == x@.len(),
            z@ == widened::<A>(x@),
            m == peak::<A>(z@, v as int),
            y != ignore_index,
            target == y,
            alpha == A::widen_spec(label_smoothing),
            weight == A::widen_spec(scale),
            !A::deq_spec(weight, A::dint_spec(0)),
            d == exp_sum::<A>(z@, m, v as int),
            smooth == A::dlt_spec(A::dint_spec(0), alpha),
            eps == A::ddiv_spec(alpha, A::dint_spec(v as int)),
            kept == A::dsub_spec(A::dint_spec(1), alpha),
            grad@ == ce_grad::<A>(x@, y, ignore_index, label_smoothing, scale).subrange(0, j as int),
    {
        let p = A::ddiv(A::dexp(A::dsub(z[j], m)), d);
        let mut prob = if smooth { A::dsub(p, eps) } else { p };
        if j == target {
            prob = A::dsub(prob, kept);
        }
        grad.push(A::narrow(A::dmul(prob, weight)));
        assert(grad@ =~= ce_grad::<A>(x@, y, ignore_index, label_smoothing, scale).subrange(0, j + 1));
    }
    assert(grad@ =~= ce_grad::<A>(x@, y, ignore_index, label_smoothing, scale));
    (A::narrow(loss), grad)
}

/// The losses of the first `n` rows, added to `acc` from the left.
pub open spec fn ce_total<A: Arith>(
    acc: A::D,
    logits: Seq<Seq<A::F>>,
    labels: Seq<i64>,
    ignore_index: i64,
    label_smoothing: A::F,
    n: int,
) -> A::D
    decreases n,
{
    if n <= 0 {
        acc
    } else {
        A::dadd_spec(
            ce_total::<A>(acc, logits, labels, ignore_index, label_smoothing, n - 1),
            A::widen_spec(
                ce_loss::<A>(logits[n - 1], labels[n - 1], ignore_index, label_smoothing),
            ),
        )
    }
}

/// The gradients of the rows.
pub open spec fn ce_grads<A: Arith>(
    logits: Seq<Seq<A::F>>,
    labels: Seq<i64>,
    ignore_index: i64,
    label_smoothing: A::F,
    scale: A::F,
) -> Seq<Seq<A::F>> {
    Seq::new(
        logits.len(),
        |r: int| ce_grad::<A>(logits[r], labels[r], ignore_index, label_smoothing, scale),
    )
}

/// Adding up `a` rows and then the `n` rows after them is adding up `a + n` rows.
pub proof fn lemma_ce_total_split<A: Arith>(
    acc: A::D,
    logits: Seq<Seq<A::F>>,
    labels: Seq<i64>,
    ignore_index: i64,
    label_smoothing: A::F,
    a: int,
    n: int,
)
    requires
        0 <= a,
        0 <= n,
        a + n <= logits.len(),
        a + n <= labels.len(),
    ensures
        ce_total::<A>(
            ce_total::<A>(acc, logits, labels, ignore_index, label_smoothing, a),
            logits.subrange(a, a + n),
            labels.subrange(a, a + n),
            ignore_index,
            label_smoothing,
            n,
        ) == ce_total::<A>(acc, logits, labels, ignore_index, label_smoothing, a + n),
    decreases n,
{
    if n > 0 {
        let mid = ce_total::<A>(acc, logits, labels, ignore_index, label_smoothing, a);
        lemma_ce_total_split::<A>(acc, logits, labels, ignore_index, label_smoothing, a, n - 1);
        lemma_ce_total_prefix::<A>(
            mid,
            logits.subrange(a, a + n),
            labels.subrange(a, a + n),
            logits.subrange(a, a + n - 1),
            labels.subrange(a, a + n - 1),
            ignore_index,
            label_smoothing,
            n - 1,
        );
    }
}

/// The sum over the first `n` rows depends on those rows alone.
proof fn lemma_ce_total_prefix<A: Arith>(
    acc: A::D,
    logits: Seq<Seq<A::F>>,
    labels: Seq<i64>,
    logits2: Seq<Seq<A::F>>,
    labels2: Seq<i64>,
    ignore_index: i64,
    label_smoothing: A::F,
    n: int,
)
    requires
        0 <= n,
        forall|i: int| 0 <= i < n ==> #[trigger] logits[i] == logits2[i],
        forall|i: int| 0 <= i < n ==> #[trigger] labels[i] == labels2[i],
    ensures
        ce_total::<A>(acc, logits, labels, ignore_index, label_smoothing, n) == ce_total::<A>(
            acc,
            logits2,
            labels2,
            ignore_index,
            label_smoothing,
            n,
        ),
    decreases n,
{
    if n > 0 {
        assert(logits[n - 1] == logits2[n - 1]);
        assert(labels[n - 1] == labels2[n - 1]);
        lemma_ce_total_prefix::<A>(
            acc,
            logits,
            labels,
            logits2,
            labels2,
            ignore_index,
            label_smoothing,
            n - 1,
        );
    }
}

/// The cross-entropy kernel over the rows of a chunk: the losses added to `acc`, and the
/// gradients.
pub fn ce_rows<A: Arith>(
    logits: &Mat<A::F>,
    labels: &[i64],
    ignore_index: i64,
    label_smoothing: A::F,
    scale: A::F,
    acc: A::D,
) -> (r: (A::D, Mat<A::F>))
    requires
        logits.wf(),
        logits.cols > 0,
        labels@.len() == logits.rows,
        forall|i: int|
            0 <= i < labels@.len() ==> target_ok(#[trigger] labels@[i], ignore_index, logits.cols as int),
    ensures
        r.0 == ce_total::<A>(
            acc,
            logits@,
            labels@,
            ignore_index,
            label_smoothing,
            logits.rows as int,
        ),
        r.1.wf(),
        r.1.rows == logits.rows,
        r.1.cols == logits.cols,
        r.1@ == ce_grads::<A>(logits@, labels@, ignore_index, label_smoothing, scale),
{
    let n: usize = logits.rows;
    let ghost expected = ce_grads::<A>(logits@, labels@, ignore_index, label_smoothing, scale);
    let mut sum = acc;
    let mut grads: Mat<A::F> = Mat::with_cols(logits.cols);
    for i in 0..n
        invariant
            n == logits.rows,
            logits.wf(),
            logits.cols > 0,
            labels@.len() == logits.rows,
            forall|i: int|
                0 <= i < labels@.len() ==> target_ok(
                    #[trigger] labels@[i],
                    ignore_index,
                    logits.cols as int,
                ),
            expected == ce_grads::<A>(logits@, labels@, ignore_index, label_smoothing, scale),
            sum == ce_total::<A>(
                acc,
                logits@,
                labels@,
                ignore_index,
                label_smoothing,
                i as int,
            ),
            grads.wf(),
            grads.rows == i,
            grads.cols == logits.cols,
            grads@ == expected.subrange(0, i as int),
    {
        let (loss, grad) = ce_fwdbwd_row::<A>(
            logits.row(i),
            labels[i],
            ignore_index,
            label_smoothing,
            scale,
        );
        sum = A::dadd(sum, A::widen(loss));
        grads.push_row(grad.as_slice());
        assert(grads@ =~= expected.subrange(0, i + 1));
    }
    assert(grads@ =~= expected);
    (sum, grads)
}

/// Just the loss of a row.
pub fn ce_loss_row<A: Arith>(x: &[A::F], y: i64, ignore_index: i64, label_smoothing: A::F) -> (r: A::F)
    requires
        x@.len() > 0,
        target_ok(y, ignore_index, x@.len() as int),
    ensures
        r == ce_loss::<A>(x@, y, ignore_index, label_smoothing),
{
    let (loss, _grad) = ce_fwdbwd_row::<A>(x, y, ignore_index, label_smoothing, A::fint(1));
    loss
}

/// An ignored row has no loss and no gradient, whatever its logits and its weight.
pub proof fn ignored_row_is_zero<A: Arith>(x: Seq<A::F>, ignore_index: i64, label_smoothing: A::F, scale: A::F)
    ensures
        ce_loss::<A>(x, ignore_index, ignore_index, label_smoothing) == A::narrow_spec(A::dint_spec(0)),
        ce_grad::<A>(x, ignore_index, ignore_index, label_smoothing, scale) == Seq::new(
            x.len(),
            |j: int| A::fint_spec(0),
        ),
{
}

/// The weight of a row scales its gradient: under any two weights that are not zero, an entry
/// of the gradient is one and the same slope times the weight.
pub proof fn scale_scales_gradient<A: Arith>(
    x: Seq<A::F>,
    y: i64,
    ignore_index: i64,
    label_smoothing: A::F,
    scale: A::F,
    other: A::F,
    j: int,
)
    requires
        0 <= j < x.len(),
        y != ignore_index,
        !A::deq_spec(A::widen_spec(scale), A::dint_spec(0)),
        !A::deq_spec(A::widen_spec(other), A::dint_spec(0)),
    ensures
        ({
            let z = widened::<A>(x);
            let slope = nll_slope::<A>(
                z,
                peak::<A>(z, z.len() as int),
                y as int,
                A::widen_spec(label_smoothing),
                j,
            );
            &&& ce_grad::<A>(x, y, ignore_index, label_smoothing, scale)[j] == A::narrow_spec(
                A::dmul_spec(slope, A::widen_spec(scale)),
            )
            &&& ce_grad::<A>(x, y, ignore_index, label_smoothing, other)[j] == A::narrow_spec(
                A::dmul_spec(slope, A::widen_spec(other)),
            )
        }),
{
}

} // verus!
