//! Forward KL of the teacher against the student, over the rows of a chunk.
//!
//! A chunk of logits is `[2 * n_rows, V]`: the student's rows, then the teacher's. For
//! each pair the kernel computes `sum p_t * (log p_t - log p_s)` with
//! `p = softmax(logits / T)`, reported times `T^2`, and the student's gradient
//! `grad_scale * (p_s - p_t)`.

use vstd::prelude::*;
use crate::arith::Arith;
use crate::mat::{repeat, Mat};
use crate::reference::softmax::{row_peak, softmax_relative, temper_row, widen_row};
#[allow(unused_imports)]
use crate::reference::softmax::{log_softmax, peak, softmax, tempered, widened};

verus! {

/// A row of logits over the temperature.
pub open spec fn at_temperature<A: Arith>(x: Seq<A::F>, inv_t: A::D) -> Seq<A::D> {
    tempered::<A>(widened::<A>(x), inv_t)
}

/// The probabilities of a row of logits over the temperature.
pub open spec fn probs<A: Arith>(x: Seq<A::F>, inv_t: A::D) -> Seq<A::D> {
    let z = at_temperature::<A>(x, inv_t);
    softmax::<A>(z, peak::<A>(z, z.len() as int))
}

/// Their logarithms.
pub open spec fn log_probs<A: Arith>(x: Seq<A::F>, inv_t: A::D) -> Seq<A::D> {
    let z = at_temperature::<A>(x, inv_t);
    log_softmax::<A>(z, peak::<A>(z, z.len() as int))
}

/// `sum p_t * (log p_t - log p_s)` over the first `n` classes, added up from the left.
pub open spec fn divergence<A: Arith>(
    pt: Seq<A::D>,
    log_pt: Seq<A::D>,
    log_ps: Seq<A::D>,
    n: int,
) -> A::D
    decreases n,
{
    if n <= 0 {
        A::dint_spec(0)
    } else {
        A::dadd_spec(
            divergence::<A>(pt, log_pt, log_ps, n - 1),
            A::dmul_spec(pt[n - 1], A::dsub_spec(log_pt[n - 1], log_ps[n - 1])),
        )
    }
}

/// The forward KL of a pair of logit rows, neither weighted nor scaled.
pub open spec fn kl_row<A: Arith>(student: Seq<A::F>, teacher: Seq<A::F>, inv_t: A::D) -> A::D {
    divergence::<A>(
        probs::<A>(teacher, inv_t),
        log_probs::<A>(teacher, inv_t),
        log_probs::<A>(student, inv_t),
        student.len() as int,
    )
}

/// The KL of the first `n` rows of a chunk, times `T^2`, added to `acc` from the left.
pub open spec fn kl_sum<A: Arith>(
    acc: A::D,
    student: Seq<Seq<A::F>>,
    teacher: Seq<Seq<A::F>>,
    targets: Seq<i64>,
    ignore_index: i64,
    temperature: A::F,
    n: int,
) -> A::D
    decreases n,
{
    if n <= 0 {
        acc
    } else {
        let inv_t = A::ddiv_spec(A::dint_spec(1), A::widen_spec(temperature));
        let t_sq = A::widen_spec(A::fmul_spec(temperature, temperature));
        let row = if targets[n - 1] == ignore_index {
            A::dint_spec(0)
        } else {
            kl_row::<A>(student[n - 1], teacher[n - 1], inv_t)
        };
        A::dadd_spec(
            kl_sum::<A>(acc, student, teacher, targets, ignore_index, temperature, n - 1),
            A::dmul_spec(row, t_sq),
        )
    }
}

/// The factor of the student's KL gradient.
pub open spec fn kl_grad_scale<A: Arith>(kl_weight: A::F, temperature: A::F, grad_denom: A::F) -> A::D {
    A::widen_spec(A::fdiv_spec(A::fmul_spec(kl_weight, temperature), grad_denom))
}

/// The student's KL gradient of one row: zero where the target is ignored.
pub open spec fn kl_grad_row<A: Arith>(
    student: Seq<A::F>,
    teacher: Seq<A::F>,
    target: i64,
    ignore_index: i64,
    kl_weight: A::F,
    temperature: A::F,
    grad_denom: A::F,
) -> Seq<A::F> {
    let inv_t = A::ddiv_spec(A::dint_spec(1), A::widen_spec(temperature));
    let ps = probs::<A>(student, inv_t);
    let pt = probs::<A>(teacher, inv_t);
    let scale = kl_grad_scale::<A>(kl_weight, temperature, grad_denom);
    if target == ignore_index {
        Seq::new(student.len(), |j: int| A::fint_spec(0))
    } else {
        Seq::new(
            student.len(),
            |j: int| A::narrow_spec(A::dmul_spec(scale, A::dsub_spec(ps[j], pt[j]))),
        )
    }
}

/// The student's KL gradients of the rows.
pub open spec fn kl_grads<A: Arith>(
    student: Seq<Seq<A::F>>,
    teacher: Seq<Seq<A::F>>,
    targets: Seq<i64>,
    ignore_index: i64,
    kl_weight: A::F,
    temperature: A::F,
    grad_denom: A::F,
) -> Seq<Seq<A::F>> {
    Seq::new(
        student.len(),
        |i: int|
            kl_grad_row::<A>(
                student[i],
                teacher[i],
                targets[i],
                ignore_index,
                kl_weight,
                temperature,
                grad_denom,
            ),
    )
}

/// Stable softmax and log-softmax of `x * inv_t`.
pub fn softmax_logsoftmax<A: Arith>(x: &[A::F], inv_t: A::D) -> (r: (Vec<A::D>, Vec<A::D>))
    ensures
        r.0@ == probs::<A>(x@, inv_t),
        r.1@ == log_probs::<A>(x@, inv_t),
{
    let wide = widen_row::<A>(x);
    let z = temper_row::<A>(wide.as_slice(), inv_t);
    let m = row_peak::<A>(z.as_slice());
    softmax_relative::<A>(z.as_slice(), m)
}

/// The divergence of two distributions given by `pt`, its logarithm, and `log_ps`.
pub fn row_divergence<A: Arith>(pt: &[A::D], log_pt: &[A::D], log_ps: &[A::D]) -> (kl: A::D)
    requires
        pt@.len() >= log_ps@.len(),
        log_pt@.len() >= log_ps@.len(),
    ensures
        kl == divergence::<A>(pt@, log_pt@, log_ps@, log_ps@.len() as int),
{
    let n: usize = log_ps.len();
    let mut kl = A::dint(0);
    for j in 0..n
        invariant
            n == log_ps@.len(),
            n <= pt@.len(),
            n <= log_pt@.len(),
            kl == divergence::<A>(pt@, log_pt@, log_ps@, j as int),
    {
        kl = A::dadd(kl, A::dmul(pt[j], A::dsub(log_pt[j], log_ps[j])));
    }
    kl
}

/// Forward KL of one pair of logit rows, with no `T^2` and no weight.
pub fn forward_kl_row<A: Arith>(student: &[A::F], teacher: &[A::F], temperature: A::D) -> (kl: A::D)
    requires
        teacher@.len() >= student@.len(),
    ensures
        kl == kl_row::<A>(student@, teacher@, A::ddiv_spec(A::dint_spec(1), temperature)),
{
    let inv_t = A::ddiv(A::dint(1), temperature);
    let (_ps, log_ps) = softmax_logsoftmax::<A>(student, inv_t);
    let (pt, log_pt) = softmax_logsoftmax::<A>(teacher, inv_t);
    row_divergence::<A>(pt.as_slice(), log_pt.as_slice(), log_ps.as_slice())
}

/// The KL kernel over the rows of a chunk: the KL of each, times `T^2`, added to `acc`, and
/// on request the student's gradient, with `grad_scale = kl_weight * T / grad_denom`.
pub fn kl_rows<A: Arith>(
    logits_chunk: &Mat<A::F>,
    targets: &[i64],
    n_rows: usize,
    kl_weight: A::F,
    temperature: A::F,
    ignore_index: i64,
    grad_denom: A::F,
    compute_grad: bool,
    acc: A::D,
) -> (r: (A::D, Option<Mat<A::F>>))
    requires
        logits_chunk.wf(),
        logits_chunk.rows == 2 * n_rows,
        targets@.len() == n_rows,
    ensures
        ({
            let student = logits_chunk@.subrange(0, n_rows as int);
            let teacher = logits_chunk@.subrange(n_rows as int, 2 * n_rows);
            &&& r.0 == kl_sum::<A>(
                acc,
                student,
                teacher,
                targets@,
                ignore_index,
                temperature,
                n_rows as int,
            )
            &&& r.1 is Some == compute_grad
            &&& r.1 matches Some(g) ==> {
                &&& g.wf()
                &&& g.rows == n_rows
                &&& g.cols == logits_chunk.cols
                &&& g@ == kl_grads::<A>(
                    student,
                    teacher,
                    targets@,
                    ignore_index,
                    kl_weight,
                    temperature,
                    grad_denom,
                )
            }
        }),
{
    let v: usize = logits_chunk.cols;
    let inv_t = A::ddiv(A::dint(1), A::widen(temperature));
    let scale = A::widen(A::fdiv(A::fmul(kl_weight, temperature), grad_denom));
    let t_sq = A::widen(A::fmul(temperature, temperature));
    let ghost student = logits_chunk@.subrange(0, n_rows as int);
    let ghost teacher = logits_chunk@.subrange(n_rows as int, 2 * n_rows);
    let ghost expected = kl_grads::<A>(
        student,
        teacher,
        targets@,
        ignore_index,
        kl_weight,
        temperature,
        grad_denom,
    );

    let mut sum = acc;
    let mut grad: Mat<A::F> = Mat::with_cols(v);
    for i in 0..n_rows
        invariant
            logits_chunk.wf(),
            logits_chunk.rows == 2 * n_rows,
            v == logits_chunk.cols,
            targets@.len() == n_rows,
            student == logits_chunk@.subrange(0, n_rows as int),
            teacher == logits_chunk@.subrange(n_rows as int, 2 * n_rows),
            inv_t == A::ddiv_spec(A::dint_spec(1), A::widen_spec(temperature)),
            scale == kl_grad_scale::<A>(kl_weight, temperature, grad_denom),
            t_sq == A::widen_spec(A::fmul_spec(temperature, temperature)),
            expected == kl_grads::<A>(
                student,
                teacher,
                targets@,
                ignore_index,
                kl_weight,
                temperature,
                grad_denom,
            ),
            sum == kl_sum::<A>(
                acc,
                student,
                teacher,
                targets@,
                ignore_index,
                temperature,
                i as int,
            ),
            compute_grad ==> {
                &&& grad.wf()
                &&& grad.rows == i
                &&& grad.cols == v
                &&& grad@ == expected.subrange(0, i as int)
            },
    {
        let ignored = targets[i] == ignore_index;
        let s = logits_chunk.row(i);
        let t = logits_chunk.row(n_rows + i);
        assert(s@ == student[i as int]);
        assert(t@ == teacher[i as int]);
        let (ps, log_ps) = softmax_logsoftmax::<A>(s, inv_t);
        let (pt, log_pt) = softmax_logsoftmax::<A>(t, inv_t);
        let mut kl = row_divergence::<A>(pt.as_slice(), log_pt.as_slice(), log_ps.as_slice());
        if ignored {
            kl = A::dint(0);
        }
        sum = A::dadd(sum, A::dmul(kl, t_sq));

        if compute_grad {
            let ghost line = expected[i as int];
            if ignored {
                let grow = repeat(A::fint(0), v);
                assert(grow@ =~= line);
                grad.push_row(grow.as_slice());
            } else {
                let mut grow: Vec<A::F> = Vec::new();
                for j in 0..v
                    invariant
                        v == ps@.len(),
                        v == pt@.len(),
                        grow@ == Seq::new(
                            j as nat,
                            |c: int| A::narrow_spec(A::dmul_spec(scale, A::dsub_spec(ps@[c], pt@[c]))),
                        ),
                {
                    grow.push(A::narrow(A::dmul(scale, A::dsub(ps[j], pt[j]))));
                    assert(grow@ =~= Seq::new(
                        (j + 1) as nat,
                        |c: int| A::narrow_spec(A::dmul_spec(scale, A::dsub_spec(ps@[c], pt@[c]))),
                    ));
                }
                assert(grow@ =~= line);
                grad.push_row(grow.as_slice());
            }
            assert(grad@ =~= expected.subrange(0, i + 1));
        }
    }
    assert(expected.subrange(0, n_rows as int) =~= expected);
    let gradient = if compute_grad { Some(grad) } else { None };
    (sum, gradient)
}

/// The sum over the first `n` rows depends on those rows alone, and of a row that is ignored
/// not even on its logits.
pub proof fn lemma_kl_prefix<A: Arith>(
    acc: A::D,
    student: Seq<Seq<A::F>>,
    teacher: Seq<Seq<A::F>>,
    targets: Seq<i64>,
    student2: Seq<Seq<A::F>>,
    teacher2: Seq<Seq<A::F>>,
    targets2: Seq<i64>,
    ignore_index: i64,
    temperature: A::F,
    n: int,
)
    requires
        forall|i: int|
            0 <= i < n ==> {
                &&& #[trigger] targets[i] == targets2[i]
                &&& targets[i] != ignore_index ==> student[i] == student2[i] && teacher[i]
                    == teacher2[i]
            },
    ensures
        kl_sum::<A>(acc, student, teacher, targets, ignore_index, temperature, n) == kl_sum::<A>(
            acc,
            student2,
            teacher2,
            targets2,
            ignore_index,
            temperature,
            n,
        ),
    decreases n,
{
    if n > 0 {
        assert(targets[n - 1] == targets2[n - 1]);
        lemma_kl_prefix::<A>(
            acc,
            student,
            teacher,
            targets,
            student2,
            teacher2,
            targets2,
            ignore_index,
            temperature,
            n - 1,
        );
    }
}

/// Adding up `a` rows and then the `n` rows after them is adding up `a + n` rows.
pub proof fn lemma_kl_sum_split<A: Arith>(
    acc: A::D,
    student: Seq<Seq<A::F>>,
    teacher: Seq<Seq<A::F>>,
    targets: Seq<i64>,
    ignore_index: i64,
    temperature: A::F,
    a: int,
    n: int,
)
    requires
        0 <= a,
        0 <= n,
        a + n <= student.len(),
        a + n <= teacher.len(),
        a + n <= targets.len(),
    ensures
        kl_sum::<A>(
            kl_sum::<A>(acc, student, teacher, targets, ignore_index, temperature, a),
            student.subrange(a, a + n),
            teacher.subrange(a, a + n),
            targets.subrange(a, a + n),
            ignore_index,
            temperature,
            n,
        ) == kl_sum::<A>(acc, student, teacher, targets, ignore_index, temperature, a + n),
    decreases n,
{
    if n > 0 {
        let mid = kl_sum::<A>(acc, student, teacher, targets, ignore_index, temperature, a);
        lemma_kl_sum_split::<A>(
            acc,
            student,
            teacher,
            targets,
            ignore_index,
            temperature,
            a,
            n - 1,
        );
        lemma_kl_prefix::<A>(
            mid,
            student.subrange(a, a + n),
            teacher.subrange(a, a + n),
            targets.subrange(a, a + n),
            student.subrange(a, a + n - 1),
            teacher.subrange(a, a + n - 1),
            targets.subrange(a, a + n - 1),
            ignore_index,
            temperature,
            n - 1,
        );
    }
}

/// The KL kernel over a chunk.
///
/// Returns the sum over the rows of the KL times `T^2`, which the caller may divide, and
/// on request the student's gradient, with `grad_scale = kl_weight * T / grad_denom`.
/// A denominator of one leaves any mean to the caller.
pub fn kl_chunk<A: Arith>(
    logits_chunk: &Mat<A::F>,
    targets: &[i64],
    n_rows: usize,
    kl_weight: A::F,
    temperature: A::F,
    ignore_index: i64,
    grad_denom: A::F,
    compute_grad: bool,
) -> (r: (A::F, Option<Mat<A::F>>))
    requires
        logits_chunk.wf(),
        logits_chunk.rows == 2 * n_rows,
        targets@.len() == n_rows,
    ensures
        ({
            let student = logits_chunk@.subrange(0, n_rows as int);
            let teacher = logits_chunk@.subrange(n_rows as int, 2 * n_rows);
            &&& r.0 == A::narrow_spec(
                kl_sum::<A>(
                    A::dint_spec(0),
                    student,
                    teacher,
                    targets@,
                    ignore_index,
                    temperature,
                    n_rows as int,
                ),
            )
            &&& r.1 is Some == compute_grad
            &&& r.1 matches Some(g) ==> {
                &&& g.wf()
                &&& g.rows == n_rows
                &&& g.cols == logits_chunk.cols
                &&& g@ == kl_grads::<A>(
                    student,
                    teacher,
                    targets@,
                    ignore_index,
                    kl_weight,
                    temperature,
                    grad_denom,
                )
            }
        }),
{
    let (sum, grad) = kl_rows::<A>(
        logits_chunk,
        targets,
        n_rows,
        kl_weight,
        temperature,
        ignore_index,
        grad_denom,
        compute_grad,
        A::dint(0),
    );
    (A::narrow(sum), grad)
}

/// What a mean over `n_non_ignore` tokens divides by.
pub open spec fn counted(n_non_ignore: usize) -> int {
    if n_non_ignore == 0 {
        1
    } else {
        n_non_ignore as int
    }
}

/// The KL kernel with the mean over `n_non_ignore` tokens baked into the gradient:
/// `grad_scale = kl_weight * T / max(n_non_ignore, 1)`.
pub fn kl_reference_chunk<A: Arith>(
    logits_chunk: &Mat<A::F>,
    targets: &[i64],
    n_rows: usize,
    kl_weight: A::F,
    temperature: A::F,
    n_non_ignore: usize,
    ignore_index: i64,
    compute_grad: bool,
) -> (r: (A::F, Option<Mat<A::F>>))
    requires
        logits_chunk.wf(),
        logits_chunk.rows == 2 * n_rows,
        targets@.len() == n_rows,
    ensures
        ({
            let student = logits_chunk@.subrange(0, n_rows as int);
            let teacher = logits_chunk@.subrange(n_rows as int, 2 * n_rows);
            let denom = A::fint_spec(counted(n_non_ignore));
            &&& r.0 == A::narrow_spec(
                kl_sum::<A>(
                    A::dint_spec(0),
                    student,
                    teacher,
                    targets@,
                    ignore_index,
                    temperature,
                    n_rows as int,
                ),
            )
            &&& r.1 is Some == compute_grad
            &&& r.1 matches Some(g) ==> {
                &&& g.wf()
                &&& g.rows == n_rows
                &&& g.cols == logits_chunk.cols
                &&& g@ == kl_grads::<A>(
                    student,
                    teacher,
                    targets@,
                    ignore_index,
                    kl_weight,
                    temperature,
                    denom,
                )
            }
        }),
{
    let count: usize = if n_non_ignore > 1 { n_non_ignore } else { 1 };
    let denom = A::fint(count as i128);
    kl_chunk::<A>(
        logits_chunk,
        targets,
        n_rows,
        kl_weight,
        temperature,
        ignore_index,
        denom,
        compute_grad,
    )
}

} // verus!
