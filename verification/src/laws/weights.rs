//! What the weights of the terms do to the loss and to the gradients.

#![allow(unused_imports)]

use vstd::prelude::*;
use crate::api::{answers, DistillationLossOutput};
use crate::arith::Arith;
use crate::config::Reduction;
use crate::fixed::{product, Fixed, ONE};
use crate::laws::ignored::lemma_zero_row;
use crate::laws::kernels::gradient_is_linear_in_the_weight;
use crate::laws::numbers::{
    cancels, fixed_point_is_exact, one_is_neutral, one_precision, zero_is_zero,
};
use crate::laws::outputs::lemma_denominator;
use crate::mat::{column, row_times_transpose, sparse_dot, Mat};
use crate::objective::{valid_tokens, Setup};
use crate::options::LossOptions;
use crate::reference::cross_entropy::{ce_grad, ce_loss, ce_total};
use crate::reference::kl::{kl_grad_row, kl_row, kl_sum};
use crate::teacher::Teacher;

verus! {

/// The weight of the teacher's cross-entropy: what the caller gives, else one for a tied
/// teacher and zero for others.
pub open spec fn weight_of_teacher<A: Arith>(s: Setup<A>) -> A::F {
    match s.opts.teacher_ce_weight {
        Some(w) => w,
        None => match s.teacher {
            Teacher::Tied { .. } => A::fint_spec(1),
            _ => A::fint_spec(0),
        },
    }
}

/// The loss is the sum of the three terms as they are reported, each times its weight, where
/// narrow and wide numbers are alike and nothing is divided. (The mean divides all of them by
/// the same count.)
pub proof fn loss_is_the_weighted_sum_of_what_is_reported<A: Arith>(
    s: Setup<A>,
    x: DistillationLossOutput<A::F>,
)
    requires
        one_precision::<A>(),
        one_is_neutral::<A>(),
        s.opts.reduction == Reduction::Sum,
        answers(x, s),
    ensures
        x.loss == A::fadd_spec(
            A::fadd_spec(
                A::fmul_spec(s.opts.student_ce_weight, x.student_ce),
                A::fmul_spec(weight_of_teacher(s), x.teacher_ce),
            ),
            A::fmul_spec(s.opts.kd_weight, x.kl),
        ),
{
    reveal(one_precision);
    let one = A::widen_spec(s.mean_scale());
    assert(one == A::dint_spec(1));
    let (a, b, c) = (s.student_nll(s.bt()), s.teacher_nll(s.bt()), s.kl_total());
    assert(A::dmul_spec(a, one) == a && A::dmul_spec(b, one) == b && A::dmul_spec(c, one) == c);
    assert(A::widen_spec(x.student_ce) == a);
    assert(A::widen_spec(x.teacher_ce) == b);
    assert(A::widen_spec(x.kl) == c);
    let sum = s.objective_sum();
    assert(A::dmul_spec(sum, one) == sum);
    let p = A::fmul_spec(s.opts.student_ce_weight, x.student_ce);
    let q = A::fmul_spec(weight_of_teacher(s), x.teacher_ce);
    let t = A::fmul_spec(s.opts.kd_weight, x.kl);
    let pq = A::fadd_spec(p, q);
    let all = A::fadd_spec(pq, t);
    assert(A::widen_spec(p) == A::dmul_spec(A::widen_spec(s.opts.student_ce_weight), a));
    assert(A::widen_spec(q) == A::dmul_spec(A::widen_spec(weight_of_teacher(s)), b));
    assert(A::widen_spec(t) == A::dmul_spec(A::widen_spec(s.opts.kd_weight), c));
    assert(A::widen_spec(pq) == A::dadd_spec(A::widen_spec(p), A::widen_spec(q)));
    assert(A::widen_spec(all) == sum);
    assert(A::narrow_spec(A::widen_spec(all)) == all);
}

/// Without weights there is nothing: the loss is zero, and so is the student's gradient.
pub proof fn without_weights_the_loss_is_zero<A: Arith>(
    s: Setup<A>,
    x: DistillationLossOutput<A::F>,
)
    requires
        one_precision::<A>(),
        zero_is_zero::<A>(),
        s.wf(),
        s.refusal() is None,
        s.opts.student_ce_weight == A::fint_spec(0),
        weight_of_teacher(s) == A::fint_spec(0),
        s.opts.kd_weight == A::fint_spec(0),
        answers(x, s),
    ensures
        x.loss == A::fint_spec(0),
        forall|r: int, c: int|
            0 <= r < s.student.rows && 0 <= c < s.student.cols
                ==> #[trigger] x.grad_student_hidden@[r][c] == A::fint_spec(0),
{
    reveal(one_precision);
    lemma_denominator(s);
    let zero = A::fint_spec(0);
    let wide = A::dint_spec(0);
    assert(A::widen_spec(zero) == wide);
    assert(s.teacher_ce_weight() == zero);
    assert(A::dadd_spec(wide, wide) == wide);
    assert(A::dmul_spec(wide, s.student_nll(s.bt())) == wide);
    assert(A::dmul_spec(wide, s.teacher_nll(s.bt())) == wide);
    assert(A::dmul_spec(wide, s.kl_total()) == wide);
    assert(s.objective_sum() == wide);
    let k = s.mean_scale();
    assert(s.reduced(wide) == zero);
    assert(A::deq_spec(A::widen_spec(zero), wide));
    assert forall|r: int, c: int|
        0 <= r < s.student.rows && 0 <= c < s.student.cols implies #[trigger] x.grad_student_hidden@[r][c]
        == zero by {
        let g = s.student_grads()[r];
        assert forall|j: int| 0 <= j < g.len() implies #[trigger] g[j] == zero by {}
        lemma_zero_row::<A>(g, column(s.weight@, c), g.len() as int);
        assert(A::fmul_spec(zero, k) == zero);
    }
}

/// A row of logits under a hidden state: what the student's gradient starts from, which is the
/// cross-entropy gradient of that row under a weight of one, times the weight.
pub open spec fn weighted_slopes<A: Arith>(
    logits: Seq<A::F>,
    label: i64,
    s: Setup<A>,
    weight: A::F,
) -> Seq<A::F> {
    let slope = ce_grad::<A>(
        logits,
        label,
        s.opts.ignore_index,
        s.opts.label_smoothing,
        A::fint_spec(1),
    );
    Seq::new(logits.len(), |j: int| A::fmul_spec(slope[j], weight))
}

/// Each entry of a weighted gradient is that of the unweighted one, times the weight.
proof fn lemma_weighted<A: Arith>(logits: Seq<A::F>, label: i64, s: Setup<A>, weight: A::F)
    requires
        one_precision::<A>(),
        one_is_neutral::<A>(),
        cancels::<A>(),
    ensures
        ce_grad::<A>(logits, label, s.opts.ignore_index, s.opts.label_smoothing, weight)
            == weighted_slopes(logits, label, s, weight),
{
    reveal(one_precision);
    let g = ce_grad::<A>(logits, label, s.opts.ignore_index, s.opts.label_smoothing, weight);
    let u = ce_grad::<A>(
        logits,
        label,
        s.opts.ignore_index,
        s.opts.label_smoothing,
        A::fint_spec(1),
    );
    assert forall|j: int| 0 <= j < logits.len() implies #[trigger] g[j] == A::fmul_spec(
        u[j],
        weight,
    ) by {
        gradient_is_linear_in_the_weight::<A>(
            logits,
            label,
            s.opts.ignore_index,
            s.opts.label_smoothing,
            weight,
            j,
        );
        let f = A::fmul_spec(u[j], weight);
        assert(A::widen_spec(f) == A::dmul_spec(A::widen_spec(u[j]), A::widen_spec(weight)));
        assert(A::narrow_spec(A::widen_spec(f)) == f);
    }
    assert(g =~= weighted_slopes(logits, label, s, weight));
}

/// Where there is no KL, the student's hidden state `r` gets the unweighted cross-entropy
/// gradient of its row of logits, times the weight of the student's cross-entropy, drawn back
/// through the weight matrix, over the tokens that count. So under any two weights it is the
/// same slopes, times the one weight and times the other.
pub proof fn student_weight_multiplies_the_slopes<A: Arith>(
    s: Setup<A>,
    x: DistillationLossOutput<A::F>,
    r: int,
    c: int,
)
    requires
        one_precision::<A>(),
        one_is_neutral::<A>(),
        cancels::<A>(),
        !A::flt_spec(A::fint_spec(0), s.opts.kd_weight),
        answers(x, s),
        s.wf(),
        s.refusal() is None,
        0 <= r < s.student.rows,
        0 <= c < s.student.cols,
    ensures
        x.grad_student_hidden@[r][c] == A::fmul_spec(
            sparse_dot::<A>(
                weighted_slopes(
                    row_times_transpose::<A>(s.student@[r], s.weight@),
                    s.labels[r],
                    s,
                    s.opts.student_ce_weight,
                ),
                column(s.weight@, c),
                s.weight.rows as int,
            ),
            A::fdiv_spec(A::fint_spec(1), A::fint_spec(s.denominator())),
        ),
{
    let logits = row_times_transpose::<A>(s.student@[r], s.weight@);
    lemma_weighted(logits, s.labels[r], s, s.opts.student_ce_weight);
    assert(s.student_logits()[r] == logits);
    assert(s.student_grads()[r] == weighted_slopes(
        logits,
        s.labels[r],
        s,
        s.opts.student_ce_weight,
    ));
}

/// The teacher's hidden state `r` gets the unweighted cross-entropy gradient of the teacher's
/// row of logits, times the weight of the teacher's cross-entropy, drawn back through the
/// matrix that the teacher uses: the student's for a tied teacher, its own for a separate one.
pub proof fn teacher_weight_multiplies_the_slopes<A: Arith>(
    s: Setup<A>,
    x: DistillationLossOutput<A::F>,
    r: int,
    c: int,
)
    requires
        one_precision::<A>(),
        one_is_neutral::<A>(),
        cancels::<A>(),
        answers(x, s),
        s.wf(),
        s.refusal() is None,
        !(s.teacher is Precomputed),
        A::flt_spec(A::fint_spec(0), weight_of_teacher(s)),
        0 <= r < s.student.rows,
        0 <= c < s.teacher_width(),
    ensures
        ({
            let head = match s.teacher {
                Teacher::Separate { weight, .. } => weight@,
                _ => s.weight@,
            };
            &&& x.grad_teacher_hidden is Some
            &&& x.grad_teacher_hidden->0@[r][c] == A::fmul_spec(
                sparse_dot::<A>(
                    weighted_slopes(
                        row_times_transpose::<A>(s.teacher_hidden()[r], head),
                        s.labels[r],
                        s,
                        weight_of_teacher(s),
                    ),
                    column(head, c),
                    s.weight.rows as int,
                ),
                A::fdiv_spec(A::fint_spec(1), A::fint_spec(s.denominator())),
            )
        }),
{
    let head = match s.teacher {
        Teacher::Separate { weight, .. } => weight@,
        _ => s.weight@,
    };
    let logits = row_times_transpose::<A>(s.teacher_hidden()[r], head);
    lemma_weighted(logits, s.labels[r], s, weight_of_teacher(s));
    assert(s.teacher_logits()[r] == logits);
    assert(s.teacher_ce_weight() == weight_of_teacher(s));
    assert(s.teacher_grads()[r] == weighted_slopes(logits, s.labels[r], s, weight_of_teacher(s)));
}

/// What the student's gradient with respect to row `r` of its logits is made of: the weighted
/// cross-entropy slopes and, where there is distillation, the KL gradient of that row under the
/// weight and the temperature of the distillation.
pub open spec fn student_slopes<A: Arith>(s: Setup<A>, r: int) -> Seq<A::F> {
    let logits = row_times_transpose::<A>(s.student@[r], s.weight@);
    let ce = weighted_slopes(logits, s.labels[r], s, s.opts.student_ce_weight);
    if A::flt_spec(A::fint_spec(0), s.opts.kd_weight) {
        let kl = kl_grad_row::<A>(
            logits,
            teacher_row(s, r),
            s.labels[r],
            s.opts.ignore_index,
            s.opts.kd_weight,
            s.opts.temperature,
            A::fint_spec(1),
        );
        Seq::new(logits.len(), |j: int| A::fadd_spec(ce[j], kl[j]))
    } else {
        ce
    }
}

/// Row `r` of the teacher's logits: its hidden state under the student's weight or under its
/// own, or a row that was computed before.
pub open spec fn teacher_row<A: Arith>(s: Setup<A>, r: int) -> Seq<A::F> {
    match s.teacher {
        Teacher::Tied { hidden } => row_times_transpose::<A>(hidden@[r], s.weight@),
        Teacher::Separate { hidden, weight } => row_times_transpose::<A>(hidden@[r], weight@),
        Teacher::Precomputed { logits } => logits@[r],
    }
}

proof fn lemma_student_slopes<A: Arith>(s: Setup<A>)
    requires
        one_precision::<A>(),
        one_is_neutral::<A>(),
        cancels::<A>(),
    ensures
        s.student_grads() == Seq::new(s.bt() as nat, |r: int| student_slopes(s, r)),
{
    let rows = Seq::new(s.bt() as nat, |r: int| student_slopes(s, r));
    assert forall|r: int| 0 <= r < s.bt() implies #[trigger] s.student_grads()[r] == rows[r] by {
        let logits = row_times_transpose::<A>(s.student@[r], s.weight@);
        lemma_weighted(logits, s.labels[r], s, s.opts.student_ce_weight);
        assert(s.student_logits()[r] == logits);
        assert(s.teacher_logits()[r] == teacher_row(s, r));
        assert(s.student_grads()[r] =~= rows[r]);
    }
    assert(s.student_grads() =~= rows);
}

/// With distillation, the student's hidden state `r` gets both gradients of its row of logits,
/// drawn back through the weight matrix, over the tokens that count.
pub proof fn student_gradient_has_two_parts<A: Arith>(
    s: Setup<A>,
    x: DistillationLossOutput<A::F>,
    r: int,
    c: int,
)
    requires
        one_precision::<A>(),
        one_is_neutral::<A>(),
        cancels::<A>(),
        answers(x, s),
        0 <= r < s.student.rows,
        0 <= c < s.student.cols,
    ensures
        x.grad_student_hidden@[r][c] == A::fmul_spec(
            sparse_dot::<A>(
                student_slopes(s, r),
                column(s.weight@, c),
                student_slopes(s, r).len() as int,
            ),
            A::fdiv_spec(A::fint_spec(1), A::fint_spec(s.denominator())),
        ),
{
    lemma_student_slopes(s);
}

/// Entry `c` of the gradient of class `j`'s weight gathers, over all rows, the slope of that
/// class times entry `c` of the hidden state: on the student's side and, where a tied teacher is
/// trained, on the teacher's.
pub proof fn weight_gradient_gathers_the_rows<A: Arith>(
    s: Setup<A>,
    x: DistillationLossOutput<A::F>,
    j: int,
    c: int,
)
    requires
        one_precision::<A>(),
        one_is_neutral::<A>(),
        cancels::<A>(),
        s.wf(),
        s.refusal() is None,
        answers(x, s),
        !s.opts.config.quantize_grad_weight,
        0 <= j < s.weight.rows,
        0 <= c < s.student.cols,
    ensures
        ({
            let slopes = Seq::new(s.student.rows as nat, |r: int| student_slopes(s, r));
            let mine = sparse_dot::<A>(
                column(slopes, j),
                column(s.student@, c),
                s.student.rows as int,
            );
            let own = Seq::new(
                s.student.rows as nat,
                |r: int|
                    weighted_slopes(teacher_row(s, r), s.labels[r], s, weight_of_teacher(s)),
            );
            let k = A::fdiv_spec(A::fint_spec(1), A::fint_spec(s.denominator()));
            let zero = A::fint_spec(0);
            x.grad_weight@[j][c] == match s.teacher {
                Teacher::Tied { hidden } if A::flt_spec(zero, weight_of_teacher(s)) => A::fmul_spec(
                    A::fadd_spec(
                        A::fadd_spec(zero, mine),
                        sparse_dot::<A>(
                            column(own, j),
                            column(hidden@, c),
                            s.student.rows as int,
                        ),
                    ),
                    k,
                ),
                _ => A::fmul_spec(A::fadd_spec(zero, mine), k),
            }
        }),
{
    lemma_student_slopes(s);
    lemma_teacher_slopes(s);
    let n = s.bt();
    let slopes = Seq::new(s.student.rows as nat, |r: int| student_slopes(s, r));
    let own = Seq::new(
        s.student.rows as nat,
        |r: int| weighted_slopes(teacher_row(s, r), s.labels[r], s, weight_of_teacher(s)),
    );
    assert(s.student_outer(n)[j][c] == sparse_dot::<A>(column(slopes, j), column(s.student@, c), n));
    assert(s.teacher_ce_weight() == weight_of_teacher(s));
    assert(x.grad_weight@[j][c] == A::fmul_spec(s.weight_sum()[j][c], s.mean_scale()));
    if let Teacher::Tied { hidden } = s.teacher {
        assert(hidden.cols == s.student.cols);
        assert(s.teacher_outer(n)[j][c] == sparse_dot::<A>(column(own, j), column(hidden@, c), n));
    }
}

proof fn lemma_teacher_slopes<A: Arith>(s: Setup<A>)
    requires
        one_precision::<A>(),
        one_is_neutral::<A>(),
        cancels::<A>(),
    ensures
        s.teacher_grads() == Seq::new(
            s.bt() as nat,
            |r: int| weighted_slopes(teacher_row(s, r), s.labels[r], s, weight_of_teacher(s)),
        ),
{
    let rows = Seq::new(
        s.bt() as nat,
        |r: int| weighted_slopes(teacher_row(s, r), s.labels[r], s, weight_of_teacher(s)),
    );
    assert forall|r: int| 0 <= r < s.bt() implies #[trigger] s.teacher_grads()[r] == rows[r] by {
        lemma_weighted(teacher_row(s, r), s.labels[r], s, weight_of_teacher(s));
        assert(s.teacher_logits()[r] == teacher_row(s, r));
    }
    assert(s.teacher_grads() =~= rows);
}

/// Entry `c` of the gradient of class `j`'s weight in a separate teacher gathers the teacher's
/// slopes of that class times entry `c` of its hidden states.
pub proof fn teacher_weight_gradient_gathers_the_rows<A: Arith>(
    s: Setup<A>,
    hidden: Mat<A::F>,
    own: Mat<A::F>,
    x: DistillationLossOutput<A::F>,
    j: int,
    c: int,
)
    requires
        one_precision::<A>(),
        one_is_neutral::<A>(),
        cancels::<A>(),
        answers(x, s),
        s.teacher == (Teacher::<A>::Separate { hidden, weight: own }),
        A::flt_spec(A::fint_spec(0), weight_of_teacher(s)),
        0 <= j < s.weight.rows,
        0 <= c < hidden.cols,
    ensures
        ({
            let slopes = Seq::new(
                s.student.rows as nat,
                |r: int|
                    weighted_slopes(teacher_row(s, r), s.labels[r], s, weight_of_teacher(s)),
            );
            &&& x.grad_teacher_weight is Some
            &&& x.grad_teacher_weight->0@[j][c] == A::fmul_spec(
                A::fadd_spec(
                    A::fint_spec(0),
                    sparse_dot::<A>(
                        column(slopes, j),
                        column(hidden@, c),
                        s.student.rows as int,
                    ),
                ),
                A::fdiv_spec(A::fint_spec(1), A::fint_spec(s.denominator())),
            )
        }),
{
    lemma_teacher_slopes(s);
}

/// The sum of `f` over the first `n` rows, from zero.
pub open spec fn added_up<A: Arith>(f: spec_fn(int) -> A::D, n: int) -> A::D
    decreases n,
{
    if n <= 0 {
        A::dint_spec(0)
    } else {
        A::dadd_spec(added_up::<A>(f, n - 1), f(n - 1))
    }
}

proof fn lemma_ce_added_up<A: Arith>(
    logits: Seq<Seq<A::F>>,
    s: Setup<A>,
    f: spec_fn(int) -> A::D,
    n: int,
)
    requires
        forall|r: int|
            0 <= r < n ==> #[trigger] f(r) == A::widen_spec(
                ce_loss::<A>(
                    logits[r],
                    s.labels[r],
                    s.opts.ignore_index,
                    s.opts.label_smoothing,
                ),
            ),
    ensures
        ce_total::<A>(
            A::dint_spec(0),
            logits,
            s.labels,
            s.opts.ignore_index,
            s.opts.label_smoothing,
            n,
        ) == added_up::<A>(f, n),
    decreases n,
{
    if n > 0 {
        lemma_ce_added_up(logits, s, f, n - 1);
        assert(f(n - 1) == A::widen_spec(
            ce_loss::<A>(
                logits[n - 1],
                s.labels[n - 1],
                s.opts.ignore_index,
                s.opts.label_smoothing,
            ),
        ));
    }
}

proof fn lemma_kl_added_up<A: Arith>(s: Setup<A>, f: spec_fn(int) -> A::D, n: int)
    requires
        n <= s.bt(),
        forall|r: int| 0 <= r < n ==> #[trigger] f(r) == kl_term(s, r),
    ensures
        kl_sum::<A>(
            A::dint_spec(0),
            s.student_logits(),
            s.teacher_logits(),
            s.labels,
            s.opts.ignore_index,
            s.opts.temperature,
            n,
        ) == added_up::<A>(f, n),
    decreases n,
{
    if n > 0 {
        lemma_kl_added_up(s, f, n - 1);
        assert(f(n - 1) == kl_term(s, n - 1));
        assert(s.student_logits()[n - 1] == row_times_transpose::<A>(s.student@[n - 1], s.weight@));
        assert(s.teacher_logits()[n - 1] == teacher_row(s, n - 1));
    }
}

/// What row `r` adds to the KL: its divergence at the temperature, times the square of the
/// temperature, and nothing where it is ignored.
pub open spec fn kl_term<A: Arith>(s: Setup<A>, r: int) -> A::D {
    let t = s.opts.temperature;
    A::dmul_spec(
        if s.labels[r] == s.opts.ignore_index {
            A::dint_spec(0)
        } else {
            kl_row::<A>(
                row_times_transpose::<A>(s.student@[r], s.weight@),
                teacher_row(s, r),
                A::ddiv_spec(A::dint_spec(1), A::widen_spec(t)),
            )
        },
        A::widen_spec(A::fmul_spec(t, t)),
    )
}

/// Where nothing is divided, each term that is reported is the sum over the rows of what the
/// kernels give for a row: the cross-entropies of the student's logits, those of the teacher's
/// where they have a weight, and the divergences where these have one.
pub proof fn terms_add_up_the_rows<A: Arith>(s: Setup<A>, x: DistillationLossOutput<A::F>)
    requires
        one_precision::<A>(),
        one_is_neutral::<A>(),
        s.opts.reduction == Reduction::Sum,
        answers(x, s),
    ensures
        A::widen_spec(x.student_ce) == added_up::<A>(
            |r: int|
                A::widen_spec(
                    ce_loss::<A>(
                        row_times_transpose::<A>(s.student@[r], s.weight@),
                        s.labels[r],
                        s.opts.ignore_index,
                        s.opts.label_smoothing,
                    ),
                ),
            s.student.rows as int,
        ),
        A::widen_spec(x.teacher_ce) == if A::flt_spec(A::fint_spec(0), weight_of_teacher(s)) {
            added_up::<A>(
                |r: int|
                    A::widen_spec(
                        ce_loss::<A>(
                            teacher_row(s, r),
                            s.labels[r],
                            s.opts.ignore_index,
                            s.opts.label_smoothing,
                        ),
                    ),
                s.student.rows as int,
            )
        } else {
            A::dint_spec(0)
        },
        A::widen_spec(x.kl) == if A::flt_spec(A::fint_spec(0), s.opts.kd_weight) {
            added_up::<A>(|r: int| kl_term(s, r), s.student.rows as int)
        } else {
            A::dint_spec(0)
        },
{
    reveal(one_precision);
    let n = s.bt();
    let one = A::widen_spec(s.mean_scale());
    assert(one == A::dint_spec(1));
    let (a, b, c) = (s.student_nll(n), s.teacher_nll(n), s.kl_total());
    assert(A::dmul_spec(a, one) == a && A::dmul_spec(b, one) == b && A::dmul_spec(c, one) == c);
    assert(A::widen_spec(x.student_ce) == a);
    assert(A::widen_spec(x.teacher_ce) == b);
    assert(A::widen_spec(x.kl) == c);
    let f = |r: int|
        A::widen_spec(
            ce_loss::<A>(
                row_times_transpose::<A>(s.student@[r], s.weight@),
                s.labels[r],
                s.opts.ignore_index,
                s.opts.label_smoothing,
            ),
        );
    lemma_ce_added_up(s.student_logits(), s, f, n);
    let g = |r: int|
        A::widen_spec(
            ce_loss::<A>(
                teacher_row(s, r),
                s.labels[r],
                s.opts.ignore_index,
                s.opts.label_smoothing,
            ),
        );
    assert forall|r: int| 0 <= r < n implies #[trigger] s.teacher_logits()[r] == teacher_row(
        s,
        r,
    ) by {}
    lemma_ce_added_up(s.teacher_logits(), s, g, n);
    lemma_kl_added_up(s, |r: int| kl_term(s, r), n);
    let k = s.kl_upto(n);
    assert(A::widen_spec(A::narrow_spec(k)) == k);
    assert(A::dadd_spec(A::dint_spec(0), k) == k);
}

/// The mean divides by the labels that are not ignored: a batch with one more such label
/// divides by one more, and an ignored label changes nothing; where there is none it divides
/// by one, as a sum always does.
pub proof fn mean_divides_by_the_tokens<A: Arith>(s: Setup<A>, t: Setup<A>)
    requires
        t.labels == s.labels.push(t.labels.last()),
        t.labels.len() > 0,
        s.labels.len() == s.student.rows,
        t.labels.len() == t.student.rows,
        t.opts == s.opts,
    ensures
        s.opts.reduction == Reduction::Sum ==> s.denominator() == 1,
        s.student.rows == 0 ==> s.denominator() == 1,
        t.labels.last() == s.opts.ignore_index ==> t.denominator() == s.denominator(),
        t.labels.last() != s.opts.ignore_index && s.opts.reduction == Reduction::Mean && (
        exists|i: int| 0 <= i < s.labels.len() && #[trigger] s.labels[i] != s.opts.ignore_index)
            ==> t.denominator() == s.denominator() + 1,
        (forall|i: int| 0 <= i < s.labels.len() ==> #[trigger] s.labels[i] == s.opts.ignore_index)
            ==> s.denominator() == 1,
{
    let n = s.labels.len() as int;
    let g = s.opts.ignore_index;
    lemma_same_tokens(s.labels, t.labels, g, n);
    lemma_some_tokens(s.labels, g, n);
}

proof fn lemma_same_tokens(a: Seq<i64>, b: Seq<i64>, ignore_index: i64, n: int)
    requires
        0 <= n <= a.len(),
        n <= b.len(),
        forall|i: int| 0 <= i < n ==> #[trigger] a[i] == b[i],
    ensures
        valid_tokens(a, ignore_index, n) == valid_tokens(b, ignore_index, n),
    decreases n,
{
    if n > 0 {
        lemma_same_tokens(a, b, ignore_index, n - 1);
        assert(a[n - 1] == b[n - 1]);
    }
}

proof fn lemma_some_tokens(a: Seq<i64>, ignore_index: i64, n: int)
    requires
        0 <= n <= a.len(),
    ensures
        valid_tokens(a, ignore_index, n) >= 0,
        (forall|i: int| 0 <= i < n ==> #[trigger] a[i] == ignore_index) ==> valid_tokens(
            a,
            ignore_index,
            n,
        ) == 0,
        (exists|i: int| 0 <= i < n && #[trigger] a[i] != ignore_index) ==> valid_tokens(
            a,
            ignore_index,
            n,
        ) >= 1,
    decreases n,
{
    if n > 0 {
        lemma_some_tokens(a, ignore_index, n - 1);
        if a[n - 1] == ignore_index {
            if exists|i: int| 0 <= i < n && #[trigger] a[i] != ignore_index {
                let k = choose|i: int| 0 <= i < n && #[trigger] a[i] != ignore_index;
                assert(0 <= k < n - 1 && a[k] != ignore_index);
            }
        }
    }
}

/// `s` with these weights of the student's and the teacher's cross-entropy and of the KL.
pub open spec fn weighing<A: Arith>(
    s: Setup<A>,
    student: A::F,
    teacher: A::F,
    kd: A::F,
) -> Setup<A> {
    Setup {
        opts: LossOptions {
            student_ce_weight: student,
            teacher_ce_weight: Some(teacher),
            kd_weight: kd,
            ..s.opts
        },
        ..s
    }
}

/// The cross-entropies and the KL on their own do not depend on weights above zero.
proof fn lemma_wide_terms(s: Setup<Fixed>, t: Setup<Fixed>, fixed: Option<Seq<Seq<i64>>>, n: int)
    requires
        exists|a: i64, b: i64, c: i64| t == #[trigger] weighing(s, a, b, c),
    ensures
        t.wide_student_nll(n) == s.wide_student_nll(n),
        t.forward_uses_teacher_ce() == s.forward_uses_teacher_ce() ==> t.wide_teacher_nll(n)
            == s.wide_teacher_nll(n),
        t.forward_uses_kl() == s.forward_uses_kl() ==> t.wide_kl_sum(fixed, n) == s.wide_kl_sum(
            fixed,
            n,
        ),
    decreases n,
{
    if n > 0 {
        lemma_wide_terms(s, t, fixed, n - 1);
        assert(t.wide_student(n - 1) == s.wide_student(n - 1));
        assert(t.wide_teacher(n - 1) == s.wide_teacher(n - 1));
        assert(t.kl_teacher(fixed, n - 1) == s.kl_teacher(fixed, n - 1));
    }
}

/// The value on its own is linear in the weights, with the teacher's logits held fixed or not:
/// it is the value under a weight of one on the student's cross-entropy alone, times that
/// weight, and so for the teacher's and for the KL, added up.
pub proof fn value_is_linear_in_the_weights(
    s: Setup<Fixed>,
    fixed: Option<Seq<Seq<i64>>>,
    student: i64,
    teacher: i64,
    kd: i64,
)
    requires
        s.opts.reduction == Reduction::Sum,
        teacher >= 0,
        kd >= 0,
    ensures
        weighing(s, student, teacher, kd).wide_objective(fixed) == product(
            student,
            weighing(s, ONE, 0, 0).wide_objective(fixed),
        ).wrapping_add(
            product(teacher, weighing(s, 0, ONE, 0).wide_objective(fixed)),
        ).wrapping_add(product(kd, weighing(s, 0, 0, ONE).wide_objective(fixed))),
{
    fixed_point_is_exact();
    reveal(one_precision);
    let n = s.bt();
    let t = weighing(s, student, teacher, kd);
    let a = weighing(s, ONE, 0, 0);
    let b = weighing(s, 0, ONE, 0);
    let c = weighing(s, 0, 0, ONE);
    assert(a == weighing(t, ONE, 0, 0) && b == weighing(t, 0, ONE, 0) && c == weighing(
        t,
        0,
        0,
        ONE,
    ));
    lemma_wide_terms(t, a, fixed, n);
    lemma_wide_terms(t, b, fixed, n);
    lemma_wide_terms(t, c, fixed, n);
    let zero = <Fixed as Arith>::dint_spec(0);
    let one = <Fixed as Arith>::dint_spec(1);
    assert(zero == 0 && one == ONE);
    let (x, y, z) = (t.wide_student_nll(n), b.wide_teacher_nll(n), c.wide_kl_sum(fixed, n));
    assert(a.wide_teacher_nll(n) == zero && a.wide_kl_sum(fixed, n) == zero);
    assert(b.wide_kl_sum(fixed, n) == zero && c.wide_teacher_nll(n) == zero);
    assert(<Fixed as Arith>::dmul_spec(one, x) == x);
    assert(<Fixed as Arith>::dmul_spec(one, y) == y);
    assert(<Fixed as Arith>::dmul_spec(one, z) == z);
    assert(<Fixed as Arith>::dmul_spec(zero, x) == zero);
    assert(<Fixed as Arith>::dmul_spec(zero, y) == zero);
    assert(<Fixed as Arith>::dmul_spec(zero, z) == zero);
    assert(<Fixed as Arith>::dmul_spec(zero, zero) == zero);
    assert(a.wide_objective(fixed) == x);
    assert(b.wide_objective(fixed) == y);
    assert(c.wide_objective(fixed) == z);
    assert(product(teacher, t.wide_teacher_nll(n)) == product(teacher, y)) by {
        if teacher == 0 {
            let w = t.wide_teacher_nll(n);
            assert(<Fixed as Arith>::dmul_spec(zero, w) == zero);
        }
    }
    assert(product(kd, t.wide_kl_sum(fixed, n)) == product(kd, z)) by {
        if kd == 0 {
            let w = t.wide_kl_sum(fixed, n);
            assert(<Fixed as Arith>::dmul_spec(zero, w) == zero);
        }
    }
    let all = <Fixed as Arith>::dadd_spec(
        <Fixed as Arith>::dadd_spec(product(student, x), product(teacher, y)),
        product(kd, z),
    );
    assert(<Fixed as Arith>::ddiv_spec(all, one) == all);
}

} // verus!
