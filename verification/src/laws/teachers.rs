//! What the teacher does, and does not, have a part in.

#![allow(unused_imports)]

use vstd::prelude::*;
use crate::api::{answers, DistillationLossOutput};
use crate::arith::Arith;
use crate::laws::numbers::{cancels, one_precision, zero_is_zero};
use crate::laws::outputs::{lemma_denominator, rows_in, same_result};
use crate::laws::value::lemma_wide_rows;
use crate::mat::Mat;
use crate::objective::Setup;
use crate::options::LossOptions;
use crate::reference::kl::{divergence, kl_grad_row, kl_row, log_probs, probs};
use crate::reference::softmax::widened;
use crate::teacher::{Teacher, TeacherMode};

verus! {

/// `s` with another weight and temperature of the KL.
pub open spec fn distilled_by<A: Arith>(s: Setup<A>, kd_weight: A::F, temperature: A::F) -> Setup<A> {
    Setup { opts: LossOptions { kd_weight, temperature, ..s.opts }, ..s }
}

/// The teacher is a constant to the KL: neither the weight of the KL nor its temperature
/// changes the teacher's gradients, and the cross-entropies do not depend on them.
pub proof fn kl_is_detached_from_the_teacher<A: Arith>(
    s: Setup<A>,
    kd_weight: A::F,
    temperature: A::F,
    x: DistillationLossOutput<A::F>,
    y: DistillationLossOutput<A::F>,
)
    requires
        answers(x, s),
        answers(y, distilled_by(s, kd_weight, temperature)),
    ensures
        x.student_ce == y.student_ce,
        x.teacher_ce == y.teacher_ce,
        rows_in(x.grad_teacher_hidden) == rows_in(y.grad_teacher_hidden),
        rows_in(x.grad_teacher_weight) == rows_in(y.grad_teacher_weight),
{
    let t = distilled_by(s, kd_weight, temperature);
    assert(t.teacher_logits() =~= s.teacher_logits());
    assert(t.student_logits() =~= s.student_logits());
}

/// Precomputed logits are constants, so such a teacher gets no gradient; a teacher whose
/// cross-entropy is no part of the objective gets none either.
pub proof fn only_a_trained_teacher_has_gradients<A: Arith>(
    s: Setup<A>,
    x: DistillationLossOutput<A::F>,
)
    requires
        answers(x, s),
        s.teacher.mode_spec() == TeacherMode::Precomputed || !s.uses_teacher_ce(),
    ensures
        x.grad_teacher_hidden is None,
        x.grad_teacher_weight is None,
{
}

/// `s` with another teacher.
pub open spec fn taught_by<A: Arith>(s: Setup<A>, teacher: Teacher<A>) -> Setup<A> {
    Setup { teacher, ..s }
}

/// With no weight on the KL and none on the teacher's cross-entropy the teacher is not
/// looked at: another one gives the same numbers and the same gradients, both reported
/// teacher terms are zero sums, and the teacher has no gradient.
pub proof fn without_teacher_terms_the_teacher_does_not_matter<A: Arith>(
    s: Setup<A>,
    teacher: Teacher<A>,
    x: DistillationLossOutput<A::F>,
    y: DistillationLossOutput<A::F>,
)
    requires
        taught_by(s, teacher).teacher_ce_weight() == s.teacher_ce_weight(),
        !s.uses_kl(),
        !s.uses_teacher_ce(),
        answers(x, s),
        answers(y, taught_by(s, teacher)),
    ensures
        same_result(x, y),
        x.chunk_plan == y.chunk_plan,
        x.teacher_ce == s.reduced(A::dint_spec(0)),
        x.kl == s.reduced(A::dint_spec(0)),
        x.grad_teacher_hidden is None,
        x.grad_teacher_weight is None,
{
    assert(taught_by(s, teacher).student_logits() =~= s.student_logits());
}

/// Zero on the KL and zero on the teacher's cross-entropy is no weight: the teacher is not
/// looked at, and both reported teacher terms are zero.
pub proof fn weights_of_zero_leave_the_teacher_out<A: Arith>(
    s: Setup<A>,
    teacher: Teacher<A>,
    x: DistillationLossOutput<A::F>,
    y: DistillationLossOutput<A::F>,
)
    requires
        zero_is_zero::<A>(),
        s.opts.kd_weight == A::fint_spec(0),
        s.opts.teacher_ce_weight == Some(A::fint_spec(0)),
        answers(x, s),
        answers(y, taught_by(s, teacher)),
    ensures
        same_result(x, y),
        x.chunk_plan == y.chunk_plan,
        x.grad_teacher_hidden is None,
        x.grad_teacher_weight is None,
        x.teacher_ce == A::fint_spec(0),
        x.kl == A::fint_spec(0),
{
    without_teacher_terms_the_teacher_does_not_matter(s, teacher, x, y);
    lemma_denominator(s);
    assert(s.reduced(A::dint_spec(0)) == A::fint_spec(0));
}

/// The divergence of a distribution from itself.
proof fn lemma_self_divergence<A: Arith>(p: Seq<A::D>, log_p: Seq<A::D>, n: int)
    requires
        cancels::<A>(),
    ensures
        divergence::<A>(p, log_p, log_p, n) == A::dint_spec(0),
    decreases n,
{
    if n > 0 {
        lemma_self_divergence::<A>(p, log_p, n - 1);
        assert(A::dsub_spec(log_p[n - 1], log_p[n - 1]) == A::dint_spec(0));
        assert(A::dmul_spec(p[n - 1], A::dint_spec(0)) == A::dint_spec(0));
    }
}

/// The KL of a row of logits from itself is zero, at any temperature, and its gradient is
/// zero, whatever the weight.
pub proof fn identical_distributions_have_zero_kl<A: Arith>(
    x: Seq<A::F>,
    inv_t: A::D,
    target: i64,
    ignore_index: i64,
    kl_weight: A::F,
    temperature: A::F,
    grad_denom: A::F,
)
    requires
        cancels::<A>(),
    ensures
        kl_row::<A>(x, x, inv_t) == A::dint_spec(0),
        target != ignore_index ==> kl_grad_row::<A>(
            x,
            x,
            target,
            ignore_index,
            kl_weight,
            temperature,
            grad_denom,
        ) == Seq::new(x.len(), |j: int| A::narrow_spec(A::dint_spec(0))),
{
    lemma_self_divergence::<A>(probs::<A>(x, inv_t), log_probs::<A>(x, inv_t), x.len() as int);
    if target != ignore_index {
        let own = A::ddiv_spec(A::dint_spec(1), A::widen_spec(temperature));
        let p = probs::<A>(x, own);
        assert forall|j: int| 0 <= j < x.len() implies #[trigger] kl_grad_row::<A>(
            x,
            x,
            target,
            ignore_index,
            kl_weight,
            temperature,
            grad_denom,
        )[j] == A::narrow_spec(A::dint_spec(0)) by {
            assert(A::dsub_spec(p[j], p[j]) == A::dint_spec(0));
        }
        assert(kl_grad_row::<A>(
            x,
            x,
            target,
            ignore_index,
            kl_weight,
            temperature,
            grad_denom,
        ) =~= Seq::new(x.len(), |j: int| A::narrow_spec(A::dint_spec(0))));
    }
}

/// The KL of fixed logits is that of the teacher's own, where they are the same.
proof fn lemma_detached_kl<A: Arith>(s: Setup<A>, fixed: Seq<Seq<A::F>>, n: int)
    requires
        forall|r: int|
            0 <= r < n && s.labels[r] != s.opts.ignore_index ==> widened::<A>(#[trigger] fixed[r])
                == s.wide_teacher(r),
    ensures
        s.wide_kl_sum(Some(fixed), n) == s.wide_kl_sum(None, n),
    decreases n,
{
    if n > 0 {
        assert(s.labels[n - 1] != s.opts.ignore_index ==> widened::<A>(fixed[n - 1])
            == s.wide_teacher(n - 1));
        lemma_detached_kl(s, fixed, n - 1);
    }
}

/// Detaching never changes the value of the objective: with the teacher's logits held fixed
/// at what they are, [`crate::forward::forward_loss_f64`] gives what it gives without.
pub proof fn detaching_keeps_the_value<A: Arith>(s: Setup<A>, fixed: Seq<Seq<A::F>>)
    requires
        forall|r: int|
            0 <= r < s.bt() && s.labels[r] != s.opts.ignore_index ==> widened::<A>(
                #[trigger] fixed[r],
            ) == s.wide_teacher(r),
    ensures
        s.wide_objective(Some(fixed)) == s.wide_objective(None),
{
    lemma_detached_kl(s, fixed, s.bt());
}

/// Precomputed logits are what a detached KL holds fixed.
pub proof fn precomputed_logits_are_detached<A: Arith>(s: Setup<A>, logits: Mat<A::F>)
    requires
        s.teacher == (Teacher::<A>::Precomputed { logits }),
    ensures
        s.wide_objective(Some(logits@)) == s.wide_objective(None),
{
    detaching_keeps_the_value(s, logits@);
}

/// Where narrow and wide numbers are alike, the logits that [`crate::api::teacher_logits`]
/// gives are those that the KL would read, and holding them fixed changes nothing.
pub proof fn teacher_logits_can_be_held_fixed<A: Arith>(s: Setup<A>)
    requires
        one_precision::<A>(),
        s.wf(),
        s.error() is None,
    ensures
        s.wide_objective(Some(s.teacher_logits())) == s.wide_objective(None),
{
    assert forall|r: int| 0 <= r < s.bt() implies widened::<A>(#[trigger] s.teacher_logits()[r])
        == s.wide_teacher(r) by {
        lemma_wide_rows(s, r);
    }
    detaching_keeps_the_value(s, s.teacher_logits());
}

/// The sums of [`crate::forward::forward_loss_f64`] that do not read the teacher.
proof fn lemma_forward_without_teacher<A: Arith>(
    s: Setup<A>,
    teacher: Teacher<A>,
    fixed: Seq<Seq<A::F>>,
    n: int,
)
    ensures
        ({
            let t = taught_by(s, teacher);
            &&& t.wide_student_nll(n) == s.wide_student_nll(n)
            &&& t.wide_kl_sum(Some(fixed), n) == s.wide_kl_sum(Some(fixed), n)
        }),
    decreases n,
{
    let t = taught_by(s, teacher);
    if n > 0 {
        lemma_forward_without_teacher(s, teacher, fixed, n - 1);
        assert(t.wide_student(n - 1) == s.wide_student(n - 1));
    }
}

/// With fixed logits the KL reads the teacher from them alone: without a cross-entropy of the
/// teacher, any two teachers give the same value.
pub proof fn fixed_logits_stand_in_for_the_teacher<A: Arith>(
    s: Setup<A>,
    teacher: Teacher<A>,
    fixed: Seq<Seq<A::F>>,
)
    requires
        taught_by(s, teacher).teacher_ce_weight() == s.teacher_ce_weight(),
        !s.forward_uses_teacher_ce(),
    ensures
        taught_by(s, teacher).wide_objective(Some(fixed)) == s.wide_objective(Some(fixed)),
{
    let t = taught_by(s, teacher);
    lemma_forward_without_teacher(s, teacher, fixed, s.bt());
    assert(t.wide_teacher_nll(s.bt()) == A::dint_spec(0));
    assert(s.wide_teacher_nll(s.bt()) == A::dint_spec(0));
}

/// With fixed logits, and zero on the teacher's cross-entropy, any two teachers give the same
/// value.
pub proof fn fixed_logits_and_a_weight_of_zero_leave_the_teacher_out<A: Arith>(
    s: Setup<A>,
    teacher: Teacher<A>,
    fixed: Seq<Seq<A::F>>,
)
    requires
        zero_is_zero::<A>(),
        s.opts.teacher_ce_weight == Some(A::fint_spec(0)),
    ensures
        taught_by(s, teacher).wide_objective(Some(fixed)) == s.wide_objective(Some(fixed)),
{
    fixed_logits_stand_in_for_the_teacher(s, teacher, fixed);
}

/// A separate teacher that brings the student's weight is a tied one, but for where the
/// gradient of that weight goes: all else is the same.
pub proof fn separate_teacher_with_the_same_weight_is_tied<A: Arith>(
    s: Setup<A>,
    hidden: Mat<A::F>,
    x: DistillationLossOutput<A::F>,
    y: DistillationLossOutput<A::F>,
)
    requires
        s.opts.teacher_ce_weight is Some,
        hidden.cols == s.student.cols,
        answers(x, taught_by(s, Teacher::<A>::Tied { hidden })),
        answers(y, taught_by(s, Teacher::<A>::Separate { hidden, weight: s.weight })),
    ensures
        x.loss == y.loss,
        x.student_ce == y.student_ce,
        x.teacher_ce == y.teacher_ce,
        x.kl == y.kl,
        x.grad_student_hidden@ == y.grad_student_hidden@,
        rows_in(x.grad_teacher_hidden) == rows_in(y.grad_teacher_hidden),
        x.grad_teacher_weight is None,
        y.grad_teacher_weight is Some == y.grad_teacher_hidden is Some,
{
    let a = taught_by(s, Teacher::<A>::Tied { hidden });
    let b = taught_by(s, Teacher::<A>::Separate { hidden, weight: s.weight });
    assert(a.teacher_logits() =~= b.teacher_logits());
    assert(a.student_logits() =~= b.student_logits());
}

/// A tied teacher with the student's own hidden states has the student's logits: its
/// cross-entropy is the student's, where it has a weight.
pub proof fn tied_teacher_with_the_same_states_is_the_student<A: Arith>(
    s: Setup<A>,
    x: DistillationLossOutput<A::F>,
)
    requires
        answers(x, taught_by(s, Teacher::<A>::Tied { hidden: s.student })),
        s.opts.teacher_ce_weight is None,
        A::flt_spec(A::fint_spec(0), A::fint_spec(1)),
    ensures
        x.teacher_ce == x.student_ce,
{
    let a = taught_by(s, Teacher::<A>::Tied { hidden: s.student });
    assert(a.teacher_logits() =~= a.student_logits());
}

} // verus!
