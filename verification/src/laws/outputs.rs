//! When two evaluations give the same, and what all laws use.

#![allow(unused_imports)]

use vstd::prelude::*;
use crate::api::DistillationLossOutput;
use crate::arith::Arith;
use crate::mat::Mat;
use crate::objective::{lemma_valid_tokens, Setup};
use crate::options::LossOptions;

verus! {

/// The inputs are valid.
pub open spec fn valid<A: Arith>(s: Setup<A>) -> bool {
    s.wf() && s.error() is None
}

/// The rows of a gradient, where there is one.
pub open spec fn rows_in<F>(g: Option<Mat<F>>) -> Option<Seq<Seq<F>>> {
    match g {
        Some(m) => Some(m@),
        None => None,
    }
}

/// Two outputs agree in everything but the weight's gradient and the chunks.
pub open spec fn same_but_weight_grad<F>(
    x: DistillationLossOutput<F>,
    y: DistillationLossOutput<F>,
) -> bool {
    &&& x.loss == y.loss
    &&& x.student_ce == y.student_ce
    &&& x.teacher_ce == y.teacher_ce
    &&& x.kl == y.kl
    &&& x.grad_student_hidden@ == y.grad_student_hidden@
    &&& rows_in(x.grad_teacher_hidden) == rows_in(y.grad_teacher_hidden)
    &&& rows_in(x.grad_teacher_weight) == rows_in(y.grad_teacher_weight)
}

/// Two outputs agree in everything but the chunks.
pub open spec fn same_result<F>(
    x: DistillationLossOutput<F>,
    y: DistillationLossOutput<F>,
) -> bool {
    same_but_weight_grad(x, y) && x.grad_weight@ == y.grad_weight@
}

/// Two setups compute the same terms: they differ at most in the reduction, the chunks, the
/// kernel options and the backend.
pub open spec fn same_terms<A: Arith>(s: Setup<A>, t: Setup<A>) -> bool {
    t == Setup {
        opts: LossOptions {
            reduction: t.opts.reduction,
            chunk_size: t.opts.chunk_size,
            config: t.opts.config,
            backend: t.opts.backend,
            ..s.opts
        },
        ..s
    }
}

/// Setups with the same terms have the same sums.
pub proof fn lemma_same_terms<A: Arith>(s: Setup<A>, t: Setup<A>)
    requires
        same_terms(s, t),
    ensures
        t.student_logits() == s.student_logits(),
        t.teacher_logits() == s.teacher_logits(),
        t.student_grads() == s.student_grads(),
        t.teacher_grads() == s.teacher_grads(),
        t.kl_total() == s.kl_total(),
        t.weight_sum() == s.weight_sum(),
        t.teacher_weight_sum() == s.teacher_weight_sum(),
{
    assert(t.student_logits() =~= s.student_logits());
    assert(t.teacher_logits() =~= s.teacher_logits());
}

/// What everything is divided by is a count.
pub proof fn lemma_denominator<A: Arith>(s: Setup<A>)
    ensures
        1 <= s.denominator() <= usize::MAX,
{
    lemma_valid_tokens(s.labels, s.opts.ignore_index, s.bt());
}

} // verus!
