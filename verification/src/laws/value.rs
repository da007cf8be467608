//! The value alone, and the value with the gradients.

#![allow(unused_imports)]

use vstd::prelude::*;
use crate::api::{answers, DistillationLossOutput};
use crate::arith::Arith;
use crate::fixed::{abs, product, quotient, Fixed, ONE};
use crate::forward::{wide_dot, wide_kl, wide_logits, wide_nll};
use crate::laws::numbers::{fixed_point_is_exact, one_is_neutral, one_precision};
use crate::laws::outputs::valid;
use crate::laws::settings::{lemma_fixed_mean, per_token};
use crate::mat::{dot, row_times_transpose};
use crate::objective::Setup;
use crate::reference::cross_entropy::ce_loss;
use crate::reference::kl::kl_row;
use crate::reference::softmax::{peak, peak_by_max, tempered, widened};
use crate::teacher::Teacher;

verus! {

/// A widened sum of products is the sum of products in wide numbers.
proof fn lemma_wide_dot<A: Arith>(x: Seq<A::F>, y: Seq<A::F>, k: int)
    requires
        one_precision::<A>(),
    ensures
        A::widen_spec(dot::<A>(x, y, k)) == wide_dot::<A>(x, y, k),
    decreases k,
{
    reveal(one_precision);
    if k > 0 {
        lemma_wide_dot::<A>(x, y, k - 1);
    }
}

/// Widened logits are the logits in wide numbers.
proof fn lemma_wide_logits<A: Arith>(x: Seq<A::F>, w: Seq<Seq<A::F>>)
    requires
        one_precision::<A>(),
    ensures
        widened::<A>(row_times_transpose::<A>(x, w)) == wide_logits::<A>(x, w),
{
    let lhs = widened::<A>(row_times_transpose::<A>(x, w));
    let rhs = wide_logits::<A>(x, w);
    assert forall|j: int| 0 <= j < w.len() implies #[trigger] lhs[j] == rhs[j] by {
        lemma_wide_dot::<A>(x, w[j], x.len() as int);
    }
    assert(lhs =~= rhs);
}

/// The two ways to find the largest entry agree.
proof fn lemma_peaks<A: Arith>(z: Seq<A::D>, n: int)
    requires
        one_precision::<A>(),
    ensures
        peak_by_max::<A>(z, n) == peak::<A>(z, n),
    decreases n,
{
    reveal(one_precision);
    if n > 0 {
        lemma_peaks::<A>(z, n - 1);
    }
}

/// The rows of logits, widened.
pub proof fn lemma_wide_rows<A: Arith>(s: Setup<A>, r: int)
    requires
        one_precision::<A>(),
        valid(s),
        0 <= r < s.bt(),
    ensures
        widened::<A>(s.student_logits()[r]) == s.wide_student(r),
        widened::<A>(s.teacher_logits()[r]) == s.wide_teacher(r),
{
    lemma_wide_logits::<A>(s.student@[r], s.weight@);
    match s.teacher {
        Teacher::Tied { hidden } => {
            lemma_wide_logits::<A>(hidden@[r], s.weight@);
        },
        Teacher::Separate { hidden, weight } => {
            lemma_wide_logits::<A>(hidden@[r], weight@);
        },
        Teacher::Precomputed { .. } => {},
    }
}

/// The cross-entropy of a row of logits, widened, is that of the wide logits.
proof fn lemma_wide_nll<A: Arith>(x: Seq<A::F>, y: i64, ignore_index: i64, label_smoothing: A::F)
    requires
        one_precision::<A>(),
    ensures
        A::widen_spec(ce_loss::<A>(x, y, ignore_index, label_smoothing)) == wide_nll::<A>(
            widened::<A>(x),
            y,
            ignore_index,
            A::widen_spec(label_smoothing),
        ),
{
    reveal(one_precision);
    lemma_peaks::<A>(widened::<A>(x), x.len() as int);
}

/// Both ways add up the same cross-entropies.
proof fn lemma_wide_nll_sums<A: Arith>(s: Setup<A>, n: int)
    requires
        one_precision::<A>(),
        valid(s),
        0 <= n <= s.bt(),
    ensures
        s.student_nll(n) == s.wide_student_nll(n),
        s.teacher_nll(n) == s.wide_teacher_nll(n),
    decreases n,
{
    lemma_wide_switches(s);
    if n > 0 {
        lemma_wide_nll_sums(s, n - 1);
        lemma_wide_rows(s, n - 1);
        lemma_wide_nll::<A>(
            s.student_logits()[n - 1],
            s.labels[n - 1],
            s.opts.ignore_index,
            s.opts.label_smoothing,
        );
        lemma_wide_nll::<A>(
            s.teacher_logits()[n - 1],
            s.labels[n - 1],
            s.opts.ignore_index,
            s.opts.label_smoothing,
        );
    }
}

/// Both ways leave out the same terms.
proof fn lemma_wide_switches<A: Arith>(s: Setup<A>)
    requires
        one_precision::<A>(),
    ensures
        s.forward_uses_kl() == s.uses_kl(),
        s.forward_uses_teacher_ce() == s.uses_teacher_ce(),
{
    reveal(one_precision);
    assert(A::widen_spec(A::fint_spec(0)) == A::dint_spec(0));
}

/// Both ways find the same KL of a pair of rows.
proof fn lemma_wide_kl_row<A: Arith>(student: Seq<A::F>, teacher: Seq<A::F>, temperature: A::D)
    requires
        one_precision::<A>(),
    ensures
        kl_row::<A>(student, teacher, A::ddiv_spec(A::dint_spec(1), temperature)) == wide_kl::<A>(
            widened::<A>(student),
            widened::<A>(teacher),
            temperature,
        ),
{
    let inv_t = A::ddiv_spec(A::dint_spec(1), temperature);
    lemma_peaks::<A>(tempered::<A>(widened::<A>(student), inv_t), student.len() as int);
    lemma_peaks::<A>(tempered::<A>(widened::<A>(teacher), inv_t), teacher.len() as int);
}

/// Both ways add up the same KL.
proof fn lemma_wide_kl_sums<A: Arith>(s: Setup<A>, n: int)
    requires
        one_precision::<A>(),
        valid(s),
        0 <= n <= s.bt(),
    ensures
        s.kl_upto(n) == s.wide_kl_sum(None, n),
    decreases n,
{
    lemma_wide_switches(s);
    if n > 0 && s.uses_kl() {
        let t = A::widen_spec(s.opts.temperature);
        let before = s.wide_kl_sum(None, n - 1);
        lemma_wide_kl_sums(s, n - 1);
        lemma_wide_rows(s, n - 1);
        lemma_wide_kl_row::<A>(s.student_logits()[n - 1], s.teacher_logits()[n - 1], t);
        assert(A::widen_spec(A::fmul_spec(s.opts.temperature, s.opts.temperature))
            == A::dmul_spec(t, t) && A::dmul_spec(A::dint_spec(0), A::dmul_spec(t, t))
            == A::dint_spec(0) && A::dadd_spec(before, A::dint_spec(0)) == before) by {
            reveal(one_precision);
        }
    }
}

/// The value alone is the value that comes with the gradients. Where both number types are
/// alike, [`crate::api::distillation_loss`] and [`crate::forward::loss_only_f64`] weigh and
/// add up to the same sum; the one multiplies it by one over the number of tokens, the other
/// divides it by that number, and over a single token, or where the sum is asked for, they
/// return the same.
pub proof fn both_ways_to_the_value_agree<A: Arith>(s: Setup<A>, x: DistillationLossOutput<A::F>)
    requires
        one_precision::<A>(),
        s.wf(),
        s.refusal() is None,
        answers(x, s),
    ensures
        ({
            let n = s.denominator();
            let sum = s.objective_sum();
            &&& x.loss == A::narrow_spec(A::dmul_spec(sum, A::widen_spec(per_token::<A>(n))))
            &&& s.wide_objective(None) == A::ddiv_spec(sum, A::dint_spec(n))
            &&& n == 1 && one_is_neutral::<A>() ==> A::widen_spec(x.loss) == s.wide_objective(None)
        }),
{
    lemma_wide_nll_sums(s, s.bt());
    lemma_wide_kl_sums(s, s.bt());
    reveal(one_precision);
    assert(s.kl_total() == s.kl_upto(s.bt()));
}

/// A number times one over `n`, against the number over `n`.
proof fn lemma_two_means(x: i64, n: int)
    requires
        1 <= n < 0x8000_0000,
    ensures
        ({
            let times = product(x, per_token::<Fixed>(n));
            let over = quotient(x, <Fixed as Arith>::dint_spec(n));
            ONE * abs(times - over) <= abs(x as int) + ONE
        }),
{
    lemma_fixed_mean(x, n);
    let d = <Fixed as Arith>::dint_spec(n);
    assert(d == n * ONE);
    let k = (ONE as int) / n;
    assert(ONE * n == n * ONE) by (nonlinear_arith);
    let big = abs(x as int);
    let over = big / n;
    vstd::arithmetic::div_mod::lemma_div_multiples_vanish_quotient(ONE as int, big, n);
    vstd::arithmetic::div_mod::lemma_div_pos_is_pos(big, n);
    vstd::arithmetic::div_mod::lemma_div_is_ordered_by_denominator(big, 1, n);
    assert(big * ONE == ONE * big && abs(x * ONE) == big * ONE && (x * ONE < 0 <==> x < 0))
        by (nonlinear_arith)
        requires
            big == abs(x as int),
            ONE > 0,
    ;
    assert(quotient(x, <Fixed as Arith>::dint_spec(n)) == if x < 0 {
        -over
    } else {
        over
    });

    let rest = (ONE as int) % n;
    let m = (big * k) / (ONE as int);
    let left = (big * k) % (ONE as int);
    let odd = big % n;
    vstd::arithmetic::div_mod::lemma_fundamental_div_mod(ONE as int, n);
    vstd::arithmetic::div_mod::lemma_fundamental_div_mod(big * k, ONE as int);
    vstd::arithmetic::div_mod::lemma_fundamental_div_mod(big, n);
    // n * ONE * (over - m) is between -n * ONE and n * (big + ONE).
    assert(n * (ONE * over) == ONE * (big - odd)) by (nonlinear_arith)
        requires
            big == n * over + odd,
    ;
    assert(n * (ONE * m) == big * (ONE - rest) - n * left) by (nonlinear_arith)
        requires
            big * k == ONE * m + left,
            ONE == n * k + rest,
    ;
    assert(big * rest <= n * big && 0 <= big * rest) by (nonlinear_arith)
        requires
            0 <= rest < n,
            0 <= big,
    ;
    assert(n * left <= n * ONE && 0 <= n * left && 0 <= ONE * odd <= n * ONE && big * (ONE - rest)
        == ONE * big - big * rest && ONE * (big - odd) == ONE * big - ONE * odd)
        by (nonlinear_arith)
        requires
            0 <= left < ONE,
            0 <= odd < n,
            n >= 1,
    ;
    let gap = ONE * (over - m);
    assert(n * gap == n * (ONE * over) - n * (ONE * m)) by (nonlinear_arith)
        requires
            gap == ONE * (over - m),
    ;
    assert(abs(gap) <= big + ONE) by (nonlinear_arith)
        requires
            -(n * ONE) <= n * gap <= n * big + n * ONE,
            n >= 1,
            big >= 0,
            ONE > 0,
    ;
    assert(ONE * abs(over - m) == abs(gap)) by (nonlinear_arith)
        requires
            gap == ONE * (over - m),
            ONE > 0,
    ;
}

/// In fixed point, the loss that comes with the gradients and the value alone differ by the
/// rounding of one over the number of tokens: by at most 2^-32 of the sum, and one unit.
pub proof fn both_values_differ_by_rounding(s: Setup<Fixed>, x: DistillationLossOutput<i64>)
    requires
        s.denominator() < 0x8000_0000,
        s.wf(),
        s.refusal() is None,
        answers(x, s),
    ensures
        ONE * abs(x.loss - s.wide_objective(None)) <= abs(s.objective_sum() as int) + ONE,
{
    fixed_point_is_exact();
    both_ways_to_the_value_agree(s, x);
    lemma_two_means(s.objective_sum(), s.denominator());
}

} // verus!
