//! Kernel options, backend, compression and reduction.

#![allow(unused_imports)]

use vstd::prelude::*;
use crate::api::{answers, teacher_head, DistillationLossOutput};
use crate::arith::Arith;
use crate::config::{power_of_two, Backend, KernelConfig, Reduction};
use crate::fixed::{abs, product, Fixed, ONE};
use crate::laws::numbers::fixed_point_is_exact;
use crate::laws::outputs::{lemma_same_terms, rows_in, same_but_weight_grad, same_result};
use crate::mat::scaled;
use crate::objective::{rows_times, valid_tokens, Setup};
use crate::options::{LossError, LossOptions};
use crate::quant::hit;
use crate::resolver::max;

verus! {

/// `s` with other switches for an accelerator.
pub open spec fn retuned<A: Arith>(
    s: Setup<A>,
    online_softmax: bool,
    fast_math: bool,
    fp32_grad_weight_accumulation: bool,
    max_fused_size: usize,
) -> Setup<A> {
    Setup {
        opts: LossOptions {
            config: KernelConfig {
                online_softmax,
                fast_math,
                fp32_grad_weight_accumulation,
                max_fused_size,
                ..s.opts.config
            },
            ..s.opts
        },
        ..s
    }
}

/// The switches that select cheaper arithmetic on an accelerator change nothing here, and
/// any power of two will do for the tile.
pub proof fn kernel_tuning_does_not_change_the_result<A: Arith>(
    s: Setup<A>,
    online_softmax: bool,
    fast_math: bool,
    fp32_grad_weight_accumulation: bool,
    max_fused_size: usize,
    x: DistillationLossOutput<A::F>,
    y: DistillationLossOutput<A::F>,
)
    requires
        power_of_two(s.opts.config.max_fused_size as int),
        power_of_two(max_fused_size as int),
        answers(x, s),
        answers(
            y,
            retuned(s, online_softmax, fast_math, fp32_grad_weight_accumulation, max_fused_size),
        ),
    ensures
        same_result(x, y),
        x.chunk_plan == y.chunk_plan,
        s.refusal() == retuned(
            s,
            online_softmax,
            fast_math,
            fp32_grad_weight_accumulation,
            max_fused_size,
        ).refusal(),
{
    let t = retuned(s, online_softmax, fast_math, fp32_grad_weight_accumulation, max_fused_size);
    lemma_same_terms(s, t);
}

/// `s` on another backend.
pub open spec fn on_backend<A: Arith>(s: Setup<A>, backend: Backend) -> Setup<A> {
    Setup { opts: LossOptions { backend, ..s.opts }, ..s }
}

/// Leaving the backend open is asking for this one.
pub proof fn auto_backend_is_cpu<A: Arith>(
    s: Setup<A>,
    x: DistillationLossOutput<A::F>,
    y: DistillationLossOutput<A::F>,
)
    requires
        answers(x, on_backend(s, Backend::Auto)),
        answers(y, on_backend(s, Backend::Cpu)),
    ensures
        same_result(x, y),
        x.chunk_plan == y.chunk_plan,
        on_backend(s, Backend::Auto).refusal() == on_backend(s, Backend::Cpu).refusal(),
{
    let auto = on_backend(s, Backend::Auto);
    lemma_same_terms(auto, on_backend(s, Backend::Cpu));
}

/// Asking for an accelerator is refused, after the shapes and arguments were found to be
/// in order.
pub proof fn accelerator_is_refused<A: Arith>(s: Setup<A>)
    ensures
        on_backend(s, Backend::Cuda).refusal() == match s.error() {
            Some(e) => Some(e),
            None => Some(LossError::NoAccelerator),
        },
{
    let t = on_backend(s, Backend::Cuda);
    assert(t.error() == s.error());
}

/// `s` with another compression of the weight's gradient.
pub open spec fn compressed<A: Arith>(
    s: Setup<A>,
    quantize_grad_weight: bool,
    stochastic_rounding: bool,
    stochastic_seed: Option<u64>,
) -> Setup<A> {
    Setup {
        opts: LossOptions {
            config: KernelConfig {
                quantize_grad_weight,
                stochastic_rounding,
                stochastic_seed,
                ..s.opts.config
            },
            ..s.opts
        },
        ..s
    }
}

/// Compressing the weight's gradient changes that gradient alone, and in it the rows of the
/// targets are the exact ones, times one.
pub proof fn compression_only_touches_the_weight_gradient<A: Arith>(
    s: Setup<A>,
    stochastic_rounding: bool,
    stochastic_seed: Option<u64>,
    exact: DistillationLossOutput<A::F>,
    lossy: DistillationLossOutput<A::F>,
)
    requires
        answers(exact, compressed(s, false, stochastic_rounding, stochastic_seed)),
        answers(lossy, compressed(s, true, stochastic_rounding, stochastic_seed)),
    ensures
        same_but_weight_grad(exact, lossy),
        exact.chunk_plan == lossy.chunk_plan,
        forall|r: int, c: int|
            0 <= r < s.v() && 0 <= c < s.h() && hit(
                s.labels,
                s.labels.len() as int,
                s.opts.ignore_index,
                s.v(),
                r,
            ) ==> #[trigger] lossy.grad_weight@[r][c] == A::fmul_spec(
                exact.grad_weight@[r][c],
                A::fint_spec(1),
            ),
{
    let a = compressed(s, false, stochastic_rounding, stochastic_seed);
    let b = compressed(s, true, stochastic_rounding, stochastic_seed);
    lemma_same_terms(a, b);
    assert(exact.grad_weight@ == a.exact_weight_grad());
    assert(exact.grad_weight@.len() == s.v());
    assert forall|r: int, c: int|
        0 <= r < s.v() && 0 <= c < s.h() && hit(
            s.labels,
            s.labels.len() as int,
            s.opts.ignore_index,
            s.v(),
            r,
        ) implies #[trigger] lossy.grad_weight@[r][c] == A::fmul_spec(
        exact.grad_weight@[r][c],
        A::fint_spec(1),
    ) by {
        exact.grad_weight.lemma_row_len(r);
    }
}

/// The factor that turns a sum over `n` tokens into a mean.
pub open spec fn per_token<A: Arith>(n: int) -> A::F {
    A::fdiv_spec(A::fint_spec(1), A::fint_spec(n))
}

/// `s` with another reduction.
pub open spec fn reduced_by<A: Arith>(s: Setup<A>, reduction: Reduction) -> Setup<A> {
    Setup { opts: LossOptions { reduction, ..s.opts }, ..s }
}

/// The two reductions take the same sums: the mean multiplies them by one over the number
/// of tokens that count (one where there is none), the sum by one over one. A compressed
/// gradient of the weight is compressed after that.
pub proof fn reduction_only_scales<A: Arith>(
    s: Setup<A>,
    mean: DistillationLossOutput<A::F>,
    sum: DistillationLossOutput<A::F>,
)
    requires
        answers(mean, reduced_by(s, Reduction::Mean)),
        answers(sum, reduced_by(s, Reduction::Sum)),
    ensures
        ({
            let n = max(valid_tokens(s.labels, s.opts.ignore_index, s.bt()), 1);
            let total = |x: A::D, k: int|
                A::narrow_spec(A::dmul_spec(x, A::widen_spec(per_token::<A>(k))));
            let hidden = rows_times::<A>(s.student_grads(), s.weight@, s.h());
            let weight = s.weight_sum();
            let teacher_hidden = rows_times::<A>(
                s.teacher_grads(),
                teacher_head(s),
                s.teacher_width(),
            );
            let teacher_weight = s.teacher_weight_sum();
            let kl = s.kl_total();
            &&& mean.chunk_plan == sum.chunk_plan
            &&& mean.loss == total(s.objective_sum(), n)
            &&& sum.loss == total(s.objective_sum(), 1)
            &&& mean.student_ce == total(s.student_nll(s.bt()), n)
            &&& sum.student_ce == total(s.student_nll(s.bt()), 1)
            &&& mean.teacher_ce == total(s.teacher_nll(s.bt()), n)
            &&& sum.teacher_ce == total(s.teacher_nll(s.bt()), 1)
            &&& mean.kl == total(kl, n)
            &&& sum.kl == total(kl, 1)
            &&& mean.grad_student_hidden@ == scaled::<A>(hidden, per_token::<A>(n))
            &&& sum.grad_student_hidden@ == scaled::<A>(hidden, per_token::<A>(1))
            &&& rows_in(mean.grad_teacher_hidden) == if s.has_teacher_hidden_grad() {
                Some(scaled::<A>(teacher_hidden, per_token::<A>(n)))
            } else {
                None
            }
            &&& rows_in(sum.grad_teacher_hidden) == if s.has_teacher_hidden_grad() {
                Some(scaled::<A>(teacher_hidden, per_token::<A>(1)))
            } else {
                None
            }
            &&& rows_in(mean.grad_teacher_weight) == if s.has_teacher_weight_grad() {
                Some(scaled::<A>(teacher_weight, per_token::<A>(n)))
            } else {
                None
            }
            &&& rows_in(sum.grad_teacher_weight) == if s.has_teacher_weight_grad() {
                Some(scaled::<A>(teacher_weight, per_token::<A>(1)))
            } else {
                None
            }
            &&& !s.opts.config.quantize_grad_weight ==> {
                &&& mean.grad_weight@ == scaled::<A>(weight, per_token::<A>(n))
                &&& sum.grad_weight@ == scaled::<A>(weight, per_token::<A>(1))
            }
        }),
{
    lemma_same_terms(s, reduced_by(s, Reduction::Mean));
    lemma_same_terms(s, reduced_by(s, Reduction::Sum));
}

/// In fixed point, `sum` is `n` times `mean`, but for the rounding of one over `n` and of the
/// product: off by at most `n / 2^32` times `sum`, and `n` units.
pub open spec fn nearly_times(sum: i64, mean: i64, n: int) -> bool {
    ONE * abs(sum - n * mean) <= n * (abs(sum as int) + ONE)
}

/// Every entry of `sum` is nearly `n` times that of `mean`.
pub open spec fn rows_nearly_times(sum: Seq<Seq<i64>>, mean: Seq<Seq<i64>>, n: int) -> bool {
    &&& sum.len() == mean.len()
    &&& forall|r: int, c: int|
        0 <= r < sum.len() && 0 <= c < sum[r].len() ==> nearly_times(
            #[trigger] sum[r][c],
            mean[r][c],
            n,
        )
}

/// In fixed point one over `n` is rounded down, and a number times that towards zero.
pub proof fn lemma_fixed_mean(x: i64, n: int)
    requires
        1 <= n < 0x8000_0000,
    ensures
        ({
            let k = (ONE as int) / n;
            let m = (abs(x as int) * k) / (ONE as int);
            &&& 0 <= k <= ONE
            &&& 0 <= m <= abs(x as int)
            &&& product(x, per_token::<Fixed>(n)) == if x < 0 {
                -m
            } else {
                m
            }
        }),
{
    let one = <Fixed as Arith>::fint_spec(1);
    let d = <Fixed as Arith>::fint_spec(n);
    assert(one == ONE);
    assert(d == n * ONE);
    let k = (ONE as int) / n;
    assert(per_token::<Fixed>(n) == k && 0 <= k <= ONE) by {
        vstd::arithmetic::div_mod::lemma_div_multiples_vanish_quotient(ONE as int, ONE as int, n);
        assert(one * ONE == ONE * ONE);
        assert(ONE * n == n * ONE) by (nonlinear_arith);
        vstd::arithmetic::div_mod::lemma_div_is_ordered_by_denominator(ONE as int, 1, n);
        vstd::arithmetic::div_mod::lemma_div_pos_is_pos(ONE as int, n);
    }
    let big = abs(x as int);
    let m = (big * k) / (ONE as int);
    let left = (big * k) % (ONE as int);
    vstd::arithmetic::div_mod::lemma_fundamental_div_mod(big * k, ONE as int);
    assert(0 <= m <= big) by (nonlinear_arith)
        requires
            big * k == ONE * m + left,
            0 <= left < ONE,
            0 <= k <= ONE,
            big >= 0,
            ONE > 0,
    ;
    assert(abs(x * k) == big * k && (x * k < 0 ==> x < 0) && (x < 0 && x * k >= 0 ==> big * k == 0))
        by (nonlinear_arith)
        requires
            big == abs(x as int),
            0 <= k,
    ;
}

/// A number times one over one, and times one over `n`.
proof fn lemma_nearly_times(x: i64, n: int)
    requires
        1 <= n < 0x8000_0000,
    ensures
        product(x, per_token::<Fixed>(1)) == x,
        nearly_times(x, product(x, per_token::<Fixed>(n)), n),
{
    fixed_point_is_exact();
    assert(<Fixed as Arith>::dmul_spec(x, <Fixed as Arith>::dint_spec(1)) == x);
    assert(per_token::<Fixed>(1) == <Fixed as Arith>::dint_spec(1));
    lemma_fixed_mean(x, n);
    let k = (ONE as int) / n;
    let rest = (ONE as int) % n;
    let big = abs(x as int);
    let m = (big * k) / (ONE as int);
    let left = (big * k) % (ONE as int);
    vstd::arithmetic::div_mod::lemma_fundamental_div_mod(ONE as int, n);
    vstd::arithmetic::div_mod::lemma_fundamental_div_mod(big * k, ONE as int);
    assert(0 <= ONE * (big - n * m) <= n * (big + ONE)) by (nonlinear_arith)
        requires
            big * k == ONE * m + left,
            0 <= left < ONE,
            ONE == n * k + rest,
            0 <= rest < n,
            n >= 1,
            big >= 0,
    ;
    assert(n * (-m) == -(n * m)) by (nonlinear_arith);
    assert(big - n * m >= 0) by (nonlinear_arith)
        requires
            0 <= ONE * (big - n * m),
            ONE > 0,
    ;
}

/// Every entry of a matrix times one over one, and times one over `n`.
proof fn lemma_rows_nearly_times(x: Seq<Seq<i64>>, n: int)
    requires
        1 <= n < 0x8000_0000,
    ensures
        rows_nearly_times(
            scaled::<Fixed>(x, per_token::<Fixed>(1)),
            scaled::<Fixed>(x, per_token::<Fixed>(n)),
            n,
        ),
{
    let sum = scaled::<Fixed>(x, per_token::<Fixed>(1));
    let mean = scaled::<Fixed>(x, per_token::<Fixed>(n));
    assert forall|r: int, c: int| 0 <= r < sum.len() && 0 <= c < sum[r].len() implies nearly_times(
        #[trigger] sum[r][c],
        mean[r][c],
        n,
    ) by {
        lemma_nearly_times(x[r][c], n);
    }
}

/// The sum is the mean times the number of tokens that count. In fixed point this holds of
/// the loss, of its components and of every gradient, but for the rounding of the mean, for as
/// many tokens as a fixed-point number can count.
pub proof fn sum_is_nearly_the_mean_times_the_tokens(
    s: Setup<Fixed>,
    mean: DistillationLossOutput<i64>,
    sum: DistillationLossOutput<i64>,
)
    requires
        1 <= valid_tokens(s.labels, s.opts.ignore_index, s.bt()) < 0x8000_0000,
        answers(mean, reduced_by(s, Reduction::Mean)),
        answers(sum, reduced_by(s, Reduction::Sum)),
    ensures
        ({
            let n = valid_tokens(s.labels, s.opts.ignore_index, s.bt());
            &&& nearly_times(sum.loss, mean.loss, n)
            &&& nearly_times(sum.student_ce, mean.student_ce, n)
            &&& nearly_times(sum.teacher_ce, mean.teacher_ce, n)
            &&& nearly_times(sum.kl, mean.kl, n)
            &&& rows_nearly_times(sum.grad_student_hidden@, mean.grad_student_hidden@, n)
            &&& !s.opts.config.quantize_grad_weight ==> rows_nearly_times(
                sum.grad_weight@,
                mean.grad_weight@,
                n,
            )
            &&& sum.grad_teacher_hidden is Some == mean.grad_teacher_hidden is Some
            &&& sum.grad_teacher_hidden is Some ==> rows_nearly_times(
                sum.grad_teacher_hidden->0@,
                mean.grad_teacher_hidden->0@,
                n,
            )
            &&& sum.grad_teacher_weight is Some == mean.grad_teacher_weight is Some
            &&& sum.grad_teacher_weight is Some ==> rows_nearly_times(
                sum.grad_teacher_weight->0@,
                mean.grad_teacher_weight->0@,
                n,
            )
        }),
{
    let n = valid_tokens(s.labels, s.opts.ignore_index, s.bt());
    reduction_only_scales(s, mean, sum);
    lemma_nearly_times(s.objective_sum(), n);
    lemma_nearly_times(s.student_nll(s.bt()), n);
    lemma_nearly_times(s.teacher_nll(s.bt()), n);
    lemma_nearly_times(s.kl_total(), n);
    lemma_rows_nearly_times(rows_times::<Fixed>(s.student_grads(), s.weight@, s.h()), n);
    lemma_rows_nearly_times(s.weight_sum(), n);
    lemma_rows_nearly_times(
        rows_times::<Fixed>(s.teacher_grads(), teacher_head(s), s.teacher_width()),
        n,
    );
    lemma_rows_nearly_times(s.teacher_weight_sum(), n);
}

} // verus!
