//! How the two kernels belong together, in fixed point: losses of one row differ as its logits
//! do, a divergence is an expected difference of losses, and the gradient of a divergence is a
//! difference of gradients of losses.

#![allow(unused_imports)]

use vstd::prelude::*;
use crate::arith::Arith;
use crate::fixed::{abs, exponential, logarithm, product, quotient, Fixed, ONE};
use crate::laws::kernels::lemma_same_stretch;
use crate::laws::numbers::fixed_point_is_exact;
use crate::laws::parity::{
    lemma_divergence_is_sum, lemma_log_of_mass, lemma_log_probs_bound, lemma_probs_gap,
    lemma_sum_is_units, lemma_tempered_probs_gap, lemma_weighted_term, lemma_weighted_units,
    within,
};
use crate::laws::slopes::{exps, lemma_exponential_bound, moderate, units};
use crate::laws::smoothing::{plain_losses, smoothed_loss_is_nearly_the_mixture};
use crate::reference::cross_entropy::{ce_grad, nll, nll_slope};
use crate::reference::kl::{divergence, kl_grad_row, kl_row, log_probs, probs};
use crate::reference::softmax::{exp_sum, log_softmax, peak, softmax, widened};
use crate::tiles::stretched;

verus! {

/// The slope of the loss of class `y` at class `j`: a probability, less the share of the
/// smoothing and, at the class itself, what the smoothing leaves.
proof fn lemma_slope(x: Seq<i64>, y: int, alpha: i64, j: int)
    requires
        moderate(x),
        0 <= alpha <= ONE,
        0 <= j < x.len(),
    ensures
        ({
            let v = x.len() as int;
            let m = peak::<Fixed>(x, v);
            let p = softmax::<Fixed>(x, m)[j];
            let eps = quotient(alpha, <Fixed as Arith>::dint_spec(v));
            let kept = if j == y {
                ONE - alpha
            } else {
                0
            };
            &&& 0 <= p <= ONE
            &&& 0 <= eps <= alpha
            &&& 0 <= alpha - v * eps < v
            &&& nll_slope::<Fixed>(x, m, y, alpha, j) == p - eps - kept
        }),
{
    let v = x.len() as int;
    assert(v % 1 == 0);
    let top = lemma_probs_gap(x, 1);
    let m = x[top];
    let p = softmax::<Fixed>(x, m)[j];
    let count = <Fixed as Arith>::dint_spec(v);
    assert(count == v * ONE);
    assert(<Fixed as Arith>::dint_spec(1) == ONE);
    assert(<Fixed as Arith>::dint_spec(0) == 0);
    let eps = quotient(alpha, count);
    let n = alpha * ONE;
    vstd::arithmetic::div_mod::lemma_fundamental_div_mod(n, count as int);
    let q = n / count as int;
    let left = n % count as int;
    assert(0 <= n && 0 <= q <= alpha && 0 <= alpha - v * q < v) by (nonlinear_arith)
        requires
            n == alpha * ONE,
            n == count * q + left,
            0 <= left < count,
            count == v * ONE,
            v >= 1,
            ONE > 0,
            alpha >= 0,
    ;
    assert(eps == q);
}

/// The slopes at class `j` of the losses of the first `k` classes.
proof fn lemma_slopes_of_all(g: Seq<i64>, p: int, j: int, k: int)
    requires
        0 <= j,
        0 <= k <= g.len(),
        forall|c: int|
            0 <= c < g.len() ==> #[trigger] g[c] == p - if c == j {
                ONE as int
            } else {
                0
            },
    ensures
        units(g, k) == k * p - if j < k {
            ONE as int
        } else {
            0
        },
    decreases k,
{
    if k > 0 {
        lemma_slopes_of_all(g, p, j, k - 1);
        assert(g[k - 1] == p - if k - 1 == j {
            ONE as int
        } else {
            0
        });
        assert(k * p == (k - 1) * p + p) by (nonlinear_arith);
    } else {
        assert(0 * p == 0);
    }
}

/// Smoothing mixes gradients as it mixes losses: over `V` classes the slope of the loss of class
/// `y` smoothed by `alpha` is `1 - alpha` times the slope of that loss without smoothing, and
/// `alpha / V` times the sum of the slopes of the losses of all classes. Both sides are
/// multiplied by `V` and by one here, and differ by one unit for each class.
pub proof fn smoothed_slope_is_nearly_the_mixture(x: Seq<i64>, y: int, alpha: i64, j: int)
    requires
        moderate(x),
        0 <= alpha <= ONE,
        0 <= y < x.len(),
        0 <= j < x.len(),
    ensures
        ({
            let v = x.len() as int;
            let m = peak::<Fixed>(x, v);
            let all = Seq::new(x.len(), |c: int| nll_slope::<Fixed>(x, m, c, 0, j));
            let smoothed = nll_slope::<Fixed>(x, m, y, alpha, j);
            0 <= (v * ONE) * smoothed - (v * ((ONE - alpha) * all[y]) + alpha * units(all, v)) < v
                * ONE
        }),
{
    let v = x.len() as int;
    let m = peak::<Fixed>(x, v);
    let all = Seq::new(x.len(), |c: int| nll_slope::<Fixed>(x, m, c, 0, j));
    let smoothed = nll_slope::<Fixed>(x, m, y, alpha, j) as int;
    lemma_slope(x, y, alpha, j);
    lemma_slope(x, y, 0, j);
    let p = softmax::<Fixed>(x, m)[j] as int;
    let eps = quotient(alpha, <Fixed as Arith>::dint_spec(v)) as int;
    assert forall|c: int| 0 <= c < all.len() implies #[trigger] all[c] == p - if c == j {
        ONE as int
    } else {
        0
    } by {
        lemma_slope(x, c, 0, j);
    }
    lemma_slopes_of_all(all, p, j, v);
    let rest = alpha - v * eps;
    let total = units(all, v);
    let plain = all[y] as int;
    let one = ONE as int;
    let a = alpha as int;
    assert(total == v * p - one);
    let w = one - a;
    let kept = if j == y {
        w
    } else {
        0
    };
    let at = if j == y {
        one
    } else {
        0
    };
    assert(plain == p - at && smoothed == p - eps - kept);
    assert(v * (w * (p - at)) == v * (w * p) - v * (w * at)) by (nonlinear_arith);
    assert(v * (w * p) + a * (v * p) == (v * one) * p) by (nonlinear_arith)
        requires
            w == one - a,
    ;
    assert(a * (v * p - one) == a * (v * p) - a * one) by (nonlinear_arith);
    assert(one * (a - v * eps) == a * one - (v * one) * eps) by (nonlinear_arith);
    assert((v * one) * (p - eps - kept) == (v * one) * p - (v * one) * eps - (v * one) * kept)
        by (nonlinear_arith);
    assert(v * (w * one) == (v * one) * w && v * (w * 0) == 0 && (v * one) * 0 == 0)
        by (nonlinear_arith);
    assert(0 <= one * rest < v * one) by (nonlinear_arith)
        requires
            0 <= rest < v,
            one > 0,
    ;
}

/// The gradient pulls the target's logit up and pushes the others down: going against it, that
/// is, lowers the loss.
pub proof fn gradient_favours_the_target(
    x: Seq<i64>,
    y: i64,
    ignore_index: i64,
    scale: i64,
    j: int,
)
    requires
        moderate(x),
        0 <= y < x.len(),
        y != ignore_index,
        scale >= 0,
        0 <= j < x.len(),
    ensures
        j == y ==> ce_grad::<Fixed>(x, y, ignore_index, 0, scale)[j] <= 0,
        j != y ==> ce_grad::<Fixed>(x, y, ignore_index, 0, scale)[j] >= 0,
{
    lemma_slope(x, y as int, 0, j);
    assert(widened::<Fixed>(x) =~= x);
    let m = peak::<Fixed>(x, x.len() as int);
    let slope = nll_slope::<Fixed>(x, m, y as int, 0, j);
    assert(<Fixed as Arith>::fint_spec(0) == 0);
    let n = slope * scale;
    assert((slope >= 0 ==> n >= 0) && (slope <= 0 ==> n <= 0)) by (nonlinear_arith)
        requires
            n == slope * scale,
            scale >= 0,
    ;
    assert(abs(ONE as int) == 0x1_0000_0000);
    assert(abs(n) / 0x1_0000_0000 >= 0);
}

/// Losses of two classes of one row differ as their logits do, the other way round.
pub proof fn losses_differ_as_the_logits(z: Seq<i64>, reach: int, a: int, b: int)
    requires
        within(z, reach),
        0 <= a < z.len(),
        0 <= b < z.len(),
    ensures
        plain_losses(z)[a] - plain_losses(z)[b] == z[b] - z[a],
        plain_losses(z)[a] >= 0,
{
    lemma_plain(z, reach, a);
    lemma_plain(z, reach, b);
}

/// A loss without smoothing is the negative of a log-probability.
proof fn lemma_plain(z: Seq<i64>, reach: int, c: int)
    requires
        within(z, reach),
        0 <= c < z.len(),
    ensures
        ({
            let v = z.len() as int;
            let m = peak::<Fixed>(z, v);
            let d = exp_sum::<Fixed>(z, m, v);
            &&& 0 <= logarithm(d) < 29 * ONE
            &&& plain_losses(z)[c] == m + logarithm(d) - z[c]
            &&& plain_losses(z)[c] == -log_softmax::<Fixed>(z, m)[c]
            &&& z[c] <= m
        }),
{
    let v = z.len() as int;
    assert(moderate(z));
    assert(v % 1 == 0);
    let top = lemma_probs_gap(z, 1);
    let m = z[top];
    let d = exp_sum::<Fixed>(z, m, v);
    assert(d < 0x2000_0000 * 0x1_0000_0000) by (nonlinear_arith)
        requires
            d <= v * ONE,
            v < 0x2000_0000,
            ONE == 0x1_0000_0000,
    ;
    lemma_log_of_mass(d);
    assert(-reach <= z[c] <= reach && -reach <= z[top] <= reach);
    assert(<Fixed as Arith>::dint_spec(0) == 0);
}

/// The gradient of a divergence is the difference of two gradients of losses, those of the
/// student's and of the teacher's logits over the temperature for one and the same class,
/// whichever that is, times the weight and the temperature, over the denominator.
pub proof fn kl_gradient_is_a_difference_of_gradients(
    student: Seq<i64>,
    teacher: Seq<i64>,
    target: i64,
    ignore_index: i64,
    kl_weight: i64,
    temperature: i64,
    grad_denom: i64,
    class: i64,
    j: int,
)
    requires
        student.len() == teacher.len(),
        moderate(stretched::<Fixed>(student, quotient(ONE, temperature))),
        moderate(stretched::<Fixed>(teacher, quotient(ONE, temperature))),
        target != ignore_index,
        class != ignore_index,
        0 <= class < student.len(),
        0 <= j < student.len(),
    ensures
        ({
            let s = stretched::<Fixed>(student, quotient(ONE, temperature));
            let t = stretched::<Fixed>(teacher, quotient(ONE, temperature));
            let slope_s = ce_grad::<Fixed>(s, class, ignore_index, 0, ONE)[j];
            let slope_t = ce_grad::<Fixed>(t, class, ignore_index, 0, ONE)[j];
            kl_grad_row::<Fixed>(
                student,
                teacher,
                target,
                ignore_index,
                kl_weight,
                temperature,
                grad_denom,
            )[j] == product(
                quotient(product(kl_weight, temperature), grad_denom),
                (slope_s - slope_t) as i64,
            )
        }),
{
    let inv_t = quotient(ONE, temperature);
    let s = stretched::<Fixed>(student, inv_t);
    let t = stretched::<Fixed>(teacher, inv_t);
    fixed_point_is_exact();
    assert(<Fixed as Arith>::dint_spec(1) == ONE);
    assert(<Fixed as Arith>::dint_spec(0) == 0);
    lemma_same_stretch::<Fixed>(student, inv_t);
    lemma_same_stretch::<Fixed>(teacher, inv_t);
    assert(widened::<Fixed>(s) =~= s && widened::<Fixed>(t) =~= t);
    lemma_slope(s, class as int, 0, j);
    lemma_slope(t, class as int, 0, j);
    let ms = peak::<Fixed>(s, s.len() as int);
    let mt = peak::<Fixed>(t, t.len() as int);
    let a = nll_slope::<Fixed>(s, ms, class as int, 0, j);
    let b = nll_slope::<Fixed>(t, mt, class as int, 0, j);
    let one = <Fixed as Arith>::dint_spec(1);
    assert(<Fixed as Arith>::dmul_spec(a, one) == a);
    assert(<Fixed as Arith>::dmul_spec(b, one) == b);
}

/// A divergence is what the student's loss exceeds the teacher's own by, on a class drawn from
/// the teacher: each class counts with its probability under the teacher.
pub proof fn divergence_is_the_expected_extra_loss(
    student: Seq<i64>,
    teacher: Seq<i64>,
    inv_t: i64,
    reach: int,
)
    requires
        student.len() == teacher.len(),
        within(stretched::<Fixed>(student, inv_t), reach),
        within(stretched::<Fixed>(teacher, inv_t), reach),
    ensures
        ({
            let of_student = plain_losses(stretched::<Fixed>(student, inv_t));
            let of_teacher = plain_losses(stretched::<Fixed>(teacher, inv_t));
            kl_row::<Fixed>(student, teacher, inv_t) == units(
                Seq::new(
                    student.len(),
                    |c: int|
                        product(
                            probs::<Fixed>(teacher, inv_t)[c],
                            (of_student[c] - of_teacher[c]) as i64,
                        ),
                ),
                student.len() as int,
            )
        }),
{
    fixed_point_is_exact();
    let v = student.len() as int;
    let s = stretched::<Fixed>(student, inv_t);
    let t = stretched::<Fixed>(teacher, inv_t);
    assert(v % 1 == 0);
    lemma_log_probs_bound(student, inv_t, reach, 1);
    lemma_log_probs_bound(teacher, inv_t, reach, 1);
    assert(moderate(t));
    lemma_tempered_probs_gap(teacher, inv_t, 1);
    lemma_same_stretch::<Fixed>(student, inv_t);
    lemma_same_stretch::<Fixed>(teacher, inv_t);
    assert(widened::<Fixed>(s) =~= s && widened::<Fixed>(t) =~= t);
    let most = 2 * reach + 29 * ONE;
    let p = probs::<Fixed>(teacher, inv_t);
    let lt = log_probs::<Fixed>(teacher, inv_t);
    let ls = log_probs::<Fixed>(student, inv_t);
    let of_student = plain_losses(s);
    let of_teacher = plain_losses(t);
    let terms = Seq::new(
        student.len(),
        |c: int| product(p[c], (of_student[c] - of_teacher[c]) as i64),
    );
    assert forall|c: int| 0 <= c < v implies {
        &&& #[trigger] terms[c] == product(p[c], lt[c].wrapping_sub(ls[c]))
        &&& ONE * abs(terms[c] as int) <= most * p[c]
    } by {
        lemma_plain(s, reach, c);
        lemma_plain(t, reach, c);
        assert(-most < lt[c] <= 0 && -most < ls[c] <= 0);
        assert(0 <= p[c] <= ONE);
        let l = lt[c].wrapping_sub(ls[c]);
        assert(l == lt[c] - ls[c]);
        assert(l == of_student[c] - of_teacher[c]);
        lemma_weighted_term(p[c], l, most);
    }
    assert forall|i: int| 0 <= i <= v implies abs(#[trigger] units(terms, i)) <= most by {
        lemma_weighted_units(terms, p, most, i);
    }
    lemma_sum_is_units(terms, most, v);
    lemma_divergence_is_sum(terms, p, lt, ls, v);
}

/// A row of equal logits costs the logarithm of the number of classes, whichever the class.
pub proof fn equal_logits_cost_the_logarithm_of_the_classes(z: Seq<i64>, reach: int, c: int)
    requires
        within(z, reach),
        forall|i: int| 0 <= i < z.len() ==> #[trigger] z[i] == z[0],
        0 <= c < z.len(),
    ensures
        plain_losses(z)[c] == logarithm((z.len() * ONE) as i64),
{
    let v = z.len() as int;
    assert(moderate(z));
    assert(v % 1 == 0);
    let top = lemma_probs_gap(z, 1);
    let m = z[top];
    assert(z[top] == z[0] && z[c] == z[0]);
    lemma_exponential_bound(0);
    let e = exps(z, m);
    assert forall|i: int| 0 <= i < e.len() implies #[trigger] e[i] == ONE by {
        assert(z[i] == z[0]);
    }
    lemma_same_units(e, ONE as int, v);
    lemma_plain(z, reach, c);
}

/// The loss of a class is the logarithm of what the row weighs against it: the logarithm of the
/// sum, over all classes, of the exponentials of how far their logits are from the largest, and
/// how far that is from the logit of the class.
pub proof fn loss_weighs_a_class_against_the_row(z: Seq<i64>, reach: int, top: int, c: int)
    requires
        within(z, reach),
        0 <= top < z.len(),
        forall|i: int| 0 <= i < z.len() ==> #[trigger] z[i] <= z[top],
        0 <= c < z.len(),
    ensures
        plain_losses(z)[c] == logarithm(
            units(
                Seq::new(z.len(), |i: int| exponential((z[i] - z[top]) as i64)),
                z.len() as int,
            ) as i64,
        ) + (z[top] - z[c]),
{
    let v = z.len() as int;
    assert(moderate(z));
    assert(v % 1 == 0);
    let other = lemma_probs_gap(z, 1);
    assert(z[top] <= z[other] && z[other] <= z[top]);
    lemma_plain(z, reach, c);
    assert(exps(z, z[top]) =~= Seq::new(
        z.len(),
        |i: int| exponential((z[i] - z[top]) as i64),
    ));
}

/// The slope of a loss at another class is that class's share of the same sum: its exponential,
/// of how far its logit is from the largest, over the sum of all. So the shares of two classes
/// with equal logits are equal, and slopes go with the losses, class by class.
pub proof fn slopes_are_shares_of_the_row(z: Seq<i64>, top: int, y: int, j: int)
    requires
        moderate(z),
        0 <= top < z.len(),
        forall|i: int| 0 <= i < z.len() ==> #[trigger] z[i] <= z[top],
        0 <= y < z.len(),
        0 <= j < z.len(),
    ensures
        ({
            let exps = Seq::new(z.len(), |i: int| exponential((z[i] - z[top]) as i64));
            let all = units(exps, z.len() as int);
            let slope = nll_slope::<Fixed>(z, peak::<Fixed>(z, z.len() as int), y, 0, j);
            &&& ONE <= all <= z.len() * ONE
            &&& slope == (exps[j] * ONE) / all - if j == y {
                ONE as int
            } else {
                0
            }
        }),
{
    let v = z.len() as int;
    assert(v % 1 == 0);
    let other = lemma_probs_gap(z, 1);
    assert(z[top] <= z[other] && z[other] <= z[top]);
    let m = z[top];
    let e = exps(z, m);
    assert(e =~= Seq::new(z.len(), |i: int| exponential((z[i] - z[top]) as i64)));
    let d = exp_sum::<Fixed>(z, m, v);
    lemma_slope(z, y, 0, j);
    lemma_exponential_bound((z[j] - m) as i64);
    let n = e[j] * ONE;
    assert(n >= 0) by (nonlinear_arith)
        requires
            n == e[j] * ONE,
            e[j] >= 0,
            ONE > 0,
    ;
    let q = n / (d as int);
    vstd::arithmetic::div_mod::lemma_fundamental_div_mod(n, d as int);
    assert(0 <= q <= ONE) by (nonlinear_arith)
        requires
            n == e[j] * ONE,
            n == d * q + n % (d as int),
            0 <= n % (d as int) < d,
            0 <= e[j] <= ONE <= d,
    ;
    assert(softmax::<Fixed>(z, m)[j] == q);
    let eps = quotient(0, <Fixed as Arith>::dint_spec(v)) as int;
    assert(eps == 0);
}

/// With smoothing, too, a row of equal logits costs the logarithm of the number of classes,
/// whatever the smoothing, but for its rounding: two units, and `V` times the logits over one.
pub proof fn smoothing_does_not_change_the_cost_of_equal_logits(
    z: Seq<i64>,
    reach: int,
    alpha: i64,
    y: int,
)
    requires
        within(z, reach),
        z.len() * reach <= 0x2000_0000_0000_0000,
        forall|i: int| 0 <= i < z.len() ==> #[trigger] z[i] == z[0],
        0 <= alpha <= ONE,
        0 <= y < z.len(),
    ensures
        ({
            let v = z.len() as int;
            let smoothed = nll::<Fixed>(z, peak::<Fixed>(z, v), y, alpha);
            ONE * abs(smoothed - logarithm((v * ONE) as i64)) <= 2 * ONE + v * reach
        }),
{
    let v = z.len() as int;
    let plain = plain_losses(z);
    let l = logarithm((v * ONE) as i64) as int;
    let smoothed = nll::<Fixed>(z, peak::<Fixed>(z, v), y, alpha) as int;
    smoothed_loss_is_nearly_the_mixture(z, y, alpha, reach);
    assert forall|c: int| 0 <= c < plain.len() implies #[trigger] plain[c] == l by {
        equal_logits_cost_the_logarithm_of_the_classes(z, reach, c);
    }
    lemma_same_units(plain, l, v);
    assert(plain[y] == l);
    let one = ONE as int;
    let a = alpha as int;
    assert(v * ((one - a) * l) + a * (v * l) == (v * one) * l) by (nonlinear_arith);
    assert((v * one) * smoothed - (v * one) * l == v * (one * (smoothed - l))) by (nonlinear_arith);
    let d = one * (smoothed - l);
    let e = 2 * one + v * reach;
    assert(abs(d) <= e) by (nonlinear_arith)
        requires
            abs(v * d) <= v * e,
            v > 0,
    ;
    assert(abs(d) == one * abs(smoothed - l)) by (nonlinear_arith)
        requires
            d == one * (smoothed - l),
            one > 0,
    ;
}

proof fn lemma_same_units(e: Seq<i64>, x: int, k: int)
    requires
        0 <= k <= e.len(),
        forall|i: int| 0 <= i < e.len() ==> #[trigger] e[i] == x,
    ensures
        units(e, k) == k * x,
    decreases k,
{
    if k > 0 {
        lemma_same_units(e, x, k - 1);
        assert(e[k - 1] == x);
        assert(k * x == (k - 1) * x + x) by (nonlinear_arith);
    } else {
        assert(0 * x == 0);
    }
}

} // verus!
