//! Label smoothing, and the mean in the KL gradient, in fixed point.

#![allow(unused_imports)]

use vstd::prelude::*;
use crate::arith::Arith;
use crate::fixed::{abs, logarithm, product, quotient, Fixed, ONE};
use crate::laws::numbers::fixed_point_is_exact;
use crate::laws::parity::{lemma_log_of_mass, lemma_tempered_probs_gap, within};
use crate::laws::slopes::{
    exps, lemma_exp_units, lemma_exponential_bound, lemma_peak_is_largest, moderate, units,
};
use crate::reference::cross_entropy::nll;
use crate::reference::kl::{kl_grad_row, probs};
use crate::reference::softmax::{exp_sum, peak, total};
use crate::tiles::stretched;

verus! {

/// The losses of the classes of a row, without smoothing.
pub open spec fn plain_losses(z: Seq<i64>) -> Seq<i64> {
    Seq::new(z.len(), |c: int| nll::<Fixed>(z, peak::<Fixed>(z, z.len() as int), c, 0))
}

/// A product with a factor between zero and one is off by less than a unit.
proof fn lemma_share_product(a: i64, b: i64)
    requires
        0 <= a <= ONE,
    ensures
        abs(ONE * product(a, b) - a * b) < ONE,
        abs(product(a, b) as int) <= abs(b as int),
{
    let n = a * b;
    assert(abs(n) <= abs(b as int) * 0x1_0000_0000) by (nonlinear_arith)
        requires
            n == a * b,
            0 <= a <= 0x1_0000_0000,
    ;
    assert(abs(ONE as int) == 0x1_0000_0000);
    let q = abs(n) / 0x1_0000_0000;
    assert(0x1_0000_0000 * q <= abs(n) < 0x1_0000_0000 * q + 0x1_0000_0000);
}

/// Sums of entries within `reach` do not wrap around.
proof fn lemma_total_is_units(z: Seq<i64>, reach: int, k: int)
    requires
        0 <= k <= z.len(),
        0 <= reach,
        z.len() * reach <= 0x2000_0000_0000_0000,
        forall|i: int| 0 <= i < z.len() ==> -reach <= #[trigger] z[i] <= reach,
    ensures
        total::<Fixed>(z, k) == units(z, k),
        abs(units(z, k)) <= k * reach,
    decreases k,
{
    if k > 0 {
        lemma_total_is_units(z, reach, k - 1);
        assert(k * reach == (k - 1) * reach + reach && (k - 1) * reach <= k * reach && k * reach
            <= z.len() * reach) by (nonlinear_arith)
            requires
                k <= z.len(),
                0 <= reach,
        ;
    } else {
        assert(0 * reach == 0);
    }
}

/// The losses add up to the logarithm of the mass for each class, less the logits.
proof fn lemma_losses_add_up(l: Seq<i64>, z: Seq<i64>, lse: int, k: int)
    requires
        0 <= k <= z.len(),
        l.len() == z.len(),
        forall|i: int| 0 <= i < z.len() ==> #[trigger] l[i] == lse - z[i],
    ensures
        units(l, k) == k * lse - units(z, k),
    decreases k,
{
    if k > 0 {
        lemma_losses_add_up(l, z, lse, k - 1);
        assert(l[k - 1] == lse - z[k - 1]);
        assert(k * lse == (k - 1) * lse + lse) by (nonlinear_arith);
    } else {
        assert(0 * lse == 0);
    }
}

/// Smoothing mixes losses: over `V` classes, the loss of class `y` smoothed by `alpha` is
/// `1 - alpha` times the loss of that class and `alpha / V` times the sum of the losses of all
/// classes. Both sides are multiplied by `V` and by one here, and differ by two units, and one
/// unit for the rounding of `alpha / V` times the sum of the logits, for each class.
pub proof fn smoothed_loss_is_nearly_the_mixture(z: Seq<i64>, y: int, alpha: i64, reach: int)
    requires
        within(z, reach),
        0 <= y < z.len(),
        0 <= alpha <= ONE,
        z.len() * reach <= 0x2000_0000_0000_0000,
    ensures
        ({
            let v = z.len() as int;
            let m = peak::<Fixed>(z, v);
            let smoothed = nll::<Fixed>(z, m, y, alpha);
            let plain = plain_losses(z);
            abs(
                (v * ONE) * smoothed - (v * ((ONE - alpha) * plain[y]) + alpha * units(plain, v)),
            ) <= v * (2 * ONE + v * reach)
        }),
{
    let v = z.len() as int;
    let m = peak::<Fixed>(z, v);
    let plain = plain_losses(z);
    assert(moderate(z));
    let top = lemma_peak_is_largest(z, v);
    lemma_exp_units(z, m, v);
    lemma_exponential_bound(0);
    let d = exp_sum::<Fixed>(z, m, v);
    assert(exps(z, m)[top] == ONE);
    assert(d < 0x2000_0000 * 0x1_0000_0000) by (nonlinear_arith)
        requires
            d <= v * ONE,
            v < 0x2000_0000,
            ONE == 0x1_0000_0000,
    ;
    lemma_log_of_mass(d);
    let lse = m + logarithm(d);
    assert forall|c: int| 0 <= c < v implies #[trigger] plain[c] == lse - z[c] by {
        assert(-reach <= z[c] <= reach);
        assert(-reach <= z[top] <= reach);
    }
    lemma_losses_add_up(plain, z, lse, v);
    lemma_total_is_units(z, reach, v);
    let t = total::<Fixed>(z, v);
    let zy = z[y];
    assert(-reach <= zy <= reach && -reach <= m <= reach);
    assert(plain[y] == lse - zy);
    let smoothed = nll::<Fixed>(z, m, y, alpha);
    let zero = <Fixed as Arith>::dint_spec(0);
    assert(zero == 0);
    assert(<Fixed as Arith>::dint_spec(1) == ONE);
    let count = <Fixed as Arith>::dint_spec(v);
    assert(count == v * ONE);
    let kept = product((ONE - alpha) as i64, zy);
    let eps = quotient(alpha, count);
    let rest = alpha - v * eps;
    assert(0 <= eps <= alpha && 0 <= rest < v) by {
        let n = alpha * ONE;
        vstd::arithmetic::div_mod::lemma_fundamental_div_mod(n, count as int);
        let q = n / count as int;
        let left = n % count as int;
        assert(0 <= n && 0 <= q <= alpha && 0 <= alpha - v * q < v) by (nonlinear_arith)
            requires
                n == alpha * ONE,
                n == count * q + left,
                0 <= left < count,
                count == v * ONE,
                v >= 1,
                ONE > 0,
                alpha >= 0,
        ;
    }
    lemma_share_product((ONE - alpha) as i64, zy);
    lemma_share_product(eps, t);
    let spread = product(eps, t);
    assert(smoothed == lse - kept - spread) by {
        if alpha == 0 {
            assert(eps == 0);
            fixed_point_is_exact();
            assert(<Fixed as Arith>::dmul_spec(<Fixed as Arith>::dint_spec(0), t)
                == <Fixed as Arith>::dint_spec(0));
            let one = <Fixed as Arith>::dint_spec(1);
            assert(<Fixed as Arith>::dmul_spec(one, zy) == zy);
        } else {
            assert(abs(t as int) <= 0x2000_0000_0000_0000);
            assert(abs(lse) <= reach + 29 * ONE);
        }
    }
    let e1 = ONE * kept - (ONE - alpha) * zy;
    let e2 = ONE * spread - eps * t;
    // Every term over the common denominator, with what rounding left over.
    assert((v * ONE) * smoothed == v * (ONE * lse) - v * (ONE * kept) - v * (ONE * spread))
        by (nonlinear_arith)
        requires
            smoothed == lse - kept - spread,
    ;
    assert(v * (ONE * kept) == v * ((ONE - alpha) * zy) + v * e1) by (nonlinear_arith)
        requires
            e1 == ONE * kept - (ONE - alpha) * zy,
    ;
    assert(v * (ONE * spread) == alpha * t - rest * t + v * e2) by (nonlinear_arith)
        requires
            e2 == ONE * spread - eps * t,
            rest == alpha - v * eps,
    ;
    let py = plain[y] as int;
    assert(v * ((ONE - alpha) * py) + alpha * (v * lse - t) == v * (ONE * lse) - v * ((ONE - alpha)
        * zy) - alpha * t) by (nonlinear_arith)
        requires
            py == lse - zy,
    ;
    assert(abs(v * e1) <= v * ONE && abs(v * e2) <= v * ONE) by (nonlinear_arith)
        requires
            abs(e1) < ONE,
            abs(e2) < ONE,
            v >= 1,
    ;
    assert(abs(rest * t) <= v * (v * reach)) by (nonlinear_arith)
        requires
            0 <= rest < v,
            abs(t as int) <= v * reach,
            v >= 1,
    ;
    assert(v * (2 * ONE + v * reach) == v * ONE + v * ONE + v * (v * reach)) by (nonlinear_arith);
}

/// A number over `n`, rounded towards zero.
proof fn lemma_over_count(s: i64, n: int)
    requires
        1 <= n < 0x8000_0000,
    ensures
        ({
            let q = quotient(s, <Fixed as Arith>::fint_spec(n));
            &&& <Fixed as Arith>::fint_spec(n) == n * ONE
            &&& abs(s - n * q) < n
            &&& abs(q as int) <= abs(s as int)
            &&& s >= 0 ==> q >= 0
            &&& s <= 0 ==> q <= 0
        }),
{
    let count = <Fixed as Arith>::fint_spec(n);
    assert(n * ONE < 0x8000_0000 * 0x1_0000_0000) by (nonlinear_arith)
        requires
            n < 0x8000_0000,
            ONE == 0x1_0000_0000,
    ;
    assert(n * ONE >= ONE) by (nonlinear_arith)
        requires
            n >= 1,
            ONE > 0,
    ;
    assert(count == n * ONE);
    let m = abs(s as int);
    let top = s * ONE;
    assert(abs(top) == m * ONE && (s >= 0 ==> top >= 0) && (s < 0 ==> top < 0)) by (nonlinear_arith)
        requires
            top == s * ONE,
            m == abs(s as int),
            ONE > 0,
    ;
    let q = (m * ONE) / (n * ONE);
    vstd::arithmetic::div_mod::lemma_fundamental_div_mod(m * ONE, n * ONE);
    let left = (m * ONE) % (n * ONE);
    assert(0 <= q <= m && 0 <= m - n * q < n) by (nonlinear_arith)
        requires
            m * ONE == (n * ONE) * q + left,
            0 <= left < n * ONE,
            n >= 1,
            m >= 0,
            ONE > 0,
    ;
    assert(n * (-q) == -(n * q)) by (nonlinear_arith);
    assert(quotient(s, count) == if s >= 0 {
        q
    } else {
        -q
    });
}

/// The KL gradient for the mean over `n` tokens, times `n`, is that for one token, but for two
/// units for each of the `n`; and it is never the larger of the two.
pub proof fn kl_gradient_is_divided_by_the_tokens(
    student: Seq<i64>,
    teacher: Seq<i64>,
    target: i64,
    ignore_index: i64,
    kl_weight: i64,
    temperature: i64,
    n: int,
    j: int,
)
    requires
        student.len() == teacher.len(),
        moderate(stretched::<Fixed>(student, quotient(ONE, temperature))),
        moderate(stretched::<Fixed>(teacher, quotient(ONE, temperature))),
        1 <= n < 0x8000_0000,
        0 <= j < student.len(),
    ensures
        ({
            let whole = kl_grad_row::<Fixed>(
                student,
                teacher,
                target,
                ignore_index,
                kl_weight,
                temperature,
                <Fixed as Arith>::fint_spec(1),
            )[j];
            let mean = kl_grad_row::<Fixed>(
                student,
                teacher,
                target,
                ignore_index,
                kl_weight,
                temperature,
                <Fixed as Arith>::fint_spec(n),
            )[j];
            &&& abs(n * mean - whole) <= 2 * n
            &&& abs(mean as int) <= abs(whole as int)
        }),
{
    if target == ignore_index {
        let zero = <Fixed as Arith>::fint_spec(0);
        assert(zero == 0);
        assert(n * zero == 0) by (nonlinear_arith)
            requires
                zero == 0,
        ;
    } else {
        let inv_t = quotient(ONE, temperature);
        assert(<Fixed as Arith>::dint_spec(1) == ONE);
        assert(student.len() as int % 1 == 0);
        lemma_tempered_probs_gap(student, inv_t, 1);
        lemma_tempered_probs_gap(teacher, inv_t, 1);
        let ps = probs::<Fixed>(student, inv_t)[j];
        let pt = probs::<Fixed>(teacher, inv_t)[j];
        assert(0 <= ps <= ONE && 0 <= pt <= ONE);
        let d = (ps - pt) as i64;
        let s = product(kl_weight, temperature);
        let s1 = quotient(s, <Fixed as Arith>::fint_spec(1));
        let sn = quotient(s, <Fixed as Arith>::fint_spec(n));
        lemma_over_count(s, 1);
        lemma_over_count(s, n);
        assert(s1 == s);
        let whole = product(s1, d);
        let mean = product(sn, d);
        lemma_signed_share(s, d);
        lemma_signed_share(sn, d);
        lemma_no_larger(sn, s, d);
        let e1 = ONE * whole - s * d;
        let en = ONE * mean - sn * d;
        let rest = s - n * sn;
        assert(abs(ONE * (n * mean - whole)) <= n * ONE + (n - 1) * ONE + ONE) by {
            assert(ONE * (n * mean - whole) == n * en - rest * d - e1) by (nonlinear_arith)
                requires
                    e1 == ONE * whole - s * d,
                    en == ONE * mean - sn * d,
                    rest == s - n * sn,
            ;
            assert(abs(n * en) <= n * ONE) by (nonlinear_arith)
                requires
                    abs(en) <= ONE,
                    n >= 1,
            ;
            assert(abs(rest * d) <= (n - 1) * ONE) by (nonlinear_arith)
                requires
                    abs(rest) <= n - 1,
                    abs(d as int) <= ONE,
            ;
        }
        let gap = n * mean - whole;
        assert(abs(gap) <= 2 * n) by (nonlinear_arith)
            requires
                abs(ONE * gap) <= n * ONE + (n - 1) * ONE + ONE,
                ONE > 0,
        ;
    }
}

/// A product with a factor of at most one in magnitude is off by at most a unit.
proof fn lemma_signed_share(a: i64, b: i64)
    requires
        abs(b as int) <= ONE,
    ensures
        abs(ONE * product(a, b) - a * b) <= ONE,
{
    let n = a * b;
    assert(abs(n) <= abs(a as int) * 0x1_0000_0000) by (nonlinear_arith)
        requires
            n == a * b,
            abs(b as int) <= 0x1_0000_0000,
    ;
    assert(abs(ONE as int) == 0x1_0000_0000);
    let q = abs(n) / 0x1_0000_0000;
    assert(0x1_0000_0000 * q <= abs(n) < 0x1_0000_0000 * q + 0x1_0000_0000);
    assert(q <= 0x8000_0000_0000_0000);
}

/// A smaller factor of the same sign gives no larger a product.
proof fn lemma_no_larger(a: i64, b: i64, d: i64)
    requires
        abs(a as int) <= abs(b as int),
        b >= 0 ==> a >= 0,
        b <= 0 ==> a <= 0,
    ensures
        abs(product(a, d) as int) <= abs(product(b, d) as int),
{
    let x = a * d;
    let y = b * d;
    assert(abs(x) <= abs(y) && (y > 0 ==> x >= 0) && (y < 0 ==> x <= 0) && (y == 0 ==> x == 0))
        by (nonlinear_arith)
        requires
            x == a * d,
            y == b * d,
            abs(a as int) <= abs(b as int),
            b >= 0 ==> a >= 0,
            b <= 0 ==> a <= 0,
    ;
    assert(abs(ONE as int) == 0x1_0000_0000);
    assert(abs(x) / 0x1_0000_0000 <= abs(y) / 0x1_0000_0000);
}

} // verus!
