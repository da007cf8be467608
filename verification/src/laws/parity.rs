//! How far the tiled kernels are from the reference, in fixed point: the reference divides by
//! the sum of the exponentials and the kernels multiply by its inverse, which is rounded once
//! more.

#![allow(unused_imports)]

use vstd::prelude::*;
use vstd::arithmetic::logarithm::log;
use vstd::arithmetic::power2::pow2;
use crate::arith::Arith;
use crate::fixed::{
    abs, exponential, logarithm, product, quotient, toward_zero, Fixed, LN_2, ONE,
};
use crate::laws::kernels::{
    lemma_row_reduces, lemma_same_stretch, tiles_find_the_softmax_of_the_reference,
};
use crate::laws::numbers::fixed_point_is_exact;
use crate::laws::slopes::{
    exps, lemma_exp_units, lemma_exponential_bound, lemma_peak_is_largest, lemma_share_units,
    moderate, shares, units,
};
use crate::reference::cross_entropy::{ce_grad, nll_slope};
use crate::reference::kl::{
    at_temperature, divergence, kl_grad_row, kl_grad_scale, kl_row, log_probs, probs,
};
use crate::reference::softmax::{exp_sum, peak, softmax, widened};
use crate::resolver::lemma_log2_bounds;
use crate::tiles::{
    ce_tile_grad, centered, divides, kl_tile_grad, kl_tile_loss, span_sum, stretched,
    tile_log_probs, tile_probs,
};

verus! {

/// An exponential over a sum, and the exponential times the inverse of the sum.
proof fn lemma_two_shares(e: i64, d: i64)
    requires
        0 <= e <= ONE,
        d >= ONE,
    ensures
        0 <= product(e, quotient(ONE, d)) <= quotient(e, d) <= ONE,
        quotient(e, d) <= product(e, quotient(ONE, d)) + 1,
{
    let one = ONE as int;
    let x = e as int;
    let s = d as int;
    let p = (x * one) / s;
    let inv = (one * one) / s;
    let q = (x * inv) / one;
    vstd::arithmetic::div_mod::lemma_fundamental_div_mod(x * one, s);
    vstd::arithmetic::div_mod::lemma_fundamental_div_mod(one * one, s);
    vstd::arithmetic::div_mod::lemma_fundamental_div_mod(x * inv, one);
    assert(0 <= x * one && 0 <= one * one) by (nonlinear_arith)
        requires
            x >= 0,
            one >= 0,
    ;
    assert(0 <= p <= one) by (nonlinear_arith)
        requires
            x * one == s * p + (x * one) % s,
            0 <= (x * one) % s < s,
            0 <= x * one,
            x <= one <= s,
            one > 0,
    ;
    assert(0 <= inv <= one) by (nonlinear_arith)
        requires
            one * one == s * inv + (one * one) % s,
            0 <= (one * one) % s < s,
            one <= s,
            one > 0,
    ;
    assert(0 <= x * inv) by (nonlinear_arith)
        requires
            x >= 0,
            inv >= 0,
    ;
    assert(quotient(e, d) == p);
    assert(quotient(ONE, d) == inv);
    // Three divisions, each with what it leaves over, over the common denominator.
    let low = s * p;
    let high = s * inv;
    assert(low <= x * one < low + s);
    assert(high <= one * one < high + s);
    assert(q * one <= x * inv < q * one + one) by (nonlinear_arith)
        requires
            x * inv == one * q + (x * inv) % one,
            0 <= (x * inv) % one < one,
    ;
    assert((q * one) * s <= (x * inv) * s) by (nonlinear_arith)
        requires
            q * one <= x * inv,
            s > 0,
    ;
    assert((x * inv) * s <= x * (one * one)) by (nonlinear_arith)
        requires
            s * inv <= one * one,
            x >= 0,
    ;
    assert(x * (one * one) < (low + s) * one) by (nonlinear_arith)
        requires
            x * one < low + s,
            one > 0,
    ;
    assert((low + s) * one == ((p + 1) * one) * s && (q * one) * s == q * (one * s)
        && ((p + 1) * one) * s == (p + 1) * (one * s)) by (nonlinear_arith)
        requires
            low == s * p,
    ;
    assert(q < p + 1) by (nonlinear_arith)
        requires
            q * (one * s) < (p + 1) * (one * s),
            one > 0,
            s > 0,
    ;
    assert(low * one <= x * (one * one)) by (nonlinear_arith)
        requires
            low <= x * one,
            one > 0,
    ;
    assert(x * (one * one) <= x * (high + s)) by (nonlinear_arith)
        requires
            one * one < high + s,
            x >= 0,
    ;
    assert(x * (high + s) == (x * inv) * s + x * s) by (nonlinear_arith)
        requires
            high == s * inv,
    ;
    assert((x * inv) * s < (q * one + one) * s && x * s <= one * s) by (nonlinear_arith)
        requires
            x * inv < q * one + one,
            x <= one,
            s > 0,
    ;
    assert((q * one + one) * s + one * s == (q + 2) * (one * s) && low * one == p * (one * s))
        by (nonlinear_arith)
        requires
            low == s * p,
    ;
    assert(p < q + 2) by (nonlinear_arith)
        requires
            p * (one * s) < (q + 2) * (one * s),
            one > 0,
            s > 0,
    ;
    assert(0 <= q) by (nonlinear_arith)
        requires
            0 <= x * inv < q * one + one,
            one > 0,
    ;
    assert(product(e, quotient(ONE, d)) == q);
}

/// Numbers that differ by at most `gap` units, each times `w`.
proof fn lemma_product_gap(a: i64, b: i64, w: i64, gap: int)
    requires
        abs(a - b) <= gap,
    ensures
        abs(product(a, w) - product(b, w)) <= (gap * abs(w as int)) / ONE as int + 1,
{
    let n = a * w;
    let k = b * w;
    let wide = gap * abs(w as int);
    assert(abs(n - k) <= wide) by (nonlinear_arith)
        requires
            n == a * w,
            k == b * w,
            abs(a - b) <= gap,
            wide == gap * abs(w as int),
    ;
    assert(abs(ONE as int) == 0x1_0000_0000);
    let x = toward_zero(n, ONE as int);
    let y = toward_zero(k, ONE as int);
    assert(abs(x - y) <= wide / 0x1_0000_0000 + 1);
}

/// The probabilities of a row of moderate logits, found in both ways: those of the kernels are
/// below those of the reference, by at most a unit.
pub proof fn lemma_probs_gap(z: Seq<i64>, block: usize) -> (top: int)
    requires
        moderate(z),
        divides(block, z.len() as int),
    ensures
        0 <= top < z.len(),
        ({
            let n = z.len() as int;
            let m = z[top];
            let d = exp_sum::<Fixed>(z, m, n);
            let p = softmax::<Fixed>(z, m);
            let q = tile_probs::<Fixed>(centered::<Fixed>(z, block as int), block as int);
            &&& peak::<Fixed>(z, n) == m
            &&& forall|i: int| 0 <= i < n ==> #[trigger] z[i] <= m
            &&& ONE <= d <= n * ONE
            &&& d == units(exps(z, m), n)
            &&& p == shares(exps(z, m), d)
            &&& widened::<Fixed>(z) == z
            &&& forall|j: int|
                #![trigger p[j]]
                #![trigger q[j]]
                0 <= j < n ==> 0 <= q[j] <= p[j] <= ONE && p[j] <= q[j] + 1
        }),
{
    fixed_point_is_exact();
    let n = z.len() as int;
    assert(widened::<Fixed>(z) =~= z);
    let top = lemma_peak_is_largest(z, n);
    let m = z[top];
    lemma_exp_units(z, m, n);
    lemma_exponential_bound(0);
    let e = exps(z, m);
    let d = exp_sum::<Fixed>(z, m, n);
    let p = softmax::<Fixed>(z, m);
    let q = tile_probs::<Fixed>(centered::<Fixed>(z, block as int), block as int);
    assert(e[top] == ONE);
    assert(d >= ONE);
    assert forall|j: int| 0 <= j < n implies #[trigger] e[j] == exponential(
        <Fixed as Arith>::dsub_spec(z[j], m),
    ) by {
        assert(z[j] <= m);
    }
    assert forall|j: int| 0 <= j < n implies #[trigger] p[j] == shares(e, d)[j] by {
        assert(e[j] == exponential(<Fixed as Arith>::dsub_spec(z[j], m)));
    }
    assert(p =~= shares(e, d));
    tiles_find_the_softmax_of_the_reference::<Fixed>(z, block);
    assert(<Fixed as Arith>::dint_spec(1) == ONE);
    assert forall|j: int|
        #![trigger p[j]]
        #![trigger q[j]]
        0 <= j < n implies 0 <= q[j] <= p[j] <= ONE && p[j] <= q[j] + 1 by {
        assert(z[j] <= m);
        lemma_exponential_bound((z[j] - m) as i64);
        assert(e[j] == exponential(<Fixed as Arith>::dsub_spec(z[j], m)));
        lemma_two_shares(e[j], d);
        assert(<Fixed as Arith>::widen_spec(q[j]) == product(e[j], quotient(ONE, d)));
    }
    top
}

/// The cross-entropy gradient that the tiled kernel finds for a row is that of the reference,
/// but for one unit times the weight of the row and one for rounding, in fixed point and on
/// every row of moderate logits. On an ignored row, and under a weight of zero, it is the same.
pub proof fn tiled_cross_entropy_gradient_is_near_the_reference(
    x: Seq<i64>,
    y: i64,
    ignore_index: i64,
    label_smoothing: i64,
    scale: i64,
    block: usize,
    j: int,
)
    requires
        moderate(x),
        divides(block, x.len() as int),
        y == ignore_index || 0 <= y < x.len(),
        0 <= label_smoothing <= ONE,
        0 <= j < x.len(),
    ensures
        ({
            let tile = ce_tile_grad::<Fixed>(
                x,
                y as int,
                y == ignore_index,
                block as int,
                label_smoothing,
                scale,
            )[j];
            let reference = ce_grad::<Fixed>(x, y, ignore_index, label_smoothing, scale)[j];
            &&& abs(tile - reference) <= abs(scale as int) / ONE as int + 1
            &&& y == ignore_index || scale == 0 ==> tile == reference
        }),
{
    fixed_point_is_exact();
    let v = x.len() as int;
    let zero = <Fixed as Arith>::dint_spec(0);
    assert(zero == 0 && <Fixed as Arith>::fint_spec(0) == 0);
    let top = lemma_probs_gap(x, block);
    let m = x[top];
    let p = softmax::<Fixed>(x, m)[j] as int;
    let q = tile_probs::<Fixed>(centered::<Fixed>(x, block as int), block as int)[j] as int;
    let count = <Fixed as Arith>::fint_spec(v);
    assert(count == v * ONE);
    let eps = quotient(label_smoothing, count);
    assert(0 <= eps <= label_smoothing && (label_smoothing == 0 ==> eps == 0)) by {
        let n = label_smoothing * ONE;
        vstd::arithmetic::div_mod::lemma_fundamental_div_mod(n, count as int);
        let r = n / count as int;
        assert(0 <= n && 0 <= r <= label_smoothing && (label_smoothing == 0 ==> r == 0))
            by (nonlinear_arith)
            requires
                n == label_smoothing * ONE,
                n == count * r + n % (count as int),
                0 <= n % (count as int) < count,
                count >= ONE,
                ONE > 0,
                label_smoothing >= 0,
        ;
    }
    let kept = if j == y {
        ONE - label_smoothing
    } else {
        0
    };
    let tile_slope = (q - eps - kept) as i64;
    let slope = nll_slope::<Fixed>(x, m, y as int, label_smoothing, j);
    assert(slope == p - eps - kept);
    let weight = if y == ignore_index {
        0i64
    } else {
        scale
    };
    let tile = ce_tile_grad::<Fixed>(
        x,
        y as int,
        y == ignore_index,
        block as int,
        label_smoothing,
        scale,
    )[j];
    assert(<Fixed as Arith>::fint_spec(1) == ONE);
    assert(tile == product(tile_slope, weight));
    if weight == 0 {
        assert(<Fixed as Arith>::dmul_spec(tile_slope, zero) == zero);
        assert(abs(scale as int) / 0x1_0000_0000 >= 0);
    } else {
        lemma_product_gap(tile_slope, slope, scale, 1);
    }
}

/// The probabilities of a row of logits over the temperature, found in both ways.
pub proof fn lemma_tempered_probs_gap(x: Seq<i64>, inv_t: i64, block: usize)
    requires
        moderate(stretched::<Fixed>(x, inv_t)),
        divides(block, x.len() as int),
    ensures
        ({
            let z = stretched::<Fixed>(x, inv_t);
            let p = probs::<Fixed>(x, inv_t);
            let q = tile_probs::<Fixed>(centered::<Fixed>(z, block as int), block as int);
            &&& at_temperature::<Fixed>(x, inv_t) == z
            &&& forall|j: int|
                #![trigger p[j]]
                #![trigger q[j]]
                0 <= j < x.len() ==> 0 <= q[j] <= p[j] <= ONE && p[j] <= q[j] + 1
        }),
{
    fixed_point_is_exact();
    let z = stretched::<Fixed>(x, inv_t);
    lemma_same_stretch::<Fixed>(x, inv_t);
    let top = lemma_probs_gap(z, block);
}

/// The student's KL gradient that the tiled kernel finds for a pair of rows is that of the
/// reference, but for one unit times the factor of the gradient and one for rounding, in fixed
/// point and where the logits over the temperature are moderate. On an ignored row it is the
/// same.
pub proof fn tiled_kl_gradient_is_near_the_reference(
    student: Seq<i64>,
    teacher: Seq<i64>,
    target: i64,
    ignore_index: i64,
    kl_weight: i64,
    temperature: i64,
    grad_denom: i64,
    block: usize,
    j: int,
)
    requires
        student.len() == teacher.len(),
        moderate(stretched::<Fixed>(student, quotient(ONE, temperature))),
        moderate(stretched::<Fixed>(teacher, quotient(ONE, temperature))),
        divides(block, student.len() as int),
        0 <= j < student.len(),
    ensures
        ({
            let factor = kl_grad_scale::<Fixed>(kl_weight, temperature, grad_denom);
            let tile = kl_tile_grad::<Fixed>(
                student,
                teacher,
                target == ignore_index,
                block as int,
                quotient(ONE, temperature),
                factor,
            )[j];
            let reference = kl_grad_row::<Fixed>(
                student,
                teacher,
                target,
                ignore_index,
                kl_weight,
                temperature,
                grad_denom,
            )[j];
            &&& abs(tile - reference) <= abs(factor as int) / ONE as int + 1
            &&& target == ignore_index ==> tile == reference
        }),
{
    let inv_t = quotient(ONE, temperature);
    let factor = kl_grad_scale::<Fixed>(kl_weight, temperature, grad_denom);
    assert(<Fixed as Arith>::dint_spec(1) == ONE);
    if target == ignore_index {
        assert(abs(factor as int) / 0x1_0000_0000 >= 0);
    } else {
        lemma_tempered_probs_gap(student, inv_t, block);
        lemma_tempered_probs_gap(teacher, inv_t, block);
        let s = centered::<Fixed>(stretched::<Fixed>(student, inv_t), block as int);
        let t = centered::<Fixed>(stretched::<Fixed>(teacher, inv_t), block as int);
        let ps = probs::<Fixed>(student, inv_t)[j];
        let pt = probs::<Fixed>(teacher, inv_t)[j];
        let qs = tile_probs::<Fixed>(s, block as int)[j];
        let qt = tile_probs::<Fixed>(t, block as int)[j];
        let a = (qs - qt) as i64;
        let b = (ps - pt) as i64;
        lemma_product_gap(a, b, factor, 1);
        assert(factor * b == b * factor) by (nonlinear_arith);
    }
}

/// The entries of a row are at most `reach` units in magnitude, and there are fewer than 2^29
/// of them.
pub open spec fn within(row: Seq<i64>, reach: int) -> bool {
    &&& 0 < row.len() < 0x2000_0000
    &&& 0 <= reach <= 0x2000_0000_0000_0000
    &&& forall|i: int| 0 <= i < row.len() ==> -reach <= #[trigger] row[i] <= reach
}

/// The logarithm of a sum of exponentials of fewer than 2^29 classes is at least zero and less
/// than 29.
pub proof fn lemma_log_of_mass(d: i64)
    requires
        ONE <= d < 0x2000_0000 * 0x1_0000_0000,
    ensures
        0 <= logarithm(d) < 29 * ONE,
{
    let x = d as int;
    lemma_log2_bounds(x);
    vstd::arithmetic::power2::lemma2_to64();
    vstd::arithmetic::power2::lemma_pow2_adds(32, 29);
    let k = log(2, x);
    assert(32 <= k < 61) by {
        if k < 32 {
            if k + 1 < 32 {
                vstd::arithmetic::power2::lemma_pow2_strictly_increases((k + 1) as nat, 32);
            }
        }
        if k >= 61 {
            if k > 61 {
                vstd::arithmetic::power2::lemma_pow2_strictly_increases(61, k as nat);
            }
        }
    }
    let p = pow2(k as nat) as int;
    let n = x * ONE;
    let q = n / p;
    vstd::arithmetic::power2::lemma_pow2_unfold((k + 1) as nat);
    vstd::arithmetic::div_mod::lemma_fundamental_div_mod(n, p);
    assert(ONE <= q < 2 * ONE) by (nonlinear_arith)
        requires
            n == x * ONE,
            n == p * q + n % p,
            0 <= n % p < p,
            p <= x < 2 * p,
            p > 0,
            ONE > 0,
    ;
    let w = ((k - 32) * ONE + (q - ONE)) * LN_2;
    let u = (k - 32) * ONE + (q - ONE);
    assert(0 <= u < 29 * 0x1_0000_0000) by (nonlinear_arith)
        requires
            u == (k - 32) * ONE + (q - ONE),
            32 <= k < 61,
            ONE <= q < 2 * ONE,
            ONE == 0x1_0000_0000,
    ;
    assert(0 <= w <= u * 0x1_0000_0000) by (nonlinear_arith)
        requires
            w == u * LN_2,
            0 <= LN_2 <= 0x1_0000_0000,
            u >= 0,
    ;
    assert(0 <= w / 0x1_0000_0000 <= u);
    assert(abs(ONE as int) == 0x1_0000_0000);
}

/// The log-probabilities of a row, which both ways agree on, and the probabilities.
pub proof fn lemma_log_probs_bound(x: Seq<i64>, inv_t: i64, reach: int, block: usize)
    requires
        within(stretched::<Fixed>(x, inv_t), reach),
        divides(block, x.len() as int),
    ensures
        ({
            let z = stretched::<Fixed>(x, inv_t);
            let c = centered::<Fixed>(z, block as int);
            let l = log_probs::<Fixed>(x, inv_t);
            &&& tile_log_probs::<Fixed>(c, block as int) == l
            &&& forall|j: int|
                0 <= j < x.len() ==> -2 * reach - 29 * ONE < #[trigger] l[j] <= 0
            &&& units(probs::<Fixed>(x, inv_t), x.len() as int) <= ONE
        }),
{
    fixed_point_is_exact();
    let n = x.len() as int;
    let z = stretched::<Fixed>(x, inv_t);
    let c = centered::<Fixed>(z, block as int);
    assert(moderate(z));
    lemma_same_stretch::<Fixed>(x, inv_t);
    let top = lemma_probs_gap(z, block);
    let m = z[top];
    let d = exp_sum::<Fixed>(z, m, n);
    tiles_find_the_softmax_of_the_reference::<Fixed>(z, block);
    let l = log_probs::<Fixed>(x, inv_t);
    let tile = tile_log_probs::<Fixed>(c, block as int);
    assert(widened::<Fixed>(tile) =~= tile);
    assert(d < 0x2000_0000 * 0x1_0000_0000) by (nonlinear_arith)
        requires
            d <= n * ONE,
            n < 0x2000_0000,
            ONE == 0x1_0000_0000,
    ;
    lemma_log_of_mass(d);
    assert forall|j: int| 0 <= j < n implies -2 * reach - 29 * ONE < #[trigger] l[j] <= 0 by {
        assert(-reach <= z[j] <= m <= reach);
        assert(<Fixed as Arith>::dsub_spec(z[j], m) == z[j] - m);
    }
    let e = exps(z, m);
    lemma_exp_units(z, m, n);
    assert forall|i: int| 0 <= i < e.len() implies 0 <= #[trigger] e[i] <= d by {}
    lemma_share_units(e, d, n);
    let sum = units(shares(e, d), n);
    assert(sum <= ONE) by (nonlinear_arith)
        requires
            d * sum <= ONE * d,
            d > 0,
    ;
}

/// Terms that are at most `most` times a probability add up to at most `most`, at every step.
pub proof fn lemma_weighted_units(terms: Seq<i64>, p: Seq<i64>, most: int, k: int)
    requires
        0 <= most,
        terms.len() == p.len(),
        0 <= k <= p.len(),
        forall|j: int| 0 <= j < p.len() ==> 0 <= #[trigger] p[j],
        forall|j: int|
            0 <= j < p.len() ==> ONE * abs(#[trigger] terms[j] as int) <= most * p[j],
        units(p, p.len() as int) <= ONE,
    ensures
        ONE * abs(units(terms, k)) <= most * units(p, k),
        0 <= units(p, k) <= ONE,
        abs(units(terms, k)) <= most,
    decreases k,
{
    lemma_units_grow(p, k);
    if k > 0 {
        lemma_weighted_units(terms, p, most, k - 1);
        let before = units(terms, k - 1);
        let x = terms[k - 1] as int;
        let w = p[k - 1] as int;
        assert(ONE * abs(x) <= most * w);
        assert(most * (units(p, k - 1) + w) == most * units(p, k - 1) + most * w)
            by (nonlinear_arith);
        assert(abs(before + x) <= abs(before) + abs(x));
    } else {
        assert(most * 0 == 0);
    }
    let u = units(p, k);
    let t = abs(units(terms, k));
    assert(t <= most) by (nonlinear_arith)
        requires
            ONE * t <= most * u,
            u <= ONE,
            0 <= most,
            ONE > 0,
    ;
}

/// A sum of numbers that are not negative grows.
proof fn lemma_units_grow(p: Seq<i64>, k: int)
    requires
        0 <= k <= p.len(),
        forall|j: int| 0 <= j < p.len() ==> 0 <= #[trigger] p[j],
    ensures
        0 <= units(p, k) <= units(p, p.len() as int),
    decreases p.len() - k,
{
    lemma_units_not_negative(p, k);
    if k < p.len() {
        lemma_units_grow(p, k + 1);
        assert(0 <= p[k]);
    }
}

/// A sum of numbers that are not negative is not negative.
proof fn lemma_units_not_negative(p: Seq<i64>, k: int)
    requires
        0 <= k <= p.len(),
        forall|j: int| 0 <= j < p.len() ==> 0 <= #[trigger] p[j],
    ensures
        0 <= units(p, k),
    decreases k,
{
    if k > 0 {
        lemma_units_not_negative(p, k - 1);
        assert(0 <= p[k - 1]);
    }
}

/// Terms that differ by at most `gap` each.
proof fn lemma_units_gap(a: Seq<i64>, b: Seq<i64>, gap: int, k: int)
    requires
        a.len() == b.len(),
        0 <= k <= a.len(),
        forall|j: int| 0 <= j < a.len() ==> abs(#[trigger] a[j] - b[j]) <= gap,
    ensures
        abs(units(a, k) - units(b, k)) <= k * gap,
    decreases k,
{
    if k > 0 {
        lemma_units_gap(a, b, gap, k - 1);
        assert(abs(a[k - 1] - b[k - 1]) <= gap);
        assert(k * gap == (k - 1) * gap + gap) by (nonlinear_arith);
    } else {
        assert(0 * gap == 0);
    }
}

/// A sum that never leaves the range does not wrap around.
pub proof fn lemma_sum_is_units(terms: Seq<i64>, most: int, k: int)
    requires
        0 <= k <= terms.len(),
        most <= i64::MAX,
        forall|i: int| 0 <= i <= terms.len() ==> abs(#[trigger] units(terms, i)) <= most,
    ensures
        span_sum::<Fixed>(terms, 0, k) == units(terms, k),
    decreases k,
{
    if k > 0 {
        lemma_sum_is_units(terms, most, k - 1);
        assert(abs(units(terms, k)) <= most);
        assert(abs(units(terms, k - 1)) <= most);
    }
}

/// The divergence of two rows adds up its terms.
pub proof fn lemma_divergence_is_sum(
    terms: Seq<i64>,
    pt: Seq<i64>,
    log_pt: Seq<i64>,
    log_ps: Seq<i64>,
    k: int,
)
    requires
        0 <= k <= terms.len(),
        forall|j: int|
            0 <= j < terms.len() ==> #[trigger] terms[j] == product(
                pt[j],
                log_pt[j].wrapping_sub(log_ps[j]),
            ),
    ensures
        divergence::<Fixed>(pt, log_pt, log_ps, k) == span_sum::<Fixed>(terms, 0, k),
    decreases k,
{
    if k > 0 {
        lemma_divergence_is_sum(terms, pt, log_pt, log_ps, k - 1);
        assert(terms[k - 1] == product(pt[k - 1], log_pt[k - 1].wrapping_sub(log_ps[k - 1])));
    }
}

/// A probability times a number is at most that number times the probability.
pub proof fn lemma_weighted_term(p: i64, l: i64, most: int)
    requires
        0 <= p <= ONE,
        abs(l as int) <= most <= i64::MAX,
    ensures
        ONE * abs(product(p, l) as int) <= most * p,
        product(p, l) == toward_zero(p * l, ONE as int),
{
    let n = p * l;
    assert(abs(n) <= most * p && most * p <= most * 0x1_0000_0000) by (nonlinear_arith)
        requires
            n == p * l,
            abs(l as int) <= most,
            0 <= p <= 0x1_0000_0000,
    ;
    let q = abs(n) / 0x1_0000_0000;
    assert(0x1_0000_0000 * q <= abs(n));
    assert(abs(ONE as int) == 0x1_0000_0000);
}

/// How many units two sums of `v` terms can be apart, where each term is a probability, one
/// unit off, times a difference of two log-probabilities of logits within `reach` units.
pub open spec fn kl_slack(v: int, reach: int) -> int {
    v * ((2 * reach) / ONE as int + 30)
}

/// The KL that the tiled kernel finds for a pair of rows is that of the reference, but for one
/// unit in each probability, in fixed point. A term is off by that unit times the difference of
/// two log-probabilities, which is less than `2 * reach + 29` where the logits over the
/// temperature are within `reach`, and by one for rounding; the sum is then multiplied by the
/// square of the temperature. On an ignored row it is the same.
pub proof fn tiled_kl_is_near_the_reference(
    student: Seq<i64>,
    teacher: Seq<i64>,
    ignored: bool,
    inv_t: i64,
    t_sq: i64,
    reach: int,
    block: usize,
)
    requires
        student.len() == teacher.len(),
        within(stretched::<Fixed>(student, inv_t), reach),
        within(stretched::<Fixed>(teacher, inv_t), reach),
        divides(block, student.len() as int),
    ensures
        ({
            let tile = kl_tile_loss::<Fixed>(student, teacher, ignored, block as int, inv_t, t_sq);
            let row = if ignored {
                <Fixed as Arith>::dint_spec(0)
            } else {
                kl_row::<Fixed>(student, teacher, inv_t)
            };
            let reference = <Fixed as Arith>::dmul_spec(row, t_sq);
            &&& abs(tile - reference) <= (kl_slack(student.len() as int, reach) * abs(t_sq as int))
                / ONE as int + 1
            &&& ignored ==> tile == reference
        }),
{
    fixed_point_is_exact();
    let v = student.len() as int;
    let slack = kl_slack(v, reach);
    if ignored {
        let zero = <Fixed as Arith>::dint_spec(0);
        assert(<Fixed as Arith>::dmul_spec(zero, t_sq) == zero);
        assert(0 <= slack * abs(t_sq as int)) by (nonlinear_arith)
            requires
                slack == v * ((2 * reach) / ONE as int + 30),
                v >= 0,
                (2 * reach) / ONE as int >= 0,
        ;
        assert((slack * abs(t_sq as int)) / 0x1_0000_0000 >= 0);
    } else {
        lemma_log_probs_bound(student, inv_t, reach, block);
        lemma_log_probs_bound(teacher, inv_t, reach, block);
        lemma_tempered_probs_gap(teacher, inv_t, block);
        let most = 2 * reach + 29 * ONE;
        let lt = log_probs::<Fixed>(teacher, inv_t);
        let ls = log_probs::<Fixed>(student, inv_t);
        let p = probs::<Fixed>(teacher, inv_t);
        let c = centered::<Fixed>(stretched::<Fixed>(teacher, inv_t), block as int);
        let q = tile_probs::<Fixed>(c, block as int);
        let a = Seq::new(v as nat, |j: int| product(q[j], lt[j].wrapping_sub(ls[j])));
        let b = Seq::new(v as nat, |j: int| product(p[j], lt[j].wrapping_sub(ls[j])));
        let gap = (2 * reach) / ONE as int + 30;
        assert forall|j: int| 0 <= j < v implies {
            &&& ONE * abs(#[trigger] a[j] as int) <= most * p[j]
            &&& ONE * abs(b[j] as int) <= most * p[j]
            &&& abs(a[j] - b[j]) <= gap
        } by {
            let l = lt[j].wrapping_sub(ls[j]);
            assert(-most < lt[j] <= 0 && -most < ls[j] <= 0);
            assert(l == lt[j] - ls[j]);
            assert(0 <= q[j] <= p[j] <= ONE && p[j] <= q[j] + 1);
            lemma_weighted_term(q[j], l, most);
            lemma_weighted_term(p[j], l, most);
            assert(most * q[j] <= most * p[j]) by (nonlinear_arith)
                requires
                    q[j] <= p[j],
                    most >= 0,
            ;
            lemma_product_gap(q[j], p[j], l, 1);
            assert((1 * abs(l as int)) / 0x1_0000_0000 + 1 <= gap);
        }
        assert forall|j: int| 0 <= j < v implies ONE * abs(#[trigger] b[j] as int) <= most * p[j] by {
            assert(ONE * abs(a[j] as int) <= most * p[j]);
        }
        assert forall|i: int| 0 <= i <= v implies abs(#[trigger] units(a, i)) <= most by {
            lemma_weighted_units(a, p, most, i);
        }
        assert forall|i: int| 0 <= i <= v implies abs(#[trigger] units(b, i)) <= most by {
            lemma_weighted_units(b, p, most, i);
        }
        lemma_sum_is_units(a, most, v);
        lemma_sum_is_units(b, most, v);
        lemma_divergence_is_sum(b, p, lt, ls, v);
        lemma_row_reduces::<Fixed>(a, block);
        lemma_units_gap(a, b, gap, v);
        let sum = span_sum::<Fixed>(a, 0, v);
        let row = kl_row::<Fixed>(student, teacher, inv_t);
        assert(abs(sum - row) <= slack);
        let s = centered::<Fixed>(stretched::<Fixed>(student, inv_t), block as int);
        let terms = Seq::new(
            student.len(),
            |j: int|
                <Fixed as Arith>::fmul_spec(
                    q[j],
                    <Fixed as Arith>::fsub_spec(
                        tile_log_probs::<Fixed>(c, block as int)[j],
                        tile_log_probs::<Fixed>(s, block as int)[j],
                    ),
                ),
        );
        assert(terms =~= a);
        lemma_product_gap(sum, row, t_sq, slack);
    }
}

} // verus!
