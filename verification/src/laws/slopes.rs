//! The gradient of a row adds up to nothing, in fixed point.

#![allow(unused_imports)]

use vstd::prelude::*;
use vstd::arithmetic::power2::pow2;
use crate::arith::Arith;
use crate::fixed::{abs, exponential, quotient, toward_zero, Fixed, LOG2_E, ONE};
use crate::laws::numbers::fixed_point_is_exact;
use crate::reference::cross_entropy::{ce_grad, nll_slope};
use crate::reference::softmax::{exp_sum, peak, widened};

verus! {

/// The sum of the first `k` entries of a row, as a whole number of units.
pub open spec fn units(row: Seq<i64>, k: int) -> int
    decreases k,
{
    if k <= 0 {
        0
    } else {
        units(row, k - 1) + row[k - 1]
    }
}

/// The entries of a row are at most 2^30 in magnitude, so that the difference of any two is a
/// fixed-point number; there are fewer than 2^29 of them.
pub open spec fn moderate(row: Seq<i64>) -> bool {
    &&& 0 < row.len() < 0x2000_0000
    &&& forall|i: int|
        0 <= i < row.len() ==> -0x4000_0000_0000_0000 <= #[trigger] row[i]
            <= 0x3fff_ffff_ffff_ffff
}

/// The peak of a row is an entry of it, and no entry is above it.
pub proof fn lemma_peak_is_largest(z: Seq<i64>, n: int) -> (k: int)
    requires
        1 <= n <= z.len(),
        moderate(z),
    ensures
        0 <= k < n,
        peak::<Fixed>(z, n) == z[k],
        forall|i: int| 0 <= i < n ==> #[trigger] z[i] <= z[k],
    decreases n,
{
    if n == 1 {
        assert(peak::<Fixed>(z, 0) == i64::MIN);
        0
    } else {
        let k = lemma_peak_is_largest(z, n - 1);
        if z[k] < z[n - 1] {
            n - 1
        } else {
            k
        }
    }
}

/// The exponential of a number that is not positive lies between zero and one.
pub proof fn lemma_exponential_bound(x: i64)
    requires
        x <= 0,
    ensures
        0 <= exponential(x) <= ONE,
        x == 0 ==> exponential(x) == ONE,
{
    let t = toward_zero(x * LOG2_E, ONE as int);
    let w = abs(x * LOG2_E);
    assert(x * LOG2_E <= 0 && (x == 0 ==> x * LOG2_E == 0)) by (nonlinear_arith)
        requires
            x <= 0,
            LOG2_E > 0,
    ;
    assert(t <= 0 && (x == 0 ==> t == 0)) by {
        assert(w / 0x1_0000_0000 >= 0);
        assert(abs(ONE as int) == 0x1_0000_0000);
    }
    let n = t / (ONE as int);
    let m = ONE + t % (ONE as int);
    if n >= 0 {
        assert(t == 0);
        vstd::arithmetic::power2::lemma2_to64();
        assert(m * pow2(0) == ONE);
    } else {
        let p = pow2((-n) as nat) as int;
        vstd::arithmetic::power2::lemma_pow2_unfold((-n) as nat);
        vstd::arithmetic::power2::lemma_pow2_pos((-n - 1) as nat);
        assert(p >= 2);
        vstd::arithmetic::div_mod::lemma_fundamental_div_mod(m, p);
        assert(0 <= m / p <= ONE) by (nonlinear_arith)
            requires
                m == p * (m / p) + m % p,
                0 <= m % p < p,
                0 <= m < 2 * ONE,
                p >= 2,
        ;
    }
}

/// The exponentials of a centered row.
pub open spec fn exps(z: Seq<i64>, m: i64) -> Seq<i64> {
    Seq::new(z.len(), |j: int| exponential((z[j] - m) as i64))
}

/// Their sum, which does not wrap around.
pub proof fn lemma_exp_units(z: Seq<i64>, m: i64, k: int)
    requires
        moderate(z),
        -0x4000_0000_0000_0000 <= m <= 0x3fff_ffff_ffff_ffff,
        forall|i: int| 0 <= i < z.len() ==> #[trigger] z[i] <= m,
        0 <= k <= z.len(),
    ensures
        exp_sum::<Fixed>(z, m, k) == units(exps(z, m), k),
        0 <= units(exps(z, m), k) <= k * ONE,
        forall|i: int| 0 <= i < k ==> 0 <= #[trigger] exps(z, m)[i] <= units(exps(z, m), k),
    decreases k,
{
    if k > 0 {
        lemma_exp_units(z, m, k - 1);
        assert(z[k - 1] <= m);
        lemma_exponential_bound((z[k - 1] - m) as i64);
        assert(<Fixed as Arith>::dsub_spec(z[k - 1], m) == z[k - 1] - m);
        assert(k * ONE == (k - 1) * ONE + ONE) by (nonlinear_arith);
        assert(k * ONE < 0x2000_0000 * 0x1_0000_0000) by (nonlinear_arith)
            requires
                k < 0x2000_0000,
                ONE == 0x1_0000_0000,
        ;
        assert forall|i: int| 0 <= i < k implies 0 <= #[trigger] exps(z, m)[i] <= units(
            exps(z, m),
            k,
        ) by {
            if i < k - 1 {
                assert(0 <= exps(z, m)[i] <= units(exps(z, m), k - 1));
            }
        }
    }
}

/// The probabilities of a row of exponentials whose sum is `d`.
pub open spec fn shares(e: Seq<i64>, d: i64) -> Seq<i64> {
    Seq::new(e.len(), |j: int| quotient(e[j], d))
}

/// The probabilities add up to one, but for one unit each.
pub proof fn lemma_share_units(e: Seq<i64>, d: i64, k: int)
    requires
        d > 0,
        0 <= k <= e.len(),
        forall|i: int| 0 <= i < e.len() ==> 0 <= #[trigger] e[i] <= d,
    ensures
        d * units(shares(e, d), k) <= ONE * units(e, k) <= d * (units(shares(e, d), k) + k),
        forall|i: int| 0 <= i < k ==> 0 <= #[trigger] shares(e, d)[i] <= ONE,
    decreases k,
{
    if k > 0 {
        lemma_share_units(e, d, k - 1);
        let x = e[k - 1] as int;
        let n = x * ONE;
        let p = n / (d as int);
        vstd::arithmetic::div_mod::lemma_fundamental_div_mod(n, d as int);
        assert(0 <= n && 0 <= p <= ONE && d * p <= ONE * x <= d * (p + 1)) by (nonlinear_arith)
            requires
                n == x * ONE,
                n == d * p + n % (d as int),
                0 <= n % (d as int) < d,
                0 <= x <= d,
                d > 0,
                ONE > 0,
        ;
        assert(shares(e, d)[k - 1] == p);
        let before = units(shares(e, d), k - 1);
        let u = units(e, k - 1);
        assert(d * (before + p) == d * before + d * p && ONE * (u + x) == ONE * u + ONE * x && d * (
        before + p + k) == d * (before + (k - 1)) + d * (p + 1)) by (nonlinear_arith);
    } else {
        assert(d * 0 == 0 && ONE * 0 == 0);
    }
}

/// The gradient of a row, before the probabilities are added up.
proof fn lemma_slope_units(
    g: Seq<i64>,
    p: Seq<i64>,
    eps: int,
    kept: int,
    y: int,
    k: int,
)
    requires
        0 <= k <= g.len(),
        g.len() == p.len(),
        0 <= y,
        forall|j: int|
            0 <= j < g.len() ==> #[trigger] g[j] == p[j] - eps - if j == y {
                kept
            } else {
                0
            },
    ensures
        units(g, k) == units(p, k) - k * eps - if y < k {
            kept
        } else {
            0
        },
    decreases k,
{
    if k > 0 {
        lemma_slope_units(g, p, eps, kept, y, k - 1);
        assert(g[k - 1] == p[k - 1] - eps - if k - 1 == y {
            kept
        } else {
            0
        });
        assert(k * eps == (k - 1) * eps + eps) by (nonlinear_arith);
    } else {
        assert(0 * eps == 0);
    }
}

/// The gradient of a row under a weight of one adds up to zero, with or without label
/// smoothing: the probabilities add up to one, and one is what the target and the smoothing
/// take away. In fixed point it is off by at most one unit for each class, on every row of
/// moderate logits.
pub proof fn gradient_adds_up_to_nothing(
    x: Seq<i64>,
    y: i64,
    ignore_index: i64,
    label_smoothing: i64,
)
    requires
        moderate(x),
        y == ignore_index || 0 <= y < x.len(),
        0 <= label_smoothing <= ONE,
    ensures
        abs(
            units(
                ce_grad::<Fixed>(
                    x,
                    y,
                    ignore_index,
                    label_smoothing,
                    <Fixed as Arith>::fint_spec(1),
                ),
                x.len() as int,
            ),
        ) <= x.len(),
{
    let v = x.len() as int;
    let one = <Fixed as Arith>::fint_spec(1);
    assert(one == ONE);
    let g = ce_grad::<Fixed>(x, y, ignore_index, label_smoothing, one);
    if y == ignore_index {
        assert forall|k: int| 0 <= k <= v implies #[trigger] units(g, k) == 0 by {
            lemma_zero_units(g, k);
        }
    } else {
        let z = widened::<Fixed>(x);
        assert(z =~= x);
        let top = lemma_peak_is_largest(x, v);
        let m = x[top];
        let e = exps(x, m);
        lemma_exp_units(x, m, v);
        lemma_exponential_bound(0);
        let d = exp_sum::<Fixed>(x, m, v);
        assert(e[top] == ONE);
        assert(d >= ONE);
        let p = shares(e, d);
        assert forall|i: int| 0 <= i < e.len() implies 0 <= #[trigger] e[i] <= d by {}
        lemma_share_units(e, d, v);
        let total = units(p, v);
        assert(ONE - v <= total <= ONE) by (nonlinear_arith)
            requires
                d * total <= ONE * d <= d * (total + v),
                d > 0,
        ;
        let count = <Fixed as Arith>::dint_spec(v);
        assert(count == v * ONE);
        let share = quotient(label_smoothing, count) as int;
        assert(share == label_smoothing as int / v && 0 <= share <= label_smoothing) by {
            vstd::arithmetic::div_mod::lemma_div_multiples_vanish_quotient(
                ONE as int,
                label_smoothing as int,
                v,
            );
            assert(label_smoothing * ONE == ONE * label_smoothing && v * ONE == ONE * v
                && label_smoothing * ONE >= 0) by (nonlinear_arith)
                requires
                    label_smoothing >= 0,
                    ONE > 0,
            ;
            vstd::arithmetic::div_mod::lemma_div_pos_is_pos(label_smoothing as int, v);
            vstd::arithmetic::div_mod::lemma_div_is_ordered_by_denominator(
                label_smoothing as int,
                1,
                v,
            );
        }
        let eps = if label_smoothing > 0 {
            share
        } else {
            0
        };
        let kept = ONE - label_smoothing;
        fixed_point_is_exact();
        assert forall|j: int| 0 <= j < g.len() implies #[trigger] g[j] == p[j] - eps - if j == y {
            kept
        } else {
            0
        } by {
            assert(x[j] <= m);
            assert(<Fixed as Arith>::dsub_spec(x[j], m) == x[j] - m);
            assert(0 <= p[j] <= ONE);
            let slope = nll_slope::<Fixed>(z, m, y as int, label_smoothing, j);
            assert(<Fixed as Arith>::dmul_spec(slope, <Fixed as Arith>::dint_spec(1)) == slope);
        }
        lemma_slope_units(g, p, eps, kept, y as int, v);
        vstd::arithmetic::div_mod::lemma_fundamental_div_mod(label_smoothing as int, v);
        assert(v * share == share * v) by (nonlinear_arith);
        assert(label_smoothing == 0 ==> v * eps == 0);
        assert(0 <= label_smoothing - v * eps < v);
    }
}

/// A row of zeros adds up to zero.
proof fn lemma_zero_units(g: Seq<i64>, k: int)
    requires
        0 <= k <= g.len(),
        forall|j: int| 0 <= j < g.len() ==> #[trigger] g[j] == 0,
    ensures
        units(g, k) == 0,
    decreases k,
{
    if k > 0 {
        lemma_zero_units(g, k - 1);
    }
}

} // verus!
