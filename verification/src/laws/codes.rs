//! What is lost by eight-bit codes, in fixed point.

#![allow(unused_imports)]

use vstd::prelude::*;
use crate::api::{answers, DistillationLossOutput};
use crate::arith::Arith;
use crate::fixed::{abs, product, quotient, toward_zero, Fixed, ONE};
use crate::laws::numbers::fixed_point_is_exact;
use crate::laws::outputs::lemma_same_terms;
use crate::laws::settings::{compressed, compression_only_touches_the_weight_gradient};
use crate::objective::{rounding_state, Setup};
use crate::quant::{
    clamped, codes_of, decoded, draw, draw_bits, hit, lemma_draw_bits_bound,
    lemma_state_after_adds, magnitude, mix, nearest_code, next_state, restored, rounded, scale_of,
    scales, state_after, stochastic_code, stochastic_codes, GradWQuant, UNIFORM_STEPS,
};

verus! {

/// No entry of a fixed-point row exceeds its magnitude by more than one unit.
proof fn lemma_magnitude(row: Seq<i64>, n: int, j: int)
    requires
        0 <= j < n <= row.len(),
    ensures
        abs(row[j] as int) <= magnitude::<Fixed>(row, n) + 1,
        magnitude::<Fixed>(row, n) < i64::MAX ==> abs(row[j] as int) <= magnitude::<Fixed>(row, n),
    decreases n,
{
    if j < n - 1 {
        lemma_magnitude(row, n - 1, j);
    }
}

/// The scale of a fixed-point row is its magnitude over 127, rounded down.
proof fn lemma_fixed_scale(a: i64)
    requires
        a >= 1,
    ensures
        quotient(a, <Fixed as Arith>::fint_spec(127)) == a as int / 127,
{
    let d = <Fixed as Arith>::fint_spec(127);
    assert(d == 127 * ONE);
    vstd::arithmetic::div_mod::lemma_div_multiples_vanish_quotient(ONE as int, a as int, 127);
    assert(a * ONE == ONE * a) by (nonlinear_arith);
    assert(a * ONE >= 0) by (nonlinear_arith)
        requires
            a >= 1,
            ONE > 0,
    ;
}

/// Rounding a fixed-point number gives a whole number at most one half away.
proof fn lemma_fixed_rounding(q: i64)
    requires
        -255 * ONE <= q <= 255 * ONE,
    ensures
        ({
            let r = rounded::<Fixed>(q);
            &&& r as int % ONE as int == 0
            &&& abs(2 * (r - q)) <= ONE
        }),
{
    let one = <Fixed as Arith>::fint_spec(1);
    let two = <Fixed as Arith>::fint_spec(2);
    assert(one == ONE);
    assert(two == 2 * ONE);
    assert(quotient(one, two) == 0x8000_0000) by {
        assert(one * ONE == 0x1_0000_0000_0000_0000);
        assert(two == 0x2_0000_0000);
        assert(0x1_0000_0000_0000_0000int / 0x2_0000_0000int == 0x8000_0000);
        assert(toward_zero(one * ONE, two as int) == 0x8000_0000);
    }
    let f = <Fixed as Arith>::ffloor_spec(q);
    assert(f == q - q as int % ONE as int);
    assert(f as int % ONE as int == 0);
    assert((f + ONE) % (ONE as int) == 0);
}

/// The code of a whole number is that number, held to the range of the codes.
proof fn lemma_fixed_code(r: i64)
    requires
        r as int % ONE as int == 0,
    ensures
        ({
            let code = <Fixed as Arith>::fto_i8_spec(clamped::<Fixed>(r));
            &&& -127 <= code <= 127
            &&& code * ONE == clamped::<Fixed>(r)
        }),
{
    let c = clamped::<Fixed>(r);
    assert(<Fixed as Arith>::fint_spec(127) == 127 * ONE);
    assert(<Fixed as Arith>::fint_spec(-127) == -127 * ONE);
    assert(c as int % 0x1_0000_0000 == 0);
    assert(toward_zero(c as int, ONE as int) == if c < 0 {
        -((-c) / 0x1_0000_0000)
    } else {
        c as int / 0x1_0000_0000
    });
}

/// The quotient of a number by the step is rounded towards zero, and is not large.
proof fn lemma_quotient_error(x: int, s: int)
    requires
        s > 0,
        abs(x) <= 127 * (s + 1),
    ensures
        ({
            let q = toward_zero(x * ONE, s);
            &&& abs(x * ONE - q * s) < s
            &&& -254 * ONE <= q <= 254 * ONE
            &&& x >= 0 ==> q >= 0 && q * s <= x * ONE
            &&& x <= 0 ==> q <= 0 && q * s >= x * ONE
        }),
{
    let n = abs(x) * ONE;
    let k = n / s;
    vstd::arithmetic::div_mod::lemma_fundamental_div_mod(n, s);
    assert(abs(x * ONE) == n && (x * ONE < 0 <==> x < 0)) by (nonlinear_arith)
        requires
            n == abs(x) * ONE,
            ONE > 0,
    ;
    assert(0 <= k <= 254 * ONE) by (nonlinear_arith)
        requires
            n == s * k + n % s,
            0 <= n % s < s,
            0 <= n,
            n <= 127 * (s + 1) * ONE,
            s > 0,
            ONE > 0,
    ;
    let q = toward_zero(x * ONE, s);
    assert(s * k == k * s && (-k) * s == -(k * s)) by (nonlinear_arith);
}

/// The step of a row, and the quotient of an entry by it.
proof fn lemma_row_quotient(row: Seq<i64>, j: int)
    requires
        0 <= j < row.len(),
    ensures
        ({
            let x = row[j] as int;
            let s = scale_of::<Fixed>(row);
            let q = quotient(row[j], s);
            &&& 0 <= s
            &&& 127 * s <= i64::MAX
            &&& abs(x) <= 127 * (s + 1)
            &&& -254 * ONE <= q <= 254 * ONE
            &&& s == 0 ==> q == 0 && abs(x) <= 126
            &&& s > 0 ==> {
                &&& abs(x * ONE - q * s) < s
                &&& x <= 0 ==> q * s >= x * ONE
            }
        }),
{
    let x = row[j] as int;
    let m = magnitude::<Fixed>(row, row.len() as int);
    let a = <Fixed as Arith>::fmax_spec(m, <Fixed as Arith>::fsmall_spec());
    lemma_magnitude(row, row.len() as int, j);
    lemma_fixed_scale(a);
    let s = scale_of::<Fixed>(row);
    assert(s == a as int / 127);
    if s > 0 {
        lemma_quotient_error(x, s as int);
        assert(toward_zero(x * ONE, s as int) == quotient(row[j], s));
    }
}

/// A whole number times the step.
proof fn lemma_whole_product(code: int, s: i64)
    requires
        -127 <= code <= 127,
        0 <= s,
        127 * s <= i64::MAX,
    ensures
        product((code * ONE) as i64, s) == code * s,
{
    let c = (code * ONE) as i64;
    let m = abs(code) * s;
    assert(abs(c * s) == m * ONE && (code * s == if c * s < 0 { -m } else { m }) && 0 <= m
        <= 127 * s) by (nonlinear_arith)
        requires
            c == code * ONE,
            m == abs(code) * s,
            -127 <= code <= 127,
            0 <= s,
            ONE > 0,
    ;
    vstd::arithmetic::div_mod::lemma_div_multiples_vanish(m, ONE as int);
    assert(ONE * m == m * ONE) by (nonlinear_arith);
}

/// A number whose quotient lies above the largest code is off by less than 128.
proof fn lemma_clamped_error(x: int, s: int, q: int)
    requires
        s > 0,
        x <= 127 * (s + 1),
        abs(x * ONE - q * s) < s,
        2 * q >= 255 * ONE,
    ensures
        0 <= x - 127 * s <= 127,
{
    assert(x >= 127 * s) by (nonlinear_arith)
        requires
            s > 0,
            abs(x * ONE - q * s) < s,
            2 * q >= 255 * ONE,
            ONE > 2,
    ;
}

/// A number whose quotient was rounded to `code` is off by half a step.
proof fn lemma_rounded_error(x: int, s: int, q: int, code: int)
    requires
        s > 0,
        abs(x * ONE - q * s) < s,
        abs(2 * (code * ONE - q)) <= ONE,
    ensures
        2 * abs(x - code * s) <= s + s / 0x8000_0000 + 1,
{
    let e = x - code * s;
    let over = s / 0x8000_0000;
    assert(2 * abs(e) * ONE <= 2 * s + s * ONE) by (nonlinear_arith)
        requires
            e == x - code * s,
            s > 0,
            abs(x * ONE - q * s) < s,
            abs(2 * (code * ONE - q)) <= ONE,
    ;
    assert(2 * abs(e) <= s + over + 1) by (nonlinear_arith)
        requires
            2 * abs(e) * ONE <= 2 * s + s * ONE,
            ONE == 0x1_0000_0000,
            s < 0x8000_0000 * (over + 1),
    ;
}

/// In fixed point, a number that was rounded to the nearest code of its row and back is off
/// by at most half a step, but for the rounding of the step and of the quotient: `s` being
/// the step, twice the error is at most `s + s / 2^31` and 255 units of the last place.
pub proof fn nearest_codes_lose_half_a_step(row: Seq<i64>, j: int)
    requires
        0 <= j < row.len(),
    ensures
        ({
            let s = scale_of::<Fixed>(row);
            let code = nearest_code::<Fixed>(row[j], s);
            let back = <Fixed as Arith>::fmul_spec(<Fixed as Arith>::fint_spec(code as int), s);
            &&& s >= 0
            &&& -127 <= code <= 127
            &&& back == code * s
            &&& 2 * abs(row[j] - back) <= s + s as int / 0x8000_0000 + 255
        }),
{
    let x = row[j] as int;
    let s = scale_of::<Fixed>(row);
    let q = quotient(row[j], s);
    lemma_row_quotient(row, j);
    lemma_fixed_rounding(q);
    let r = rounded::<Fixed>(q);
    lemma_fixed_code(r);
    let code = nearest_code::<Fixed>(row[j], s) as int;
    let whole = <Fixed as Arith>::fint_spec(code);
    assert(whole == code * ONE);
    lemma_whole_product(code, s);
    if s == 0 {
        assert(code * s == 0) by (nonlinear_arith)
            requires
                s == 0,
        ;
    } else if r > 127 * ONE {
        assert(code * s == 127 * s) by (nonlinear_arith)
            requires
                code == 127,
        ;
        lemma_clamped_error(x, s as int, q as int);
    } else if r < -127 * ONE {
        assert(code * s == -127 * s) by (nonlinear_arith)
            requires
                code == -127,
        ;
        assert((-x) * ONE - (-q) * s == -(x * ONE - q * s)) by (nonlinear_arith);
        lemma_clamped_error(-x, s as int, -q as int);
    } else {
        assert(code * ONE == r);
        lemma_rounded_error(x, s as int, q as int, code);
    }
}

/// A whole number held to the range of the codes.
pub open spec fn held(n: int) -> int {
    if n > 127 {
        127
    } else if n < -127 {
        -127
    } else {
        n
    }
}

/// The code for the draw `u`, in whole numbers.
proof fn lemma_drawn_code(x: i64, s: i64, u: i64)
    requires
        -254 * ONE <= quotient(x, s) <= 254 * ONE,
    ensures
        ({
            let q = quotient(x, s) as int;
            stochastic_code::<Fixed>(x, s, u) == held(
                q / (ONE as int) + if u < q % (ONE as int) {
                    1int
                } else {
                    0
                },
            )
        }),
{
    let q = quotient(x, s);
    let f = <Fixed as Arith>::ffloor_spec(q);
    let rest = q as int % ONE as int;
    assert(f == q - rest);
    assert(f as int % 0x1_0000_0000 == 0);
    assert(<Fixed as Arith>::fsub_spec(q, f) == rest);
    let bump = if u < rest {
        <Fixed as Arith>::fint_spec(1)
    } else {
        <Fixed as Arith>::fint_spec(0)
    };
    let r = <Fixed as Arith>::fadd_spec(f, bump);
    assert(r == f + bump);
    assert(r as int % 0x1_0000_0000 == 0);
    lemma_fixed_code(r);
    assert(<Fixed as Arith>::fint_spec(127) == 127 * ONE);
    assert(<Fixed as Arith>::fint_spec(-127) == -127 * ONE);
}

/// The uniform number that `k` random units stand for in fixed point.
pub open spec fn fixed_uniform(k: int) -> i64 {
    <Fixed as Arith>::fmul_spec(
        <Fixed as Arith>::fint_spec(k),
        <Fixed as Arith>::fdiv_spec(
            <Fixed as Arith>::fint_spec(1),
            <Fixed as Arith>::fint_spec(UNIFORM_STEPS as int),
        ),
    )
}

/// The codes of `x` under the scale `s` for the draws of zero up to `n` units, added up.
pub open spec fn code_total(x: i64, s: i64, n: int) -> int
    decreases n,
{
    if n <= 0 {
        0
    } else {
        code_total(x, s, n - 1) + stochastic_code::<Fixed>(x, s, fixed_uniform(n - 1))
    }
}

/// A draw of `k` units is `k` times 2^-24.
proof fn lemma_fixed_uniform(k: int)
    requires
        0 <= k < UNIFORM_STEPS,
    ensures
        fixed_uniform(k) == 256 * k,
{
    let one = <Fixed as Arith>::fint_spec(1);
    let steps = <Fixed as Arith>::fint_spec(UNIFORM_STEPS as int);
    assert(steps == 0x100_0000_0000_0000);
    assert(quotient(one, steps) == 256) by {
        assert(one * ONE == 0x1_0000_0000_0000_0000);
        assert(0x1_0000_0000_0000_0000int / 0x100_0000_0000_0000int == 256);
        assert(toward_zero(one * ONE, steps as int) == 256);
    }
    let units = <Fixed as Arith>::fint_spec(k);
    assert(units == k * ONE);
    assert(units * 256 == (256 * k) * ONE) by (nonlinear_arith)
        requires
            units == k * ONE,
    ;
    vstd::arithmetic::div_mod::lemma_div_multiples_vanish(256 * k, ONE as int);
    assert(ONE * (256 * k) == (256 * k) * ONE) by (nonlinear_arith);
    assert(toward_zero(units * 256, ONE as int) == 256 * k);
}

/// The code for a draw of `k` units: the quotient rounded down, and one more where its
/// fraction exceeds the draw.
proof fn lemma_stochastic_code(x: i64, s: i64, k: int)
    requires
        0 <= k < UNIFORM_STEPS,
        -127 * ONE <= quotient(x, s) <= 127 * ONE,
    ensures
        ({
            let q = quotient(x, s) as int;
            stochastic_code::<Fixed>(x, s, fixed_uniform(k)) == q / (ONE as int) + if 256 * k < q % (
            ONE as int) {
                1int
            } else {
                0
            }
        }),
{
    lemma_fixed_uniform(k);
    lemma_drawn_code(x, s, fixed_uniform(k));
}

/// The codes for the draws below `n` units, added up: the quotient rounded down for each, and
/// one more for each draw that the fraction exceeds.
proof fn lemma_code_total(x: i64, s: i64, n: int)
    requires
        0 <= n <= UNIFORM_STEPS,
        -127 * ONE <= quotient(x, s) <= 127 * ONE,
    ensures
        ({
            let q = quotient(x, s) as int;
            let up = (q % (ONE as int) + 255) / 256;
            code_total(x, s, n) == n * (q / (ONE as int)) + if n < up {
                n
            } else {
                up
            }
        }),
    decreases n,
{
    let q = quotient(x, s) as int;
    let f = q / (ONE as int);
    if n > 0 {
        lemma_code_total(x, s, n - 1);
        lemma_stochastic_code(x, s, n - 1);
        assert(n * f == (n - 1) * f + f) by (nonlinear_arith);
    } else {
        assert(n * f == 0) by (nonlinear_arith)
            requires
                n == 0,
        ;
    }
}

/// Stochastic rounding is unbiased: over all 2^24 draws, which are equally likely, the mean
/// of the codes is the quotient by the step, but for less than one draw. In fixed point the
/// quotient counts units of 2^-32, so that the sum of the codes counts 256 of them.
pub proof fn stochastic_rounding_is_unbiased(x: i64, s: i64)
    requires
        -127 * ONE <= quotient(x, s) <= 127 * ONE,
    ensures
        0 <= 256 * code_total(x, s, UNIFORM_STEPS as int) - quotient(x, s) < 256,
{
    let q = quotient(x, s) as int;
    lemma_code_total(x, s, UNIFORM_STEPS as int);
    assert(q == 0x1_0000_0000 * (q / 0x1_0000_0000) + q % 0x1_0000_0000);
}

/// A number whose quotient is less than one away from `code` is off by a step.
proof fn lemma_drawn_error(x: int, s: int, q: int, code: int)
    requires
        s > 0,
        abs(x * ONE - q * s) < s,
        abs(code * ONE - q) < ONE,
    ensures
        abs(x - code * s) <= s + s / (ONE as int),
{
    let e = x - code * s;
    let over = s / (ONE as int);
    assert(abs(e) * ONE < s + s * ONE) by (nonlinear_arith)
        requires
            e == x - code * s,
            s > 0,
            abs(x * ONE - q * s) < s,
            abs(code * ONE - q) < ONE,
    ;
    assert(s < 0x1_0000_0000 * (over + 1));
    assert(abs(e) <= s + over) by (nonlinear_arith)
        requires
            abs(e) * ONE < s + s * ONE,
            ONE == 0x1_0000_0000,
            s < 0x1_0000_0000 * (over + 1),
    ;
}

/// A number whose quotient is at or past the largest code is off by a step or by less than
/// 128.
proof fn lemma_held_error(x: int, s: int, q: int)
    requires
        s > 0,
        x <= 127 * (s + 1),
        abs(x * ONE - q * s) < s,
        q >= 127 * ONE,
    ensures
        abs(x - 127 * s) <= s + 127,
{
    assert(x - 127 * s >= -s) by (nonlinear_arith)
        requires
            s > 0,
            abs(x * ONE - q * s) < s,
            q >= 127 * ONE,
            ONE > 2,
    ;
}

/// Whatever the arithmetic and whatever is drawn, a stochastic code is that of the quotient
/// rounded down, or of one more.
pub proof fn stochastic_code_has_two_values<A: Arith>(x: A::F, s: A::F, u: A::F)
    ensures
        ({
            let f = A::ffloor_spec(A::fdiv_spec(x, s));
            let code = stochastic_code::<A>(x, s, u);
            ||| code == A::fto_i8_spec(clamped::<A>(A::fadd_spec(f, A::fint_spec(0))))
            ||| code == A::fto_i8_spec(clamped::<A>(A::fadd_spec(f, A::fint_spec(1))))
        }),
{
}

/// In fixed point, whatever is drawn, the stochastic code of an entry is the quotient by the
/// step rounded down, or one more where the fraction exceeds the draw, held to the range of
/// the codes; where the quotient is whole it is that. Restored, the entry is off by at most one
/// step, but for the rounding of the step and of the quotient: `s / 2^32` and 127 units.
pub proof fn stochastic_codes_are_the_floor_or_one_more(row: Seq<i64>, j: int, u: i64)
    requires
        0 <= j < row.len(),
        0 <= u,
    ensures
        ({
            let s = scale_of::<Fixed>(row);
            let q = quotient(row[j], s) as int;
            let f = q / (ONE as int);
            let code = stochastic_code::<Fixed>(row[j], s, u);
            let back = <Fixed as Arith>::fmul_spec(<Fixed as Arith>::fint_spec(code as int), s);
            &&& code == held(f) || code == held(f + 1)
            &&& code == held(
                f + if u < q % (ONE as int) {
                    1int
                } else {
                    0
                },
            )
            &&& q % (ONE as int) == 0 ==> code == held(f)
            &&& back == code * s
            &&& abs(row[j] - back) <= s + s as int / (ONE as int) + 127
        }),
{
    let x = row[j] as int;
    let s = scale_of::<Fixed>(row);
    let q = quotient(row[j], s) as int;
    lemma_row_quotient(row, j);
    lemma_drawn_code(row[j], s, u);
    let f = q / (ONE as int);
    let rest = q % (ONE as int);
    assert(q == f * ONE + rest) by {
        vstd::arithmetic::div_mod::lemma_fundamental_div_mod(q, ONE as int);
        assert(f * ONE == ONE * f) by (nonlinear_arith);
    }
    let n = f + if u < rest {
        1int
    } else {
        0
    };
    let code = stochastic_code::<Fixed>(row[j], s, u) as int;
    assert(code == held(n));
    lemma_whole_product(code, s);
    assert(<Fixed as Arith>::fint_spec(code) == code * ONE);
    if s == 0 {
        assert(code * s == 0) by (nonlinear_arith)
            requires
                s == 0,
        ;
    } else if n > 127 {
        assert(code * s == 127 * s) by (nonlinear_arith)
            requires
                code == 127,
        ;
        lemma_held_error(x, s as int, q);
    } else if n < -127 {
        assert(code * s == -127 * s) by (nonlinear_arith)
            requires
                code == -127,
        ;
        assert((-x) * ONE - (-q) * s == -(x * ONE - q * s)) by (nonlinear_arith);
        lemma_held_error(-x, s as int, -q);
    } else {
        assert(abs(n * ONE - q) < ONE);
        lemma_drawn_error(x, s as int, q, n);
    }
}

/// What a fixed-point row loses by its codes is at most a step, however they were rounded.
proof fn lemma_code_loss(m: Seq<Seq<i64>>, cols: int, state: Option<u64>, r: int, c: int)
    requires
        0 <= r < m.len(),
        0 <= c < m[r].len(),
    ensures
        ({
            let s = scale_of::<Fixed>(m[r]);
            let back = decoded::<Fixed>(codes_of::<Fixed>(m, cols, state), scales::<Fixed>(m))[r][c];
            abs(m[r][c] - back) <= s + s as int / (ONE as int) + 127
        }),
{
    let s = scale_of::<Fixed>(m[r]);
    match state {
        Some(seed) => {
            let k = r * cols + c;
            lemma_draw_bits_bound(seed, k);
            lemma_fixed_uniform(draw_bits(seed, k) as int);
            stochastic_codes_are_the_floor_or_one_more(m[r], c, draw::<Fixed>(seed, k));
        },
        None => {
            nearest_codes_lose_half_a_step(m[r], c);
            let over = s as int / (ONE as int);
            assert(s as int / 0x8000_0000 <= 2 * over + 1);
        },
    }
}

/// In fixed point, a compressed gradient of the weight is off by at most a step of its row, in
/// every entry, but for the rounding of the step and of the quotient; the rows of the targets
/// are not off at all.
pub proof fn compression_is_off_by_at_most_a_step(
    s: Setup<Fixed>,
    stochastic_rounding: bool,
    stochastic_seed: Option<u64>,
    exact: DistillationLossOutput<i64>,
    lossy: DistillationLossOutput<i64>,
    r: int,
    c: int,
)
    requires
        answers(exact, compressed(s, false, stochastic_rounding, stochastic_seed)),
        answers(lossy, compressed(s, true, stochastic_rounding, stochastic_seed)),
        0 <= r < s.v(),
        0 <= c < s.h(),
    ensures
        ({
            let step = scale_of::<Fixed>(exact.grad_weight@[r]);
            abs(lossy.grad_weight@[r][c] - exact.grad_weight@[r][c]) <= step + step as int / (
            ONE as int) + 127
        }),
        hit(s.labels, s.labels.len() as int, s.opts.ignore_index, s.v(), r)
            ==> lossy.grad_weight@[r][c] == exact.grad_weight@[r][c],
{
    compression_only_touches_the_weight_gradient(
        s,
        stochastic_rounding,
        stochastic_seed,
        exact,
        lossy,
    );
    let a = compressed(s, false, stochastic_rounding, stochastic_seed);
    let b = compressed(s, true, stochastic_rounding, stochastic_seed);
    lemma_same_terms(a, b);
    let w = exact.grad_weight@;
    assert(w == b.exact_weight_grad());
    exact.grad_weight.lemma_row_len(r);
    let state = rounding_state(b.opts.config);
    lemma_code_loss(w, s.h(), state, r, c);
    fixed_point_is_exact();
    let one = <Fixed as Arith>::fint_spec(1);
    let body = decoded::<Fixed>(codes_of::<Fixed>(w, s.h(), state), scales::<Fixed>(w));
    assert(<Fixed as Arith>::dmul_spec(w[r][c], <Fixed as Arith>::dint_spec(1)) == w[r][c]);
    assert(<Fixed as Arith>::dmul_spec(body[r][c], <Fixed as Arith>::dint_spec(1)) == body[r][c]);
    assert(<Fixed as Arith>::fmul_spec(w[r][c], one) == w[r][c]);
    assert(<Fixed as Arith>::fmul_spec(body[r][c], one) == body[r][c]);
    assert(body[r].len() == s.h());
    let step = scale_of::<Fixed>(w[r]);
    assert(step >= 0) by {
        lemma_row_quotient(w[r], c);
    }
}

/// The magnitude of a row is that of one of its entries, or zero.
proof fn lemma_magnitude_is_reached(row: Seq<i64>, n: int) -> (k: int)
    requires
        0 <= n <= row.len(),
    ensures
        magnitude::<Fixed>(row, n) >= 0,
        magnitude::<Fixed>(row, n) > 0 ==> 0 <= k < n && magnitude::<Fixed>(row, n) <= abs(
            row[k] as int,
        ),
    decreases n,
{
    if n <= 0 {
        assert(<Fixed as Arith>::fint_spec(0) == 0);
        0
    } else {
        let k = lemma_magnitude_is_reached(row, n - 1);
        let last = <Fixed as Arith>::fabs_spec(row[n - 1]);
        if magnitude::<Fixed>(row, n - 1) < last {
            n - 1
        } else {
            k
        }
    }
}

/// The step of a row is its largest magnitude over 127, rounded down: 127 steps and one unit for
/// each reach every entry, and 127 steps do not go past the largest of them.
pub proof fn step_is_the_largest_magnitude_over_127(row: Seq<i64>)
    ensures
        ({
            let s = scale_of::<Fixed>(row);
            &&& s >= 0
            &&& forall|i: int| 0 <= i < row.len() ==> abs(#[trigger] row[i] as int) <= 127 * (s + 1)
            &&& s > 0 ==> exists|i: int|
                0 <= i < row.len() && 127 * s <= abs(#[trigger] row[i] as int)
        }),
{
    let n = row.len() as int;
    let m = magnitude::<Fixed>(row, n);
    let k = lemma_magnitude_is_reached(row, n);
    let a = <Fixed as Arith>::fmax_spec(m, <Fixed as Arith>::fsmall_spec());
    lemma_fixed_scale(a);
    let s = scale_of::<Fixed>(row);
    assert(s == a as int / 127);
    assert forall|i: int| 0 <= i < row.len() implies abs(#[trigger] row[i] as int) <= 127 * (s + 1) by {
        lemma_magnitude(row, n, i);
    }
    if s > 0 {
        assert(0 <= k < n && 127 * s <= abs(row[k] as int));
    }
}

/// Rounding gives the nearest whole number, and of two that are equally near the even one.
pub proof fn rounding_is_to_nearest_with_ties_to_even(q: i64)
    requires
        -0x4000_0000_0000_0000 <= q <= 0x4000_0000_0000_0000,
    ensures
        ({
            let r = rounded::<Fixed>(q);
            &&& r as int % ONE as int == 0
            &&& abs(2 * (r - q)) <= ONE
            &&& abs(2 * (r - q)) == ONE ==> (r as int / ONE as int) % 2 == 0
        }),
{
    let one = <Fixed as Arith>::fint_spec(1);
    let two = <Fixed as Arith>::fint_spec(2);
    assert(one == ONE);
    assert(two == 2 * ONE);
    assert(quotient(one, two) == 0x8000_0000) by {
        assert(one * ONE == 0x1_0000_0000_0000_0000);
        assert(two == 0x2_0000_0000);
        assert(0x1_0000_0000_0000_0000int / 0x2_0000_0000int == 0x8000_0000);
        assert(toward_zero(one * ONE, two as int) == 0x8000_0000);
    }
    let f = <Fixed as Arith>::ffloor_spec(q);
    let w = q as int / 0x1_0000_0000;
    assert(f == 0x1_0000_0000 * w);
    assert((0x1_0000_0000 * w) % 0x1_0000_0000 == 0);
    assert((0x1_0000_0000 * w + 0x1_0000_0000) % 0x1_0000_0000 == 0);
    assert((0x1_0000_0000 * w) / 0x1_0000_0000 == w);
    assert((0x1_0000_0000 * w + 0x1_0000_0000) / 0x1_0000_0000 == w + 1);
    let i = <Fixed as Arith>::fto_i64_spec(f);
    assert(i == w) by {
        assert(abs(ONE as int) == 0x1_0000_0000);
        assert(w < 0 ==> abs(f as int) == 0x1_0000_0000 * (-w));
        assert((0x1_0000_0000 * (-w)) / 0x1_0000_0000 == -w);
    }
}

/// What comes down from above multiplies a restored gradient, kept rows and decoded rows alike.
pub proof fn upstream_gradient_multiplies_what_is_restored(
    g: GradWQuant<i64>,
    upstream: i64,
    r: int,
    c: int,
)
    requires
        0 <= r < restored::<Fixed>(g, ONE).len(),
        0 <= c < restored::<Fixed>(g, ONE)[r].len(),
    ensures
        restored::<Fixed>(g, upstream)[r][c] == product(restored::<Fixed>(g, ONE)[r][c], upstream),
{
    fixed_point_is_exact();
    assert(<Fixed as Arith>::dint_spec(1) == ONE);
    let body = decoded::<Fixed>(g.quant.codes(), g.quant.scale@);
    let row = if g.unique_targets@.contains(r as usize) {
        g.kept()[g.unique_targets@.index_of(r as usize)]
    } else {
        body[r]
    };
    assert(<Fixed as Arith>::dmul_spec(row[c], <Fixed as Arith>::dint_spec(1)) == row[c]);
}

/// A uniform number is what the next 64 bits are of 2^64, rounded down to a multiple of 2^-24;
/// in fixed point that is a multiple of 256 units.
pub proof fn draws_are_the_next_bits_rounded_down(s: u64)
    ensures
        ({
            let bits = mix(next_state(s)) as int;
            let u = draw::<Fixed>(s, 0) as int;
            &&& 0 <= u < ONE
            &&& u % 256 == 0
            &&& u * 0x1_0000_0000 <= bits < (u + 256) * 0x1_0000_0000
        }),
{
    reveal_with_fuel(state_after, 2);
    let b = mix(next_state(s));
    let k = draw_bits(s, 0);
    assert(k == b >> 40);
    assert(k as int * 0x100_0000_0000 <= b < (k + 1) * 0x100_0000_0000) by {
        assert(b >> 40 == b / 0x100_0000_0000) by (bit_vector);
    }
    lemma_draw_bits_bound(s, 0);
    lemma_fixed_uniform(k as int);
}

/// Each entry takes a draw of its own, one after the other through the rows: the codes of row
/// `r` are those of that row on its own, from the state after the draws of the rows before it,
/// and entry `c` takes the draw after `c` more.
pub proof fn each_entry_takes_the_next_draw<A: Arith>(
    m: Seq<Seq<A::F>>,
    cols: int,
    s: u64,
    r: int,
    c: int,
)
    requires
        0 <= r < m.len(),
        0 <= c < cols,
        m[r].len() == cols,
    ensures
        stochastic_codes::<A>(m, cols, s)[r][c] == stochastic_codes::<A>(
            seq![m[r]],
            cols,
            state_after(s, r * cols),
        )[0][c],
        stochastic_codes::<A>(seq![m[r]], cols, s)[0][c] == stochastic_code::<A>(
            m[r][c],
            scale_of::<A>(m[r]),
            draw::<A>(state_after(s, c), 0),
        ),
{
    assert(0 <= r * cols) by (nonlinear_arith)
        requires
            0 <= r,
            0 <= cols,
    ;
    assert(0 * cols == 0) by (nonlinear_arith);
    lemma_state_after_adds(s, r * cols, c + 1);
    lemma_state_after_adds(s, c, 1);
}

} // verus!
