//! Fixed-point arithmetic.
//!
//! Numbers are 64-bit integers that count units of 2^-32. Sums wrap around, so adding up
//! is associative and a sum does not depend on how it was split; products and quotients
//! round towards zero and saturate. The exponential and the logarithm interpolate linearly
//! between powers of two (Mitchell's method). The results are the same on every machine.
//! The least magnitude by which a row is scaled is one unit, so the scale of a row of fewer
//! than 127 units is zero, and so are its codes.

use vstd::prelude::*;
use vstd::arithmetic::logarithm::log;
use vstd::arithmetic::power2::pow2;
use crate::arith::Arith;

verus! {

/// The number one.
pub const ONE: i64 = 0x1_0000_0000;

/// The binary logarithm of e.
pub const LOG2_E: i64 = 0x1_7154_7653;

/// The natural logarithm of two.
pub const LN_2: i64 = 0xb172_17f8;

/// Arithmetic on 64-bit fixed-point numbers; the wide numbers are the narrow ones.
#[derive(Clone, Copy, Debug)]
pub struct Fixed;

/// `x`, or the end of the range that it is past.
pub open spec fn saturated(x: int) -> i64 {
    if x > i64::MAX {
        i64::MAX
    } else if x < i64::MIN {
        i64::MIN
    } else {
        x as i64
    }
}

pub open spec fn abs(x: int) -> int {
    if x < 0 {
        -x
    } else {
        x
    }
}

/// The quotient `n / d`, rounded towards zero.
pub open spec fn toward_zero(n: int, d: int) -> int {
    if (n < 0) == (d < 0) {
        abs(n) / abs(d)
    } else {
        -(abs(n) / abs(d))
    }
}

/// The product of two fixed-point numbers.
pub open spec fn product(a: i64, b: i64) -> i64 {
    saturated(toward_zero(a * b, ONE as int))
}

/// The quotient of two fixed-point numbers; zero where the divisor is.
pub open spec fn quotient(a: i64, b: i64) -> i64 {
    if b == 0 {
        0
    } else {
        saturated(toward_zero(a * ONE, b as int))
    }
}

/// The exponential: `2^(x * log2(e))`, the fraction of the exponent taken linearly.
pub open spec fn exponential(x: i64) -> i64 {
    let t = toward_zero(x * LOG2_E, ONE as int);
    let n = t / (ONE as int);
    let m = ONE + t % (ONE as int);
    if n >= 0 {
        saturated(m * pow2(n as nat))
    } else {
        (m / (pow2((-n) as nat) as int)) as i64
    }
}

/// The natural logarithm: the place of the leading bit, and the rest taken linearly, times
/// the logarithm of two. The lowest number where there is no logarithm.
pub open spec fn logarithm(x: i64) -> i64 {
    if x <= 0 {
        i64::MIN
    } else {
        let k = log(2, x as int);
        let m = (x * ONE) / (pow2(k as nat) as int) - ONE;
        toward_zero(((k - 32) * ONE + m) * LN_2, ONE as int) as i64
    }
}

fn saturate(x: i128) -> (r: i64)
    ensures
        r == saturated(x as int),
{
    if x > 0x7fff_ffff_ffff_ffff {
        i64::MAX
    } else if x < -0x8000_0000_0000_0000 {
        i64::MIN
    } else {
        x as i64
    }
}

fn magnitude(x: i128) -> (r: u128)
    requires
        x > i128::MIN,
    ensures
        r == abs(x as int),
{
    if x < 0 {
        (-x) as u128
    } else {
        x as u128
    }
}

fn divide(n: i128, d: i128) -> (r: i128)
    requires
        n > i128::MIN,
        d > i128::MIN,
        d != 0,
    ensures
        r == toward_zero(n as int, d as int),
{
    let a = magnitude(n);
    let b = magnitude(d);
    let q: u128 = a / b;
    assert(q <= a) by (nonlinear_arith)
        requires
            q == a / b,
            b > 0,
    ;
    if (n < 0) == (d < 0) {
        q as i128
    } else {
        -(q as i128)
    }
}

/// The product of two 64-bit numbers fits in 128 bits.
proof fn lemma_product_fits(a: int, b: int)
    requires
        -0x8000_0000_0000_0000 <= a <= 0x8000_0000_0000_0000,
        -0x8000_0000_0000_0000 <= b <= 0x8000_0000_0000_0000,
    ensures
        -0x4000_0000_0000_0000_0000_0000_0000_0000 <= a * b
            <= 0x4000_0000_0000_0000_0000_0000_0000_0000,
{
    assert(-0x4000_0000_0000_0000_0000_0000_0000_0000 <= a * b
        <= 0x4000_0000_0000_0000_0000_0000_0000_0000) by (nonlinear_arith)
        requires
            -0x8000_0000_0000_0000 <= a <= 0x8000_0000_0000_0000,
            -0x8000_0000_0000_0000 <= b <= 0x8000_0000_0000_0000,
    ;
}

/// Dividing by one drops the fraction of a number.
proof fn lemma_over_one(n: int)
    ensures
        toward_zero(n, ONE as int) == if n < 0 {
            -((-n) / 0x1_0000_0000)
        } else {
            n / 0x1_0000_0000
        },
{
}

fn fixed_mul(a: i64, b: i64) -> (r: i64)
    ensures
        r == product(a, b),
{
    proof {
        lemma_product_fits(a as int, b as int);
    }
    saturate(divide(a as i128 * b as i128, ONE as i128))
}

fn fixed_div(a: i64, b: i64) -> (r: i64)
    ensures
        r == quotient(a, b),
{
    if b == 0 {
        return 0;
    }
    proof {
        lemma_product_fits(a as int, ONE as int);
    }
    saturate(divide(a as i128 * ONE as i128, b as i128))
}

/// The quotient by one, rounded down, and the rest.
fn split(t: i128) -> (r: (i128, i128))
    requires
        -0x8000_0000_0000_0000_0000 < t < 0x8000_0000_0000_0000_0000,
    ensures
        r.0 == t as int / ONE as int,
        r.1 == t as int % ONE as int,
{
    let one: i128 = ONE as i128;
    if t >= 0 {
        (t / one, t % one)
    } else {
        let up: i128 = (-t + (one - 1)) / one;
        let rest: i128 = t + up * one;
        proof {
            vstd::arithmetic::div_mod::lemma_fundamental_div_mod_converse(
                t as int,
                one as int,
                -up as int,
                rest as int,
            );
        }
        (-up, rest)
    }
}

proof fn lemma_pow2_halves(k: nat)
    requires
        k > 0,
    ensures
        pow2(k) == 2 * pow2((k - 1) as nat),
        pow2((k - 1) as nat) > 0,
{
    vstd::arithmetic::power2::lemma_pow2_unfold(k);
    vstd::arithmetic::power2::lemma_pow2_pos((k - 1) as nat);
}

/// `m` times a power of two, where that is not large.
fn shift_up(m: i128, n: u32) -> (r: i128)
    requires
        0 <= m < 0x2_0000_0000,
        n <= 31,
    ensures
        r == m * pow2(n as nat),
{
    let mut r: i128 = m;
    proof {
        vstd::arithmetic::power2::lemma2_to64();
    }
    let mut i: u32 = 0;
    while i < n
        invariant
            0 <= m < 0x2_0000_0000,
            i <= n <= 31,
            r == m * pow2(i as nat),
        decreases n - i,
    {
        proof {
            lemma_pow2_halves((i + 1) as nat);
            vstd::arithmetic::power2::lemma2_to64();
            if i < 31 {
                vstd::arithmetic::power2::lemma_pow2_strictly_increases(i as nat, 31);
            }
            let p = pow2(i as nat) as int;
            assert(m * p <= 0x2_0000_0000 * 0x8000_0000) by (nonlinear_arith)
                requires
                    0 <= m < 0x2_0000_0000,
                    0 <= p <= 0x8000_0000,
            ;
            assert(m * (2 * p) == 2 * (m * p)) by (nonlinear_arith);
        }
        r = 2 * r;
        i = i + 1;
    }
    r
}

/// `m` over a power of two, rounded down.
fn shift_down(m: i128, n: u32) -> (r: i128)
    requires
        0 <= m,
        n <= 64,
    ensures
        r == m as int / pow2(n as nat) as int,
        0 <= r <= m,
{
    let mut r: i128 = m;
    proof {
        vstd::arithmetic::power2::lemma2_to64();
    }
    let mut i: u32 = 0;
    while i < n
        invariant
            0 <= r <= m,
            i <= n,
            r == m as int / pow2(i as nat) as int,
        decreases n - i,
    {
        proof {
            lemma_pow2_halves((i + 1) as nat);
            vstd::arithmetic::div_mod::lemma_div_denominator(m as int, pow2(i as nat) as int, 2);
            assert(pow2(i as nat) * 2 == pow2((i + 1) as nat));
        }
        r = r / 2;
        i = i + 1;
    }
    r
}

fn fixed_exp(x: i64) -> (r: i64)
    ensures
        r == exponential(x),
{
    proof {
        lemma_product_fits(x as int, LOG2_E as int);
    }
    let wide: i128 = x as i128 * LOG2_E as i128;
    assert(-0x8000_0000_0000_0000 * 0x2_0000_0000 <= wide <= 0x8000_0000_0000_0000 * 0x2_0000_0000)
        by (nonlinear_arith)
        requires
            wide == x * LOG2_E,
            -0x8000_0000_0000_0000 <= x <= 0x8000_0000_0000_0000,
            0 <= LOG2_E <= 0x2_0000_0000,
    ;
    proof {
        lemma_over_one(wide as int);
    }
    let t: i128 = divide(wide, ONE as i128);
    let (n, rest) = split(t);
    let m: i128 = ONE as i128 + rest;
    if n >= 31 {
        proof {
            vstd::arithmetic::power2::lemma2_to64();
            if n > 31 {
                vstd::arithmetic::power2::lemma_pow2_strictly_increases(31, n as nat);
            }
            let p = pow2(n as nat) as int;
            assert(m * p >= 0x1_0000_0000 * 0x8000_0000) by (nonlinear_arith)
                requires
                    m >= 0x1_0000_0000,
                    p >= 0x8000_0000,
            ;
        }
        i64::MAX
    } else if n >= 0 {
        saturate(shift_up(m, n as u32))
    } else if n > -64 {
        shift_down(m, (-n) as u32) as i64
    } else {
        proof {
            vstd::arithmetic::power2::lemma2_to64_rest();
            vstd::arithmetic::power2::lemma_pow2_strictly_increases(33, (-n) as nat);
            vstd::arithmetic::div_mod::lemma_basic_div(m as int, pow2((-n) as nat) as int);
        }
        0
    }
}

fn fixed_ln(x: i64) -> (r: i64)
    ensures
        r == logarithm(x),
{
    if x <= 0 {
        return i64::MIN;
    }
    let wide: i128 = x as i128;
    let mut p: i128 = 1;
    let mut k: i128 = 0;
    proof {
        vstd::arithmetic::power2::lemma2_to64();
    }
    while 2 * p <= wide
        invariant
            wide == x,
            1 <= wide <= 0x7fff_ffff_ffff_ffff,
            1 <= p <= wide,
            0 <= k < 63,
            p == pow2(k as nat),
        decreases wide - p,
    {
        proof {
            lemma_pow2_halves((k + 1) as nat);
            vstd::arithmetic::power2::lemma2_to64_rest();
            if k + 1 > 62 {
                assert(pow2(63) > wide);
            }
        }
        p = 2 * p;
        k = k + 1;
    }
    proof {
        lemma_pow2_halves((k + 1) as nat);
        crate::resolver::lemma_log2_between(x as int, k as nat);
        lemma_product_fits(x as int, ONE as int);
    }
    let scaled: i128 = wide * ONE as i128;
    let m: i128 = scaled / p - ONE as i128;
    assert(0 <= m < 0x1_0000_0000) by (nonlinear_arith)
        requires
            m == scaled / p - 0x1_0000_0000,
            scaled == wide * 0x1_0000_0000,
            1 <= p <= wide < 2 * p,
    ;
    let exponent: i128 = (k - 32) * ONE as i128 + m;
    assert(-0x40_0000_0000 * 0x1_0000_0000 <= exponent * LN_2 <= 0x40_0000_0000 * 0x1_0000_0000)
        by (nonlinear_arith)
        requires
            -0x40_0000_0000 <= exponent <= 0x40_0000_0000,
            0 <= LN_2 <= 0x1_0000_0000,
    ;
    proof {
        lemma_over_one(exponent * LN_2);
    }
    let t: i128 = divide(exponent * LN_2 as i128, ONE as i128);
    t as i64
}

impl Arith for Fixed {
    type F = i64;

    type D = i64;

    open spec fn fint_spec(n: int) -> i64 {
        saturated(n * ONE)
    }

    fn fint(n: i128) -> (r: i64) {
        if n > 0x7fff_ffff {
            i64::MAX
        } else if n < -0x8000_0000 {
            i64::MIN
        } else {
            proof {
                lemma_product_fits(n as int, ONE as int);
            }
            saturate(n * ONE as i128)
        }
    }

    open spec fn fsmall_spec() -> i64 {
        1
    }

    fn fsmall() -> (r: i64) {
        1
    }

    open spec fn fadd_spec(a: i64, b: i64) -> i64 {
        a.wrapping_add(b)
    }

    fn fadd(a: i64, b: i64) -> (r: i64) {
        a.wrapping_add(b)
    }

    open spec fn fsub_spec(a: i64, b: i64) -> i64 {
        a.wrapping_sub(b)
    }

    fn fsub(a: i64, b: i64) -> (r: i64) {
        a.wrapping_sub(b)
    }

    open spec fn fmul_spec(a: i64, b: i64) -> i64 {
        product(a, b)
    }

    fn fmul(a: i64, b: i64) -> (r: i64) {
        fixed_mul(a, b)
    }

    open spec fn fdiv_spec(a: i64, b: i64) -> i64 {
        quotient(a, b)
    }

    fn fdiv(a: i64, b: i64) -> (r: i64) {
        fixed_div(a, b)
    }

    open spec fn fmax_spec(a: i64, b: i64) -> i64 {
        if a < b {
            b
        } else {
            a
        }
    }

    fn fmax(a: i64, b: i64) -> (r: i64) {
        if a < b {
            b
        } else {
            a
        }
    }

    open spec fn fabs_spec(a: i64) -> i64 {
        saturated(abs(a as int))
    }

    fn fabs(a: i64) -> (r: i64) {
        if a == i64::MIN {
            i64::MAX
        } else if a < 0 {
            -a
        } else {
            a
        }
    }

    open spec fn ffloor_spec(a: i64) -> i64 {
        (a - a as int % ONE as int) as i64
    }

    fn ffloor(a: i64) -> (r: i64) {
        let (_whole, rest) = split(a as i128);
        (a as i128 - rest) as i64
    }

    open spec fn flowest_spec() -> i64 {
        i64::MIN
    }

    fn flowest() -> (r: i64) {
        i64::MIN
    }

    open spec fn fexp_spec(a: i64) -> i64 {
        exponential(a)
    }

    fn fexp(a: i64) -> (r: i64) {
        fixed_exp(a)
    }

    open spec fn fln_spec(a: i64) -> i64 {
        logarithm(a)
    }

    fn fln(a: i64) -> (r: i64) {
        fixed_ln(a)
    }

    open spec fn flt_spec(a: i64, b: i64) -> bool {
        a < b
    }

    fn flt(a: i64, b: i64) -> (r: bool) {
        a < b
    }

    open spec fn fle_spec(a: i64, b: i64) -> bool {
        a <= b
    }

    fn fle(a: i64, b: i64) -> (r: bool) {
        a <= b
    }

    open spec fn feq_spec(a: i64, b: i64) -> bool {
        a == b
    }

    fn feq(a: i64, b: i64) -> (r: bool) {
        a == b
    }

    open spec fn fto_i64_spec(a: i64) -> i64 {
        toward_zero(a as int, ONE as int) as i64
    }

    fn fto_i64(a: i64) -> (r: i64) {
        divide(a as i128, ONE as i128) as i64
    }

    open spec fn fto_i8_spec(a: i64) -> i8 {
        let whole = toward_zero(a as int, ONE as int);
        if whole > 127 {
            127i8
        } else if whole < -128 {
            (-128) as i8
        } else {
            whole as i8
        }
    }

    fn fto_i8(a: i64) -> (r: i8) {
        let whole: i128 = divide(a as i128, ONE as i128);
        if whole > 127 {
            127
        } else if whole < -128 {
            -128
        } else {
            whole as i8
        }
    }

    open spec fn widen_spec(a: i64) -> i64 {
        a
    }

    fn widen(a: i64) -> (r: i64) {
        a
    }

    open spec fn narrow_spec(a: i64) -> i64 {
        a
    }

    fn narrow(a: i64) -> (r: i64) {
        a
    }

    open spec fn dint_spec(n: int) -> i64 {
        saturated(n * ONE)
    }

    fn dint(n: i128) -> (r: i64) {
        Self::fint(n)
    }

    open spec fn dlowest_spec() -> i64 {
        i64::MIN
    }

    fn dlowest() -> (r: i64) {
        i64::MIN
    }

    open spec fn dadd_spec(a: i64, b: i64) -> i64 {
        a.wrapping_add(b)
    }

    fn dadd(a: i64, b: i64) -> (r: i64) {
        a.wrapping_add(b)
    }

    open spec fn dsub_spec(a: i64, b: i64) -> i64 {
        a.wrapping_sub(b)
    }

    fn dsub(a: i64, b: i64) -> (r: i64) {
        a.wrapping_sub(b)
    }

    open spec fn dmul_spec(a: i64, b: i64) -> i64 {
        product(a, b)
    }

    fn dmul(a: i64, b: i64) -> (r: i64) {
        fixed_mul(a, b)
    }

    open spec fn ddiv_spec(a: i64, b: i64) -> i64 {
        quotient(a, b)
    }

    fn ddiv(a: i64, b: i64) -> (r: i64) {
        fixed_div(a, b)
    }

    open spec fn dmax_spec(a: i64, b: i64) -> i64 {
        if a < b {
            b
        } else {
            a
        }
    }

    fn dmax(a: i64, b: i64) -> (r: i64) {
        if a < b {
            b
        } else {
            a
        }
    }

    open spec fn dexp_spec(a: i64) -> i64 {
        exponential(a)
    }

    fn dexp(a: i64) -> (r: i64) {
        fixed_exp(a)
    }

    open spec fn dln_spec(a: i64) -> i64 {
        logarithm(a)
    }

    fn dln(a: i64) -> (r: i64) {
        fixed_ln(a)
    }

    open spec fn dlt_spec(a: i64, b: i64) -> bool {
        a < b
    }

    fn dlt(a: i64, b: i64) -> (r: bool) {
        a < b
    }

    open spec fn deq_spec(a: i64, b: i64) -> bool {
        a == b
    }

    fn deq(a: i64, b: i64) -> (r: bool) {
        a == b
    }
}

} // verus!
