//! Stable softmax over one row of wide numbers, in three passes: the largest entry,
//! the sum of the exponentials below it, and then each probability.

use vstd::prelude::*;
use crate::arith::Arith;

verus! {

/// A row of narrow numbers, widened.
pub open spec fn widened<A: Arith>(x: Seq<A::F>) -> Seq<A::D> {
    Seq::new(x.len(), |i: int| A::widen_spec(x[i]))
}

/// A row times a factor.
pub open spec fn tempered<A: Arith>(z: Seq<A::D>, inv_t: A::D) -> Seq<A::D> {
    Seq::new(z.len(), |i: int| A::dmul_spec(z[i], inv_t))
}

/// The largest of the first `n` entries: the last one found that exceeds all before it.
pub open spec fn peak<A: Arith>(z: Seq<A::D>, n: int) -> A::D
    decreases n,
{
    if n <= 0 {
        A::dlowest_spec()
    } else {
        let before = peak::<A>(z, n - 1);
        if A::dlt_spec(before, z[n - 1]) {
            z[n - 1]
        } else {
            before
        }
    }
}

/// The largest of the first `n` entries, as the maximum operation gives it.
pub open spec fn peak_by_max<A: Arith>(z: Seq<A::D>, n: int) -> A::D
    decreases n,
{
    if n <= 0 {
        A::dlowest_spec()
    } else {
        A::dmax_spec(peak_by_max::<A>(z, n - 1), z[n - 1])
    }
}

/// The sum of `exp(z - m)` over the first `n` entries, added up from the left.
pub open spec fn exp_sum<A: Arith>(z: Seq<A::D>, m: A::D, n: int) -> A::D
    decreases n,
{
    if n <= 0 {
        A::dint_spec(0)
    } else {
        A::dadd_spec(exp_sum::<A>(z, m, n - 1), A::dexp_spec(A::dsub_spec(z[n - 1], m)))
    }
}

/// The sum of the first `n` entries, added up from the left.
pub open spec fn total<A: Arith>(z: Seq<A::D>, n: int) -> A::D
    decreases n,
{
    if n <= 0 {
        A::dint_spec(0)
    } else {
        A::dadd_spec(total::<A>(z, n - 1), z[n - 1])
    }
}

/// The probabilities of a row whose entries are taken relative to `m`.
pub open spec fn softmax<A: Arith>(z: Seq<A::D>, m: A::D) -> Seq<A::D> {
    Seq::new(
        z.len(),
        |j: int|
            A::ddiv_spec(A::dexp_spec(A::dsub_spec(z[j], m)), exp_sum::<A>(z, m, z.len() as int)),
    )
}

/// Their logarithms.
pub open spec fn log_softmax<A: Arith>(z: Seq<A::D>, m: A::D) -> Seq<A::D> {
    Seq::new(
        z.len(),
        |j: int|
            A::dsub_spec(A::dsub_spec(z[j], m), A::dln_spec(exp_sum::<A>(z, m, z.len() as int))),
    )
}

/// Widen a row.
pub fn widen_row<A: Arith>(x: &[A::F]) -> (z: Vec<A::D>)
    ensures
        z@ == widened::<A>(x@),
{
    let n: usize = x.len();
    let mut z: Vec<A::D> = Vec::new();
    for i in 0..n
        invariant
            n == x@.len(),
            z@ == widened::<A>(x@).subrange(0, i as int),
    {
        z.push(A::widen(x[i]));
        assert(z@ =~= widened::<A>(x@).subrange(0, i + 1));
    }
    assert(z@ =~= widened::<A>(x@));
    z
}

/// Multiply a row by a factor.
pub fn temper_row<A: Arith>(x: &[A::D], inv_t: A::D) -> (z: Vec<A::D>)
    ensures
        z@ == tempered::<A>(x@, inv_t),
{
    let n: usize = x.len();
    let mut z: Vec<A::D> = Vec::new();
    for i in 0..n
        invariant
            n == x@.len(),
            z@ == tempered::<A>(x@, inv_t).subrange(0, i as int),
    {
        z.push(A::dmul(x[i], inv_t));
        assert(z@ =~= tempered::<A>(x@, inv_t).subrange(0, i + 1));
    }
    assert(z@ =~= tempered::<A>(x@, inv_t));
    z
}

/// The largest entry of a row.
pub fn row_peak<A: Arith>(z: &[A::D]) -> (m: A::D)
    ensures
        m == peak::<A>(z@, z@.len() as int),
{
    let n: usize = z.len();
    let mut m = A::dlowest();
    for i in 0..n
        invariant
            n == z@.len(),
            m == peak::<A>(z@, i as int),
    {
        if A::dlt(m, z[i]) {
            m = z[i];
        }
    }
    m
}

/// The largest entry of a row, by the maximum operation.
pub fn row_peak_by_max<A: Arith>(z: &[A::D]) -> (m: A::D)
    ensures
        m == peak_by_max::<A>(z@, z@.len() as int),
{
    let n: usize = z.len();
    let mut m = A::dlowest();
    for i in 0..n
        invariant
            n == z@.len(),
            m == peak_by_max::<A>(z@, i as int),
    {
        m = A::dmax(m, z[i]);
    }
    m
}

/// The sum of the exponentials of a row relative to `m`.
pub fn row_exp_sum<A: Arith>(z: &[A::D], m: A::D) -> (d: A::D)
    ensures
        d == exp_sum::<A>(z@, m, z@.len() as int),
{
    let n: usize = z.len();
    let mut d = A::dint(0);
    for i in 0..n
        invariant
            n == z@.len(),
            d == exp_sum::<A>(z@, m, i as int),
    {
        d = A::dadd(d, A::dexp(A::dsub(z[i], m)));
    }
    d
}

/// The sum of a row.
pub fn row_total<A: Arith>(z: &[A::D]) -> (s: A::D)
    ensures
        s == total::<A>(z@, z@.len() as int),
{
    let n: usize = z.len();
    let mut s = A::dint(0);
    for i in 0..n
        invariant
            n == z@.len(),
            s == total::<A>(z@, i as int),
    {
        s = A::dadd(s, z[i]);
    }
    s
}

/// The probabilities of a row relative to `m`, and their logarithms.
pub fn softmax_relative<A: Arith>(z: &[A::D], m: A::D) -> (r: (Vec<A::D>, Vec<A::D>))
    ensures
        r.0@ == softmax::<A>(z@, m),
        r.1@ == log_softmax::<A>(z@, m),
{
    let n: usize = z.len();
    let d = row_exp_sum::<A>(z, m);
    let log_d = A::dln(d);
    let mut p: Vec<A::D> = Vec::new();
    let mut log_p: Vec<A::D> = Vec::new();
    for i in 0..n
        invariant
            n == z@.len(),
            d == exp_sum::<A>(z@, m, n as int),
            log_d == A::dln_spec(d),
            p@ == softmax::<A>(z@, m).subrange(0, i as int),
            log_p@ == log_softmax::<A>(z@, m).subrange(0, i as int),
    {
        let zc = A::dsub(z[i], m);
        p.push(A::ddiv(A::dexp(zc), d));
        log_p.push(A::dsub(zc, log_d));
        assert(p@ =~= softmax::<A>(z@, m).subrange(0, i + 1));
        assert(log_p@ =~= log_softmax::<A>(z@, m).subrange(0, i + 1));
    }
    assert(p@ =~= softmax::<A>(z@, m));
    assert(log_p@ =~= log_softmax::<A>(z@, m));
    (p, log_p)
}

} // verus!
