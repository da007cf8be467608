//! How a batch is cut, in terms of rows, classes and limits alone.

#![allow(unused_imports)]

use vstd::prelude::*;
use vstd::arithmetic::logarithm::log;
use vstd::arithmetic::power2::pow2;
use crate::resolver::{
    chunk_count, default_limit, is_schedule, lemma_ceiling, lemma_log2_bounds, min, plan_chunks,
    plan_rows, pressure_num, schedule_limit, ChunkSize, PRESSURE_DEN,
};

verus! {

/// A chunk count above one is paid for by the pressure: three quarters of some power of two
/// that is no less.
proof fn lemma_count_is_paid_for(num: int) -> (k: nat)
    requires
        num >= 0,
    ensures
        chunk_count(num, 0x100_0000_0000) == pow2(k),
        k <= 60,
        k > 0 ==> 3 * 0x100_0000_0000 * pow2(k) <= 4 * num,
        k < 60 ==> 2 * num < 3 * 0x100_0000_0000 * pow2(k),
{
    let d = 3 * 0x100_0000_0000int;
    vstd::arithmetic::power2::lemma2_to64();
    if 2 * num < d {
        0
    } else {
        let q = (2 * num) / d;
        lemma_log2_bounds(q);
        let e = log(2, q) as nat;
        vstd::arithmetic::power2::lemma_pow2_unfold(e + 1);
        assert(0x300_0000_0000 * q <= 2 * num < 0x300_0000_0000 * (q + 1));
        if e + 1 <= 60 {
            assert(pow2(e + 1) <= 2 * q);
            e + 1
        } else {
            vstd::arithmetic::power2::lemma_pow2_unfold(60);
            if e > 59 {
                vstd::arithmetic::power2::lemma_pow2_strictly_increases(59, e);
            }
            assert(pow2(60) <= 2 * pow2(e) <= 2 * q);
            60
        }
    }
}

/// The larger of two products with the same factor.
proof fn lemma_pressure(bt: int, v: int)
    requires
        bt > 0,
        v >= 0,
    ensures
        v >= 16384 ==> pressure_num(bt, v) == bt * (v * v),
        v <= 16384 ==> pressure_num(bt, v) == bt * 0x1000_0000,
        pressure_num(bt, v) >= 0,
{
    assert(v >= 16384 ==> v * v >= 0x1000_0000) by (nonlinear_arith);
    assert(0 <= v <= 16384 ==> v * v <= 0x1000_0000) by (nonlinear_arith);
    assert(0 <= v ==> v * v >= 0) by (nonlinear_arith);
    assert(bt * (v * v) >= 0 && bt * 0x1000_0000 >= 0) by (nonlinear_arith)
        requires
            bt > 0,
            v * v >= 0,
    ;
}

/// Where no limit binds, the number of chunks is a power of two that follows the pressure on
/// memory: with a large vocabulary the pressure is `(BT / 1024) * (V / 32768)^2`, with a small
/// one `BT / 4096`, and it lies between three quarters of the number of chunks and one and a
/// half times that. One chunk is enough up to a pressure of one and a half.
pub proof fn chunks_follow_the_pressure(bt: usize, v: usize, max_chunks: Option<usize>)
    requires
        bt > 0,
    ensures
        ({
            let n = plan_chunks(bt as int, ChunkSize::Auto, Some(v), max_chunks);
            let free = 512 * n < bt - 511 && (max_chunks matches Some(m) ==> n < m);
            &&& n > 1 && v >= 16384 ==> 3 * n * 0x100_0000_0000 <= 4 * bt * (v * v)
            &&& n > 1 && v <= 16384 ==> 3 * n * 4096 <= 4 * bt
            &&& free && v >= 16384 ==> 2 * bt * (v * v) < 3 * n * 0x100_0000_0000
            &&& free && v <= 16384 ==> 2 * bt < 3 * n * 4096
            &&& free ==> exists|k: nat| n == #[trigger] pow2(k)
        }),
{
    let b = bt as int;
    let c = v as int;
    let n = plan_chunks(b, ChunkSize::Auto, Some(v), max_chunks);
    let num = pressure_num(b, c);
    lemma_pressure(b, c);
    let k = lemma_count_is_paid_for(num);
    let raw = chunk_count(num, PRESSURE_DEN as int);
    assert(raw == pow2(k));
    assert(4 * bt * (v * v) == 4 * (b * (c * c)) && 2 * bt * (v * v) == 2 * (b * (c * c)))
        by (nonlinear_arith)
        requires
            b == bt,
            c == v,
    ;
    vstd::arithmetic::power2::lemma2_to64();
    vstd::arithmetic::power2::lemma2_to64_rest();
    let free = 512 * n < bt - 511 && (max_chunks matches Some(m) ==> n < m);
    if free {
        assert(n < b / 512);
        assert(n == raw);
        assert(k < 60) by {
            if k == 60 {
                assert(n < 0x80_0000_0000_0000);
            }
        }
        assert(n == pow2(k));
    }
    if n > 1 {
        assert(k > 0);
        assert(n <= raw);
    }
}

/// `c` chunks are within what the pressure of `BT` rows and `V` classes asks for.
pub open spec fn pressed(bt: usize, v: usize, c: int) -> bool {
    if v >= 16384 {
        3 * c * 0x100_0000_0000 <= 4 * bt * (v * v)
    } else {
        3 * c * 4096 <= 4 * bt
    }
}

/// Limits cut the number of chunks off: there is no more than one chunk for each 512 rows, and
/// no more than the caller allows, and never more than a power of two that the pressure asks
/// for.
pub proof fn chunks_stay_within_limits(bt: usize, v: usize, max_chunks: Option<usize>)
    requires
        bt > 0,
    ensures
        ({
            let n = plan_chunks(bt as int, ChunkSize::Auto, Some(v), max_chunks);
            &&& n >= 1
            &&& n > 1 ==> 512 * n <= bt
            &&& n > 1 ==> (max_chunks matches Some(m) ==> n <= m)
            &&& n > 1 ==> exists|k: nat| n <= #[trigger] pow2(k) && pressed(bt, v, pow2(k) as int)
        }),
{
    let b = bt as int;
    let w = v as int;
    let n = plan_chunks(b, ChunkSize::Auto, Some(v), max_chunks);
    let num = pressure_num(b, w);
    lemma_pressure(b, w);
    let k = lemma_count_is_paid_for(num);
    assert(4 * bt * (v * v) == 4 * (b * (w * w))) by (nonlinear_arith)
        requires
            b == bt,
            w == v,
    ;
    if n > 1 {
        assert(n <= pow2(k));
        vstd::arithmetic::power2::lemma2_to64();
        assert(pressed(bt, v, pow2(k) as int));
    }
}

/// Nothing else cuts it off: a number of chunks within those limits is reached.
pub proof fn chunks_reach_the_limits(bt: usize, v: usize, max_chunks: Option<usize>, k: nat, c: int)
    requires
        bt > 0,
        k <= 60,
        1 <= c <= pow2(k),
        pressed(bt, v, pow2(k) as int),
        512 * c <= bt,
        max_chunks matches Some(m) ==> c <= m,
    ensures
        plan_chunks(bt as int, ChunkSize::Auto, Some(v), max_chunks) >= c,
{
    let b = bt as int;
    let w = v as int;
    let num = pressure_num(b, w);
    lemma_pressure(b, w);
    let e = lemma_count_is_paid_for(num);
    assert(4 * bt * (v * v) == 4 * (b * (w * w))) by (nonlinear_arith)
        requires
            b == bt,
            w == v,
    ;
    assert(3 * pow2(k) * 0x100_0000_0000 <= 4 * num);
    // The power is no more than the chunk count: twice the count would be past the pressure.
    assert(pow2(k) <= pow2(e)) by {
        if k > e {
            vstd::arithmetic::power2::lemma_pow2_unfold(e + 1);
            if k > e + 1 {
                vstd::arithmetic::power2::lemma_pow2_strictly_increases(e + 1, k);
            }
        } else if k < e {
            vstd::arithmetic::power2::lemma_pow2_strictly_increases(k, e);
        }
    }
    assert(c <= b / 512);
}

/// The rows are spread evenly: the chunks cover the rows, and one row less in each would not.
/// A size that the caller gives is kept, up to the rows there are. Without a vocabulary there
/// is one chunk.
pub proof fn chunks_share_the_rows(
    bt: usize,
    size: ChunkSize,
    v: Option<usize>,
    max_chunks: Option<usize>,
)
    requires
        bt > 0,
    ensures
        ({
            let n = plan_chunks(bt as int, size, v, max_chunks);
            let rows = plan_rows(bt as int, size, v, max_chunks);
            &&& n * rows >= bt
            &&& size is Auto ==> n * (rows - 1) < bt
            &&& size is Auto && v is None ==> n == 1
            &&& size matches ChunkSize::Fixed(cs) ==> {
                &&& (n - 1) * rows < bt
                &&& 1 <= cs <= bt ==> rows == cs
                &&& cs > bt ==> rows == bt
                &&& cs == 0 ==> rows == 1
            }
        }),
{
    let n = plan_chunks(bt as int, size, v, max_chunks);
    let rows = plan_rows(bt as int, size, v, max_chunks);
    match size {
        ChunkSize::Auto => {
            if v is Some {
                lemma_ceiling(bt as int, n);
            }
            assert(n * rows == rows * n && n * (rows - 1) == (rows - 1) * n) by (nonlinear_arith);
            assert(v is None ==> n * rows == bt && n * (rows - 1) == bt - 1) by (nonlinear_arith)
                requires
                    v is None ==> n == 1 && rows == bt,
            ;
        },
        ChunkSize::Fixed(cs) => {
            lemma_ceiling(bt as int, rows);
        },
    }
}

/// Unless the caller says otherwise there may be twice as many chunks as there are 512 rows,
/// and two for fewer rows than that.
pub proof fn default_limit_is_two_chunks_for_512_rows(bt: usize)
    ensures
        default_limit(bt as int) % 2 == 0,
        bt < 512 ==> default_limit(bt as int) == 2,
        bt >= 512 ==> 256 * default_limit(bt as int) <= bt < 256 * default_limit(bt as int) + 512,
{
}

/// The retry policy tries the first count times each power of two, as long as that stays below
/// the limit, and then the limit; a start below one is one, and a start past the limit is the
/// limit, which is at least one chunk and at most one for each row.
pub proof fn retries_double_the_chunks(
    counts: Seq<usize>,
    bt: usize,
    start: usize,
    limit: usize,
    i: int,
)
    requires
        bt > 0,
        is_schedule(counts, bt as int, start as int, limit as int),
        0 <= i < counts.len(),
    ensures
        1 <= counts[i] <= bt,
        limit >= 1 ==> counts[i] <= limit,
        1 <= start <= counts.last() ==> counts[0] == start,
        start == 0 ==> counts[0] == 1,
        start > counts.last() ==> counts.len() == 1,
        i < counts.len() - 1 ==> counts[i] == counts[0] * pow2(i as nat),
        counts.last() == bt || counts.last() == limit || (limit == 0 && counts.last() == 1),
    decreases i,
{
    vstd::arithmetic::power2::lemma2_to64();
    if i > 0 {
        retries_double_the_chunks(counts, bt, start, limit, i - 1);
        vstd::arithmetic::power2::lemma_pow2_unfold(i as nat);
        let a = counts[0] as int;
        let p = pow2((i - 1) as nat) as int;
        assert(a * (2 * p) == 2 * (a * p)) by (nonlinear_arith);
        assert(counts[i] == min(2 * counts[i - 1], schedule_limit(bt as int, limit as int)));
    } else {
        assert(counts[0] * 1 == counts[0]);
        if counts.len() > 1 {
            assert(counts[0] < counts[counts.len() - 1]);
        }
    }
}

} // verus!
