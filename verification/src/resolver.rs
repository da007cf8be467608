//! Chunk-size resolution and the chunk-doubling schedule of the retry policy.
//!
//! Everything here is integer arithmetic: the memory-pressure score is a rational
//! number, so the power of two that it selects is computed exactly.

use vstd::prelude::*;
use vstd::arithmetic::logarithm::log;
use vstd::arithmetic::power2::pow2;

verus! {

/// How the caller selects the chunk size.
#[derive(Clone, Copy, Debug, PartialEq, Eq, Structural)]
pub enum ChunkSize {
    /// Let the memory-pressure heuristic decide.
    Auto,
    /// A fixed number of rows per chunk (clamped to the number of rows).
    Fixed(usize),
}

impl Default for ChunkSize {
    fn default() -> (c: Self)
        ensures
            c == ChunkSize::Auto,
    {
        ChunkSize::Auto
    }
}

/// Resolved chunking decision.
#[derive(Clone, Copy, Debug, PartialEq, Eq, Structural)]
pub struct ChunkPlan {
    /// Rows per chunk.
    pub chunk_size: usize,
    /// Number of chunks covering all rows.
    pub num_chunks: usize,
}

pub open spec fn min(a: int, b: int) -> int {
    if a <= b {
        a
    } else {
        b
    }
}

pub open spec fn max(a: int, b: int) -> int {
    if a >= b {
        a
    } else {
        b
    }
}

/// The quotient `a / b`, rounded up.
pub open spec fn ceiling(a: int, b: int) -> int {
    if a % b == 0 {
        a / b
    } else {
        a / b + 1
    }
}

/// The largest power to which the chunk count of a score is raised.
pub const MAX_CHUNK_EXPONENT: u32 = 60;

/// The power-of-two chunk count of the pressure score `num / den`: one below the
/// threshold 1.5, else `2^(floor(log2(score / 1.5)) + 1)`, the exponent clamped.
pub open spec fn chunk_count(num: int, den: int) -> int {
    if 2 * num < 3 * den {
        1
    } else {
        pow2(min(log(2, (2 * num) / (3 * den)) + 1, MAX_CHUNK_EXPONENT as int) as nat) as int
    }
}

/// Denominator of the pressure score, 2^40.
pub const PRESSURE_DEN: u64 = 0x100_0000_0000;

/// Numerator of the pressure score over [`PRESSURE_DEN`]. The score is the larger of
/// `(BT / 1024) * (V / 32768)^2` and `BT / 4096`.
pub open spec fn pressure_num(bt: int, v: int) -> int {
    bt * max(v * v, 0x1000_0000)
}

/// How many chunks are worth having: one for each 512 rows, and at least one.
pub open spec fn useful_chunks(bt: int) -> int {
    max(bt / 512, 1)
}

/// The number of chunks that the heuristic picks for `bt` rows and a vocabulary of `v`.
pub open spec fn auto_chunks(bt: int, v: int, max_chunks: Option<usize>) -> int {
    let ceiling_given = match max_chunks {
        Some(m) => m as int,
        None => 2 * useful_chunks(bt),
    };
    max(
        min(
            min(min(chunk_count(pressure_num(bt, v), PRESSURE_DEN as int), ceiling_given), useful_chunks(bt)),
            bt,
        ),
        1,
    )
}

/// Rows per chunk, as the resolver decides them.
pub open spec fn plan_rows(
    bt: int,
    chunk_size: ChunkSize,
    v: Option<usize>,
    max_chunks: Option<usize>,
) -> int {
    match (chunk_size, v) {
        (ChunkSize::Fixed(cs), _) => max(min(cs as int, bt), 1),
        (ChunkSize::Auto, None) => bt,
        (ChunkSize::Auto, Some(v)) => ceiling(bt, auto_chunks(bt, v as int, max_chunks)),
    }
}

/// Number of chunks, as the resolver decides it.
pub open spec fn plan_chunks(
    bt: int,
    chunk_size: ChunkSize,
    v: Option<usize>,
    max_chunks: Option<usize>,
) -> int {
    match (chunk_size, v) {
        (ChunkSize::Fixed(cs), _) => ceiling(bt, max(min(cs as int, bt), 1)),
        (ChunkSize::Auto, None) => 1,
        (ChunkSize::Auto, Some(v)) => auto_chunks(bt, v as int, max_chunks),
    }
}

impl ChunkPlan {
    /// The chunks, laid end to end, cover `bt` rows; none is longer than that, and
    /// there are no more of them than rows.
    pub open spec fn covers(self, bt: int) -> bool {
        &&& 1 <= self.chunk_size <= bt
        &&& 1 <= self.num_chunks <= bt
        &&& self.num_chunks * self.chunk_size >= bt
    }
}

/// The quotient rounded up is the least number of `b`s that reaches `a`.
pub proof fn lemma_ceiling(a: int, b: int)
    requires
        a >= 0,
        b > 0,
    ensures
        ceiling(a, b) * b >= a,
        (ceiling(a, b) - 1) * b < a,
        0 <= ceiling(a, b) <= a,
        a > 0 ==> ceiling(a, b) >= 1,
{
    vstd::arithmetic::div_mod::lemma_fundamental_div_mod(a, b);
    let q = a / b;
    assert(ceiling(a, b) * b >= a && (ceiling(a, b) - 1) * b < a) by (nonlinear_arith)
        requires
            a == b * q + a % b,
            0 <= a % b < b,
            ceiling(a, b) == if a % b == 0 { q } else { q + 1 },
    ;
    let c = ceiling(a, b);
    assert(0 <= c) by (nonlinear_arith)
        requires
            c * b >= a,
            a >= 0,
            b > 0,
    ;
    assert(c <= a) by (nonlinear_arith)
        requires
            (c - 1) * b < a,
            a >= 0,
            b > 0,
    ;
    assert(a > 0 ==> c >= 1) by (nonlinear_arith)
        requires
            c * b >= a,
            b > 0,
    ;
}

/// Ceiling division: the least `r` with `r * b >= a`.
pub fn ceil_div(a: usize, b: usize) -> (r: usize)
    requires
        b > 0,
    ensures
        r == ceiling(a as int, b as int),
        r * b >= a,
        (r - 1) * b < a,
{
    proof {
        lemma_ceiling(a as int, b as int);
    }
    if a % b == 0 {
        a / b
    } else {
        a / b + 1
    }
}

/// The integer logarithm of a number between two successive powers of two.
pub proof fn lemma_log2_between(q: int, k: nat)
    requires
        pow2(k) <= q < pow2(k + 1),
    ensures
        log(2, q) == k,
    decreases k,
{
    vstd::arithmetic::power2::lemma_pow2_unfold(k + 1);
    if k == 0 {
        vstd::arithmetic::power2::lemma2_to64();
        vstd::arithmetic::logarithm::lemma_log0(2, q);
    } else {
        vstd::arithmetic::power2::lemma_pow2_unfold(k);
        vstd::arithmetic::power2::lemma_pow2_pos((k - 1) as nat);
        vstd::arithmetic::logarithm::lemma_log_s(2, q);
        lemma_log2_between(q / 2, (k - 1) as nat);
    }
}

/// The chunk count of a score that lies in `[0.75 c, 1.5 c)` for a power of two `c`.
proof fn lemma_chunk_count_between(num: int, den: int, k: nat)
    requires
        den > 0,
        1 <= k <= MAX_CHUNK_EXPONENT,
        2 * num >= 3 * den * pow2((k - 1) as nat),
        k < MAX_CHUNK_EXPONENT ==> 2 * num < 3 * den * pow2(k),
    ensures
        chunk_count(num, den) == pow2(k),
{
    let d = 3 * den;
    let q = (2 * num) / d;
    let lo = pow2((k - 1) as nat) as int;
    vstd::arithmetic::power2::lemma_pow2_pos((k - 1) as nat);
    vstd::arithmetic::div_mod::lemma_fundamental_div_mod(2 * num, d);
    assert(d <= d * lo) by (nonlinear_arith)
        requires
            lo >= 1,
            d > 0,
    ;
    assert(q >= lo) by (nonlinear_arith)
        requires
            2 * num >= d * lo,
            2 * num == d * q + (2 * num) % d,
            0 <= (2 * num) % d < d,
    ;
    if k < MAX_CHUNK_EXPONENT {
        let hi = pow2(k) as int;
        assert(q < hi) by (nonlinear_arith)
            requires
                2 * num < d * hi,
                2 * num == d * q + (2 * num) % d,
                0 <= (2 * num) % d < d,
                d > 0,
        ;
        lemma_log2_between(q, (k - 1) as nat);
    } else {
        vstd::arithmetic::logarithm::lemma_log_is_ordered(2, lo, q);
        vstd::arithmetic::power2::lemma_pow2_strictly_increases((k - 1) as nat, k);
        lemma_log2_between(lo, (k - 1) as nat);
    }
}

/// Map the memory-pressure score `num / den` to a power-of-two chunk count.
pub fn chunks_from_raw(num: u128, den: u64) -> (c: u64)
    requires
        den > 0,
    ensures
        c == chunk_count(num as int, den as int),
{
    let mut c: u64 = 1;
    let mut k: u32 = 0;
    proof {
        vstd::arithmetic::power2::lemma2_to64();
    }
    while k < MAX_CHUNK_EXPONENT
        invariant
            den > 0,
            k <= MAX_CHUNK_EXPONENT,
            c == pow2(k as nat),
            c <= 0x1000_0000_0000_0000,
            k > 0 ==> 2 * num >= 3 * den * pow2((k - 1) as nat),
        ensures
            k < MAX_CHUNK_EXPONENT ==> 2 * num < 3 * den * pow2(k as nat),
        decreases MAX_CHUNK_EXPONENT - k,
    {
        let d: u128 = den as u128;
        let c_wide: u128 = c as u128;
        assert(d * c_wide <= 0xffff_ffff_ffff_ffff * 0x1000_0000_0000_0000) by (nonlinear_arith)
            requires
                d <= 0xffff_ffff_ffff_ffff,
                c_wide <= 0x1000_0000_0000_0000,
        ;
        let threshold: u128 = 3 * (d * c_wide);
        assert(threshold == 3 * den * c) by (nonlinear_arith)
            requires
                threshold == 3 * (d * c_wide),
                d == den,
                c_wide == c,
        ;
        // 2 * num < threshold, without the overflow
        if num < threshold / 2 + threshold % 2 {
            break;
        }
        proof {
            vstd::arithmetic::power2::lemma_pow2_unfold((k + 1) as nat);
            vstd::arithmetic::power2::lemma2_to64();
            if k + 1 < MAX_CHUNK_EXPONENT {
                vstd::arithmetic::power2::lemma_pow2_strictly_increases((k + 1) as nat, 60);
            }
            vstd::arithmetic::power2::lemma2_to64_rest();
        }
        c = 2 * c;
        k = k + 1;
    }
    proof {
        if k > 0 {
            lemma_chunk_count_between(num as int, den as int, k as nat);
        } else {
            vstd::arithmetic::power2::lemma2_to64();
            let one = pow2(0) as int;
            assert(3 * den * one == 3 * den) by (nonlinear_arith)
                requires
                    one == 1,
            ;
        }
    }
    c
}

/// Past the clamp, the chunk count no longer depends on the score.
proof fn lemma_chunk_count_saturates(num: int, den: int)
    requires
        0 < den <= 0x100_0000_0000,
        num >= u128::MAX,
    ensures
        chunk_count(num, den) == pow2(MAX_CHUNK_EXPONENT as nat),
{
    vstd::arithmetic::power2::lemma2_to64_rest();
    assert(2 * num >= 3 * den * pow2(59)) by (nonlinear_arith)
        requires
            0 < den <= 0x100_0000_0000,
            num >= u128::MAX,
            pow2(59) == 0x800_0000_0000_0000,
    ;
    lemma_chunk_count_between(num, den, 60);
}

/// The chunk count of `bt` rows against a vocabulary of `v`.
fn pressure_chunks(bt: usize, v: usize) -> (c: u64)
    ensures
        c == chunk_count(pressure_num(bt as int, v as int), PRESSURE_DEN as int),
{
    let wide: u128 = v as u128;
    assert(wide * wide <= 0xffff_ffff_ffff_ffff * 0xffff_ffff_ffff_ffff) by (nonlinear_arith)
        requires
            wide <= 0xffff_ffff_ffff_ffff,
    ;
    let square: u128 = wide * wide;
    let weight: u128 = if square >= 0x1000_0000 { square } else { 0x1000_0000 };
    let rows: u128 = bt as u128;
    match rows.checked_mul(weight) {
        Some(num) => chunks_from_raw(num, PRESSURE_DEN),
        None => {
            proof {
                lemma_chunk_count_saturates(pressure_num(bt as int, v as int), PRESSURE_DEN as int);
                lemma_chunk_count_saturates(u128::MAX as int, PRESSURE_DEN as int);
            }
            chunks_from_raw(u128::MAX, PRESSURE_DEN)
        },
    }
}

/// Decide the rows per chunk and the number of chunks for `bt` rows.
///
/// A fixed size is clamped to the rows there are. The heuristic, given the vocabulary
/// `v`, maps the memory pressure to a power of two and clamps it by `max_chunks`, by one
/// chunk for each 512 rows, and by the rows themselves.
pub fn resolve_chunk_size(
    bt: usize,
    chunk_size: ChunkSize,
    v: Option<usize>,
    max_chunks: Option<usize>,
) -> (p: ChunkPlan)
    requires
        bt > 0,
    ensures
        p.chunk_size == plan_rows(bt as int, chunk_size, v, max_chunks),
        p.num_chunks == plan_chunks(bt as int, chunk_size, v, max_chunks),
        p.covers(bt as int),
{
    match chunk_size {
        ChunkSize::Fixed(cs) => {
            let cs: usize = if cs > bt { bt } else { cs };
            let cs: usize = if cs < 1 { 1 } else { cs };
            proof {
                lemma_ceiling(bt as int, cs as int);
            }
            ChunkPlan { chunk_size: cs, num_chunks: ceil_div(bt, cs) }
        },
        ChunkSize::Auto => {
            let v: usize = match v {
                Some(v) => v,
                None => {
                    return ChunkPlan { chunk_size: bt, num_chunks: 1 };
                },
            };
            let useful: usize = if bt / 512 >= 1 { bt / 512 } else { 1 };
            let limit: usize = match max_chunks {
                Some(m) => m,
                None => 2 * useful,
            };
            let raw: u64 = pressure_chunks(bt, v);
            let mut n: usize = useful;
            if limit < n {
                n = limit;
            }
            if bt < n {
                n = bt;
            }
            if raw < n as u64 {
                n = raw as usize;
            }
            if n < 1 {
                n = 1;
            }
            proof {
                lemma_ceiling(bt as int, n as int);
                let c = ceiling(bt as int, n as int);
                assert(n * c == c * n) by (nonlinear_arith);
            }
            ChunkPlan { chunk_size: ceil_div(bt, n), num_chunks: n }
        },
    }
}

/// The limit on the number of chunks when the caller gives none.
pub open spec fn default_limit(bt: int) -> int {
    2 * useful_chunks(bt)
}

/// The limit on the number of chunks when the caller gives none.
pub fn default_max_chunks_limit(bt: usize) -> (n: usize)
    ensures
        n == default_limit(bt as int),
{
    let useful: usize = if bt / 512 >= 1 { bt / 512 } else { 1 };
    2 * useful
}

/// The highest chunk count that the retry policy may reach.
pub open spec fn schedule_limit(bt: int, limit: int) -> int {
    min(max(limit, 1), bt)
}

/// `counts` is the sequence of chunk counts that the retry policy tries, from `start` on:
/// each is the double of the one before, capped, and the cap itself is the last.
pub open spec fn is_schedule(counts: Seq<usize>, bt: int, start: int, limit: int) -> bool {
    let cap = schedule_limit(bt, limit);
    &&& counts.len() >= 1
    &&& counts[0] == max(min(start, cap), 1)
    &&& forall|i: int|
        1 <= i < counts.len() ==> #[trigger] counts[i] == min(2 * counts[i - 1], cap)
    &&& forall|i: int| 0 <= i < counts.len() - 1 ==> #[trigger] counts[i] < cap
    &&& forall|i: int, j: int| 0 <= i < j < counts.len() ==> counts[i] < counts[j]
    &&& counts.last() == cap
}

/// The sequence of chunk counts that the retry policy tries.
pub fn chunk_doubling_schedule(bt: usize, start: usize, limit: usize) -> (out: Vec<usize>)
    requires
        bt > 0,
    ensures
        is_schedule(out@, bt as int, start as int, limit as int),
{
    let cap: usize = if limit < 1 { 1 } else { limit };
    let cap: usize = if cap > bt { bt } else { cap };
    let mut n: usize = if start > cap { cap } else { start };
    if n < 1 {
        n = 1;
    }
    let ghost first = n;
    let mut out: Vec<usize> = Vec::new();
    out.push(n);
    while n < cap
        invariant
            1 <= n <= cap,
            out@.len() >= 1,
            out@.last() == n,
            out@[0] == first,
            forall|i: int| 1 <= i < out@.len() ==> #[trigger] out@[i] == min(2 * out@[i - 1], cap as int),
            forall|i: int| 0 <= i < out@.len() - 1 ==> #[trigger] out@[i] < cap,
            forall|i: int, j: int| 0 <= i < j < out@.len() ==> out@[i] < out@[j],
        decreases cap - n,
    {
        n = if n > cap - n { cap } else { 2 * n };
        out.push(n);
    }
    out
}

/// The powers of two on either side of a number.
pub proof fn lemma_log2_bounds(q: int)
    requires
        q >= 1,
    ensures
        log(2, q) >= 0,
        pow2(log(2, q) as nat) <= q < pow2((log(2, q) + 1) as nat),
    decreases q,
{
    if q == 1 {
        vstd::arithmetic::power2::lemma2_to64();
        lemma_log2_between(1, 0);
    } else {
        lemma_log2_bounds(q / 2);
        let k = log(2, q / 2) as nat;
        vstd::arithmetic::power2::lemma_pow2_unfold(k + 1);
        vstd::arithmetic::power2::lemma_pow2_unfold(k + 2);
        lemma_log2_between(q, k + 1);
    }
}

/// A score of at least 1.5 gets a power of two `c` of chunks with `0.75 c <= score < 1.5 c`,
/// unless the exponent is clamped.
pub proof fn score_lies_in_the_band_of_its_chunk_count(num: int, den: int)
    requires
        den > 0,
        2 * num >= 3 * den,
        chunk_count(num, den) < pow2(MAX_CHUNK_EXPONENT as nat),
    ensures
        exists|k: nat| chunk_count(num, den) == #[trigger] pow2(k),
        3 * den * chunk_count(num, den) <= 4 * num,
        2 * num < 3 * den * chunk_count(num, den),
{
    let d = 3 * den;
    let q = (2 * num) / d;
    vstd::arithmetic::div_mod::lemma_fundamental_div_mod(2 * num, d);
    assert(q >= 1) by (nonlinear_arith)
        requires
            2 * num >= d,
            2 * num == d * q + (2 * num) % d,
            0 <= (2 * num) % d < d,
    ;
    lemma_log2_bounds(q);
    let k = log(2, q) as nat;
    let half = pow2(k) as int;
    let c = pow2(k + 1) as int;
    vstd::arithmetic::power2::lemma_pow2_unfold(k + 1);
    assert(chunk_count(num, den) == c);
    assert(d * c <= 4 * num && 2 * num < d * c) by (nonlinear_arith)
        requires
            c == 2 * half,
            half <= q < c,
            2 * num == d * q + (2 * num) % d,
            0 <= (2 * num) % d < d,
    ;
}

/// A higher score never gets fewer chunks.
pub proof fn more_pressure_means_no_fewer_chunks(num: int, more: int, den: int)
    requires
        den > 0,
        0 <= num <= more,
    ensures
        chunk_count(num, den) <= chunk_count(more, den),
{
    let d = 3 * den;
    if 2 * more >= d {
        let b = (2 * more) / d;
        vstd::arithmetic::div_mod::lemma_div_is_ordered(d, 2 * more, d);
        vstd::arithmetic::div_mod::lemma_div_by_self(d);
        lemma_log2_bounds(b);
        let kb = min(log(2, b) + 1, MAX_CHUNK_EXPONENT as int) as nat;
        vstd::arithmetic::power2::lemma_pow2_pos(kb);
        if 2 * num >= d {
            let a = (2 * num) / d;
            vstd::arithmetic::div_mod::lemma_div_is_ordered(d, 2 * num, d);
            vstd::arithmetic::div_mod::lemma_div_is_ordered(2 * num, 2 * more, d);
            lemma_log2_bounds(a);
            vstd::arithmetic::logarithm::lemma_log_is_ordered(2, a, b);
            let ka = min(log(2, a) + 1, MAX_CHUNK_EXPONENT as int) as nat;
            if ka < kb {
                vstd::arithmetic::power2::lemma_pow2_strictly_increases(ka, kb);
            }
        }
    }
}

/// The heuristic never makes more chunks than it is allowed, and where it makes more than
/// one, each has at least 512 rows.
pub proof fn automatic_chunks_are_few_and_long(bt: int, v: usize, max_chunks: Option<usize>)
    requires
        bt > 0,
    ensures
        ({
            let n = plan_chunks(bt, ChunkSize::Auto, Some(v), max_chunks);
            let rows = plan_rows(bt, ChunkSize::Auto, Some(v), max_chunks);
            &&& max_chunks matches Some(m) ==> n <= max(m as int, 1)
            &&& n <= useful_chunks(bt)
            &&& n > 1 ==> rows >= 512
        }),
{
    let n = auto_chunks(bt, v as int, max_chunks);
    lemma_ceiling(bt, n);
    let rows = ceiling(bt, n);
    if n > 1 {
        assert(rows >= 512) by (nonlinear_arith)
            requires
                rows * n >= bt,
                512 * n <= bt,
                n > 1,
        ;
    }
}

/// A fixed chunk size leaves no chunk empty: the last one starts before the rows end.
pub proof fn fixed_chunks_are_not_empty(bt: int, cs: usize, v: Option<usize>, max_chunks: Option<usize>)
    requires
        bt > 0,
    ensures
        ({
            let n = plan_chunks(bt, ChunkSize::Fixed(cs), v, max_chunks);
            let rows = plan_rows(bt, ChunkSize::Fixed(cs), v, max_chunks);
            (n - 1) * rows < bt <= n * rows
        }),
{
    lemma_ceiling(bt, max(min(cs as int, bt), 1));
}

} // verus!
