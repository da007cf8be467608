//! INT8 row-wise compression of the weight gradient.
//!
//! Each row of the gradient is divided by a scale of its own and rounded to eight bits.
//! The rows of the classes that occur as targets carry the dominant signal, so those are
//! kept as they are. Rounding is either to nearest, ties to even, or stochastic, which is
//! unbiased in expectation.

use vstd::prelude::*;
use crate::arith::Arith;
use crate::mat::{scale_assign, Mat};
#[allow(unused_imports)]
use crate::mat::{lemma_row_in_bounds, rows_of, scaled};

verus! {

/// Increment of the generator's state.
pub const GAMMA: u64 = 0x9E37_79B9_7F4A_7C15;

/// Number of values that a uniform draw can take, 2^24.
pub const UNIFORM_STEPS: u64 = 0x100_0000;

/// The generator's next state.
pub open spec fn next_state(s: u64) -> u64 {
    s.wrapping_add(GAMMA)
}

/// The output that belongs to a state.
pub open spec fn mix(s: u64) -> u64 {
    let a = (s ^ (s >> 30)).wrapping_mul(0xBF58_476D_1CE4_E5B9);
    let b = (a ^ (a >> 27)).wrapping_mul(0x94D0_49BB_1331_11EB);
    b ^ (b >> 31)
}

/// The state after `n` more draws.
pub open spec fn state_after(s: u64, n: int) -> u64
    decreases n,
{
    if n <= 0 {
        s
    } else {
        next_state(state_after(s, n - 1))
    }
}

/// The integer below 2^24 that draw number `n` from state `s` is made of.
pub open spec fn draw_bits(s: u64, n: int) -> u64 {
    mix(state_after(s, n + 1)) >> 40
}

/// Draw number `n` from state `s`: a multiple of 2^-24 from zero to one, one excluded.
pub open spec fn draw<A: Arith>(s: u64, n: int) -> A::F {
    A::fmul_spec(
        A::fint_spec(draw_bits(s, n) as int),
        A::fdiv_spec(A::fint_spec(1), A::fint_spec(UNIFORM_STEPS as int)),
    )
}

/// A small reproducible generator of uniform numbers (SplitMix64).
pub struct Rng {
    state: u64,
}

impl View for Rng {
    type V = u64;

    closed spec fn view(&self) -> u64 {
        self.state
    }
}

impl Rng {
    /// A generator whose draws depend on `seed` alone.
    pub fn new(seed: u64) -> (r: Rng)
        ensures
            r@ == next_state(seed),
    {
        Rng { state: seed.wrapping_add(GAMMA) }
    }

    /// The next 64 bits.
    pub fn next_u64(&mut self) -> (u: u64)
        ensures
            final(self)@ == next_state(old(self)@),
            u == mix(next_state(old(self)@)),
    {
        self.state = self.state.wrapping_add(GAMMA);
        let mut z: u64 = self.state;
        z = (z ^ (z >> 30)).wrapping_mul(0xBF58_476D_1CE4_E5B9);
        z = (z ^ (z >> 27)).wrapping_mul(0x94D0_49BB_1331_11EB);
        z ^ (z >> 31)
    }

    /// A uniform number from zero to one, one excluded: 24 random bits over 2^24.
    pub fn next_f32<A: Arith>(&mut self) -> (x: A::F)
        ensures
            final(self)@ == next_state(old(self)@),
            x == draw::<A>(old(self)@, 0),
            draw_bits(old(self)@, 0) < UNIFORM_STEPS,
    {
        let u: u64 = self.next_u64();
        proof {
            reveal_with_fuel(state_after, 2);
            lemma_draw_bits_bound(old(self)@, 0);
        }
        let ulp = A::fdiv(A::fint(1), A::fint(UNIFORM_STEPS as i128));
        A::fmul(A::fint((u >> 40) as i128), ulp)
    }
}

/// A draw is made of fewer than 2^24 units.
pub proof fn lemma_draw_bits_bound(s: u64, n: int)
    ensures
        draw_bits(s, n) < UNIFORM_STEPS,
{
    let u = mix(state_after(s, n + 1));
    assert(u >> 40 < 0x100_0000) by (bit_vector);
}

/// Drawing `n` times and then `k` times is drawing `n + k` times.
pub proof fn lemma_state_after_adds(s: u64, n: int, k: int)
    requires
        0 <= n,
        0 <= k,
    ensures
        state_after(state_after(s, n), k) == state_after(s, n + k),
    decreases k,
{
    if k > 0 {
        lemma_state_after_adds(s, n, k - 1);
    }
}

/// `x` rounded to the nearest integer, ties to even.
pub open spec fn rounded<A: Arith>(x: A::F) -> A::F {
    let f = A::ffloor_spec(x);
    let diff = A::fsub_spec(x, f);
    let half = A::fdiv_spec(A::fint_spec(1), A::fint_spec(2));
    let above = A::fadd_spec(f, A::fint_spec(1));
    if A::flt_spec(diff, half) {
        f
    } else if A::flt_spec(half, diff) {
        above
    } else if A::fto_i64_spec(f) % 2 == 0 {
        f
    } else {
        above
    }
}

/// Round to the nearest integer, ties to even.
pub fn round_half_even<A: Arith>(x: A::F) -> (r: A::F)
    ensures
        r == rounded::<A>(x),
{
    let f = A::ffloor(x);
    let diff = A::fsub(x, f);
    let half = A::fdiv(A::fint(1), A::fint(2));
    if A::flt(diff, half) {
        f
    } else if A::flt(half, diff) {
        A::fadd(f, A::fint(1))
    } else if A::fto_i64(f) % 2 == 0 {
        f
    } else {
        A::fadd(f, A::fint(1))
    }
}

/// `x` held to the range from -127 to 127.
pub open spec fn clamped<A: Arith>(x: A::F) -> A::F {
    let low = if A::flt_spec(x, A::fint_spec(-127)) {
        A::fint_spec(-127)
    } else {
        x
    };
    if A::flt_spec(A::fint_spec(127), low) {
        A::fint_spec(127)
    } else {
        low
    }
}

fn clamp<A: Arith>(x: A::F) -> (r: A::F)
    ensures
        r == clamped::<A>(x),
{
    let min = A::fint(-127);
    let max = A::fint(127);
    let low = if A::flt(x, min) { min } else { x };
    if A::flt(max, low) {
        max
    } else {
        low
    }
}

/// The largest magnitude among the first `n` entries of a row.
pub open spec fn magnitude<A: Arith>(row: Seq<A::F>, n: int) -> A::F
    decreases n,
{
    if n <= 0 {
        A::fint_spec(0)
    } else {
        A::fmax_spec(magnitude::<A>(row, n - 1), A::fabs_spec(row[n - 1]))
    }
}

/// The scale of a row: its largest magnitude, but not less than a smallest one, over 127.
pub open spec fn scale_of<A: Arith>(row: Seq<A::F>) -> A::F {
    A::fdiv_spec(
        A::fmax_spec(magnitude::<A>(row, row.len() as int), A::fsmall_spec()),
        A::fint_spec(127),
    )
}

/// The scale of a row.
pub fn row_scale<A: Arith>(row: &[A::F]) -> (s: A::F)
    ensures
        s == scale_of::<A>(row@),
{
    let n: usize = row.len();
    let mut amax = A::fint(0);
    for i in 0..n
        invariant
            n == row@.len(),
            amax == magnitude::<A>(row@, i as int),
    {
        amax = A::fmax(amax, A::fabs(row[i]));
    }
    A::fdiv(A::fmax(amax, A::fsmall()), A::fint(127))
}

/// The eight-bit code of `x` under the scale `s`, rounded to nearest.
pub open spec fn nearest_code<A: Arith>(x: A::F, s: A::F) -> i8 {
    A::fto_i8_spec(clamped::<A>(rounded::<A>(A::fdiv_spec(x, s))))
}

/// The eight-bit code of `x` under the scale `s`, rounded up where the fraction exceeds
/// the draw `u`.
pub open spec fn stochastic_code<A: Arith>(x: A::F, s: A::F, u: A::F) -> i8 {
    let quotient = A::fdiv_spec(x, s);
    let f = A::ffloor_spec(quotient);
    let bump = if A::flt_spec(u, A::fsub_spec(quotient, f)) {
        A::fint_spec(1)
    } else {
        A::fint_spec(0)
    };
    A::fto_i8_spec(clamped::<A>(A::fadd_spec(f, bump)))
}

/// A matrix in eight bits, with a scale for each row.
pub struct QuantRows<T> {
    /// The codes, row-major.
    pub q: Vec<i8>,
    /// The scale of each row.
    pub scale: Vec<T>,
    pub rows: usize,
    pub cols: usize,
}

impl<T> QuantRows<T> {
    /// There are `rows * cols` codes and `rows` scales.
    pub open spec fn wf(self) -> bool {
        &&& self.q.len() == self.rows * self.cols
        &&& self.scale@.len() == self.rows
    }

    /// The codes, row by row.
    pub open spec fn codes(self) -> Seq<Seq<i8>> {
        rows_of(self.q@, self.rows as int, self.cols as int)
    }
}

/// The matrix that codes and scales stand for.
pub open spec fn decoded<A: Arith>(codes: Seq<Seq<i8>>, scale: Seq<A::F>) -> Seq<Seq<A::F>> {
    Seq::new(
        codes.len(),
        |r: int|
            Seq::new(
                codes[r].len(),
                |c: int| A::fmul_spec(A::fint_spec(codes[r][c] as int), scale[r]),
            ),
    )
}

impl<T: Copy> QuantRows<T> {
    /// The matrix that the codes stand for: each code times the scale of its row.
    pub fn dequantize<A: Arith<F = T>>(&self) -> (out: Mat<T>)
        requires
            self.wf(),
        ensures
            out.wf(),
            out.rows == self.rows,
            out.cols == self.cols,
            out@ == decoded::<A>(self.codes(), self.scale@),
    {
        let ghost expected = decoded::<A>(self.codes(), self.scale@);
        let mut out: Mat<T> = Mat::with_cols(self.cols);
        for r in 0..self.rows
            invariant
                self.wf(),
                expected == decoded::<A>(self.codes(), self.scale@),
                out.wf(),
                out.rows == r,
                out.cols == self.cols,
                out@ == expected.subrange(0, r as int),
        {
            let s = self.scale[r];
            proof {
                lemma_row_in_bounds(r as int, self.rows as int, self.cols as int);
            }
            let base: usize = r * self.cols;
            let mut row: Vec<T> = Vec::new();
            for c in 0..self.cols
                invariant
                    self.wf(),
                    r < self.rows,
                    base == r * self.cols,
                    base + self.cols <= self.q.len(),
                    s == self.scale@[r as int],
                    expected == decoded::<A>(self.codes(), self.scale@),
                    expected[r as int].len() == self.cols,
                    row@ == expected[r as int].subrange(0, c as int),
            {
                row.push(A::fmul(A::fint(self.q[base + c] as i128), s));
                assert(row@ =~= expected[r as int].subrange(0, c + 1));
            }
            assert(row@ =~= expected[r as int]);
            out.push_row(row.as_slice());
            assert(out@ =~= expected.subrange(0, r + 1));
        }
        assert(out@ =~= expected);
        out
    }
}

/// The codes of a matrix, rounded to nearest.
pub open spec fn nearest_codes<A: Arith>(m: Seq<Seq<A::F>>) -> Seq<Seq<i8>> {
    Seq::new(
        m.len(),
        |r: int| Seq::new(m[r].len(), |c: int| nearest_code::<A>(m[r][c], scale_of::<A>(m[r]))),
    )
}

/// The codes of a matrix of `cols` columns, rounded by draws from state `s`. The entry in
/// row `r`, column `c` takes draw number `r * cols + c`.
pub open spec fn stochastic_codes<A: Arith>(m: Seq<Seq<A::F>>, cols: int, s: u64) -> Seq<Seq<i8>> {
    Seq::new(
        m.len(),
        |r: int|
            Seq::new(
                m[r].len(),
                |c: int|
                    stochastic_code::<A>(m[r][c], scale_of::<A>(m[r]), draw::<A>(s, r * cols + c)),
            ),
    )
}

/// The scales of a matrix.
pub open spec fn scales<A: Arith>(m: Seq<Seq<A::F>>) -> Seq<A::F> {
    Seq::new(m.len(), |r: int| scale_of::<A>(m[r]))
}

/// INT8 quantization, rounded to nearest with ties to even, row by row.
pub fn quantize_rowwise_int8<A: Arith>(m: &Mat<A::F>) -> (out: QuantRows<A::F>)
    requires
        m.wf(),
    ensures
        out.wf(),
        out.rows == m.rows,
        out.cols == m.cols,
        out.scale@ == scales::<A>(m@),
        out.codes() == nearest_codes::<A>(m@),
{
    let rows: usize = m.rows;
    let cols: usize = m.cols;
    let ghost expected = nearest_codes::<A>(m@);
    let mut codes: Mat<i8> = Mat::with_cols(cols);
    let mut scale: Vec<A::F> = Vec::new();
    for r in 0..rows
        invariant
            m.wf(),
            rows == m.rows,
            cols == m.cols,
            expected == nearest_codes::<A>(m@),
            codes.wf(),
            codes.rows == r,
            codes.cols == cols,
            codes@ == expected.subrange(0, r as int),
            scale@ == scales::<A>(m@).subrange(0, r as int),
    {
        let row = m.row(r);
        let s = row_scale::<A>(row);
        scale.push(s);
        assert(scale@ =~= scales::<A>(m@).subrange(0, r + 1));
        let mut line: Vec<i8> = Vec::new();
        for c in 0..cols
            invariant
                r < m@.len(),
                cols == row@.len(),
                row@ == m@[r as int],
                s == scale_of::<A>(row@),
                expected == nearest_codes::<A>(m@),
                line@ == expected[r as int].subrange(0, c as int),
        {
            let x = clamp::<A>(round_half_even::<A>(A::fdiv(row[c], s)));
            line.push(A::fto_i8(x));
            assert(line@ =~= expected[r as int].subrange(0, c + 1));
        }
        assert(line@ =~= expected[r as int]);
        codes.push_row(line.as_slice());
        assert(codes@ =~= expected.subrange(0, r + 1));
    }
    assert(codes@ =~= expected);
    assert(scale@ =~= scales::<A>(m@));
    QuantRows { q: codes.data, scale, rows, cols }
}

/// Stochastic INT8 quantization, row by row.
pub fn quantize_rowwise_int8_stochastic<A: Arith>(m: &Mat<A::F>, rng: &mut Rng) -> (out: QuantRows<A::F>)
    requires
        m.wf(),
    ensures
        out.wf(),
        out.rows == m.rows,
        out.cols == m.cols,
        out.scale@ == scales::<A>(m@),
        out.codes() == stochastic_codes::<A>(m@, m.cols as int, old(rng)@),
        final(rng)@ == state_after(old(rng)@, m.rows * m.cols),
{
    let rows: usize = m.rows;
    let cols: usize = m.cols;
    let ghost seed = rng@;
    let ghost expected = stochastic_codes::<A>(m@, cols as int, seed);
    let mut codes: Mat<i8> = Mat::with_cols(cols);
    let mut scale: Vec<A::F> = Vec::new();
    for r in 0..rows
        invariant
            m.wf(),
            rows == m.rows,
            cols == m.cols,
            expected == stochastic_codes::<A>(m@, cols as int, seed),
            rng@ == state_after(seed, r * cols),
            codes.wf(),
            codes.rows == r,
            codes.cols == cols,
            codes@ == expected.subrange(0, r as int),
            scale@ == scales::<A>(m@).subrange(0, r as int),
    {
        let row = m.row(r);
        let s = row_scale::<A>(row);
        scale.push(s);
        assert(scale@ =~= scales::<A>(m@).subrange(0, r + 1));
        let mut line: Vec<i8> = Vec::new();
        proof {
            lemma_row_in_bounds(r as int, rows as int, cols as int);
        }
        for c in 0..cols
            invariant
                r < m@.len(),
                0 <= r * cols,
                cols == row@.len(),
                row@ == m@[r as int],
                s == scale_of::<A>(row@),
                expected == stochastic_codes::<A>(m@, cols as int, seed),
                rng@ == state_after(seed, r * cols + c),
                line@ == expected[r as int].subrange(0, c as int),
        {
            let quotient = A::fdiv(row[c], s);
            let floor = A::ffloor(quotient);
            let frac = A::fsub(quotient, floor);
            proof {
                lemma_state_after_adds(seed, r * cols + c, 1);
            }
            let u = rng.next_f32::<A>();
            let bump = if A::flt(u, frac) { A::fint(1) } else { A::fint(0) };
            line.push(A::fto_i8(clamp::<A>(A::fadd(floor, bump))));
            assert(line@ =~= expected[r as int].subrange(0, c + 1));
        }
        assert(line@ =~= expected[r as int]);
        codes.push_row(line.as_slice());
        assert(codes@ =~= expected.subrange(0, r + 1));
    }
    assert(codes@ =~= expected);
    assert(scale@ =~= scales::<A>(m@));
    QuantRows { q: codes.data, scale, rows, cols }
}

/// Class `t` occurs among the first `n` targets, is not the ignored one, and is one of
/// the `rows` classes.
pub open spec fn hit(target: Seq<i64>, n: int, ignore_index: i64, rows: int, t: int) -> bool {
    &&& t != ignore_index
    &&& 0 <= t < rows
    &&& exists|i: int| 0 <= i < n && #[trigger] target[i] == t
}

pub open spec fn strictly_increasing(s: Seq<usize>) -> bool {
    forall|i: int, j: int| 0 <= i < j < s.len() ==> s[i] < s[j]
}

/// The classes that occur among the targets, in order and each once.
pub fn target_classes(target: &[i64], ignore_index: i64, rows: usize) -> (out: Vec<usize>)
    ensures
        strictly_increasing(out@),
        forall|t: usize|
            #[trigger] out@.contains(t) <==> hit(
                target@,
                target@.len() as int,
                ignore_index,
                rows as int,
                t as int,
            ),
{
    let n: usize = target.len();
    let mut out: Vec<usize> = Vec::new();
    for i in 0..n
        invariant
            n == target@.len(),
            strictly_increasing(out@),
            forall|t: usize|
                #[trigger] out@.contains(t) <==> hit(
                    target@,
                    i as int,
                    ignore_index,
                    rows as int,
                    t as int,
                ),
    {
        let y: i64 = target[i];
        let ghost before = out@;
        if y != ignore_index && y >= 0 && (y as u64) < rows as u64 {
            let t: usize = y as usize;
            let mut p: usize = 0;
            while p < out.len() && out[p] < t
                invariant
                    p <= out@.len(),
                    forall|j: int| 0 <= j < p ==> #[trigger] out@[j] < t,
                decreases out@.len() - p,
            {
                p = p + 1;
            }
            if p == out.len() || out[p] != t {
                out.insert(p, t);
                assert forall|u: usize| #[trigger] out@.contains(u) <==> before.contains(u) || u == t by {
                    if before.contains(u) {
                        let j = choose|j: int| 0 <= j < before.len() && before[j] == u;
                        assert(out@[if j < p { j } else { j + 1 }] == u);
                    }
                    if u == t {
                        assert(out@[p as int] == u);
                    }
                    if out@.contains(u) {
                        let j = choose|j: int| 0 <= j < out@.len() && out@[j] == u;
                        if j < p {
                            assert(before[j] == u);
                        } else if j > p {
                            assert(before[j - 1] == u);
                        }
                    }
                }
            } else {
                assert(before[p as int] == t);
            }
            assert forall|u: usize| #[trigger] out@.contains(u) <==> hit(
                target@,
                i + 1,
                ignore_index,
                rows as int,
                u as int,
            ) by {
                assert(target@[i as int] == t);
                if hit(target@, i as int, ignore_index, rows as int, u as int) {
                    assert(before.contains(u));
                }
                if before.contains(u) {
                    assert(hit(target@, i as int, ignore_index, rows as int, u as int));
                }
            }
        } else {
            assert forall|u: usize| #[trigger] out@.contains(u) <==> hit(
                target@,
                i + 1,
                ignore_index,
                rows as int,
                u as int,
            ) by {
                assert(out@.contains(u) <==> hit(
                    target@,
                    i as int,
                    ignore_index,
                    rows as int,
                    u as int,
                ));
            }
        }
    }
    out
}

/// A compressed weight gradient: an INT8 body, and the rows of the targets as they were.
pub struct GradWQuant<T> {
    pub quant: QuantRows<T>,
    /// The classes whose rows are kept, in order and each once.
    pub unique_targets: Vec<usize>,
    /// Those rows, row-major.
    pub target_rows: Vec<T>,
}

impl<T> GradWQuant<T> {
    /// The kept classes are distinct rows of the body, and there is a kept row for each.
    pub open spec fn wf(self) -> bool {
        &&& self.quant.wf()
        &&& strictly_increasing(self.unique_targets@)
        &&& forall|i: int|
            0 <= i < self.unique_targets@.len() ==> #[trigger] self.unique_targets@[i] < self.quant.rows
        &&& self.target_rows.len() == self.unique_targets@.len() * self.quant.cols
    }

    /// The kept rows.
    pub open spec fn kept(self) -> Seq<Seq<T>> {
        rows_of(
            self.target_rows@,
            self.unique_targets@.len() as int,
            self.quant.cols as int,
        )
    }
}

/// The codes of a matrix of `cols` columns: rounded to nearest, or by draws from a state.
pub open spec fn codes_of<A: Arith>(m: Seq<Seq<A::F>>, cols: int, state: Option<u64>) -> Seq<Seq<i8>> {
    match state {
        Some(s) => stochastic_codes::<A>(m, cols, s),
        None => nearest_codes::<A>(m),
    }
}

/// Compress a weight gradient to INT8, keeping the rows of the classes that occur in
/// `target` as they are. With a generator the rounding is stochastic, else to nearest.
pub fn quantize_grad_w<A: Arith>(
    grad_w: &Mat<A::F>,
    target: &[i64],
    ignore_index: i64,
    stochastic: Option<&mut Rng>,
) -> (g: GradWQuant<A::F>)
    requires
        grad_w.wf(),
    ensures
        g.wf(),
        g.quant.rows == grad_w.rows,
        g.quant.cols == grad_w.cols,
        g.quant.scale@ == scales::<A>(grad_w@),
        g.quant.codes() == codes_of::<A>(
            grad_w@,
            grad_w.cols as int,
            match stochastic {
                Some(rng) => Some((*rng)@),
                None => None,
            },
        ),
        forall|t: usize|
            #[trigger] g.unique_targets@.contains(t) <==> hit(
                target@,
                target@.len() as int,
                ignore_index,
                grad_w.rows as int,
                t as int,
            ),
        g.kept() == Seq::new(
            g.unique_targets@.len(),
            |i: int| grad_w@[g.unique_targets@[i] as int],
        ),
        stochastic matches Some(rng) ==> final(rng)@ == state_after(
            (*rng)@,
            grad_w.rows * grad_w.cols,
        ),
{
    let unique = target_classes(target, ignore_index, grad_w.rows);
    assert forall|i: int| 0 <= i < unique@.len() implies #[trigger] unique@[i] < grad_w.rows by {
        assert(unique@.contains(unique@[i]));
    }
    let n: usize = unique.len();
    let mut kept: Mat<A::F> = Mat::with_cols(grad_w.cols);
    for i in 0..n
        invariant
            grad_w.wf(),
            n == unique@.len(),
            forall|i: int| 0 <= i < unique@.len() ==> #[trigger] unique@[i] < grad_w.rows,
            kept.wf(),
            kept.rows == i,
            kept.cols == grad_w.cols,
            kept@ == Seq::new(i as nat, |j: int| grad_w@[unique@[j] as int]),
    {
        kept.push_row(grad_w.row(unique[i]));
        assert(kept@ =~= Seq::new((i + 1) as nat, |j: int| grad_w@[unique@[j] as int]));
    }
    let quant = match stochastic {
        Some(rng) => quantize_rowwise_int8_stochastic::<A>(grad_w, rng),
        None => quantize_rowwise_int8::<A>(grad_w),
    };
    GradWQuant { quant, unique_targets: unique, target_rows: kept.data }
}

/// The matrix that a compressed gradient stands for, times `grad_output`: the kept rows
/// where there are some, else what the codes stand for.
pub open spec fn restored<A: Arith>(g: GradWQuant<A::F>, grad_output: A::F) -> Seq<Seq<A::F>> {
    let body = decoded::<A>(g.quant.codes(), g.quant.scale@);
    scaled::<A>(
        Seq::new(
            body.len(),
            |r: int|
                if g.unique_targets@.contains(r as usize) {
                    g.kept()[g.unique_targets@.index_of(r as usize)]
                } else {
                    body[r]
                },
        ),
        grad_output,
    )
}

/// Reconstruct a weight gradient: decode the body, put the kept rows back, and multiply
/// everything by `grad_output`.
pub fn dequantize_grad_w<A: Arith>(g: &GradWQuant<A::F>, grad_output: A::F) -> (out: Mat<A::F>)
    requires
        g.wf(),
    ensures
        out.wf(),
        out.rows == g.quant.rows,
        out.cols == g.quant.cols,
        out@ == restored::<A>(*g, grad_output),
{
    let mut out = g.quant.dequantize::<A>();
    let ghost body = out@;
    let h: usize = out.cols;
    let n: usize = g.unique_targets.len();
    for i in 0..n
        invariant
            g.wf(),
            n == g.unique_targets@.len(),
            h == g.quant.cols,
            out.wf(),
            out.rows == g.quant.rows,
            out.cols == h,
            body.len() == out@.len(),
            forall|r: int|
                0 <= r < body.len() ==> #[trigger] out@[r] == if exists|k: int|
                    0 <= k < i && #[trigger] g.unique_targets@[k] == r {
                    g.kept()[g.unique_targets@.index_of(r as usize)]
                } else {
                    body[r]
                },
    {
        proof {
            lemma_row_in_bounds(i as int, n as int, h as int);
        }
        let t: usize = g.unique_targets[i];
        let src = vstd::slice::slice_subrange(g.target_rows.as_slice(), i * h, i * h + h);
        assert(src@ == g.kept()[i as int]);
        assert(g.unique_targets@.contains(t));
        assert(g.unique_targets@.index_of(t) == i);
        let ghost before = out@;
        out.set_row(t, src);
        assert forall|r: int| 0 <= r < body.len() implies #[trigger] out@[r] == if exists|k: int|
            0 <= k < i + 1 && #[trigger] g.unique_targets@[k] == r {
            g.kept()[g.unique_targets@.index_of(r as usize)]
        } else {
            body[r]
        } by {
            assert(g.unique_targets@[i as int] == t);
            if r != t {
                assert(out@[r] == before[r]);
            }
        }
    }
    let ghost mixed = Seq::new(
        body.len(),
        |r: int|
            if g.unique_targets@.contains(r as usize) {
                g.kept()[g.unique_targets@.index_of(r as usize)]
            } else {
                body[r]
            },
    );
    assert(out@ =~= mixed) by {
        assert forall|r: int| 0 <= r < body.len() implies #[trigger] out@[r] == mixed[r] by {
            if g.unique_targets@.contains(r as usize) {
                let k = choose|k: int| 0 <= k < n && g.unique_targets@[k] == r as usize;
                assert(g.unique_targets@[k] == r);
            }
        }
    }
    scale_assign::<A>(&mut out, grad_output);
    out
}

/// What a gradient `w` of `cols` columns becomes when it is compressed and reconstructed:
/// the rows of the targets are kept, the others go through their codes.
pub open spec fn round_trip<A: Arith>(
    w: Seq<Seq<A::F>>,
    cols: int,
    target: Seq<i64>,
    ignore_index: i64,
    state: Option<u64>,
    grad_output: A::F,
) -> Seq<Seq<A::F>> {
    let body = decoded::<A>(codes_of::<A>(w, cols, state), scales::<A>(w));
    scaled::<A>(
        Seq::new(
            w.len(),
            |r: int|
                if hit(target, target.len() as int, ignore_index, w.len() as int, r) {
                    w[r]
                } else {
                    body[r]
                },
        ),
        grad_output,
    )
}

/// Reconstructing what [`quantize_grad_w`] made of `w` keeps the rows of the targets and
/// nothing else as it was.
pub proof fn target_rows_survive<A: Arith>(
    g: GradWQuant<A::F>,
    w: Mat<A::F>,
    target: Seq<i64>,
    ignore_index: i64,
    state: Option<u64>,
    grad_output: A::F,
)
    requires
        w.wf(),
        g.wf(),
        g.quant.rows == w.rows,
        g.quant.cols == w.cols,
        g.quant.scale@ == scales::<A>(w@),
        g.quant.codes() == codes_of::<A>(w@, w.cols as int, state),
        forall|t: usize|
            #[trigger] g.unique_targets@.contains(t) <==> hit(
                target,
                target.len() as int,
                ignore_index,
                w.rows as int,
                t as int,
            ),
        g.kept() == Seq::new(g.unique_targets@.len(), |i: int| w@[g.unique_targets@[i] as int]),
    ensures
        restored::<A>(g, grad_output) == round_trip::<A>(
            w@,
            w.cols as int,
            target,
            ignore_index,
            state,
            grad_output,
        ),
        forall|r: int, c: int|
            0 <= r < w.rows && 0 <= c < w.cols && hit(
                target,
                target.len() as int,
                ignore_index,
                w.rows as int,
                r,
            ) ==> #[trigger] restored::<A>(g, grad_output)[r][c] == A::fmul_spec(w@[r][c], grad_output),
{
    let body = decoded::<A>(g.quant.codes(), g.quant.scale@);
    let lhs = Seq::new(
        body.len(),
        |r: int|
            if g.unique_targets@.contains(r as usize) {
                g.kept()[g.unique_targets@.index_of(r as usize)]
            } else {
                body[r]
            },
    );
    let rhs = Seq::new(
        w@.len(),
        |r: int|
            if hit(target, target.len() as int, ignore_index, w@.len() as int, r) {
                w@[r]
            } else {
                body[r]
            },
    );
    assert forall|r: int| 0 <= r < w.rows implies #[trigger] lhs[r] == rhs[r] by {
        let t = r as usize;
        assert(g.unique_targets@.contains(t) <==> hit(
            target,
            target.len() as int,
            ignore_index,
            w.rows as int,
            r,
        ));
    }
    assert(lhs =~= rhs);
    assert forall|r: int, c: int|
        0 <= r < w.rows && 0 <= c < w.cols && hit(
            target,
            target.len() as int,
            ignore_index,
            w.rows as int,
            r,
        ) implies #[trigger] restored::<A>(g, grad_output)[r][c] == A::fmul_spec(
        w@[r][c],
        grad_output,
    ) by {
        w.lemma_row_len(r);
    }
}

} // verus!
