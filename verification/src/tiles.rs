//! The two kernels as an accelerator runs them: one block to a row, three passes over the
//! row in tiles of `block` classes, in narrow numbers throughout.
//!
//! A tile is reduced on its own, and its result joins that of the tiles before it. Here the
//! entries of a tile are added up from the left; a device leaves that order open. The
//! first pass finds the largest entry, the second the sum of the exponentials, the third
//! writes the gradient.

use vstd::prelude::*;
use crate::arith::Arith;
use crate::mat::Mat;

verus! {

/// The largest of the `n` entries from entry `a` on.
pub open spec fn span_max<A: Arith>(z: Seq<A::F>, a: int, n: int) -> A::F
    decreases n,
{
    if n <= 1 {
        z[a]
    } else {
        A::fmax_spec(span_max::<A>(z, a, n - 1), z[a + n - 1])
    }
}

/// The sum of the `n` entries from entry `a` on.
pub open spec fn span_sum<A: Arith>(z: Seq<A::F>, a: int, n: int) -> A::F
    decreases n,
{
    if n <= 0 {
        A::fint_spec(0)
    } else {
        A::fadd_spec(span_sum::<A>(z, a, n - 1), z[a + n - 1])
    }
}

/// The largest entry of the first `t` tiles.
pub open spec fn tiled_max<A: Arith>(z: Seq<A::F>, block: int, t: int) -> A::F
    decreases t,
{
    if t <= 0 {
        A::flowest_spec()
    } else {
        A::fmax_spec(tiled_max::<A>(z, block, t - 1), span_max::<A>(z, (t - 1) * block, block))
    }
}

/// The sum of the first `t` tiles, tile by tile.
pub open spec fn tiled_sum<A: Arith>(z: Seq<A::F>, block: int, t: int) -> A::F
    decreases t,
{
    if t <= 0 {
        A::fint_spec(0)
    } else {
        A::fadd_spec(tiled_sum::<A>(z, block, t - 1), span_sum::<A>(z, (t - 1) * block, block))
    }
}

/// The largest entry of a row.
pub open spec fn row_max<A: Arith>(z: Seq<A::F>, block: int) -> A::F {
    tiled_max::<A>(z, block, z.len() as int / block)
}

/// The sum of a row.
pub open spec fn row_sum<A: Arith>(z: Seq<A::F>, block: int) -> A::F {
    tiled_sum::<A>(z, block, z.len() as int / block)
}

/// The row `x`, each entry times `s`.
pub open spec fn stretched<A: Arith>(x: Seq<A::F>, s: A::F) -> Seq<A::F> {
    Seq::new(x.len(), |j: int| A::fmul_spec(x[j], s))
}

/// The row `z` relative to its largest entry.
pub open spec fn centered<A: Arith>(z: Seq<A::F>, block: int) -> Seq<A::F> {
    Seq::new(z.len(), |j: int| A::fsub_spec(z[j], row_max::<A>(z, block)))
}

/// The sum of the exponentials of a centered row.
pub open spec fn mass<A: Arith>(c: Seq<A::F>, block: int) -> A::F {
    row_sum::<A>(Seq::new(c.len(), |j: int| A::fexp_spec(c[j])), block)
}

/// The probabilities of a centered row.
pub open spec fn tile_probs<A: Arith>(c: Seq<A::F>, block: int) -> Seq<A::F> {
    Seq::new(
        c.len(),
        |j: int|
            A::fmul_spec(A::fexp_spec(c[j]), A::fdiv_spec(A::fint_spec(1), mass::<A>(c, block))),
    )
}

/// Their logarithms.
pub open spec fn tile_log_probs<A: Arith>(c: Seq<A::F>, block: int) -> Seq<A::F> {
    Seq::new(c.len(), |j: int| A::fsub_spec(c[j], A::fln_spec(mass::<A>(c, block))))
}

/// The forward KL of a pair of rows, times `t_sq`; zero where the row is ignored.
pub open spec fn kl_tile_loss<A: Arith>(
    student: Seq<A::F>,
    teacher: Seq<A::F>,
    ignored: bool,
    block: int,
    inv_t: A::F,
    t_sq: A::F,
) -> A::F {
    let s = centered::<A>(stretched::<A>(student, inv_t), block);
    let t = centered::<A>(stretched::<A>(teacher, inv_t), block);
    let terms = Seq::new(
        student.len(),
        |j: int|
            A::fmul_spec(
                tile_probs::<A>(t, block)[j],
                A::fsub_spec(tile_log_probs::<A>(t, block)[j], tile_log_probs::<A>(s, block)[j]),
            ),
    );
    if ignored {
        A::fint_spec(0)
    } else {
        A::fmul_spec(row_sum::<A>(terms, block), t_sq)
    }
}

/// The student's gradient of that; zero where the row is ignored.
pub open spec fn kl_tile_grad<A: Arith>(
    student: Seq<A::F>,
    teacher: Seq<A::F>,
    ignored: bool,
    block: int,
    inv_t: A::F,
    grad_scale: A::F,
) -> Seq<A::F> {
    let s = centered::<A>(stretched::<A>(student, inv_t), block);
    let t = centered::<A>(stretched::<A>(teacher, inv_t), block);
    Seq::new(
        student.len(),
        |j: int|
            if ignored {
                A::fint_spec(0)
            } else {
                A::fmul_spec(
                    A::fsub_spec(tile_probs::<A>(s, block)[j], tile_probs::<A>(t, block)[j]),
                    grad_scale,
                )
            },
    )
}

/// The logit of class `y`, found by adding up a row in which all others are zero.
pub open spec fn picked<A: Arith>(x: Seq<A::F>, y: int) -> Seq<A::F> {
    Seq::new(
        x.len(),
        |j: int|
            if j == y {
                x[j]
            } else {
                A::fint_spec(0)
            },
    )
}

/// The cross-entropy of class `y`, smoothed by `alpha`; zero where the row is ignored.
pub open spec fn ce_tile_loss<A: Arith>(
    x: Seq<A::F>,
    y: int,
    ignored: bool,
    block: int,
    alpha: A::F,
) -> A::F {
    let lse = A::fadd_spec(
        row_max::<A>(x, block),
        A::fln_spec(mass::<A>(centered::<A>(x, block), block)),
    );
    let kept = A::fmul_spec(
        A::fsub_spec(A::fint_spec(1), alpha),
        row_sum::<A>(picked::<A>(x, y), block),
    );
    let spread = A::fmul_spec(
        A::fdiv_spec(alpha, A::fint_spec(x.len() as int)),
        row_sum::<A>(x, block),
    );
    if ignored {
        A::fint_spec(0)
    } else {
        A::fsub_spec(A::fsub_spec(lse, kept), spread)
    }
}

/// The gradient of that, times `scale`, for which an ignored row takes zero.
pub open spec fn ce_tile_grad<A: Arith>(
    x: Seq<A::F>,
    y: int,
    ignored: bool,
    block: int,
    alpha: A::F,
    scale: A::F,
) -> Seq<A::F> {
    let p = tile_probs::<A>(centered::<A>(x, block), block);
    let eps = A::fdiv_spec(alpha, A::fint_spec(x.len() as int));
    let weight = if ignored {
        A::fint_spec(0)
    } else {
        scale
    };
    Seq::new(
        x.len(),
        |j: int|
            {
                let prob = A::fsub_spec(p[j], eps);
                let slope = if j == y {
                    A::fsub_spec(prob, A::fsub_spec(A::fint_spec(1), alpha))
                } else {
                    prob
                };
                A::fmul_spec(slope, weight)
            },
    )
}

/// A row of `len` entries falls into tiles of `block`.
pub open spec fn divides(block: usize, len: int) -> bool {
    block > 0 && len % block as int == 0
}

/// Tile number `t` lies within the row.
proof fn lemma_tile_in_row(len: int, block: int, t: int)
    requires
        block > 0,
        len >= 0,
        len % block == 0,
        0 <= t < len / block,
    ensures
        0 <= t * block,
        t * block + block <= len,
        (t + 1) * block == t * block + block,
{
    vstd::arithmetic::div_mod::lemma_fundamental_div_mod(len, block);
    let tiles = len / block;
    assert(0 <= t * block && t * block + block <= len && (t + 1) * block == t * block + block)
        by (nonlinear_arith)
        requires
            len == block * tiles,
            0 <= t < tiles,
            block > 0,
    ;
}

/// First pass: the largest entry of a row.
fn reduce_max<A: Arith>(z: &[A::F], block: usize) -> (m: A::F)
    requires
        divides(block, z@.len() as int),
    ensures
        m == row_max::<A>(z@, block as int),
{
    let n: usize = z.len();
    let tiles: usize = n / block;
    let mut m = A::flowest();
    for t in 0..tiles
        invariant
            n == z@.len(),
            divides(block, z@.len() as int),
            tiles == z@.len() as int / block as int,
            m == tiled_max::<A>(z@, block as int, t as int),
    {
        proof {
            lemma_tile_in_row(z@.len() as int, block as int, t as int);
        }
        let start: usize = t * block;
        let mut top = z[start];
        for j in 1..block
            invariant
                n == z@.len(),
                start + block <= n,
                1 <= j <= block || block == 0,
                top == span_max::<A>(z@, start as int, j as int),
        {
            top = A::fmax(top, z[start + j]);
        }
        m = A::fmax(m, top);
    }
    m
}

/// The sum of a row.
fn reduce_sum<A: Arith>(z: &[A::F], block: usize) -> (sum: A::F)
    requires
        divides(block, z@.len() as int),
    ensures
        sum == row_sum::<A>(z@, block as int),
{
    let n: usize = z.len();
    let tiles: usize = n / block;
    let mut sum = A::fint(0);
    for t in 0..tiles
        invariant
            n == z@.len(),
            divides(block, z@.len() as int),
            tiles == z@.len() as int / block as int,
            sum == tiled_sum::<A>(z@, block as int, t as int),
    {
        proof {
            lemma_tile_in_row(z@.len() as int, block as int, t as int);
        }
        let start: usize = t * block;
        let mut part = A::fint(0);
        for j in 0..block
            invariant
                n == z@.len(),
                start + block <= n,
                part == span_sum::<A>(z@, start as int, j as int),
        {
            part = A::fadd(part, z[start + j]);
        }
        sum = A::fadd(sum, part);
    }
    sum
}

/// A row times a number.
fn stretch_row<A: Arith>(x: &[A::F], s: A::F) -> (z: Vec<A::F>)
    ensures
        z@ == stretched::<A>(x@, s),
{
    let n: usize = x.len();
    let mut z: Vec<A::F> = Vec::new();
    for j in 0..n
        invariant
            n == x@.len(),
            z@ == stretched::<A>(x@, s).subrange(0, j as int),
    {
        z.push(A::fmul(x[j], s));
        assert(z@ =~= stretched::<A>(x@, s).subrange(0, j + 1));
    }
    assert(z@ =~= stretched::<A>(x@, s));
    z
}

/// A row relative to its largest entry, which is returned with it.
fn center_row<A: Arith>(z: &[A::F], block: usize) -> (r: (A::F, Vec<A::F>))
    requires
        divides(block, z@.len() as int),
    ensures
        r.0 == row_max::<A>(z@, block as int),
        r.1@ == centered::<A>(z@, block as int),
{
    let n: usize = z.len();
    let m = reduce_max::<A>(z, block);
    let mut c: Vec<A::F> = Vec::new();
    for j in 0..n
        invariant
            n == z@.len(),
            m == row_max::<A>(z@, block as int),
            c@ == centered::<A>(z@, block as int).subrange(0, j as int),
    {
        c.push(A::fsub(z[j], m));
        assert(c@ =~= centered::<A>(z@, block as int).subrange(0, j + 1));
    }
    assert(c@ =~= centered::<A>(z@, block as int));
    (m, c)
}

/// Second pass: the exponentials of a centered row, and their sum.
fn exp_row<A: Arith>(c: &[A::F], block: usize) -> (r: (A::F, Vec<A::F>))
    requires
        divides(block, c@.len() as int),
    ensures
        r.0 == mass::<A>(c@, block as int),
        r.1@ == Seq::new(c@.len(), |j: int| A::fexp_spec(c@[j])),
{
    let ghost exps = Seq::new(c@.len(), |j: int| A::fexp_spec(c@[j]));
    let n: usize = c.len();
    let mut e: Vec<A::F> = Vec::new();
    for j in 0..n
        invariant
            n == c@.len(),
            exps == Seq::new(c@.len(), |j: int| A::fexp_spec(c@[j])),
            e@ == exps.subrange(0, j as int),
    {
        e.push(A::fexp(c[j]));
        assert(e@ =~= exps.subrange(0, j + 1));
    }
    assert(e@ =~= exps);
    let d = reduce_sum::<A>(e.as_slice(), block);
    (d, e)
}

/// The probabilities and log-probabilities of a row of logits times `inv_t`.
fn tile_softmax<A: Arith>(x: &[A::F], inv_t: A::F, block: usize) -> (r: (Vec<A::F>, Vec<A::F>))
    requires
        divides(block, x@.len() as int),
    ensures
        ({
            let c = centered::<A>(stretched::<A>(x@, inv_t), block as int);
            &&& r.0@ == tile_probs::<A>(c, block as int)
            &&& r.1@ == tile_log_probs::<A>(c, block as int)
        }),
{
    let z = stretch_row::<A>(x, inv_t);
    let (_m, c) = center_row::<A>(z.as_slice(), block);
    let (d, e) = exp_row::<A>(c.as_slice(), block);
    let log_d = A::fln(d);
    let inv_d = A::fdiv(A::fint(1), d);
    let n: usize = x.len();
    let mut p: Vec<A::F> = Vec::new();
    let mut log_p: Vec<A::F> = Vec::new();
    for j in 0..n
        invariant
            n == c@.len(),
            n == e@.len(),
            e@ == Seq::new(c@.len(), |j: int| A::fexp_spec(c@[j])),
            inv_d == A::fdiv_spec(A::fint_spec(1), mass::<A>(c@, block as int)),
            log_d == A::fln_spec(mass::<A>(c@, block as int)),
            p@ == tile_probs::<A>(c@, block as int).subrange(0, j as int),
            log_p@ == tile_log_probs::<A>(c@, block as int).subrange(0, j as int),
    {
        p.push(A::fmul(e[j], inv_d));
        log_p.push(A::fsub(c[j], log_d));
        assert(p@ =~= tile_probs::<A>(c@, block as int).subrange(0, j + 1));
        assert(log_p@ =~= tile_log_probs::<A>(c@, block as int).subrange(0, j + 1));
    }
    assert(p@ =~= tile_probs::<A>(c@, block as int));
    assert(log_p@ =~= tile_log_probs::<A>(c@, block as int));
    (p, log_p)
}

/// The KL kernel for student row `i` of a chunk `x` of `2 * n_rows` rows, the teacher's row
/// being `n_rows` further down: the KL times `t_sq`, and the student's gradient
/// `grad_scale * (p_s - p_t)`.
pub fn kl_from_logits_chunk<A: Arith>(
    x: &Mat<A::F>,
    y: &[i32],
    i: usize,
    n_rows: usize,
    block: usize,
    inv_t: A::F,
    grad_scale: A::F,
    t_sq: A::F,
    ignore_index: i32,
) -> (r: (A::F, Vec<A::F>))
    requires
        x.wf(),
        x.rows == 2 * n_rows,
        y@.len() == n_rows,
        i < n_rows,
        divides(block, x.cols as int),
    ensures
        r.0 == kl_tile_loss::<A>(
            x@[i as int],
            x@[n_rows + i],
            y@[i as int] == ignore_index,
            block as int,
            inv_t,
            t_sq,
        ),
        r.1@ == kl_tile_grad::<A>(
            x@[i as int],
            x@[n_rows + i],
            y@[i as int] == ignore_index,
            block as int,
            inv_t,
            grad_scale,
        ),
{
    let ignored = y[i] == ignore_index;
    let v: usize = x.cols;
    let (p_s, log_p_s) = tile_softmax::<A>(x.row(i), inv_t, block);
    let (p_t, log_p_t) = tile_softmax::<A>(x.row(n_rows + i), inv_t, block);
    let ghost all_terms = Seq::new(
        v as nat,
        |j: int| A::fmul_spec(p_t@[j], A::fsub_spec(log_p_t@[j], log_p_s@[j])),
    );
    let ghost slopes = kl_tile_grad::<A>(
        x@[i as int],
        x@[n_rows + i],
        ignored,
        block as int,
        inv_t,
        grad_scale,
    );
    let mut terms: Vec<A::F> = Vec::new();
    let mut grad: Vec<A::F> = Vec::new();
    for j in 0..v
        invariant
            v == p_s@.len(),
            v == p_t@.len(),
            v == log_p_s@.len(),
            v == log_p_t@.len(),
            all_terms == Seq::new(
                v as nat,
                |j: int| A::fmul_spec(p_t@[j], A::fsub_spec(log_p_t@[j], log_p_s@[j])),
            ),
            slopes.len() == v,
            forall|j: int|
                0 <= j < v ==> #[trigger] slopes[j] == if ignored {
                    A::fint_spec(0)
                } else {
                    A::fmul_spec(A::fsub_spec(p_s@[j], p_t@[j]), grad_scale)
                },
            terms@ == all_terms.subrange(0, j as int),
            grad@ == slopes.subrange(0, j as int),
    {
        terms.push(A::fmul(p_t[j], A::fsub(log_p_t[j], log_p_s[j])));
        if ignored {
            grad.push(A::fint(0));
        } else {
            grad.push(A::fmul(A::fsub(p_s[j], p_t[j]), grad_scale));
        }
        assert(terms@ =~= all_terms.subrange(0, j + 1));
        assert(grad@ =~= slopes.subrange(0, j + 1));
    }
    assert(terms@ =~= all_terms);
    assert(grad@ =~= slopes);
    let ghost s = centered::<A>(stretched::<A>(x@[i as int], inv_t), block as int);
    let ghost t = centered::<A>(stretched::<A>(x@[n_rows + i], inv_t), block as int);
    assert(all_terms =~= Seq::new(
        x@[i as int].len(),
        |j: int|
            A::fmul_spec(
                tile_probs::<A>(t, block as int)[j],
                A::fsub_spec(
                    tile_log_probs::<A>(t, block as int)[j],
                    tile_log_probs::<A>(s, block as int)[j],
                ),
            ),
    ));
    let kl = reduce_sum::<A>(terms.as_slice(), block);
    let loss = if ignored { A::fint(0) } else { A::fmul(kl, t_sq) };
    (loss, grad)
}

/// Whether row `r` of the grid is one of the student's.
pub open spec fn is_student_row(r: int, n_rows: int, student_only: bool) -> bool {
    student_only || r < n_rows
}

/// The target of row `r` of the grid: a teacher's row has that of the student's.
pub open spec fn target_row(r: int, n_rows: int, student_only: bool) -> int {
    if is_student_row(r, n_rows, student_only) {
        r
    } else {
        r - n_rows
    }
}

/// How many rows the cross-entropy kernel scores.
pub open spec fn grid_rows(n_rows: int, student_only: bool) -> int {
    if student_only {
        n_rows
    } else {
        2 * n_rows
    }
}

/// The cross-entropy kernel for row `r` of the grid, over a chunk `x` of student's rows and
/// then teacher's rows: the loss, and the gradient
/// `scale * ((p - alpha / V) - [j == y] * (1 - alpha))`.
pub fn exact_ce_fwdbwd<A: Arith>(
    x: &Mat<A::F>,
    y: &[i32],
    r: usize,
    n_rows: usize,
    block: usize,
    student_only: bool,
    student_scale: A::F,
    teacher_scale: A::F,
    label_smoothing: A::F,
    ignore_index: i32,
) -> (out: (A::F, Vec<A::F>))
    requires
        x.wf(),
        x.rows == 2 * n_rows,
        y@.len() == n_rows,
        r < grid_rows(n_rows as int, student_only),
        divides(block, x.cols as int),
    ensures
        ({
            let target = y@[target_row(r as int, n_rows as int, student_only)];
            let ignored = target == ignore_index;
            let scale = if is_student_row(r as int, n_rows as int, student_only) {
                student_scale
            } else {
                teacher_scale
            };
            &&& out.0 == ce_tile_loss::<A>(
                x@[r as int],
                target as int,
                ignored,
                block as int,
                label_smoothing,
            )
            &&& out.1@ == ce_tile_grad::<A>(
                x@[r as int],
                target as int,
                ignored,
                block as int,
                label_smoothing,
                scale,
            )
        }),
{
    let is_student = student_only || r < n_rows;
    let y_row: usize = if is_student { r } else { r - n_rows };
    let target: i32 = y[y_row];
    let ignored = target == ignore_index;
    let scale = if ignored {
        A::fint(0)
    } else if is_student {
        student_scale
    } else {
        teacher_scale
    };
    let row = x.row(r);
    let v: usize = x.cols;
    let (m, c) = center_row::<A>(row, block);
    let (d, e) = exp_row::<A>(c.as_slice(), block);
    let inv_d = A::fdiv(A::fint(1), d);
    let one_minus_a = A::fsub(A::fint(1), label_smoothing);
    let eps = A::fdiv(label_smoothing, A::fint(v as i128));

    let ghost weight = if is_student_row(r as int, n_rows as int, student_only) {
        student_scale
    } else {
        teacher_scale
    };
    let ghost slopes = ce_tile_grad::<A>(
        row@,
        target as int,
        ignored,
        block as int,
        label_smoothing,
        weight,
    );
    let mut gathered: Vec<A::F> = Vec::new();
    let mut grad: Vec<A::F> = Vec::new();
    for j in 0..v
        invariant
            v == row@.len(),
            v == e@.len(),
            c@ == centered::<A>(row@, block as int),
            e@ == Seq::new(c@.len(), |j: int| A::fexp_spec(c@[j])),
            inv_d == A::fdiv_spec(A::fint_spec(1), mass::<A>(c@, block as int)),
            one_minus_a == A::fsub_spec(A::fint_spec(1), label_smoothing),
            eps == A::fdiv_spec(label_smoothing, A::fint_spec(v as int)),
            scale == if ignored {
                A::fint_spec(0)
            } else {
                weight
            },
            slopes == ce_tile_grad::<A>(
                row@,
                target as int,
                ignored,
                block as int,
                label_smoothing,
                weight,
            ),
            gathered@ == picked::<A>(row@, target as int).subrange(0, j as int),
            grad@ == slopes.subrange(0, j as int),
    {
        let prob = A::fsub(A::fmul(e[j], inv_d), eps);
        if target >= 0 && j as u64 == target as u64 {
            gathered.push(row[j]);
            grad.push(A::fmul(A::fsub(prob, one_minus_a), scale));
        } else {
            gathered.push(A::fint(0));
            grad.push(A::fmul(prob, scale));
        }
        assert(gathered@ =~= picked::<A>(row@, target as int).subrange(0, j + 1));
        assert(grad@ =~= slopes.subrange(0, j + 1));
    }
    assert(gathered@ =~= picked::<A>(row@, target as int));
    assert(grad@ =~= slopes);

    let sum_x = reduce_sum::<A>(row, block);
    let logit_tgt = reduce_sum::<A>(gathered.as_slice(), block);
    let lse = A::fadd(m, A::fln(d));
    let kept = A::fmul(one_minus_a, logit_tgt);
    let spread = A::fmul(eps, sum_x);
    let nll = if ignored { A::fint(0) } else { A::fsub(A::fsub(lse, kept), spread) };
    (nll, grad)
}

} // verus!
