//! The width of the tiles.

#![allow(unused_imports)]

use vstd::prelude::*;
use crate::arith::Arith;
use crate::laws::numbers::{exact_max, exact_sums, lemma_narrow_sums};
use crate::tiles::{
    ce_tile_grad, ce_tile_loss, centered, divides, kl_tile_grad, kl_tile_loss, mass, picked,
    row_max, row_sum, span_max, span_sum, stretched, tile_log_probs, tile_probs, tiled_max,
    tiled_sum,
};

verus! {

/// With exact sums, two neighbouring spans add up to the span of both.
proof fn lemma_span_sum<A: Arith>(z: Seq<A::F>, a: int, n: int, k: int)
    requires
        exact_sums::<A>(),
        0 <= n,
        0 <= k,
    ensures
        A::fadd_spec(span_sum::<A>(z, a, n), span_sum::<A>(z, a + n, k)) == span_sum::<A>(
            z,
            a,
            n + k,
        ),
    decreases k,
{
    let left = span_sum::<A>(z, a, n);
    if k == 0 {
        lemma_narrow_sums::<A>(left, left, left);
    } else {
        lemma_span_sum::<A>(z, a, n, k - 1);
        lemma_narrow_sums::<A>(left, span_sum::<A>(z, a + n, k - 1), z[a + n + k - 1]);
    }
}

/// The largest entry of two neighbouring spans is that of the span of both.
proof fn lemma_span_max<A: Arith>(z: Seq<A::F>, a: int, n: int, k: int)
    requires
        exact_max::<A>(),
        1 <= n,
        1 <= k,
    ensures
        A::fmax_spec(span_max::<A>(z, a, n), span_max::<A>(z, a + n, k)) == span_max::<A>(
            z,
            a,
            n + k,
        ),
    decreases k,
{
    if k > 1 {
        lemma_span_max::<A>(z, a, n, k - 1);
        reveal(exact_max);
        let left = span_max::<A>(z, a, n);
        let mid = span_max::<A>(z, a + n, k - 1);
        let last = z[a + n + k - 1];
        assert(A::fmax_spec(A::fmax_spec(left, mid), last) == A::fmax_spec(
            left,
            A::fmax_spec(mid, last),
        ));
    }
}

/// What is reduced tile by tile is what is reduced at once.
pub proof fn lemma_tiles_reduce<A: Arith>(z: Seq<A::F>, block: int, t: int)
    requires
        exact_sums::<A>(),
        exact_max::<A>(),
        block > 0,
        t >= 0,
    ensures
        tiled_sum::<A>(z, block, t) == span_sum::<A>(z, 0, t * block),
        tiled_max::<A>(z, block, t) == if t == 0 {
            A::flowest_spec()
        } else {
            span_max::<A>(z, 0, t * block)
        },
    decreases t,
{
    if t == 0 {
        assert(0 * block == 0);
    } else {
        lemma_tiles_reduce::<A>(z, block, t - 1);
        assert(t * block == (t - 1) * block + block) by (nonlinear_arith);
        assert((t - 1) * block >= 0) by (nonlinear_arith)
            requires
                t >= 1,
                block > 0,
        ;
        lemma_span_sum::<A>(z, 0, (t - 1) * block, block);
        if t == 1 {
            reveal(exact_max);
            assert((t - 1) * block == 0);
        } else {
            assert((t - 1) * block >= 1) by (nonlinear_arith)
                requires
                    t >= 2,
                    block > 0,
            ;
            lemma_span_max::<A>(z, 0, (t - 1) * block, block);
        }
    }
}

/// A row that falls into tiles of either width is reduced to the same.
proof fn lemma_tile_widths<A: Arith>(z: Seq<A::F>, b1: usize, b2: usize)
    requires
        exact_sums::<A>(),
        exact_max::<A>(),
        divides(b1, z.len() as int),
        divides(b2, z.len() as int),
    ensures
        row_sum::<A>(z, b1 as int) == row_sum::<A>(z, b2 as int),
        row_max::<A>(z, b1 as int) == row_max::<A>(z, b2 as int),
{
    let n = z.len() as int;
    let t1 = n / b1 as int;
    let t2 = n / b2 as int;
    vstd::arithmetic::div_mod::lemma_fundamental_div_mod(n, b1 as int);
    vstd::arithmetic::div_mod::lemma_fundamental_div_mod(n, b2 as int);
    vstd::arithmetic::div_mod::lemma_div_pos_is_pos(n, b1 as int);
    vstd::arithmetic::div_mod::lemma_div_pos_is_pos(n, b2 as int);
    assert(t1 * b1 == n && t2 * b2 == n && (t1 == 0 <==> n == 0) && (t2 == 0 <==> n == 0))
        by (nonlinear_arith)
        requires
            n == b1 * t1,
            n == b2 * t2,
            b1 > 0,
            b2 > 0,
    ;
    lemma_tiles_reduce::<A>(z, b1 as int, t1);
    lemma_tiles_reduce::<A>(z, b2 as int, t2);
}

/// A centered row, and all that is made of it, does not depend on the width of the tiles.
proof fn lemma_centered_widths<A: Arith>(z: Seq<A::F>, b1: usize, b2: usize)
    requires
        exact_sums::<A>(),
        exact_max::<A>(),
        divides(b1, z.len() as int),
        divides(b2, z.len() as int),
    ensures
        centered::<A>(z, b1 as int) == centered::<A>(z, b2 as int),
        mass::<A>(centered::<A>(z, b1 as int), b1 as int) == mass::<A>(
            centered::<A>(z, b2 as int),
            b2 as int,
        ),
        tile_probs::<A>(centered::<A>(z, b1 as int), b1 as int) == tile_probs::<A>(
            centered::<A>(z, b2 as int),
            b2 as int,
        ),
        tile_log_probs::<A>(centered::<A>(z, b1 as int), b1 as int) == tile_log_probs::<A>(
            centered::<A>(z, b2 as int),
            b2 as int,
        ),
{
    lemma_tile_widths::<A>(z, b1, b2);
    let c = centered::<A>(z, b1 as int);
    assert(c =~= centered::<A>(z, b2 as int));
    lemma_tile_widths::<A>(Seq::new(c.len(), |j: int| A::fexp_spec(c[j])), b1, b2);
    assert(tile_probs::<A>(c, b1 as int) =~= tile_probs::<A>(c, b2 as int));
    assert(tile_log_probs::<A>(c, b1 as int) =~= tile_log_probs::<A>(c, b2 as int));
}

/// Where sums and maxima are exact, the width of the tiles changes nothing in what the
/// kernels compute: any width that divides the vocabulary will do.
pub proof fn tile_width_does_not_change_the_kernels<A: Arith>(
    student: Seq<A::F>,
    teacher: Seq<A::F>,
    y: int,
    ignored: bool,
    inv_t: A::F,
    t_sq: A::F,
    alpha: A::F,
    scale: A::F,
    b1: usize,
    b2: usize,
)
    requires
        exact_sums::<A>(),
        exact_max::<A>(),
        teacher.len() == student.len(),
        divides(b1, student.len() as int),
        divides(b2, student.len() as int),
    ensures
        kl_tile_loss::<A>(student, teacher, ignored, b1 as int, inv_t, t_sq) == kl_tile_loss::<A>(
            student,
            teacher,
            ignored,
            b2 as int,
            inv_t,
            t_sq,
        ),
        kl_tile_grad::<A>(student, teacher, ignored, b1 as int, inv_t, scale) == kl_tile_grad::<A>(
            student,
            teacher,
            ignored,
            b2 as int,
            inv_t,
            scale,
        ),
        ce_tile_loss::<A>(student, y, ignored, b1 as int, alpha) == ce_tile_loss::<A>(
            student,
            y,
            ignored,
            b2 as int,
            alpha,
        ),
        ce_tile_grad::<A>(student, y, ignored, b1 as int, alpha, scale) == ce_tile_grad::<A>(
            student,
            y,
            ignored,
            b2 as int,
            alpha,
            scale,
        ),
{
    let zs = stretched::<A>(student, inv_t);
    let zt = stretched::<A>(teacher, inv_t);
    lemma_centered_widths::<A>(zs, b1, b2);
    lemma_centered_widths::<A>(zt, b1, b2);
    lemma_centered_widths::<A>(student, b1, b2);
    lemma_tile_widths::<A>(student, b1, b2);
    lemma_tile_widths::<A>(picked::<A>(student, y), b1, b2);
    let s = centered::<A>(zs, b1 as int);
    let t = centered::<A>(zt, b1 as int);
    let terms = Seq::new(
        student.len(),
        |j: int|
            A::fmul_spec(
                tile_probs::<A>(t, b1 as int)[j],
                A::fsub_spec(
                    tile_log_probs::<A>(t, b1 as int)[j],
                    tile_log_probs::<A>(s, b1 as int)[j],
                ),
            ),
    );
    let terms2 = Seq::new(
        student.len(),
        |j: int|
            A::fmul_spec(
                tile_probs::<A>(t, b2 as int)[j],
                A::fsub_spec(
                    tile_log_probs::<A>(t, b2 as int)[j],
                    tile_log_probs::<A>(s, b2 as int)[j],
                ),
            ),
    );
    assert(terms =~= terms2);
    lemma_tile_widths::<A>(terms, b1, b2);
    assert(kl_tile_grad::<A>(student, teacher, ignored, b1 as int, inv_t, scale) =~= kl_tile_grad::<
        A,
    >(student, teacher, ignored, b2 as int, inv_t, scale));
    assert(ce_tile_grad::<A>(student, y, ignored, b1 as int, alpha, scale) =~= ce_tile_grad::<A>(
        student,
        y,
        ignored,
        b2 as int,
        alpha,
        scale,
    ));
}

} // verus!
