//! The kernels for one row: the weight of a row, and the two ways to its probabilities and to
//! its cross-entropy.

#![allow(unused_imports)]

use vstd::prelude::*;
use crate::arith::Arith;
use crate::laws::numbers::{
    cancels, exact_max, exact_sums, lemma_narrow_sums, one_is_neutral, one_precision,
};
use crate::laws::widths::lemma_tiles_reduce;
use crate::reference::cross_entropy::{ce_grad, ce_loss, nll, nll_slope};
use crate::reference::kl::{at_temperature, log_probs, probs};
use crate::reference::softmax::{exp_sum, log_softmax, peak, softmax, total, widened};
use crate::tiles::{
    ce_tile_loss, centered, divides, mass, picked, row_max, row_sum, span_max, span_sum, stretched,
    tile_log_probs, tile_probs,
};

verus! {

/// The gradient of a row scales with its weight, also with a weight of zero and on an ignored
/// row: it is the gradient under a weight of one, times the weight. The loss has no weight in
/// it.
pub proof fn gradient_is_linear_in_the_weight<A: Arith>(
    x: Seq<A::F>,
    y: i64,
    ignore_index: i64,
    label_smoothing: A::F,
    scale: A::F,
    j: int,
)
    requires
        one_precision::<A>(),
        one_is_neutral::<A>(),
        cancels::<A>(),
        0 <= j < x.len(),
    ensures
        ce_grad::<A>(x, y, ignore_index, label_smoothing, scale)[j] == A::narrow_spec(
            A::dmul_spec(
                A::widen_spec(
                    ce_grad::<A>(x, y, ignore_index, label_smoothing, A::fint_spec(1))[j],
                ),
                A::widen_spec(scale),
            ),
        ),
{
    reveal(one_precision);
    let zero = A::fint_spec(0);
    assert(A::narrow_spec(A::widen_spec(zero)) == zero);
    assert(!A::deq_spec(A::widen_spec(A::fint_spec(1)), A::dint_spec(0)));
    let z = widened::<A>(x);
    let m = peak::<A>(z, z.len() as int);
    let slope = nll_slope::<A>(z, m, y as int, A::widen_spec(label_smoothing), j);
    assert(A::dmul_spec(slope, A::dint_spec(1)) == slope);
    assert(A::widen_spec(A::narrow_spec(slope)) == slope);
    if A::deq_spec(A::widen_spec(scale), A::dint_spec(0)) {
        assert(A::dmul_spec(slope, A::dint_spec(0)) == A::dint_spec(0));
    }
}

/// A row reduced in tiles is the row reduced at once.
pub proof fn lemma_row_reduces<A: Arith>(z: Seq<A::F>, block: usize)
    requires
        exact_sums::<A>(),
        exact_max::<A>(),
        divides(block, z.len() as int),
        z.len() > 0,
    ensures
        row_sum::<A>(z, block as int) == span_sum::<A>(z, 0, z.len() as int),
        row_max::<A>(z, block as int) == span_max::<A>(z, 0, z.len() as int),
{
    let n = z.len() as int;
    let t = n / block as int;
    vstd::arithmetic::div_mod::lemma_fundamental_div_mod(n, block as int);
    vstd::arithmetic::div_mod::lemma_div_pos_is_pos(n, block as int);
    assert(t * block == n && t > 0) by (nonlinear_arith)
        requires
            n == block * t,
            n > 0,
            block > 0,
    ;
    lemma_tiles_reduce::<A>(z, block as int, t);
}

/// A widened sum is the sum of the widened entries.
proof fn lemma_wide_total<A: Arith>(z: Seq<A::F>, k: int)
    requires
        one_precision::<A>(),
        0 <= k <= z.len(),
    ensures
        A::widen_spec(span_sum::<A>(z, 0, k)) == total::<A>(widened::<A>(z), k),
    decreases k,
{
    reveal(one_precision);
    if k > 0 {
        lemma_wide_total::<A>(z, k - 1);
    }
}

/// A widened largest entry is the largest of the widened entries.
proof fn lemma_wide_peak<A: Arith>(z: Seq<A::F>, k: int)
    requires
        exact_max::<A>(),
        one_precision::<A>(),
        1 <= k <= z.len(),
    ensures
        A::widen_spec(span_max::<A>(z, 0, k)) == peak::<A>(widened::<A>(z), k),
    decreases k,
{
    reveal(one_precision);
    let w = widened::<A>(z);
    if k == 1 {
        reveal(exact_max);
        assert(A::fmax_spec(A::flowest_spec(), z[0]) == z[0]);
        assert(A::widen_spec(A::fmax_spec(A::flowest_spec(), z[0])) == A::dmax_spec(
            A::dlowest_spec(),
            w[0],
        ));
        assert(peak::<A>(w, 0) == A::dlowest_spec());
        assert(A::dmax_spec(A::dlowest_spec(), w[0]) == peak::<A>(w, 1));
    } else {
        lemma_wide_peak::<A>(z, k - 1);
        let before = span_max::<A>(z, 0, k - 1);
        assert(A::widen_spec(A::fmax_spec(before, z[k - 1])) == A::dmax_spec(
            A::widen_spec(before),
            w[k - 1],
        ));
    }
}

/// A sum of exponentials that were computed first.
proof fn lemma_exp_total<A: Arith>(e: Seq<A::D>, z: Seq<A::D>, m: A::D, k: int)
    requires
        0 <= k <= e.len(),
        forall|i: int| 0 <= i < k ==> #[trigger] e[i] == A::dexp_spec(A::dsub_spec(z[i], m)),
    ensures
        total::<A>(e, k) == exp_sum::<A>(z, m, k),
    decreases k,
{
    if k > 0 {
        assert(e[k - 1] == A::dexp_spec(A::dsub_spec(z[k - 1], m)));
        lemma_exp_total::<A>(e, z, m, k - 1);
    }
}

/// A row in which all entries but one are zero adds up to that entry.
proof fn lemma_picked<A: Arith>(x: Seq<A::F>, y: int, k: int)
    requires
        exact_sums::<A>(),
        0 <= y,
        0 <= k <= x.len(),
    ensures
        span_sum::<A>(picked::<A>(x, y), 0, k) == if y < k {
            x[y]
        } else {
            A::fint_spec(0)
        },
    decreases k,
{
    let zero = A::fint_spec(0);
    lemma_narrow_sums::<A>(zero, zero, zero);
    if k > 0 {
        lemma_picked::<A>(x, y, k - 1);
        lemma_narrow_sums::<A>(x[k - 1], zero, zero);
        if y < k {
            lemma_narrow_sums::<A>(x[y], zero, zero);
        }
    }
}

/// What the tiled kernels make of a row is what the reference makes of it: the same largest
/// entry, the same entries relative to it, and the same sum of exponentials.
proof fn lemma_same_parts<A: Arith>(z: Seq<A::F>, block: usize)
    requires
        exact_sums::<A>(),
        exact_max::<A>(),
        one_precision::<A>(),
        divides(block, z.len() as int),
        z.len() > 0,
    ensures
        ({
            let n = z.len() as int;
            let w = widened::<A>(z);
            let m = peak::<A>(w, n);
            let c = centered::<A>(z, block as int);
            &&& A::widen_spec(row_max::<A>(z, block as int)) == m
            &&& forall|j: int| 0 <= j < n ==> A::widen_spec(#[trigger] c[j]) == A::dsub_spec(w[j], m)
            &&& A::widen_spec(mass::<A>(c, block as int)) == exp_sum::<A>(w, m, n)
        }),
{
    reveal(one_precision);
    let n = z.len() as int;
    let w = widened::<A>(z);
    let m = peak::<A>(w, n);
    lemma_row_reduces::<A>(z, block);
    lemma_wide_peak::<A>(z, n);
    let c = centered::<A>(z, block as int);
    let exps = Seq::new(c.len(), |j: int| A::fexp_spec(c[j]));
    lemma_row_reduces::<A>(exps, block);
    lemma_wide_total::<A>(exps, n);
    assert forall|j: int| 0 <= j < n implies A::widen_spec(#[trigger] c[j]) == A::dsub_spec(
        w[j],
        m,
    ) by {
        assert(A::widen_spec(A::fsub_spec(z[j], row_max::<A>(z, block as int))) == A::dsub_spec(
            w[j],
            m,
        ));
    }
    assert forall|i: int| 0 <= i < n implies #[trigger] widened::<A>(exps)[i] == A::dexp_spec(
        A::dsub_spec(w[i], m),
    ) by {
        assert(A::widen_spec(c[i]) == A::dsub_spec(w[i], m));
        assert(A::widen_spec(A::fexp_spec(c[i])) == A::dexp_spec(A::widen_spec(c[i])));
    }
    lemma_exp_total::<A>(widened::<A>(exps), w, m, n);
}

/// The log-probabilities that the tiled kernels find for a row are those of the reference,
/// where narrow and wide numbers are alike and sums and maxima exact. The probabilities are
/// made of the same exponential and the same sum: the reference divides by the sum, and the
/// kernels multiply by its inverse.
pub proof fn tiles_find_the_softmax_of_the_reference<A: Arith>(z: Seq<A::F>, block: usize)
    requires
        exact_sums::<A>(),
        exact_max::<A>(),
        one_precision::<A>(),
        divides(block, z.len() as int),
    ensures
        ({
            let n = z.len() as int;
            let w = widened::<A>(z);
            let m = peak::<A>(w, n);
            let d = exp_sum::<A>(w, m, n);
            let c = centered::<A>(z, block as int);
            &&& widened::<A>(tile_log_probs::<A>(c, block as int)) == log_softmax::<A>(w, m)
            &&& forall|j: int|
                #![trigger tile_probs::<A>(c, block as int)[j]]
                #![trigger softmax::<A>(w, m)[j]]
                0 <= j < n ==> {
                    let e = A::dexp_spec(A::dsub_spec(w[j], m));
                    &&& A::widen_spec(tile_probs::<A>(c, block as int)[j]) == A::dmul_spec(
                        e,
                        A::ddiv_spec(A::dint_spec(1), d),
                    )
                    &&& softmax::<A>(w, m)[j] == A::ddiv_spec(e, d)
                }
        }),
{
    let n = z.len() as int;
    let w = widened::<A>(z);
    let m = peak::<A>(w, n);
    let d = exp_sum::<A>(w, m, n);
    let c = centered::<A>(z, block as int);
    let q = mass::<A>(c, block as int);
    let inverse = A::fdiv_spec(A::fint_spec(1), q);
    if n > 0 {
        lemma_same_parts::<A>(z, block);
        reveal(one_precision);
        assert(A::widen_spec(A::fln_spec(q)) == A::dln_spec(d));
        assert(A::widen_spec(inverse) == A::ddiv_spec(A::dint_spec(1), d));
        assert forall|j: int| 0 <= j < n implies #[trigger] widened::<A>(
            tile_log_probs::<A>(c, block as int),
        )[j] == log_softmax::<A>(w, m)[j] by {
            assert(A::widen_spec(A::fsub_spec(c[j], A::fln_spec(q))) == A::dsub_spec(
                A::widen_spec(c[j]),
                A::widen_spec(A::fln_spec(q)),
            ));
        }
        assert forall|j: int|
            #![trigger tile_probs::<A>(c, block as int)[j]]
            #![trigger softmax::<A>(w, m)[j]]
            0 <= j < n implies {
            let e = A::dexp_spec(A::dsub_spec(w[j], m));
            &&& A::widen_spec(tile_probs::<A>(c, block as int)[j]) == A::dmul_spec(
                e,
                A::ddiv_spec(A::dint_spec(1), d),
            )
            &&& softmax::<A>(w, m)[j] == A::ddiv_spec(e, d)
        } by {
            assert(A::widen_spec(A::fexp_spec(c[j])) == A::dexp_spec(A::widen_spec(c[j])));
            assert(A::widen_spec(A::fmul_spec(A::fexp_spec(c[j]), inverse)) == A::dmul_spec(
                A::widen_spec(A::fexp_spec(c[j])),
                A::widen_spec(inverse),
            ));
        }
    }
    assert(widened::<A>(tile_log_probs::<A>(c, block as int)) =~= log_softmax::<A>(w, m));
}

/// The row that the tiled kernels stretch is the row that the reference divides by the
/// temperature.
pub proof fn lemma_same_stretch<A: Arith>(x: Seq<A::F>, inv_t: A::F)
    requires
        one_precision::<A>(),
    ensures
        widened::<A>(stretched::<A>(x, inv_t)) == at_temperature::<A>(x, A::widen_spec(inv_t)),
{
    reveal(one_precision);
    assert forall|j: int| 0 <= j < x.len() implies #[trigger] widened::<A>(
        stretched::<A>(x, inv_t),
    )[j] == at_temperature::<A>(x, A::widen_spec(inv_t))[j] by {
        assert(A::widen_spec(A::fmul_spec(x[j], inv_t)) == A::dmul_spec(
            A::widen_spec(x[j]),
            A::widen_spec(inv_t),
        ));
    }
    assert(widened::<A>(stretched::<A>(x, inv_t)) =~= at_temperature::<A>(x, A::widen_spec(inv_t)));
}

/// So it is at every temperature: the log-probabilities that the KL kernel works with are
/// those of the reference, and the probabilities are made of the same parts.
pub proof fn tiles_find_the_tempered_softmax_of_the_reference<A: Arith>(
    x: Seq<A::F>,
    inv_t: A::F,
    block: usize,
)
    requires
        exact_sums::<A>(),
        exact_max::<A>(),
        one_precision::<A>(),
        divides(block, x.len() as int),
    ensures
        ({
            let n = x.len() as int;
            let z = at_temperature::<A>(x, A::widen_spec(inv_t));
            let m = peak::<A>(z, n);
            let d = exp_sum::<A>(z, m, n);
            let c = centered::<A>(stretched::<A>(x, inv_t), block as int);
            &&& widened::<A>(tile_log_probs::<A>(c, block as int)) == log_probs::<A>(
                x,
                A::widen_spec(inv_t),
            )
            &&& forall|j: int|
                #![trigger tile_probs::<A>(c, block as int)[j]]
                #![trigger probs::<A>(x, A::widen_spec(inv_t))[j]]
                0 <= j < n ==> {
                    let e = A::dexp_spec(A::dsub_spec(z[j], m));
                    &&& A::widen_spec(tile_probs::<A>(c, block as int)[j]) == A::dmul_spec(
                        e,
                        A::ddiv_spec(A::dint_spec(1), d),
                    )
                    &&& probs::<A>(x, A::widen_spec(inv_t))[j] == A::ddiv_spec(e, d)
                }
        }),
{
    lemma_same_stretch::<A>(x, inv_t);
    tiles_find_the_softmax_of_the_reference::<A>(stretched::<A>(x, inv_t), block);
}

/// The cross-entropy that the tiled kernel finds for a row is that of the reference, where
/// narrow and wide numbers are alike and sums and maxima exact: on an ignored row, and for
/// every class, with or without label smoothing.
pub proof fn tiled_cross_entropy_is_the_reference<A: Arith>(
    x: Seq<A::F>,
    y: i64,
    ignore_index: i64,
    label_smoothing: A::F,
    block: usize,
)
    requires
        exact_sums::<A>(),
        exact_max::<A>(),
        one_precision::<A>(),
        one_is_neutral::<A>(),
        cancels::<A>(),
        divides(block, x.len() as int),
        y == ignore_index || 0 <= y < x.len(),
        label_smoothing == A::fint_spec(0) || A::flt_spec(A::fint_spec(0), label_smoothing),
    ensures
        ce_tile_loss::<A>(x, y as int, y == ignore_index, block as int, label_smoothing)
            == ce_loss::<A>(x, y, ignore_index, label_smoothing),
{
    reveal(one_precision);
    let zero = A::fint_spec(0);
    assert(A::narrow_spec(A::widen_spec(zero)) == zero);
    if y != ignore_index {
        let n = x.len() as int;
        let z = widened::<A>(x);
        let m = peak::<A>(z, n);
        let alpha = A::widen_spec(label_smoothing);
        lemma_row_reduces::<A>(x, block);
        lemma_wide_total::<A>(x, n);
        lemma_same_parts::<A>(x, block);
        let d = exp_sum::<A>(z, m, n);

        lemma_row_reduces::<A>(picked::<A>(x, y as int), block);
        lemma_picked::<A>(x, y as int, n);

        let tile = ce_tile_loss::<A>(x, y as int, false, block as int, label_smoothing);
        let lse = A::dadd_spec(m, A::dln_spec(d));
        let kept = A::dmul_spec(A::dsub_spec(A::dint_spec(1), alpha), z[y as int]);
        let spread = A::dmul_spec(A::ddiv_spec(alpha, A::dint_spec(n)), total::<A>(z, n));
        assert(A::widen_spec(tile) == A::dsub_spec(A::dsub_spec(lse, kept), spread));
        if label_smoothing == zero {
            assert(alpha == A::dint_spec(0));
            assert(A::dsub_spec(A::dint_spec(1), A::dint_spec(0)) == A::dint_spec(1));
            assert(kept == z[y as int]);
            assert(spread == A::dint_spec(0));
        }
        assert(A::widen_spec(tile) == nll::<A>(z, m, y as int, alpha));
        assert(A::narrow_spec(A::widen_spec(tile)) == tile);
    }
}

} // verus!
