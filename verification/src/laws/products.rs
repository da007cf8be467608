//! Products of matrices, in fixed point.

#![allow(unused_imports)]

use vstd::prelude::*;
use crate::arith::Arith;
use crate::fixed::{product, Fixed, ONE};
use crate::laws::numbers::fixed_point_is_exact;
use crate::mat::{column, dot, row_times, row_times_transpose, sparse_dot, transpose_times};

verus! {

/// A product of two rows does not depend on which comes first, and skipping the zeros of the
/// first changes nothing.
pub proof fn products_are_symmetric(x: Seq<i64>, y: Seq<i64>, k: int)
    ensures
        dot::<Fixed>(x, y, k) == dot::<Fixed>(y, x, k),
        sparse_dot::<Fixed>(x, y, k) == dot::<Fixed>(x, y, k),
    decreases k,
{
    if k > 0 {
        products_are_symmetric(x, y, k - 1);
        let (a, b) = (x[k - 1], y[k - 1]);
        assert(a * b == b * a) by (nonlinear_arith);
        fixed_point_is_exact();
        if a == 0 {
            assert(<Fixed as Arith>::dmul_spec(<Fixed as Arith>::dint_spec(0), b)
                == <Fixed as Arith>::dint_spec(0));
        }
    }
}

/// A row that is one in place `c` and zero elsewhere picks entry `c`.
pub proof fn unit_rows_pick_entries(x: Seq<i64>, y: Seq<i64>, c: int, k: int)
    requires
        0 <= c,
        forall|i: int|
            0 <= i < k ==> #[trigger] x[i] == if i == c {
                ONE
            } else {
                0
            },
    ensures
        dot::<Fixed>(x, y, k) == if c < k {
            y[c]
        } else {
            0
        },
    decreases k,
{
    assert(<Fixed as Arith>::fint_spec(0) == 0);
    assert(<Fixed as Arith>::dint_spec(1) == ONE);
    if k > 0 {
        unit_rows_pick_entries(x, y, c, k - 1);
        fixed_point_is_exact();
        let b = y[k - 1];
        assert(x[k - 1] == if k - 1 == c {
            ONE
        } else {
            0
        });
        assert(<Fixed as Arith>::dmul_spec(<Fixed as Arith>::dint_spec(0), b)
            == <Fixed as Arith>::dint_spec(0));
        assert(<Fixed as Arith>::dmul_spec(<Fixed as Arith>::dint_spec(1), b) == b);
    }
}

/// Adding an entry to each of two rows adds the product of the two.
pub proof fn products_grow_by_the_last_entries(x: Seq<i64>, y: Seq<i64>, a: i64, b: i64)
    requires
        x.len() == y.len(),
    ensures
        ({
            let n = x.len() as int;
            dot::<Fixed>(x.push(a), y.push(b), n + 1) == dot::<Fixed>(x, y, n).wrapping_add(
                product(a, b),
            )
        }),
{
    let n = x.len() as int;
    lemma_prefix(x, y, x.push(a), y.push(b), n);
}

proof fn lemma_prefix(x: Seq<i64>, y: Seq<i64>, u: Seq<i64>, v: Seq<i64>, k: int)
    requires
        forall|i: int| 0 <= i < k ==> #[trigger] x[i] == u[i],
        forall|i: int| 0 <= i < k ==> #[trigger] y[i] == v[i],
    ensures
        dot::<Fixed>(x, y, k) == dot::<Fixed>(u, v, k),
    decreases k,
{
    if k > 0 {
        lemma_prefix(x, y, u, v, k - 1);
        assert(x[k - 1] == u[k - 1] && y[k - 1] == v[k - 1]);
    }
}

/// The three products of matrices are one: a row times `b` is the row times the transpose of the
/// transpose of `b`, and a column of the transpose of `a` times `b` is a product of columns.
pub proof fn three_products_agree(
    x: Seq<i64>,
    a: Seq<Seq<i64>>,
    b: Seq<Seq<i64>>,
    m: int,
    n: int,
    i: int,
    j: int,
)
    requires
        x.len() == b.len(),
        a.len() == b.len(),
        0 <= i < m,
        0 <= j < n,
    ensures
        ({
            let turned = Seq::new(n as nat, |c: int| column(b, c));
            &&& row_times::<Fixed>(x, b, n)[j] == row_times_transpose::<Fixed>(x, turned)[j]
            &&& transpose_times::<Fixed>(a, b, m, n)[i][j] == row_times::<Fixed>(
                column(a, i),
                b,
                n,
            )[j]
        }),
{
    products_are_symmetric(x, column(b, j), x.len() as int);
}

} // verus!
