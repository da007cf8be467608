//! Dense row-major matrices and the linear algebra of the loss.
//!
//! The products are plain loops: they say what the result is, entry by entry, and are
//! not meant to be fast.

use vstd::prelude::*;
use crate::arith::Arith;

verus! {

/// A dense, row-major matrix.
#[derive(Clone, Debug, PartialEq)]
pub struct Mat<T> {
    pub rows: usize,
    pub cols: usize,
    pub data: Vec<T>,
}

/// The rows of a row-major buffer.
pub open spec fn rows_of<T>(data: Seq<T>, rows: int, cols: int) -> Seq<Seq<T>> {
    Seq::new(rows as nat, |r: int| data.subrange(r * cols, r * cols + cols))
}

impl<T> View for Mat<T> {
    /// The rows.
    type V = Seq<Seq<T>>;

    open spec fn view(&self) -> Seq<Seq<T>> {
        rows_of(self.data@, self.rows as int, self.cols as int)
    }
}

/// Row `r` of a buffer of `rows * cols` entries lies within it.
pub proof fn lemma_row_in_bounds(r: int, rows: int, cols: int)
    requires
        0 <= r < rows,
        0 <= cols,
    ensures
        0 <= r * cols,
        r * cols + cols <= rows * cols,
        r * cols + cols == (r + 1) * cols,
{
    assert(0 <= r * cols && r * cols + cols <= rows * cols && r * cols + cols == (r + 1) * cols)
        by (nonlinear_arith)
        requires
            0 <= r < rows,
            0 <= cols,
    ;
}

/// Rows before and after one another share no entry.
proof fn lemma_rows_disjoint(r: int, s: int, cols: int)
    requires
        0 <= cols,
        r < s,
    ensures
        r * cols + cols <= s * cols,
{
    assert(r * cols + cols <= s * cols) by (nonlinear_arith)
        requires
            0 <= cols,
            r < s,
    ;
}

/// Appending `cols` entries to a buffer appends a row.
proof fn lemma_append_row<T>(data: Seq<T>, row: Seq<T>, rows: int, cols: int)
    requires
        0 <= rows,
        row.len() == cols,
        data.len() == rows * cols,
    ensures
        rows_of(data + row, rows + 1, cols) == rows_of(data, rows, cols).push(row),
{
    let whole = data + row;
    let lhs = rows_of(whole, rows + 1, cols);
    let rhs = rows_of(data, rows, cols).push(row);
    assert forall|r: int| 0 <= r < rows + 1 implies lhs[r] == rhs[r] by {
        if r < rows {
            lemma_row_in_bounds(r, rows, cols);
            assert(whole.subrange(r * cols, r * cols + cols) =~= data.subrange(
                r * cols,
                r * cols + cols,
            ));
        } else {
            assert(whole.subrange(rows * cols, rows * cols + cols) =~= row);
        }
    }
    assert(lhs =~= rhs);
}

/// Overwriting the entries of one row replaces that row alone.
proof fn lemma_replace_row<T>(data: Seq<T>, row: Seq<T>, r: int, rows: int, cols: int)
    requires
        0 <= r < rows,
        0 <= cols,
        row.len() == cols,
        data.len() == rows * cols,
    ensures
        ({
            let start = r * cols;
            let end = r * cols + cols;
            rows_of(data.subrange(0, start) + (row + data.subrange(end, data.len() as int)), rows, cols)
                == rows_of(data, rows, cols).update(r, row)
        }),
{
    lemma_row_in_bounds(r, rows, cols);
    let start = r * cols;
    let end = r * cols + cols;
    let whole = data.subrange(0, start) + (row + data.subrange(end, data.len() as int));
    let lhs = rows_of(whole, rows, cols);
    let rhs = rows_of(data, rows, cols).update(r, row);
    assert forall|s: int| 0 <= s < rows implies lhs[s] == rhs[s] by {
        lemma_row_in_bounds(s, rows, cols);
        if s < r {
            lemma_rows_disjoint(s, r, cols);
            assert(whole.subrange(s * cols, s * cols + cols) =~= data.subrange(
                s * cols,
                s * cols + cols,
            ));
        } else if s > r {
            lemma_rows_disjoint(r, s, cols);
            assert(whole.subrange(s * cols, s * cols + cols) =~= data.subrange(
                s * cols,
                s * cols + cols,
            ));
        } else {
            assert(whole.subrange(start, end) =~= row);
        }
    }
    assert(lhs =~= rhs);
}

impl<T> Mat<T> {
    /// The buffer holds exactly `rows * cols` entries.
    pub open spec fn wf(self) -> bool {
        self.data.len() == self.rows * self.cols
    }

    /// Every row of the view has `cols` entries.
    pub proof fn lemma_row_len(self, r: int)
        requires
            self.wf(),
            0 <= r < self.rows,
        ensures
            self@[r].len() == self.cols,
    {
        lemma_row_in_bounds(r, self.rows as int, self.cols as int);
    }
}

impl<T: Copy> Mat<T> {
    /// A matrix from a flat row-major buffer.
    pub fn from_vec(rows: usize, cols: usize, data: Vec<T>) -> (m: Mat<T>)
        requires
            data.len() == rows * cols,
        ensures
            m.wf(),
            m.rows == rows,
            m.cols == cols,
            m.data == data,
    {
        Mat { rows, cols, data }
    }

    /// The number of rows and of columns.
    pub fn shape(&self) -> (s: (usize, usize))
        ensures
            s == (self.rows, self.cols),
    {
        (self.rows, self.cols)
    }

    /// Row `r`, a slice of length `cols`. In a matrix without columns any row is empty.
    pub fn row(&self, r: usize) -> (s: &[T])
        requires
            self.wf(),
            r < self.rows || self.cols == 0,
        ensures
            r < self.rows ==> s@ == self@[r as int],
            s@.len() == self.cols,
    {
        proof {
            if r < self.rows {
                lemma_row_in_bounds(r as int, self.rows as int, self.cols as int);
            } else {
                assert(r * self.cols == 0 && self.rows * self.cols == 0) by (nonlinear_arith)
                    requires
                        self.cols == 0,
                ;
            }
        }
        let start: usize = r * self.cols;
        vstd::slice::slice_subrange(self.data.as_slice(), start, start + self.cols)
    }

    /// Row `r`, to be written to. Whatever is written there replaces that row, and the
    /// rest of the matrix stays. In a matrix without columns any row is empty.
    pub fn row_mut(&mut self, r: usize) -> (s: &mut [T])
        requires
            old(self).wf(),
            r < old(self).rows || old(self).cols == 0,
        ensures
            r < old(self).rows ==> s@ == old(self)@[r as int],
            s@.len() == old(self).cols,
            final(self).rows == old(self).rows,
            final(self).cols == old(self).cols,
            final(s)@.len() == old(self).cols ==> {
                &&& final(self).wf()
                &&& final(self)@ == if r < old(self).rows {
                    old(self)@.update(r as int, final(s)@)
                } else {
                    old(self)@
                }
            },
    {
        let ghost before = self.data@;
        let ghost rows = self.rows as int;
        let ghost cols = self.cols as int;
        proof {
            if r < rows {
                lemma_row_in_bounds(r as int, rows, cols);
            } else {
                assert(r * cols == 0 && rows * cols == 0) by (nonlinear_arith)
                    requires
                        cols == 0,
                ;
            }
        }
        let start: usize = r * self.cols;
        let width: usize = self.cols;
        let (_head, rest) = self.data.as_mut_slice().split_at_mut(start);
        let (row, _tail) = rest.split_at_mut(width);
        proof {
            assert(before.subrange(start as int, before.len() as int).subrange(0, width as int)
                =~= before.subrange(start as int, start + width));
            let end = start + width;
            assert(before.subrange(start as int, before.len() as int).subrange(
                width as int,
                before.len() - start,
            ) =~= before.subrange(end, before.len() as int));
            assert forall|new: Seq<T>| new.len() == cols implies #[trigger] rows_of(
                before.subrange(0, start as int) + (new + before.subrange(end, before.len() as int)),
                rows,
                cols,
            ) == if r < rows {
                rows_of(before, rows, cols).update(r as int, new)
            } else {
                rows_of(before, rows, cols)
            } by {
                if r < rows {
                    lemma_replace_row(before, new, r as int, rows, cols);
                } else {
                    assert(before.subrange(0, start as int) + (new + before.subrange(
                        end,
                        before.len() as int,
                    )) =~= before);
                }
            }
        }
        row
    }

    /// The entry in row `r`, column `c`: entry `r * cols + c` of the buffer.
    pub fn get(&self, r: usize, c: usize) -> (x: T)
        requires
            r * self.cols + c < self.data.len(),
        ensures
            x == self.data@[r * self.cols + c],
            self.wf() && r < self.rows && c < self.cols ==> x == self@[r as int][c as int],
    {
        assert(0 <= r * self.cols) by (nonlinear_arith);
        proof {
            if self.wf() && r < self.rows && c < self.cols {
                lemma_row_in_bounds(r as int, self.rows as int, self.cols as int);
            }
        }
        self.data[r * self.cols + c]
    }

    /// A matrix of `cols` columns and no rows yet.
    pub(crate) fn with_cols(cols: usize) -> (m: Mat<T>)
        ensures
            m.wf(),
            m.rows == 0,
            m.cols == cols,
            m@ == Seq::<Seq<T>>::empty(),
    {
        let m = Mat { rows: 0, cols, data: Vec::new() };
        assert(m@ =~= Seq::<Seq<T>>::empty());
        m
    }

    /// Append a row.
    pub(crate) fn push_row(&mut self, row: &[T])
        requires
            old(self).wf(),
            old(self).rows < usize::MAX,
            row@.len() == old(self).cols,
        ensures
            final(self).wf(),
            final(self).rows == old(self).rows + 1,
            final(self).cols == old(self).cols,
            final(self)@ == old(self)@.push(row@),
    {
        let ghost before = self.data@;
        let ghost rows = self.rows as int;
        let ghost cols = self.cols as int;
        proof {
            lemma_append_row(before, row@, rows, cols);
            lemma_row_in_bounds(rows, rows + 1, cols);
        }
        let n: usize = row.len();
        for i in 0..n
            invariant
                n == row@.len(),
                self.rows == rows,
                self.cols == cols,
                self.data@ == before + row@.subrange(0, i as int),
        {
            self.data.push(row[i]);
            assert(row@.subrange(0, i + 1) =~= row@.subrange(0, i as int).push(row@[i as int]));
            assert(self.data@ =~= before + row@.subrange(0, i + 1));
        }
        assert(row@.subrange(0, n as int) =~= row@);
        self.rows = self.rows + 1;
    }

    /// Overwrite row `r`.
    pub(crate) fn set_row(&mut self, r: usize, row: &[T])
        requires
            old(self).wf(),
            r < old(self).rows,
            row@.len() == old(self).cols,
        ensures
            final(self).wf(),
            final(self).rows == old(self).rows,
            final(self).cols == old(self).cols,
            final(self)@ == old(self)@.update(r as int, row@),
    {
        let ghost before = self.data@;
        let ghost rows = self.rows as int;
        let ghost cols = self.cols as int;
        proof {
            lemma_replace_row(before, row@, r as int, rows, cols);
            lemma_row_in_bounds(r as int, rows, cols);
        }
        let start: usize = r * self.cols;
        let n: usize = self.cols;
        for i in 0..n
            invariant
                n == row@.len(),
                n == cols,
                self.rows == rows,
                self.cols == cols,
                start + n <= before.len(),
                before.len() == self.data.len(),
                before.len() == self.data@.len(),
                start == r * cols,
                forall|j: int| 0 <= j < start || start + i <= j < before.len() ==> self.data@[j] == before[j],
                forall|j: int| start <= j < start + i ==> self.data@[j] == row@[j - start],
        {
            self.data[start + i] = row[i];
        }
        assert(self.data@ =~= before.subrange(0, start as int) + (row@ + before.subrange(
            start + n,
            before.len() as int,
        )));
    }

    /// Append the rows of another matrix.
    pub(crate) fn append_rows(&mut self, src: &Mat<T>)
        requires
            old(self).wf(),
            src.wf(),
            src.cols == old(self).cols,
            old(self).rows + src.rows <= usize::MAX,
        ensures
            final(self).wf(),
            final(self).rows == old(self).rows + src.rows,
            final(self).cols == old(self).cols,
            final(self)@ == old(self)@ + src@,
    {
        let ghost before = self@;
        let ghost rows = self.rows as int;
        let ghost cols = self.cols;
        assert(before =~= before + src@.subrange(0, 0));
        for i in 0..src.rows
            invariant
                src.wf(),
                src.cols == cols,
                rows + src.rows <= usize::MAX,
                self.wf(),
                self.rows == rows + i,
                self.cols == cols,
                self@ == before + src@.subrange(0, i as int),
        {
            self.push_row(src.row(i));
            assert(self@ =~= before + src@.subrange(0, i + 1));
        }
        assert(src@.subrange(0, src.rows as int) =~= src@);
    }

    /// A matrix whose entries are all `x`.
    pub(crate) fn filled(rows: usize, cols: usize, x: T) -> (m: Mat<T>)
        requires
            rows * cols <= usize::MAX,
        ensures
            m.wf(),
            m.rows == rows,
            m.cols == cols,
            m@ == Seq::new(rows as nat, |r: int| Seq::new(cols as nat, |c: int| x)),
    {
        let n: usize = rows * cols;
        let data = repeat(x, n);
        let m = Mat { rows, cols, data };
        assert forall|r: int| 0 <= r < rows implies #[trigger] m@[r] == Seq::new(cols as nat, |c: int| x) by {
            lemma_row_in_bounds(r, rows as int, cols as int);
            assert(m@[r] =~= Seq::new(cols as nat, |c: int| x));
        }
        assert(m@ =~= Seq::new(rows as nat, |r: int| Seq::new(cols as nat, |c: int| x)));
        m
    }

    /// A `rows x cols` matrix of zeros.
    pub fn zeros<A: Arith<F = T>>(rows: usize, cols: usize) -> (m: Mat<T>)
        requires
            rows * cols <= usize::MAX,
        ensures
            m.wf(),
            m.rows == rows,
            m.cols == cols,
            m@ == Seq::new(rows as nat, |r: int| Seq::new(cols as nat, |c: int| A::fint_spec(0))),
    {
        Mat::filled(rows, cols, A::fint(0))
    }
}

/// `n` copies of `x`.
pub(crate) fn repeat<T: Copy>(x: T, n: usize) -> (v: Vec<T>)
    ensures
        v@ == Seq::new(n as nat, |i: int| x),
{
    let mut v: Vec<T> = Vec::new();
    for i in 0..n
        invariant
            v@ == Seq::new(i as nat, |j: int| x),
    {
        v.push(x);
        assert(v@ =~= Seq::new((i + 1) as nat, |j: int| x));
    }
    v
}

/// The sum of the products of the first `k` entries, added up from the left.
pub open spec fn dot<A: Arith>(x: Seq<A::F>, y: Seq<A::F>, k: int) -> A::F
    decreases k,
{
    if k <= 0 {
        A::fint_spec(0)
    } else {
        A::fadd_spec(dot::<A>(x, y, k - 1), A::fmul_spec(x[k - 1], y[k - 1]))
    }
}

/// As [`dot`], but a factor of `x` that is zero contributes nothing at all.
pub open spec fn sparse_dot<A: Arith>(x: Seq<A::F>, y: Seq<A::F>, k: int) -> A::F
    decreases k,
{
    if k <= 0 {
        A::fint_spec(0)
    } else {
        let before = sparse_dot::<A>(x, y, k - 1);
        if A::feq_spec(x[k - 1], A::fint_spec(0)) {
            before
        } else {
            A::fadd_spec(before, A::fmul_spec(x[k - 1], y[k - 1]))
        }
    }
}

/// As [`sparse_dot`], but added up from `acc` on.
pub open spec fn sparse_from<A: Arith>(acc: A::F, x: Seq<A::F>, y: Seq<A::F>, k: int) -> A::F
    decreases k,
{
    if k <= 0 {
        acc
    } else {
        let before = sparse_from::<A>(acc, x, y, k - 1);
        if A::feq_spec(x[k - 1], A::fint_spec(0)) {
            before
        } else {
            A::fadd_spec(before, A::fmul_spec(x[k - 1], y[k - 1]))
        }
    }
}

/// Adding up the products of the first `a` entries, and then, from there on, those of the `k`
/// entries after them, is adding up `a + k` products.
pub proof fn lemma_sparse_resumes<A: Arith>(x: Seq<A::F>, y: Seq<A::F>, a: int, k: int)
    requires
        0 <= a,
        0 <= k,
        a + k <= x.len(),
        a + k <= y.len(),
    ensures
        sparse_from::<A>(
            sparse_dot::<A>(x, y, a),
            x.subrange(a, a + k),
            y.subrange(a, a + k),
            k,
        ) == sparse_dot::<A>(x, y, a + k),
    decreases k,
{
    if k > 0 {
        lemma_sparse_resumes::<A>(x, y, a, k - 1);
        lemma_sparse_from_prefix::<A>(
            sparse_dot::<A>(x, y, a),
            x.subrange(a, a + k),
            y.subrange(a, a + k),
            x.subrange(a, a + k - 1),
            y.subrange(a, a + k - 1),
            k - 1,
        );
    }
}

/// A sum of products over the first `k` entries depends on those entries alone.
proof fn lemma_sparse_from_prefix<A: Arith>(
    acc: A::F,
    x: Seq<A::F>,
    y: Seq<A::F>,
    x2: Seq<A::F>,
    y2: Seq<A::F>,
    k: int,
)
    requires
        forall|i: int| 0 <= i < k ==> #[trigger] x[i] == x2[i],
        forall|i: int| 0 <= i < k ==> #[trigger] y[i] == y2[i],
    ensures
        sparse_from::<A>(acc, x, y, k) == sparse_from::<A>(acc, x2, y2, k),
    decreases k,
{
    if k > 0 {
        assert(x[k - 1] == x2[k - 1]);
        assert(y[k - 1] == y2[k - 1]);
        lemma_sparse_from_prefix::<A>(acc, x, y, x2, y2, k - 1);
    }
}

/// Added up from zero on, that is the sum itself.
proof fn lemma_sparse_from_zero<A: Arith>(x: Seq<A::F>, y: Seq<A::F>, k: int)
    ensures
        sparse_from::<A>(A::fint_spec(0), x, y, k) == sparse_dot::<A>(x, y, k),
    decreases k,
{
    if k > 0 {
        lemma_sparse_from_zero::<A>(x, y, k - 1);
    }
}

/// Column `c` of a matrix given by its rows.
pub open spec fn column<T>(rows: Seq<Seq<T>>, c: int) -> Seq<T> {
    Seq::new(rows.len(), |r: int| rows[r][c])
}

/// Row `x` times the transpose of `b`.
pub open spec fn row_times_transpose<A: Arith>(x: Seq<A::F>, b: Seq<Seq<A::F>>) -> Seq<A::F> {
    Seq::new(b.len(), |j: int| dot::<A>(x, b[j], x.len() as int))
}

/// Row `x` times `b`, which has `n` columns.
pub open spec fn row_times<A: Arith>(x: Seq<A::F>, b: Seq<Seq<A::F>>, n: int) -> Seq<A::F> {
    Seq::new(n as nat, |j: int| sparse_dot::<A>(x, column(b, j), x.len() as int))
}

/// The transpose of the first `k` rows of `a`, which has `m` columns, times those of `b`,
/// which has `n`.
pub open spec fn outer<A: Arith>(
    a: Seq<Seq<A::F>>,
    b: Seq<Seq<A::F>>,
    m: int,
    n: int,
    k: int,
) -> Seq<Seq<A::F>> {
    Seq::new(
        m as nat,
        |i: int| Seq::new(n as nat, |j: int| sparse_dot::<A>(column(a, i), column(b, j), k)),
    )
}

/// The transpose of `a`, which has `m` columns, times `b`, which has `n`.
pub open spec fn transpose_times<A: Arith>(
    a: Seq<Seq<A::F>>,
    b: Seq<Seq<A::F>>,
    m: int,
    n: int,
) -> Seq<Seq<A::F>> {
    outer::<A>(a, b, m, n, a.len() as int)
}

/// The product of the first `a` rows, and then, from there on, of the rows up to `b`, is the
/// product of the first `b` rows.
pub proof fn lemma_outer_resumes<A: Arith>(
    g: Seq<Seq<A::F>>,
    x: Seq<Seq<A::F>>,
    m: int,
    n: int,
    a: int,
    b: int,
)
    requires
        0 <= m,
        0 <= n,
        0 <= a <= b <= g.len(),
        b <= x.len(),
    ensures
        Seq::new(
            m as nat,
            |i: int|
                Seq::new(
                    n as nat,
                    |j: int|
                        sparse_from::<A>(
                            outer::<A>(g, x, m, n, a)[i][j],
                            column(g.subrange(a, b), i),
                            column(x.subrange(a, b), j),
                            b - a,
                        ),
                ),
        ) == outer::<A>(g, x, m, n, b),
{
    let lhs = Seq::new(
        m as nat,
        |i: int|
            Seq::new(
                n as nat,
                |j: int|
                    sparse_from::<A>(
                        outer::<A>(g, x, m, n, a)[i][j],
                        column(g.subrange(a, b), i),
                        column(x.subrange(a, b), j),
                        b - a,
                    ),
            ),
    );
    let rhs = outer::<A>(g, x, m, n, b);
    assert forall|i: int| 0 <= i < m implies #[trigger] lhs[i] == rhs[i] by {
        assert forall|j: int| 0 <= j < n implies #[trigger] lhs[i][j] == rhs[i][j] by {
            assert(column(g.subrange(a, b), i) =~= column(g, i).subrange(a, b));
            assert(column(x.subrange(a, b), j) =~= column(x, j).subrange(a, b));
            lemma_sparse_resumes::<A>(column(g, i), column(x, j), a, b - a);
        }
        assert(lhs[i] =~= rhs[i]);
    }
    assert(lhs =~= rhs);
}

/// `a` times the transpose of `b`: hidden states `[rows, H]` and a weight `[V, H]` give
/// logits `[rows, V]`.
pub fn matmul_nt<A: Arith>(a: &Mat<A::F>, b: &Mat<A::F>) -> (out: Mat<A::F>)
    requires
        a.wf(),
        b.wf(),
        a.cols == b.cols,
    ensures
        out.wf(),
        out.rows == a.rows,
        out.cols == b.rows,
        out@ == Seq::new(a.rows as nat, |i: int| row_times_transpose::<A>(a@[i], b@)),
{
    let m: usize = a.rows;
    let k: usize = a.cols;
    let n: usize = b.rows;
    let mut out: Mat<A::F> = Mat::with_cols(n);
    for i in 0..m
        invariant
            a.wf(),
            b.wf(),
            a.cols == b.cols,
            m == a.rows,
            k == a.cols,
            n == b.rows,
            out.wf(),
            out.rows == i,
            out.cols == n,
            out@ == Seq::new(i as nat, |r: int| row_times_transpose::<A>(a@[r], b@)),
    {
        let arow = a.row(i);
        let mut orow: Vec<A::F> = Vec::new();
        for j in 0..n
            invariant
                b.wf(),
                n == b.rows,
                k == b.cols,
                k == arow@.len(),
                orow@ == row_times_transpose::<A>(arow@, b@).subrange(0, j as int),
        {
            let brow = b.row(j);
            let mut acc = A::fint(0);
            for p in 0..k
                invariant
                    k == arow@.len(),
                    k == brow@.len(),
                    acc == dot::<A>(arow@, brow@, p as int),
            {
                acc = A::fadd(acc, A::fmul(arow[p], brow[p]));
            }
            orow.push(acc);
            assert(orow@ =~= row_times_transpose::<A>(arow@, b@).subrange(0, j + 1));
        }
        assert(orow@ =~= row_times_transpose::<A>(arow@, b@));
        out.push_row(orow.as_slice());
        assert(out@ =~= Seq::new((i + 1) as nat, |r: int| row_times_transpose::<A>(a@[r], b@)));
    }
    out
}

/// `a` times `b`: logit gradients `[rows, V]` and a weight `[V, H]` give hidden-state
/// gradients `[rows, H]`.
pub fn matmul_nn<A: Arith>(a: &Mat<A::F>, b: &Mat<A::F>) -> (out: Mat<A::F>)
    requires
        a.wf(),
        b.wf(),
        a.cols == b.rows,
    ensures
        out.wf(),
        out.rows == a.rows,
        out.cols == b.cols,
        out@ == Seq::new(a.rows as nat, |i: int| row_times::<A>(a@[i], b@, b.cols as int)),
{
    let m: usize = a.rows;
    let k: usize = a.cols;
    let n: usize = b.cols;
    let mut out: Mat<A::F> = Mat::with_cols(n);
    for i in 0..m
        invariant
            a.wf(),
            b.wf(),
            a.cols == b.rows,
            m == a.rows,
            k == a.cols,
            n == b.cols,
            out.wf(),
            out.rows == i,
            out.cols == n,
            out@ == Seq::new(i as nat, |r: int| row_times::<A>(a@[r], b@, n as int)),
    {
        let arow = a.row(i);
        let mut orow: Vec<A::F> = repeat(A::fint(0), n);
        for p in 0..k
            invariant
                b.wf(),
                k == b.rows,
                n == b.cols,
                k == arow@.len(),
                orow@ == Seq::new(n as nat, |j: int| sparse_dot::<A>(arow@, column(b@, j), p as int)),
        {
            let aip = arow[p];
            if !A::feq(aip, A::fint(0)) {
                let brow = b.row(p);
                let ghost before = orow@;
                for j in 0..n
                    invariant
                        n == brow@.len(),
                        n == orow@.len(),
                        before.len() == n,
                        forall|c: int|
                            0 <= c < n ==> #[trigger] orow@[c] == if c < j {
                                A::fadd_spec(before[c], A::fmul_spec(aip, brow@[c]))
                            } else {
                                before[c]
                            },
                {
                    orow[j] = A::fadd(orow[j], A::fmul(aip, brow[j]));
                }
            }
            assert(orow@ =~= Seq::new(
                n as nat,
                |j: int| sparse_dot::<A>(arow@, column(b@, j), p + 1),
            ));
        }
        assert(orow@ =~= row_times::<A>(arow@, b@, n as int));
        out.push_row(orow.as_slice());
        assert(out@ =~= Seq::new((i + 1) as nat, |r: int| row_times::<A>(a@[r], b@, n as int)));
    }
    out
}

/// Add the transpose of `a` times `b` into `out`, row by row of `a` and `b`.
pub fn accumulate_tn<A: Arith>(out: &mut Mat<A::F>, a: &Mat<A::F>, b: &Mat<A::F>)
    requires
        old(out).wf(),
        a.wf(),
        b.wf(),
        a.rows == b.rows,
        old(out).rows == a.cols,
        old(out).cols == b.cols,
    ensures
        final(out).wf(),
        final(out).rows == old(out).rows,
        final(out).cols == old(out).cols,
        final(out)@ == Seq::new(
            a.cols as nat,
            |i: int|
                Seq::new(
                    b.cols as nat,
                    |j: int|
                        sparse_from::<A>(
                            old(out)@[i][j],
                            column(a@, i),
                            column(b@, j),
                            a.rows as int,
                        ),
                ),
        ),
{
    let k: usize = a.rows;
    let m: usize = a.cols;
    let n: usize = b.cols;
    let ghost init = out@;
    proof {
        assert forall|i: int| 0 <= i < m implies #[trigger] init[i].len() == n by {
            out.lemma_row_len(i);
        }
    }
    assert(out@ =~~= Seq::new(
        m as nat,
        |i: int|
            Seq::new(n as nat, |j: int| sparse_from::<A>(init[i][j], column(a@, i), column(b@, j), 0)),
    ));
    for p in 0..k
        invariant
            a.wf(),
            b.wf(),
            a.rows == b.rows,
            k == a.rows,
            m == a.cols,
            n == b.cols,
            out.wf(),
            out.rows == m,
            out.cols == n,
            out@ == Seq::new(
                m as nat,
                |i: int|
                    Seq::new(n as nat, |j: int| sparse_from::<A>(init[i][j], column(a@, i), column(b@, j), p as int)),
            ),
    {
        let arow = a.row(p);
        let brow = b.row(p);
        for i in 0..m
            invariant
                p < k,
                k == a@.len(),
                k == b@.len(),
                m == arow@.len(),
                n == brow@.len(),
                arow@ == a@[p as int],
                brow@ == b@[p as int],
                out.wf(),
                out.rows == m,
                out.cols == n,
                out@ == Seq::new(
                    m as nat,
                    |r: int|
                        Seq::new(
                            n as nat,
                            |j: int|
                                sparse_from::<A>(
                                    init[r][j],
                                    column(a@, r),
                                    column(b@, j),
                                    if r < i { p + 1 } else { p as int },
                                ),
                        ),
                ),
        {
            let aip = arow[i];
            let ghost col_a = column(a@, i as int);
            let ghost before = out@;
            if !A::feq(aip, A::fint(0)) {
                let mut orow: Vec<A::F> = Vec::new();
                let old_row = out.row(i);
                for j in 0..n
                    invariant
                        p < k,
                        k == b@.len(),
                        n == brow@.len(),
                        n == old_row@.len(),
                        brow@ == b@[p as int],
                        orow@ == Seq::new(
                            j as nat,
                            |c: int| A::fadd_spec(old_row@[c], A::fmul_spec(aip, brow@[c])),
                        ),
                {
                    orow.push(A::fadd(old_row[j], A::fmul(aip, brow[j])));
                    assert(orow@ =~= Seq::new(
                        (j + 1) as nat,
                        |c: int| A::fadd_spec(old_row@[c], A::fmul_spec(aip, brow@[c])),
                    ));
                }
                out.set_row(i, orow.as_slice());
            }
            let ghost expected = Seq::new(
                m as nat,
                |r: int|
                    Seq::new(
                        n as nat,
                        |j: int|
                            sparse_from::<A>(
                                init[r][j],
                                column(a@, r),
                                column(b@, j),
                                if r < i + 1 { p + 1 } else { p as int },
                            ),
                    ),
            );
            assert forall|r: int| 0 <= r < m implies #[trigger] out@[r] == expected[r] by {
                if r == i {
                    assert forall|j: int| 0 <= j < n implies #[trigger] out@[r][j] == expected[r][j] by {
                        assert(before[r][j] == sparse_from::<A>(init[r][j], col_a, column(b@, j), p as int));
                    }
                }
                assert(out@[r] =~= expected[r]);
            }
            assert(out@ =~= expected);
        }
        assert(out@ =~= Seq::new(
            m as nat,
            |i: int| Seq::new(n as nat, |j: int| sparse_from::<A>(init[i][j], column(a@, i), column(b@, j), p + 1)),
        ));
    }
}

/// The transpose of `a` times `b`: logit gradients `[rows, V]` and hidden states
/// `[rows, H]` give a weight gradient `[V, H]`.
pub fn matmul_tn<A: Arith>(a: &Mat<A::F>, b: &Mat<A::F>) -> (out: Mat<A::F>)
    requires
        a.wf(),
        b.wf(),
        a.rows == b.rows,
        a.cols * b.cols <= usize::MAX,
    ensures
        out.wf(),
        out.rows == a.cols,
        out.cols == b.cols,
        out@ == transpose_times::<A>(a@, b@, a.cols as int, b.cols as int),
{
    let mut out: Mat<A::F> = Mat::zeros::<A>(a.cols, b.cols);
    accumulate_tn::<A>(&mut out, a, b);
    proof {
        let expected = transpose_times::<A>(a@, b@, a.cols as int, b.cols as int);
        assert forall|i: int| 0 <= i < a.cols implies #[trigger] out@[i] == expected[i] by {
            assert forall|j: int| 0 <= j < b.cols implies #[trigger] out@[i][j] == expected[i][j] by {
                lemma_sparse_from_zero::<A>(column(a@, i), column(b@, j), a.rows as int);
            }
            assert(out@[i] =~= expected[i]);
        }
        assert(out@ =~= expected);
    }
    out
}

/// The sum of two matrices given by their rows, entry by entry.
pub open spec fn sum_of<A: Arith>(x: Seq<Seq<A::F>>, y: Seq<Seq<A::F>>) -> Seq<Seq<A::F>> {
    Seq::new(x.len(), |r: int| Seq::new(x[r].len(), |c: int| A::fadd_spec(x[r][c], y[r][c])))
}

/// A matrix given by its rows, every entry times `s`.
pub open spec fn scaled<A: Arith>(x: Seq<Seq<A::F>>, s: A::F) -> Seq<Seq<A::F>> {
    Seq::new(x.len(), |r: int| Seq::new(x[r].len(), |c: int| A::fmul_spec(x[r][c], s)))
}

/// Add `src` into `dst`, entry by entry.
pub fn add_assign<A: Arith>(dst: &mut Mat<A::F>, src: &Mat<A::F>)
    requires
        old(dst).wf(),
        src.wf(),
        old(dst).rows == src.rows,
        old(dst).cols == src.cols,
    ensures
        final(dst).wf(),
        final(dst).rows == old(dst).rows,
        final(dst).cols == old(dst).cols,
        final(dst)@ == sum_of::<A>(old(dst)@, src@),
{
    let ghost before = dst.data@;
    let ghost old_rows = dst@;
    let n: usize = dst.data.len();
    for i in 0..n
        invariant
            n == before.len(),
            n == src.data@.len(),
            n == dst.data@.len(),
            dst.rows == src.rows,
            dst.cols == src.cols,
            forall|j: int|
                0 <= j < n ==> #[trigger] dst.data@[j] == if j < i {
                    A::fadd_spec(before[j], src.data@[j])
                } else {
                    before[j]
                },
    {
        let d = dst.data[i];
        dst.data[i] = A::fadd(d, src.data[i]);
    }
    let ghost expected = sum_of::<A>(old_rows, src@);
    assert forall|r: int| 0 <= r < dst.rows implies #[trigger] dst@[r] == expected[r] by {
        lemma_row_in_bounds(r, dst.rows as int, dst.cols as int);
        assert(dst@[r] =~= expected[r]);
    }
    assert(dst@ =~= expected);
}

/// Multiply every entry of `m` by `s`.
pub fn scale_assign<A: Arith>(m: &mut Mat<A::F>, s: A::F)
    requires
        old(m).wf(),
    ensures
        final(m).wf(),
        final(m).rows == old(m).rows,
        final(m).cols == old(m).cols,
        final(m)@ == scaled::<A>(old(m)@, s),
{
    let ghost before = m.data@;
    let ghost old_rows = m@;
    let ghost rows = m.rows;
    let ghost cols = m.cols;
    let n: usize = m.data.len();
    for i in 0..n
        invariant
            n == before.len(),
            n == m.data@.len(),
            m.rows == rows,
            m.cols == cols,
            forall|j: int|
                0 <= j < n ==> #[trigger] m.data@[j] == if j < i {
                    A::fmul_spec(before[j], s)
                } else {
                    before[j]
                },
    {
        let x = m.data[i];
        m.data[i] = A::fmul(x, s);
    }
    let ghost expected = scaled::<A>(old_rows, s);
    assert forall|r: int| 0 <= r < m.rows implies #[trigger] m@[r] == expected[r] by {
        lemma_row_in_bounds(r, m.rows as int, m.cols as int);
        assert(m@[r] =~= expected[r]);
    }
    assert(m@ =~= expected);
}

/// Copy `count` rows of `m`, from row `start` on, into a matrix of their own.
pub fn sub_rows<T: Copy>(m: &Mat<T>, start: usize, count: usize) -> (out: Mat<T>)
    requires
        m.wf(),
        start + count <= m.rows,
    ensures
        out.wf(),
        out.rows == count,
        out.cols == m.cols,
        out@ == m@.subrange(start as int, start + count),
{
    let mut out: Mat<T> = Mat::with_cols(m.cols);
    for i in 0..count
        invariant
            m.wf(),
            start + count <= m.rows,
            out.wf(),
            out.rows == i,
            out.cols == m.cols,
            out@ == m@.subrange(start as int, start + i),
    {
        out.push_row(m.row(start + i));
        assert(out@ =~= m@.subrange(start as int, start + i + 1));
    }
    out
}

} // verus!
