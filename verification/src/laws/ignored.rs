//! Rows whose label is ignored.

#![allow(unused_imports)]

use vstd::prelude::*;
use crate::api::{answers, DistillationLossOutput};
use crate::arith::Arith;
use crate::laws::numbers::zero_is_zero;
use crate::laws::outputs::{lemma_denominator, same_result, valid};
use crate::mat::{column, outer, sparse_dot, Mat};
use crate::objective::Setup;
use crate::reference::kl::lemma_kl_prefix;
use crate::teacher::{Teacher, TeacherMode};

verus! {

/// A row of zeros times a matrix is a row of zeros.
pub proof fn lemma_zero_row<A: Arith>(x: Seq<A::F>, y: Seq<A::F>, k: int)
    requires
        zero_is_zero::<A>(),
        k <= x.len(),
        forall|i: int| 0 <= i < k ==> #[trigger] x[i] == A::fint_spec(0),
    ensures
        sparse_dot::<A>(x, y, k) == A::fint_spec(0),
    decreases k,
{
    if k > 0 {
        assert(x[k - 1] == A::fint_spec(0));
        lemma_zero_row::<A>(x, y, k - 1);
    }
}

/// The gradients of an ignored row of logits are zero.
proof fn lemma_ignored_grads<A: Arith>(s: Setup<A>, r: int)
    requires
        zero_is_zero::<A>(),
        valid(s),
        0 <= r < s.bt(),
        s.labels[r] == s.opts.ignore_index,
    ensures
        s.student_grads()[r] == Seq::new(s.v() as nat, |j: int| A::fint_spec(0)),
        s.teacher_grads()[r].len() == s.teacher_logits()[r].len(),
        forall|j: int|
            0 <= j < s.teacher_grads()[r].len() ==> #[trigger] s.teacher_grads()[r][j]
                == A::fint_spec(0),
{
    assert(s.student_logits()[r].len() == s.v());
    assert(s.student_grads()[r] =~= Seq::new(s.v() as nat, |j: int| A::fint_spec(0)));
}

/// An ignored row has no gradient: its row in the gradients of the hidden states is zero.
pub proof fn ignored_rows_have_no_gradient<A: Arith>(
    s: Setup<A>,
    x: DistillationLossOutput<A::F>,
    r: int,
)
    requires
        zero_is_zero::<A>(),
        s.wf(),
        s.refusal() is None,
        answers(x, s),
        0 <= r < s.bt(),
        s.labels[r] == s.opts.ignore_index,
    ensures
        forall|c: int|
            0 <= c < s.h() ==> #[trigger] x.grad_student_hidden@[r][c] == A::fint_spec(0),
        x.grad_teacher_hidden matches Some(g) ==> forall|c: int|
            0 <= c < s.teacher_width() ==> #[trigger] g@[r][c] == A::fint_spec(0),
{
    lemma_denominator(s);
    lemma_ignored_grads(s, r);
    let sg = s.student_grads()[r];
    let tg = s.teacher_grads()[r];
    assert(A::fmul_spec(A::fint_spec(0), s.mean_scale()) == A::fint_spec(0));
    assert forall|c: int| 0 <= c < s.h() implies #[trigger] x.grad_student_hidden@[r][c]
        == A::fint_spec(0) by {
        lemma_zero_row::<A>(sg, column(s.weight@, c), sg.len() as int);
    }
    if x.grad_teacher_hidden is Some {
        let g = x.grad_teacher_hidden->0;
        let head = match s.teacher {
            Teacher::Separate { weight, .. } => weight@,
            _ => s.weight@,
        };
        assert forall|c: int| 0 <= c < s.teacher_width() implies #[trigger] g@[r][c]
            == A::fint_spec(0) by {
            lemma_zero_row::<A>(tg, column(head, c), tg.len() as int);
        }
    }
}

/// `s` with other hidden states for the student, and another teacher.
pub open spec fn with_rows<A: Arith>(s: Setup<A>, student: Mat<A::F>, teacher: Teacher<A>) -> Setup<A> {
    Setup { student, teacher, ..s }
}

/// Two matrices have the same shape, and the same rows where the label counts.
pub open spec fn same_where_counted<T>(x: Mat<T>, y: Mat<T>, labels: Seq<i64>, ignore_index: i64) -> bool {
    &&& x.rows == y.rows
    &&& x.cols == y.cols
    &&& forall|r: int|
        0 <= r < labels.len() && labels[r] != ignore_index ==> #[trigger] x@[r] == y@[r]
}

/// Two teachers are of one mode and differ at most in the hidden states, or in the logits, of
/// rows that do not count.
pub open spec fn same_teacher_where_counted<A: Arith>(
    x: Teacher<A>,
    y: Teacher<A>,
    labels: Seq<i64>,
    ignore_index: i64,
) -> bool {
    match (x, y) {
        (Teacher::Tied { hidden: a }, Teacher::Tied { hidden: b }) => same_where_counted(
            a,
            b,
            labels,
            ignore_index,
        ),
        (
            Teacher::Separate { hidden: a, weight: w },
            Teacher::Separate { hidden: b, weight: u },
        ) => same_where_counted(a, b, labels, ignore_index) && w == u,
        (Teacher::Precomputed { logits: a }, Teacher::Precomputed { logits: b }) =>
            same_where_counted(a, b, labels, ignore_index),
        _ => false,
    }
}

/// Both setups are valid, and differ at most in rows that do not count.
spec fn counted_alike<A: Arith>(s: Setup<A>, student: Mat<A::F>, teacher: Teacher<A>) -> bool {
    &&& valid(s)
    &&& student.wf()
    &&& teacher.wf()
    &&& same_where_counted(s.student, student, s.labels, s.opts.ignore_index)
    &&& same_teacher_where_counted(s.teacher, teacher, s.labels, s.opts.ignore_index)
}

/// A sum of products does not depend on what a factor of zero is multiplied by.
proof fn lemma_sparse_skips<A: Arith>(x: Seq<A::F>, y: Seq<A::F>, y2: Seq<A::F>, k: int)
    requires
        forall|i: int|
            0 <= i < k ==> y[i] == y2[i] || A::feq_spec(#[trigger] x[i], A::fint_spec(0)),
    ensures
        sparse_dot::<A>(x, y, k) == sparse_dot::<A>(x, y2, k),
    decreases k,
{
    if k > 0 {
        assert(y[k - 1] == y2[k - 1] || A::feq_spec(x[k - 1], A::fint_spec(0)));
        lemma_sparse_skips::<A>(x, y, y2, k - 1);
    }
}

/// A product with rows of which some are zero does not depend on what those are multiplied by.
proof fn lemma_outer_skips<A: Arith>(
    g: Seq<Seq<A::F>>,
    x: Seq<Seq<A::F>>,
    y: Seq<Seq<A::F>>,
    m: int,
    n: int,
    k: int,
)
    requires
        zero_is_zero::<A>(),
        0 <= m,
        0 <= n,
        0 <= k <= g.len(),
        k <= x.len(),
        k <= y.len(),
        forall|r: int| 0 <= r < k ==> #[trigger] x[r] == y[r] || zero_row::<A>(g[r], m),
    ensures
        outer::<A>(g, x, m, n, k) == outer::<A>(g, y, m, n, k),
{
    let lhs = outer::<A>(g, x, m, n, k);
    let rhs = outer::<A>(g, y, m, n, k);
    assert forall|i: int| 0 <= i < m implies #[trigger] lhs[i] == rhs[i] by {
        assert forall|j: int| 0 <= j < n implies #[trigger] lhs[i][j] == rhs[i][j] by {
            assert forall|r: int| 0 <= r < k implies column(x, j)[r] == column(y, j)[r]
                || A::feq_spec(#[trigger] column(g, i)[r], A::fint_spec(0)) by {
                assert(x[r] == y[r] || zero_row::<A>(g[r], m));
            }
            lemma_sparse_skips::<A>(column(g, i), column(x, j), column(y, j), k);
        }
        assert(lhs[i] =~= rhs[i]);
    }
    assert(lhs =~= rhs);
}

/// The first `m` entries of a row are zero.
spec fn zero_row<A: Arith>(row: Seq<A::F>, m: int) -> bool {
    forall|i: int| 0 <= i < m ==> #[trigger] row[i] == A::fint_spec(0)
}

/// The logits of the rows that count are the same, and so are all gradients of the logits.
proof fn lemma_counted_grads<A: Arith>(s: Setup<A>, student: Mat<A::F>, teacher: Teacher<A>)
    requires
        counted_alike(s, student, teacher),
    ensures
        ({
            let t = with_rows(s, student, teacher);
            &&& t.student_grads() == s.student_grads()
            &&& t.teacher_grads() == s.teacher_grads()
            &&& forall|r: int|
                0 <= r < s.bt() && s.labels[r] != s.opts.ignore_index ==> {
                    &&& #[trigger] s.student_logits()[r] == t.student_logits()[r]
                    &&& s.teacher_logits()[r] == t.teacher_logits()[r]
                }
        }),
{
    let t = with_rows(s, student, teacher);
    assert forall|r: int| 0 <= r < s.bt() && s.labels[r] != s.opts.ignore_index implies {
        &&& #[trigger] s.student_logits()[r] == t.student_logits()[r]
        &&& s.teacher_logits()[r] == t.teacher_logits()[r]
    } by {
        assert(s.student@[r] == student@[r]);
        match (s.teacher, teacher) {
            (Teacher::Tied { hidden: a }, Teacher::Tied { hidden: b }) => {
                assert(a@[r] == b@[r]);
            },
            (Teacher::Separate { hidden: a, .. }, Teacher::Separate { hidden: b, .. }) => {
                assert(a@[r] == b@[r]);
            },
            (Teacher::Precomputed { logits: a }, Teacher::Precomputed { logits: b }) => {
                assert(a@[r] == b@[r]);
            },
            _ => {},
        }
    }
    assert forall|r: int| 0 <= r < s.bt() implies {
        &&& #[trigger] t.student_grads()[r] == s.student_grads()[r]
        &&& t.teacher_grads()[r] == s.teacher_grads()[r]
    } by {
        assert(s.student_logits()[r].len() == t.student_logits()[r].len());
        assert(s.teacher_logits()[r].len() == t.teacher_logits()[r].len()) by {
            lemma_logits_len(s, r);
            lemma_logits_len(t, r);
        }
        if s.labels[r] == s.opts.ignore_index {
            assert(t.student_grads()[r] =~= s.student_grads()[r]);
            assert(t.teacher_grads()[r] =~= s.teacher_grads()[r]);
        } else {
            assert(s.student_logits()[r] == t.student_logits()[r]);
        }
    }
    assert(t.student_grads() =~= s.student_grads());
    assert forall|r: int| 0 <= r < s.bt() implies #[trigger] t.teacher_grads()[r]
        == s.teacher_grads()[r] by {
        assert(t.student_grads()[r] == s.student_grads()[r]);
    }
    assert(t.teacher_grads() =~= s.teacher_grads());
}

/// A row of the teacher's logits has an entry for each class.
proof fn lemma_logits_len<A: Arith>(s: Setup<A>, r: int)
    requires
        valid(s),
        0 <= r < s.bt(),
    ensures
        s.teacher_logits()[r].len() == s.v(),
{
    match s.teacher {
        Teacher::Precomputed { logits } => {
            logits.lemma_row_len(r);
        },
        _ => {},
    }
}

/// The cross-entropies do not depend on rows that do not count.
proof fn lemma_counted_nll<A: Arith>(s: Setup<A>, student: Mat<A::F>, teacher: Teacher<A>, n: int)
    requires
        counted_alike(s, student, teacher),
        0 <= n <= s.bt(),
    ensures
        with_rows(s, student, teacher).student_nll(n) == s.student_nll(n),
        with_rows(s, student, teacher).teacher_nll(n) == s.teacher_nll(n),
    decreases n,
{
    if n > 0 {
        lemma_counted_grads(s, student, teacher);
        lemma_counted_nll(s, student, teacher, n - 1);
        assert(s.labels[n - 1] != s.opts.ignore_index ==> s.student_logits()[n - 1]
            == with_rows(s, student, teacher).student_logits()[n - 1]);
    }
}

/// A row that is ignored contributes nothing: the student's hidden state there may be
/// anything, and so may the teacher's hidden state or logits, and neither the numbers nor any
/// gradient changes.
pub proof fn ignored_rows_do_not_matter<A: Arith>(
    s: Setup<A>,
    student: Mat<A::F>,
    teacher: Teacher<A>,
    x: DistillationLossOutput<A::F>,
    y: DistillationLossOutput<A::F>,
)
    requires
        zero_is_zero::<A>(),
        s.wf(),
        s.refusal() is None,
        student.wf(),
        teacher.wf(),
        same_where_counted(s.student, student, s.labels, s.opts.ignore_index),
        same_teacher_where_counted(s.teacher, teacher, s.labels, s.opts.ignore_index),
        answers(x, s),
        answers(y, with_rows(s, student, teacher)),
    ensures
        same_result(x, y),
        x.chunk_plan == y.chunk_plan,
{
    let t = with_rows(s, student, teacher);
    let bt = s.bt();
    lemma_counted_grads(s, student, teacher);
    lemma_counted_nll(s, student, teacher, bt);
    assert(s.kl_upto(bt) == t.kl_upto(bt)) by {
        assert forall|i: int| 0 <= i < bt implies {
            &&& #[trigger] s.labels[i] == t.labels[i]
            &&& s.labels[i] != s.opts.ignore_index ==> s.student_logits()[i]
                == t.student_logits()[i] && s.teacher_logits()[i] == t.teacher_logits()[i]
        } by {
            if s.labels[i] != s.opts.ignore_index {
                assert(s.student_logits()[i] == t.student_logits()[i]);
            }
        }
        lemma_kl_prefix::<A>(
            A::dint_spec(0),
            s.student_logits(),
            s.teacher_logits(),
            s.labels,
            t.student_logits(),
            t.teacher_logits(),
            t.labels,
            s.opts.ignore_index,
            s.opts.temperature,
            bt,
        );
    }
    assert forall|r: int| 0 <= r < bt implies #[trigger] s.student@[r] == student@[r] || zero_row::<
        A,
    >(s.student_grads()[r], s.v()) by {
        if s.labels[r] == s.opts.ignore_index {
            lemma_ignored_grads(s, r);
        }
    }
    lemma_outer_skips::<A>(s.student_grads(), s.student@, student@, s.v(), s.h(), bt);
    if s.teacher.mode_spec() != TeacherMode::Precomputed {
        assert forall|r: int| 0 <= r < bt implies #[trigger] s.teacher_hidden()[r]
            == t.teacher_hidden()[r] || zero_row::<A>(s.teacher_grads()[r], s.v()) by {
            if s.labels[r] == s.opts.ignore_index {
                lemma_ignored_grads(s, r);
                lemma_logits_len(s, r);
            } else {
                match (s.teacher, teacher) {
                    (Teacher::Tied { hidden: a }, Teacher::Tied { hidden: b }) => {
                        assert(a@[r] == b@[r]);
                    },
                    (Teacher::Separate { hidden: a, .. }, Teacher::Separate { hidden: b, .. }) => {
                        assert(a@[r] == b@[r]);
                    },
                    _ => {},
                }
            }
        }
        lemma_outer_skips::<A>(
            s.teacher_grads(),
            s.teacher_hidden(),
            t.teacher_hidden(),
            s.v(),
            s.teacher_width(),
            bt,
        );
    }
}

} // verus!
