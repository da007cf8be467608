//! The objective on its own, computed in wide numbers and without chunks.
//!
//! This is an independent way to the same value, against which gradients can be checked by
//! finite differences.

use vstd::prelude::*;
use crate::api::{count_valid, validate};
use crate::arith::Arith;
use crate::config::{Backend, Reduction};
use crate::mat::Mat;
use crate::options::{LossError, LossOptions};
use crate::objective::Setup;
use crate::reference::cross_entropy::row_nll;
use crate::reference::kl::row_divergence;
use crate::reference::softmax::{row_peak_by_max, softmax_relative, temper_row, widen_row};
use crate::teacher::Teacher;
#[allow(unused_imports)]
use crate::api::setup;
#[allow(unused_imports)]
use crate::objective::lemma_labels_in_range;
#[allow(unused_imports)]
use crate::reference::cross_entropy::nll;
#[allow(unused_imports)]
use crate::reference::kl::divergence;
#[allow(unused_imports)]
use crate::reference::softmax::{log_softmax, peak_by_max, softmax, tempered, widened};

verus! {

/// The sum of the products of the first `k` entries, in wide numbers, from the left.
pub open spec fn wide_dot<A: Arith>(x: Seq<A::F>, y: Seq<A::F>, k: int) -> A::D
    decreases k,
{
    if k <= 0 {
        A::dint_spec(0)
    } else {
        A::dadd_spec(
            wide_dot::<A>(x, y, k - 1),
            A::dmul_spec(A::widen_spec(x[k - 1]), A::widen_spec(y[k - 1])),
        )
    }
}

/// The wide logits of the hidden state `x` under the weight `w`.
pub open spec fn wide_logits<A: Arith>(x: Seq<A::F>, w: Seq<Seq<A::F>>) -> Seq<A::D> {
    Seq::new(w.len(), |j: int| wide_dot::<A>(x, w[j], x.len() as int))
}

/// The cross-entropy of a row of wide logits; zero where the target is ignored.
pub open spec fn wide_nll<A: Arith>(z: Seq<A::D>, y: i64, ignore_index: i64, alpha: A::D) -> A::D {
    if y == ignore_index {
        A::dint_spec(0)
    } else {
        nll::<A>(z, peak_by_max::<A>(z, z.len() as int), y as int, alpha)
    }
}

/// The forward KL of a pair of rows of wide logits.
pub open spec fn wide_kl<A: Arith>(student: Seq<A::D>, teacher: Seq<A::D>, temperature: A::D) -> A::D {
    let inv_t = A::ddiv_spec(A::dint_spec(1), temperature);
    let s = tempered::<A>(student, inv_t);
    let t = tempered::<A>(teacher, inv_t);
    let m_s = peak_by_max::<A>(s, s.len() as int);
    let m_t = peak_by_max::<A>(t, t.len() as int);
    divergence::<A>(
        softmax::<A>(t, m_t),
        log_softmax::<A>(t, m_t),
        log_softmax::<A>(s, m_s),
        s.len() as int,
    )
}

impl<A: Arith> Setup<A> {
    /// Why [`forward_loss_f64`] refuses to compute, if it does.
    pub open spec fn forward_refusal(self) -> Option<LossError<A::F>> {
        if self.error() is Some {
            self.error()
        } else if self.opts.backend == Backend::Cuda {
            Some(LossError::NoAccelerator)
        } else {
            None
        }
    }

    pub open spec fn forward_uses_kl(self) -> bool {
        A::dlt_spec(A::dint_spec(0), A::widen_spec(self.opts.kd_weight))
    }

    pub open spec fn forward_uses_teacher_ce(self) -> bool {
        A::dlt_spec(A::dint_spec(0), A::widen_spec(self.teacher_ce_weight()))
    }

    /// The student's wide logits for row `r`.
    pub open spec fn wide_student(self, r: int) -> Seq<A::D> {
        wide_logits::<A>(self.student@[r], self.weight@)
    }

    /// The teacher's wide logits for row `r`.
    pub open spec fn wide_teacher(self, r: int) -> Seq<A::D> {
        match self.teacher {
            Teacher::Tied { hidden } => wide_logits::<A>(hidden@[r], self.weight@),
            Teacher::Separate { hidden, weight } => wide_logits::<A>(hidden@[r], weight@),
            Teacher::Precomputed { logits } => widened::<A>(logits@[r]),
        }
    }

    /// The logits that the KL takes for the teacher's row `r`: fixed ones, or its own.
    pub open spec fn kl_teacher(self, fixed: Option<Seq<Seq<A::F>>>, r: int) -> Seq<A::D> {
        match fixed {
            Some(t) => widened::<A>(t[r]),
            None => self.wide_teacher(r),
        }
    }

    /// The student's cross-entropy over the first `n` rows.
    pub open spec fn wide_student_nll(self, n: int) -> A::D
        decreases n,
    {
        if n <= 0 {
            A::dint_spec(0)
        } else {
            A::dadd_spec(
                self.wide_student_nll(n - 1),
                wide_nll::<A>(
                    self.wide_student(n - 1),
                    self.labels[n - 1],
                    self.opts.ignore_index,
                    A::widen_spec(self.opts.label_smoothing),
                ),
            )
        }
    }

    /// The teacher's cross-entropy over the first `n` rows, where it is used.
    pub open spec fn wide_teacher_nll(self, n: int) -> A::D
        decreases n,
    {
        if n <= 0 || !self.forward_uses_teacher_ce() {
            A::dint_spec(0)
        } else {
            A::dadd_spec(
                self.wide_teacher_nll(n - 1),
                wide_nll::<A>(
                    self.wide_teacher(n - 1),
                    self.labels[n - 1],
                    self.opts.ignore_index,
                    A::widen_spec(self.opts.label_smoothing),
                ),
            )
        }
    }

    /// The KL times `T^2` over the first `n` rows, where it is used. An ignored row adds
    /// nothing.
    pub open spec fn wide_kl_sum(self, fixed: Option<Seq<Seq<A::F>>>, n: int) -> A::D
        decreases n,
    {
        let t = A::widen_spec(self.opts.temperature);
        if n <= 0 || !self.forward_uses_kl() {
            A::dint_spec(0)
        } else if self.labels[n - 1] == self.opts.ignore_index {
            self.wide_kl_sum(fixed, n - 1)
        } else {
            A::dadd_spec(
                self.wide_kl_sum(fixed, n - 1),
                A::dmul_spec(
                    wide_kl::<A>(self.wide_student(n - 1), self.kl_teacher(fixed, n - 1), t),
                    A::dmul_spec(t, t),
                ),
            )
        }
    }

    /// The objective in wide numbers.
    pub open spec fn wide_objective(self, fixed: Option<Seq<Seq<A::F>>>) -> A::D {
        A::ddiv_spec(
            A::dadd_spec(
                A::dadd_spec(
                    A::dmul_spec(
                        A::widen_spec(self.opts.student_ce_weight),
                        self.wide_student_nll(self.bt()),
                    ),
                    A::dmul_spec(
                        A::widen_spec(self.teacher_ce_weight()),
                        self.wide_teacher_nll(self.bt()),
                    ),
                ),
                A::dmul_spec(
                    A::widen_spec(self.opts.kd_weight),
                    self.wide_kl_sum(fixed, self.bt()),
                ),
            ),
            A::dint_spec(self.denominator()),
        )
    }
}

/// One row of logits in wide numbers: the hidden state times the transpose of the weight.
pub fn logits_row_f64<A: Arith>(h_row: &[A::F], w: &Mat<A::F>) -> (z: Vec<A::D>)
    requires
        w.wf(),
        h_row@.len() <= w.cols,
    ensures
        z@ == wide_logits::<A>(h_row@, w@),
{
    let n: usize = w.rows;
    let k: usize = h_row.len();
    let mut z: Vec<A::D> = Vec::new();
    for j in 0..n
        invariant
            w.wf(),
            n == w.rows,
            k == h_row@.len(),
            k <= w.cols,
            z@ == wide_logits::<A>(h_row@, w@).subrange(0, j as int),
    {
        let wr = w.row(j);
        let mut acc = A::dint(0);
        for p in 0..k
            invariant
                k == h_row@.len(),
                k <= wr@.len(),
                acc == wide_dot::<A>(h_row@, wr@, p as int),
        {
            acc = A::dadd(acc, A::dmul(A::widen(h_row[p]), A::widen(wr[p])));
        }
        z.push(acc);
        assert(z@ =~= wide_logits::<A>(h_row@, w@).subrange(0, j + 1));
    }
    assert(z@ =~= wide_logits::<A>(h_row@, w@));
    z
}

/// The cross-entropy of one row of wide logits.
pub fn nll_f64<A: Arith>(logits: &[A::D], y: i64, ignore_index: i64, label_smoothing: A::D) -> (r: A::D)
    requires
        y == ignore_index || 0 <= y < logits.len(),
    ensures
        r == wide_nll::<A>(logits@, y, ignore_index, label_smoothing),
{
    if y == ignore_index {
        return A::dint(0);
    }
    let m = row_peak_by_max::<A>(logits);
    row_nll::<A>(logits, m, y as usize, label_smoothing)
}

/// The forward KL of one pair of rows of wide logits.
pub fn kl_f64<A: Arith>(student: &[A::D], teacher: &[A::D], temperature: A::D) -> (r: A::D)
    requires
        teacher@.len() >= student@.len(),
    ensures
        r == wide_kl::<A>(student@, teacher@, temperature),
{
    let inv_t = A::ddiv(A::dint(1), temperature);
    let s = temper_row::<A>(student, inv_t);
    let t = temper_row::<A>(teacher, inv_t);
    let m_s = row_peak_by_max::<A>(s.as_slice());
    let m_t = row_peak_by_max::<A>(t.as_slice());
    let (_ps, lps) = softmax_relative::<A>(s.as_slice(), m_s);
    let (pt, lpt) = softmax_relative::<A>(t.as_slice(), m_t);
    row_divergence::<A>(pt.as_slice(), lpt.as_slice(), lps.as_slice())
}

/// The teacher's wide logits for row `r`.
fn teacher_row_f64<A: Arith>(teacher: &Teacher<A>, weight: &Mat<A::F>, r: usize, Ghost(s): Ghost<Setup<A>>) -> (z: Vec<A::D>)
    requires
        s.wf(),
        s.error() is None,
        s.teacher == *teacher,
        s.weight == *weight,
        r < s.bt(),
    ensures
        z@ == s.wide_teacher(r as int),
        z@.len() == s.v(),
{
    match teacher {
        Teacher::Tied { hidden } => logits_row_f64::<A>(hidden.row(r), weight),
        Teacher::Separate { hidden, weight: own } => logits_row_f64::<A>(hidden.row(r), own),
        Teacher::Precomputed { logits } => widen_row::<A>(logits.row(r)),
    }
}

/// The fixed logits, given by their rows.
pub open spec fn fixed_rows<T>(kl_teacher_logits: Option<&Mat<T>>) -> Option<Seq<Seq<T>>> {
    match kl_teacher_logits {
        Some(t) => Some(t@),
        None => None,
    }
}

/// Fixed logits have a row, as long as the vocabulary, wherever the KL of `s` reads one.
pub open spec fn fixed_logits_fit<A: Arith>(s: Setup<A>, t: &Mat<A::F>) -> bool {
    &&& t.wf()
    &&& s.forward_refusal() is None && s.forward_uses_kl() ==> forall|r: int|
        0 <= r < s.labels.len() && #[trigger] s.labels[r] != s.opts.ignore_index ==> r < t.rows
            && t.cols >= s.v()
}

/// The objective, with fixed logits for the teacher in the KL where they are given.
///
/// Without them the KL reads the teacher's own logits, and the value is that of the whole
/// loss. With them the teacher is a constant to the KL, as it is to the gradients; its
/// cross-entropy still reads its own logits.
pub fn forward_loss_f64<A: Arith>(
    student_hidden: &Mat<A::F>,
    weight: &Mat<A::F>,
    labels: &[i64],
    teacher: &Teacher<A>,
    opts: &LossOptions<A>,
    kl_teacher_logits: Option<&Mat<A::F>>,
) -> (r: Result<A::D, LossError<A::F>>)
    requires
        ({
            let s = setup(student_hidden, weight, labels@, teacher, opts);
            s.forward_refusal() is None ==> {
                &&& s.wf()
                &&& kl_teacher_logits matches Some(t) ==> fixed_logits_fit(s, t)
            }
        }),
    ensures
        ({
            let s = setup(student_hidden, weight, labels@, teacher, opts);
            r == match s.forward_refusal() {
                Some(e) => Err::<A::D, LossError<A::F>>(e),
                None => Ok(s.wide_objective(fixed_rows(kl_teacher_logits))),
            }
        }),
{
    let ghost s = setup(student_hidden, weight, labels@, teacher, opts);
    let ghost fixed = fixed_rows(kl_teacher_logits);
    let (_v, _h, bt) = match validate(student_hidden, weight, labels, teacher, opts) {
        Err(e) => {
            return Err(e);
        },
        Ok(sizes) => sizes,
    };
    match opts.backend {
        Backend::Cuda => {
            return Err(LossError::NoAccelerator);
        },
        Backend::Auto => {},
        Backend::Cpu => {},
    }
    let zero = A::dint(0);
    let w_s = A::widen(opts.student_ce_weight);
    let w_t = A::widen(
        match opts.teacher_ce_weight {
            Some(w) => w,
            None => teacher.default_teacher_ce_weight(),
        },
    );
    let kd = A::widen(opts.kd_weight);
    let temperature = A::widen(opts.temperature);
    let ls = A::widen(opts.label_smoothing);
    let t_sq = A::dmul(temperature, temperature);
    let n_non_ignore: usize = count_valid(labels, opts.ignore_index);
    let denom: usize = match opts.reduction {
        Reduction::Mean => if n_non_ignore > 1 { n_non_ignore } else { 1 },
        Reduction::Sum => 1,
    };
    let uses_kl = A::dlt(zero, kd);
    let uses_teacher_ce = A::dlt(zero, w_t);
    proof {
        lemma_labels_in_range(s.labels, s.v(), s.opts.ignore_index, 0);
    }
    let mut sum_nll_s = A::dint(0);
    let mut sum_nll_t = A::dint(0);
    let mut sum_kl = A::dint(0);
    for r in 0..bt
        invariant
            s == setup(student_hidden, weight, labels@, teacher, opts),
            s.wf(),
            s.error() is None,
            bt == s.bt(),
            bt == labels@.len(),
            fixed == fixed_rows(kl_teacher_logits),
            s.forward_refusal() is None,
            kl_teacher_logits matches Some(t) ==> fixed_logits_fit(s, t),
            forall|k: int|
                0 <= k < s.labels.len() ==> crate::objective::label_ok(
                    #[trigger] s.labels[k],
                    s.v(),
                    s.opts.ignore_index,
                ),
            uses_kl == s.forward_uses_kl(),
            uses_teacher_ce == s.forward_uses_teacher_ce(),
            temperature == A::widen_spec(opts.temperature),
            ls == A::widen_spec(opts.label_smoothing),
            t_sq == A::dmul_spec(temperature, temperature),
            sum_nll_s == s.wide_student_nll(r as int),
            sum_nll_t == s.wide_teacher_nll(r as int),
            sum_kl == s.wide_kl_sum(fixed, r as int),
    {
        let y: i64 = labels[r];
        assert(s.labels[r as int] == y);
        let logits_s = logits_row_f64::<A>(student_hidden.row(r), weight);
        sum_nll_s = A::dadd(
            sum_nll_s,
            nll_f64::<A>(logits_s.as_slice(), y, opts.ignore_index, ls),
        );
        if uses_kl || uses_teacher_ce {
            let logits_t = teacher_row_f64(teacher, weight, r, Ghost(s));
            if uses_teacher_ce {
                sum_nll_t = A::dadd(
                    sum_nll_t,
                    nll_f64::<A>(logits_t.as_slice(), y, opts.ignore_index, ls),
                );
            }
            if uses_kl && y != opts.ignore_index {
                let kl = match kl_teacher_logits {
                    Some(t) => {
                        let kl_teacher = widen_row::<A>(t.row(r));
                        kl_f64::<A>(logits_s.as_slice(), kl_teacher.as_slice(), temperature)
                    },
                    None => kl_f64::<A>(logits_s.as_slice(), logits_t.as_slice(), temperature),
                };
                sum_kl = A::dadd(sum_kl, A::dmul(kl, t_sq));
            }
        }
    }
    let weighted_ce = A::dadd(A::dmul(w_s, sum_nll_s), A::dmul(w_t, sum_nll_t));
    let objective = A::dadd(weighted_ce, A::dmul(kd, sum_kl));
    Ok(A::ddiv(objective, A::dint(denom as i128)))
}

/// The objective, with the teacher's own logits in the KL.
pub fn loss_only_f64<A: Arith>(
    student_hidden: &Mat<A::F>,
    weight: &Mat<A::F>,
    labels: &[i64],
    teacher: &Teacher<A>,
    opts: &LossOptions<A>,
) -> (r: Result<A::D, LossError<A::F>>)
    requires
        ({
            let s = setup(student_hidden, weight, labels@, teacher, opts);
            s.forward_refusal() is None ==> s.wf()
        }),
    ensures
        ({
            let s = setup(student_hidden, weight, labels@, teacher, opts);
            r == match s.forward_refusal() {
                Some(e) => Err::<A::D, LossError<A::F>>(e),
                None => Ok(s.wide_objective(None)),
            }
        }),
{
    forward_loss_f64(student_hidden, weight, labels, teacher, opts, None)
}

} // verus!
