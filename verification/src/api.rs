//! The distillation loss and its gradients.
//!
//! The rows of the batch are taken in chunks. For each chunk the student's and the
//! teacher's logits are computed, the KL kernel reads them, the cross-entropy kernel turns
//! them into gradients, the student's KL gradient is merged in, and the products with the
//! weight and the hidden states are accumulated. All sums are carried on from chunk to chunk,
//! row by row, and the mean over the tokens is applied once, at the end. So the result is
//! the same however the rows are cut.

use vstd::prelude::*;
use crate::arith::Arith;
use crate::config::{Backend, Reduction};
use crate::mat::{
    accumulate_tn, add_assign, matmul_nn, matmul_nt, scale_assign, sub_rows, Mat,
};
use crate::objective::Setup;
use crate::quant::{dequantize_grad_w, quantize_grad_w, Rng};
use crate::reference::cross_entropy::ce_rows;
use crate::reference::kl::kl_rows;
use crate::resolver::{resolve_chunk_size, ChunkPlan};
use crate::teacher::{Teacher, TeacherMode};
#[allow(unused_imports)]
use crate::mat::{column, lemma_outer_resumes, row_times, sparse_from, sum_of};
#[allow(unused_imports)]
use crate::objective::{
    first_bad_label, lemma_labels_in_range, rounding_state, rows_times, valid_tokens,
};
#[allow(unused_imports)]
use crate::quant::{round_trip, target_rows_survive};
#[allow(unused_imports)]
use crate::reference::cross_entropy::{ce_grads, lemma_ce_total_split, target_ok};
#[allow(unused_imports)]
use crate::reference::kl::{kl_grads, lemma_kl_sum_split};
#[allow(unused_imports)]
use crate::resolver::{plan_chunks, plan_rows};

pub use crate::forward::{forward_loss_f64, loss_only_f64};
pub use crate::options::{LossError, LossOptions};

verus! {

/// The inputs of a loss, taken together.
pub open spec fn setup<A: Arith>(
    student_hidden: &Mat<A::F>,
    weight: &Mat<A::F>,
    labels: Seq<i64>,
    teacher: &Teacher<A>,
    opts: &LossOptions<A>,
) -> Setup<A> {
    Setup {
        student: *student_hidden,
        weight: *weight,
        labels,
        teacher: *teacher,
        opts: *opts,
    }
}

/// Find the first label that is out of range.
fn find_bad_label(labels: &[i64], v: usize, ignore_index: i64) -> (r: Option<i64>)
    ensures
        r == first_bad_label(labels@, v as int, ignore_index, 0),
{
    let n: usize = labels.len();
    for i in 0..n
        invariant
            n == labels@.len(),
            first_bad_label(labels@, v as int, ignore_index, 0) == first_bad_label(
                labels@,
                v as int,
                ignore_index,
                i as int,
            ),
    {
        let t: i64 = labels[i];
        if t != ignore_index && (t < 0 || t as u64 >= v as u64) {
            return Some(t);
        }
    }
    None
}

/// Check shapes and arguments. Returns the size of the vocabulary, the width of the hidden
/// states, and the number of rows.
pub fn validate<A: Arith>(
    student_hidden: &Mat<A::F>,
    weight: &Mat<A::F>,
    labels: &[i64],
    teacher: &Teacher<A>,
    opts: &LossOptions<A>,
) -> (r: Result<(usize, usize, usize), LossError<A::F>>)
    ensures
        r == match setup(student_hidden, weight, labels@, teacher, opts).error() {
            Some(e) => Err::<(usize, usize, usize), LossError<A::F>>(e),
            None => Ok((weight.rows, student_hidden.cols, student_hidden.rows)),
        },
{
    match opts.config.validate() {
        Err(e) => {
            return Err(LossError::Config(e));
        },
        Ok(()) => {},
    }
    let (bt, h) = student_hidden.shape();
    if bt == 0 {
        return Err(LossError::NoRows);
    }
    if weight.cols != h {
        return Err(LossError::WeightShape { h, got: (weight.rows, weight.cols) });
    }
    let v: usize = weight.rows;
    if labels.len() != bt {
        return Err(LossError::LabelCount { bt, got: labels.len() });
    }
    if let Some(label) = find_bad_label(labels, v, opts.ignore_index) {
        return Err(LossError::LabelRange { label, v, ignore_index: opts.ignore_index });
    }
    let zero = A::fint(0);
    if !(A::fle(zero, opts.label_smoothing) && A::fle(opts.label_smoothing, A::fint(1))) {
        return Err(LossError::LabelSmoothing { got: opts.label_smoothing });
    }
    if A::flt(opts.kd_weight, zero) {
        return Err(LossError::KdWeight { got: opts.kd_weight });
    }
    if A::fle(opts.temperature, zero) {
        return Err(LossError::Temperature { got: opts.temperature });
    }
    match teacher {
        Teacher::Tied { hidden } => {
            if hidden.rows != bt || hidden.cols != h {
                return Err(LossError::TiedShape { want: (bt, h), got: hidden.shape() });
            }
        },
        Teacher::Separate { hidden, weight: own } => {
            if hidden.rows != bt {
                return Err(LossError::SeparateRows { bt });
            }
            if own.rows != v || own.cols != hidden.cols {
                return Err(LossError::SeparateWeight { want: (v, hidden.cols), got: own.shape() });
            }
        },
        Teacher::Precomputed { logits } => {
            if logits.rows != bt || logits.cols != v {
                return Err(LossError::PrecomputedShape { want: (bt, v), got: logits.shape() });
            }
        },
    }
    Ok((v, h, bt))
}

/// The gradients and the reported numbers of one evaluation.
#[derive(Clone, Debug)]
pub struct DistillationLossOutput<F> {
    /// The objective: the weighted sum of the three components.
    pub loss: F,
    /// The student's cross-entropy, not weighted.
    pub student_ce: F,
    /// The teacher's cross-entropy, not weighted; zero where it is not used.
    pub teacher_ce: F,
    /// The KL times `T^2`, not weighted.
    pub kl: F,
    /// Gradient with respect to the student's hidden states, `[BT, H]`.
    pub grad_student_hidden: Mat<F>,
    /// Gradient with respect to the weight, `[V, H]`.
    pub grad_weight: Mat<F>,
    /// Gradient with respect to the teacher's hidden states, where there is one.
    pub grad_teacher_hidden: Option<Mat<F>>,
    /// Gradient with respect to a separate teacher's weight, where there is one.
    pub grad_teacher_weight: Option<Mat<F>>,
    /// The chunks that were used.
    pub chunk_plan: ChunkPlan,
}

/// The teacher's shapes fit the student's weight.
pub open spec fn teacher_fits<A: Arith>(teacher: &Teacher<A>, weight: &Mat<A::F>) -> bool {
    &&& teacher.wf()
    &&& weight.wf()
    &&& match *teacher {
        Teacher::Tied { hidden } => hidden.cols == weight.cols,
        Teacher::Separate { hidden, weight: own } => hidden.cols == own.cols,
        Teacher::Precomputed { .. } => true,
    }
}

/// How many rows the teacher has.
pub open spec fn teacher_rows<A: Arith>(teacher: &Teacher<A>) -> int {
    match *teacher {
        Teacher::Tied { hidden } => hidden.rows as int,
        Teacher::Separate { hidden, .. } => hidden.rows as int,
        Teacher::Precomputed { logits } => logits.rows as int,
    }
}

/// How many classes the teacher's logits have.
pub open spec fn teacher_classes<A: Arith>(teacher: &Teacher<A>, weight: &Mat<A::F>) -> int {
    match *teacher {
        Teacher::Tied { .. } => weight.rows as int,
        Teacher::Separate { weight: own, .. } => own.rows as int,
        Teacher::Precomputed { logits } => logits.cols as int,
    }
}

/// The teacher's logits for `count` rows from row `start` on.
fn teacher_logits_chunk<A: Arith>(
    teacher: &Teacher<A>,
    weight: &Mat<A::F>,
    start: usize,
    count: usize,
) -> (out: Mat<A::F>)
    requires
        teacher_fits(teacher, weight),
        start + count <= teacher_rows(teacher),
    ensures
        out.wf(),
        out.rows == count,
        out.cols == teacher_classes(teacher, weight),
        out@ == Seq::new(count as nat, |i: int| teacher.logits_row(weight@, start + i)),
{
    let out = match teacher {
        Teacher::Tied { hidden } => matmul_nt::<A>(&sub_rows(hidden, start, count), weight),
        Teacher::Separate { hidden, weight: own } => matmul_nt::<A>(
            &sub_rows(hidden, start, count),
            own,
        ),
        Teacher::Precomputed { logits } => sub_rows(logits, start, count),
    };
    assert(out@ =~= Seq::new(count as nat, |i: int| teacher.logits_row(weight@, start + i)));
    out
}

/// The teacher's logits `[BT, V]`, given the student's weight, which a tied teacher uses.
pub fn teacher_logits<A: Arith>(teacher: &Teacher<A>, weight: &Mat<A::F>) -> (out: Mat<A::F>)
    requires
        teacher_fits(teacher, weight),
    ensures
        out.wf(),
        out.rows == teacher_rows(teacher),
        out.cols == teacher_classes(teacher, weight),
        out@ == Seq::new(
            teacher_rows(teacher) as nat,
            |r: int| teacher.logits_row(weight@, r),
        ),
{
    let rows: usize = match teacher {
        Teacher::Tied { hidden } => hidden.rows,
        Teacher::Separate { hidden, .. } => hidden.rows,
        Teacher::Precomputed { logits } => logits.rows,
    };
    let out = teacher_logits_chunk(teacher, weight, 0, rows);
    assert(out@ =~= Seq::new(rows as nat, |r: int| teacher.logits_row(weight@, r)));
    out
}

/// How many labels are not ignored.
pub(crate) fn count_valid(labels: &[i64], ignore_index: i64) -> (n: usize)
    ensures
        n == valid_tokens(labels@, ignore_index, labels@.len() as int),
{
    let total: usize = labels.len();
    let mut n: usize = 0;
    for i in 0..total
        invariant
            total == labels@.len(),
            n <= i,
            n == valid_tokens(labels@, ignore_index, i as int),
    {
        if labels[i] != ignore_index {
            n = n + 1;
        }
    }
    n
}

/// The inputs are valid, so there is something to compute.
pub open spec fn ready<A: Arith>(s: Setup<A>) -> bool {
    &&& s.wf()
    &&& s.error() is None
    &&& s.v() > 0
}

/// What one chunk yields: the gradients with respect to its logits, and the running sums.
struct ChunkStep<A: Arith> {
    student_grads: Mat<A::F>,
    teacher_grads: Mat<A::F>,
    student_nll: A::D,
    teacher_nll: A::D,
    kl: A::D,
}

/// Labels of a chunk are targets that the cross-entropy kernel takes.
proof fn lemma_chunk_targets<A: Arith>(s: Setup<A>, a: int, b: int)
    requires
        ready(s),
        0 <= a <= b <= s.bt(),
    ensures
        forall|i: int|
            0 <= i < b - a ==> target_ok(
                #[trigger] s.labels.subrange(a, b)[i],
                s.opts.ignore_index,
                s.v(),
            ),
{
    lemma_labels_in_range(s.labels, s.v(), s.opts.ignore_index, 0);
    assert forall|i: int| 0 <= i < b - a implies target_ok(
        #[trigger] s.labels.subrange(a, b)[i],
        s.opts.ignore_index,
        s.v(),
    ) by {
        assert(s.labels.subrange(a, b)[i] == s.labels[a + i]);
    }
}

/// Gradients of a chunk are the chunk of the gradients.
proof fn lemma_grads_of_chunk<A: Arith>(
    logits: Seq<Seq<A::F>>,
    teacher: Seq<Seq<A::F>>,
    labels: Seq<i64>,
    o: LossOptions<A>,
    scale: A::F,
    a: int,
    b: int,
)
    requires
        0 <= a <= b <= logits.len(),
        logits.len() == labels.len(),
        logits.len() == teacher.len(),
    ensures
        ce_grads::<A>(
            logits.subrange(a, b),
            labels.subrange(a, b),
            o.ignore_index,
            o.label_smoothing,
            scale,
        ) == ce_grads::<A>(logits, labels, o.ignore_index, o.label_smoothing, scale).subrange(a, b),
        kl_grads::<A>(
            logits.subrange(a, b),
            teacher.subrange(a, b),
            labels.subrange(a, b),
            o.ignore_index,
            o.kd_weight,
            o.temperature,
            A::fint_spec(1),
        ) == kl_grads::<A>(
            logits,
            teacher,
            labels,
            o.ignore_index,
            o.kd_weight,
            o.temperature,
            A::fint_spec(1),
        ).subrange(a, b),
{
    assert(ce_grads::<A>(
        logits.subrange(a, b),
        labels.subrange(a, b),
        o.ignore_index,
        o.label_smoothing,
        scale,
    ) =~= ce_grads::<A>(logits, labels, o.ignore_index, o.label_smoothing, scale).subrange(a, b));
    assert(kl_grads::<A>(
        logits.subrange(a, b),
        teacher.subrange(a, b),
        labels.subrange(a, b),
        o.ignore_index,
        o.kd_weight,
        o.temperature,
        A::fint_spec(1),
    ) =~= kl_grads::<A>(
        logits,
        teacher,
        labels,
        o.ignore_index,
        o.kd_weight,
        o.temperature,
        A::fint_spec(1),
    ).subrange(a, b));
}

/// The sum of two chunks of rows is the chunk of the sums.
proof fn lemma_sum_of_chunk<A: Arith>(x: Seq<Seq<A::F>>, y: Seq<Seq<A::F>>, a: int, b: int)
    requires
        0 <= a <= b <= x.len(),
        x.len() == y.len(),
    ensures
        sum_of::<A>(x.subrange(a, b), y.subrange(a, b)) == sum_of::<A>(x, y).subrange(a, b),
{
    assert(sum_of::<A>(x.subrange(a, b), y.subrange(a, b)) =~= sum_of::<A>(x, y).subrange(a, b));
}

/// Run the kernels over the rows from `start` up to `end`: logits, KL, cross-entropy, and
/// the KL gradient merged into the student's.
fn run_chunk<A: Arith>(
    student_hidden: &Mat<A::F>,
    weight: &Mat<A::F>,
    labels: &[i64],
    teacher: &Teacher<A>,
    opts: &LossOptions<A>,
    w_t: A::F,
    start: usize,
    end: usize,
    student_nll: A::D,
    teacher_nll: A::D,
    kl: A::D,
) -> (r: ChunkStep<A>)
    requires
        ({
            let s = setup(student_hidden, weight, labels@, teacher, opts);
            &&& ready(s)
            &&& start < end <= s.bt()
            &&& 2 * (end - start) <= usize::MAX
            &&& w_t == s.teacher_ce_weight()
            &&& student_nll == s.student_nll(start as int)
            &&& teacher_nll == s.teacher_nll(start as int)
            &&& kl == s.kl_upto(start as int)
        }),
    ensures
        ({
            let s = setup(student_hidden, weight, labels@, teacher, opts);
            let a = start as int;
            let b = end as int;
            &&& r.student_grads.wf()
            &&& r.student_grads.rows == end - start
            &&& r.student_grads.cols == s.v()
            &&& r.student_grads@ == s.student_grads().subrange(a, b)
            &&& r.student_nll == s.student_nll(b)
            &&& r.teacher_nll == s.teacher_nll(b)
            &&& s.uses_teacher_ce() ==> {
                &&& r.teacher_grads.wf()
                &&& r.teacher_grads.rows == end - start
                &&& r.teacher_grads.cols == s.v()
                &&& r.teacher_grads@ == s.teacher_grads().subrange(a, b)
            }
            &&& r.kl == s.kl_upto(b)
        }),
{
    let ghost s = setup(student_hidden, weight, labels@, teacher, opts);
    let ghost a = start as int;
    let ghost b = end as int;
    let n: usize = end - start;
    let v: usize = weight.rows;
    let zero = A::fint(0);
    let uses_kl = A::flt(zero, opts.kd_weight);
    let uses_teacher_ce = A::flt(zero, w_t);
    let targets = vstd::slice::slice_subrange(labels, start, end);
    proof {
        lemma_chunk_targets(s, a, b);
        lemma_grads_of_chunk::<A>(
            s.student_logits(),
            s.teacher_logits(),
            s.labels,
            s.opts,
            s.opts.student_ce_weight,
            a,
            b,
        );
        lemma_grads_of_chunk::<A>(
            s.teacher_logits(),
            s.teacher_logits(),
            s.labels,
            s.opts,
            w_t,
            a,
            b,
        );
        lemma_ce_total_split::<A>(
            A::dint_spec(0),
            s.student_logits(),
            s.labels,
            s.opts.ignore_index,
            s.opts.label_smoothing,
            a,
            n as int,
        );
        lemma_ce_total_split::<A>(
            A::dint_spec(0),
            s.teacher_logits(),
            s.labels,
            s.opts.ignore_index,
            s.opts.label_smoothing,
            a,
            n as int,
        );
    }
    proof {
        lemma_kl_sum_split::<A>(
            A::dint_spec(0),
            s.student_logits(),
            s.teacher_logits(),
            s.labels,
            s.opts.ignore_index,
            s.opts.temperature,
            a,
            n as int,
        );
    }
    let logits_s = matmul_nt::<A>(&sub_rows(student_hidden, start, n), weight);
    assert(logits_s@ =~= s.student_logits().subrange(a, b));

    let mut teacher_grads: Mat<A::F> = Mat::with_cols(v);
    let mut nll_t = teacher_nll;
    let mut kl_so_far = kl;
    let mut grad_kl: Option<Mat<A::F>> = None;
    if uses_kl || uses_teacher_ce {
        let logits_t = teacher_logits_chunk(teacher, weight, start, n);
        assert(logits_t@ =~= s.teacher_logits().subrange(a, b));
        if uses_kl {
            let mut logits_chunk = sub_rows(&logits_s, 0, n);
            logits_chunk.append_rows(&logits_t);
            assert(logits_chunk@.subrange(0, n as int) =~= logits_s@);
            assert(logits_chunk@.subrange(n as int, 2 * n) =~= logits_t@);
            let (sum, gkl) = kl_rows::<A>(
                &logits_chunk,
                targets,
                n,
                opts.kd_weight,
                opts.temperature,
                opts.ignore_index,
                A::fint(1),
                true,
                kl,
            );
            kl_so_far = sum;
            grad_kl = gkl;
        }
        if uses_teacher_ce {
            let (sum, grads) = ce_rows::<A>(
                &logits_t,
                targets,
                opts.ignore_index,
                opts.label_smoothing,
                w_t,
                teacher_nll,
            );
            nll_t = sum;
            teacher_grads = grads;
        }
    }
    let (nll_s, mut student_grads) = ce_rows::<A>(
        &logits_s,
        targets,
        opts.ignore_index,
        opts.label_smoothing,
        opts.student_ce_weight,
        student_nll,
    );
    if let Some(gkl) = &grad_kl {
        add_assign::<A>(&mut student_grads, gkl);
        proof {
            lemma_sum_of_chunk::<A>(
                ce_grads::<A>(
                    s.student_logits(),
                    s.labels,
                    s.opts.ignore_index,
                    s.opts.label_smoothing,
                    s.opts.student_ce_weight,
                ),
                kl_grads::<A>(
                    s.student_logits(),
                    s.teacher_logits(),
                    s.labels,
                    s.opts.ignore_index,
                    s.opts.kd_weight,
                    s.opts.temperature,
                    A::fint_spec(1),
                ),
                a,
                b,
            );
        }
    }
    ChunkStep {
        student_grads,
        teacher_grads,
        student_nll: nll_s,
        teacher_nll: nll_t,
        kl: kl_so_far,
    }
}

/// The matrix `m` has that many rows and columns, and holds `rows`.
pub open spec fn holds<T>(m: Mat<T>, height: int, width: int, rows: Seq<Seq<T>>) -> bool {
    &&& m.wf()
    &&& m.rows == height
    &&& m.cols == width
    &&& m@ == rows
}

/// The output is what the loss of `s` is.
pub open spec fn answers<A: Arith>(out: DistillationLossOutput<A::F>, s: Setup<A>) -> bool {
    let v = Some(s.weight.rows);
    &&& out.chunk_plan.chunk_size == plan_rows(
        s.bt(),
        s.opts.chunk_size,
        v,
        s.opts.config.max_chunks,
    )
    &&& out.chunk_plan.num_chunks == plan_chunks(
        s.bt(),
        s.opts.chunk_size,
        v,
        s.opts.config.max_chunks,
    )
    &&& out.loss == s.reduced(s.objective_sum())
    &&& out.student_ce == s.reduced(s.student_nll(s.bt()))
    &&& out.teacher_ce == s.reduced(s.teacher_nll(s.bt()))
    &&& out.kl == s.reduced(s.kl_total())
    &&& holds(out.grad_student_hidden, s.bt(), s.h(), s.student_hidden_grad())
    &&& holds(out.grad_weight, s.v(), s.h(), s.weight_grad())
    &&& out.grad_teacher_hidden is Some == s.has_teacher_hidden_grad()
    &&& out.grad_teacher_hidden matches Some(g) ==> holds(
        g,
        s.bt(),
        s.teacher_width(),
        s.teacher_hidden_grad(),
    )
    &&& out.grad_teacher_weight is Some == s.has_teacher_weight_grad()
    &&& out.grad_teacher_weight matches Some(g) ==> holds(
        g,
        s.v(),
        s.teacher_width(),
        s.teacher_weight_grad(),
    )
}

/// The rows up to `b` of a product, from those up to `a` and the chunk between.
proof fn lemma_rows_times_extend<A: Arith>(
    x: Seq<Seq<A::F>>,
    m: Seq<Seq<A::F>>,
    n: int,
    a: int,
    b: int,
)
    requires
        0 <= a <= b <= x.len(),
    ensures
        rows_times::<A>(x, m, n).subrange(0, a) + Seq::new(
            (b - a) as nat,
            |i: int| row_times::<A>(x.subrange(a, b)[i], m, n),
        ) == rows_times::<A>(x, m, n).subrange(0, b),
{
    assert(rows_times::<A>(x, m, n).subrange(0, a) + Seq::new(
        (b - a) as nat,
        |i: int| row_times::<A>(x.subrange(a, b)[i], m, n),
    ) =~= rows_times::<A>(x, m, n).subrange(0, b));
}

/// The running sums of [`distillation_loss`] over the chunks.
struct Progress<A: Arith> {
    grad_h_s: Mat<A::F>,
    outer_s: Mat<A::F>,
    grad_h_t: Mat<A::F>,
    outer_t: Mat<A::F>,
    student_nll: A::D,
    teacher_nll: A::D,
    kl: A::D,
}

/// The weight that the teacher's hidden states are multiplied by.
pub open spec fn teacher_head<A: Arith>(s: Setup<A>) -> Seq<Seq<A::F>> {
    match s.teacher {
        Teacher::Separate { weight, .. } => weight@,
        _ => s.weight@,
    }
}

impl<A: Arith> Progress<A> {
    /// The sums are those of the first `n` rows.
    spec fn reached(self, s: Setup<A>, n: int) -> bool {
        &&& holds(
            self.grad_h_s,
            n,
            s.h(),
            rows_times::<A>(s.student_grads(), s.weight@, s.h()).subrange(0, n),
        )
        &&& holds(self.outer_s, s.v(), s.h(), s.student_outer(n))
        &&& s.has_teacher_hidden_grad() ==> {
            &&& holds(
                self.grad_h_t,
                n,
                s.teacher_width(),
                rows_times::<A>(s.teacher_grads(), teacher_head(s), s.teacher_width()).subrange(0, n),
            )
            &&& holds(self.outer_t, s.v(), s.teacher_width(), s.teacher_outer(n))
        }
        &&& self.student_nll == s.student_nll(n)
        &&& self.teacher_nll == s.teacher_nll(n)
        &&& self.kl == s.kl_upto(n)
    }
}

/// Take one chunk: run the kernels, and add the products of its gradients to the sums, row by
/// row.
fn advance<A: Arith>(
    student_hidden: &Mat<A::F>,
    weight: &Mat<A::F>,
    labels: &[i64],
    teacher: &Teacher<A>,
    opts: &LossOptions<A>,
    w_t: A::F,
    start: usize,
    end: usize,
    p: &mut Progress<A>,
)
    requires
        ({
            let s = setup(student_hidden, weight, labels@, teacher, opts);
            &&& ready(s)
            &&& w_t == s.teacher_ce_weight()
            &&& 2 * s.bt() <= usize::MAX
            &&& start < end <= s.bt()
            &&& old(p).reached(s, start as int)
        }),
    ensures
        final(p).reached(setup(student_hidden, weight, labels@, teacher, opts), end as int),
{
    let ghost s = setup(student_hidden, weight, labels@, teacher, opts);
    let ghost a = start as int;
    let ghost b = end as int;
    let n: usize = end - start;
    let step = run_chunk(
        student_hidden,
        weight,
        labels,
        teacher,
        opts,
        w_t,
        start,
        end,
        p.student_nll,
        p.teacher_nll,
        p.kl,
    );
    p.student_nll = step.student_nll;
    p.teacher_nll = step.teacher_nll;
    p.kl = step.kl;

    proof {
        lemma_rows_times_extend::<A>(s.student_grads(), s.weight@, s.h(), a, b);
        lemma_outer_resumes::<A>(s.student_grads(), s.student@, s.v(), s.h(), a, b);
    }
    let h_s_chunk = sub_rows(student_hidden, start, n);
    p.grad_h_s.append_rows(&matmul_nn::<A>(&step.student_grads, weight));
    accumulate_tn::<A>(&mut p.outer_s, &step.student_grads, &h_s_chunk);
    if A::flt(A::fint(0), w_t) {
        match teacher {
            Teacher::Tied { hidden } => {
                proof {
                    lemma_teacher_rows(s, a, b);
                }
                let htc = sub_rows(hidden, start, n);
                p.grad_h_t.append_rows(&matmul_nn::<A>(&step.teacher_grads, weight));
                accumulate_tn::<A>(&mut p.outer_t, &step.teacher_grads, &htc);
            },
            Teacher::Separate { hidden, weight: own } => {
                proof {
                    lemma_teacher_rows(s, a, b);
                }
                let htc = sub_rows(hidden, start, n);
                p.grad_h_t.append_rows(&matmul_nn::<A>(&step.teacher_grads, own));
                accumulate_tn::<A>(&mut p.outer_t, &step.teacher_grads, &htc);
            },
            Teacher::Precomputed { .. } => {},
        }
    }
}

/// The rows from `a` up to `b`, taken up into the products on the teacher's side.
proof fn lemma_teacher_rows<A: Arith>(s: Setup<A>, a: int, b: int)
    requires
        ready(s),
        s.teacher.mode_spec() != TeacherMode::Precomputed,
        0 <= a <= b <= s.bt(),
    ensures
        rows_times::<A>(s.teacher_grads(), teacher_head(s), s.teacher_width()).subrange(0, a)
            + Seq::new(
            (b - a) as nat,
            |i: int|
                row_times::<A>(
                    s.teacher_grads().subrange(a, b)[i],
                    teacher_head(s),
                    s.teacher_width(),
                ),
        ) == rows_times::<A>(s.teacher_grads(), teacher_head(s), s.teacher_width()).subrange(0, b),
        Seq::new(
            s.v() as nat,
            |i: int|
                Seq::new(
                    s.teacher_width() as nat,
                    |j: int|
                        sparse_from::<A>(
                            s.teacher_outer(a)[i][j],
                            column(s.teacher_grads().subrange(a, b), i),
                            column(s.teacher_hidden().subrange(a, b), j),
                            b - a,
                        ),
                ),
        ) == s.teacher_outer(b),
{
    lemma_rows_times_extend::<A>(s.teacher_grads(), teacher_head(s), s.teacher_width(), a, b);
    lemma_outer_resumes::<A>(
        s.teacher_grads(),
        s.teacher_hidden(),
        s.v(),
        s.teacher_width(),
        a,
        b,
    );
}

/// The state at the start: no rows, and sums of zero.
fn begin<A: Arith>(
    weight: &Mat<A::F>,
    teacher: &Teacher<A>,
    Ghost(s): Ghost<Setup<A>>,
) -> (p: Progress<A>)
    requires
        ready(s),
        s.weight == *weight,
        s.teacher == *teacher,
    ensures
        p.reached(s, 0),
{
    let v: usize = weight.rows;
    let h: usize = weight.cols;
    let ht: usize = match teacher {
        Teacher::Tied { hidden } => hidden.cols,
        Teacher::Separate { hidden, .. } => hidden.cols,
        Teacher::Precomputed { .. } => 0,
    };
    let p = Progress {
        grad_h_s: Mat::with_cols(h),
        outer_s: Mat::zeros::<A>(v, h),
        grad_h_t: Mat::with_cols(ht),
        outer_t: Mat::zeros::<A>(v, ht),
        student_nll: A::dint(0),
        teacher_nll: A::dint(0),
        kl: A::dint(0),
    };
    assert(p.grad_h_s@ =~= rows_times::<A>(s.student_grads(), s.weight@, s.h()).subrange(0, 0));
    assert(p.grad_h_t@ =~= rows_times::<A>(
        s.teacher_grads(),
        teacher_head(s),
        s.teacher_width(),
    ).subrange(0, 0));
    assert(p.outer_s@ =~~= s.student_outer(0));
    assert(p.outer_t@ =~~= s.teacher_outer(0));
    p
}

/// Take a weight gradient through INT8 and back.
fn compress<A: Arith>(grad_w: &Mat<A::F>, labels: &[i64], opts: &LossOptions<A>) -> (out: Mat<A::F>)
    requires
        grad_w.wf(),
    ensures
        holds(
            out,
            grad_w.rows as int,
            grad_w.cols as int,
            round_trip::<A>(
                grad_w@,
                grad_w.cols as int,
                labels@,
                opts.ignore_index,
                rounding_state(opts.config),
                A::fint_spec(1),
            ),
        ),
{
    let gq = if opts.config.stochastic_rounding {
        let seed: u64 = match opts.config.stochastic_seed {
            Some(seed) => seed,
            None => 0,
        };
        let mut rng = Rng::new(seed);
        quantize_grad_w::<A>(grad_w, labels, opts.ignore_index, Some(&mut rng))
    } else {
        quantize_grad_w::<A>(grad_w, labels, opts.ignore_index, None)
    };
    proof {
        target_rows_survive::<A>(
            gq,
            *grad_w,
            labels@,
            opts.ignore_index,
            rounding_state(opts.config),
            A::fint_spec(1),
        );
    }
    dequantize_grad_w::<A>(&gq, A::fint(1))
}

/// Compute the fused cross-entropy and forward-KL distillation loss, and its gradients.
///
/// Shapes and arguments are checked first, and nothing else is asked of inputs that are
/// refused. `Backend::Auto` and `Backend::Cpu` compute here; `Backend::Cuda` is refused.
pub fn distillation_loss<A: Arith>(
    student_hidden: &Mat<A::F>,
    weight: &Mat<A::F>,
    labels: &[i64],
    teacher: &Teacher<A>,
    opts: &LossOptions<A>,
) -> (r: Result<DistillationLossOutput<A::F>, LossError<A::F>>)
    requires
        ({
            let s = setup(student_hidden, weight, labels@, teacher, opts);
            s.refusal() is None ==> s.wf() && 2 * labels@.len() <= usize::MAX && weight.rows > 0
        }),
    ensures
        ({
            let s = setup(student_hidden, weight, labels@, teacher, opts);
            match r {
                Err(e) => s.refusal() == Some(e),
                Ok(out) => s.refusal() is None && answers(out, s),
            }
        }),
{
    let ghost s = setup(student_hidden, weight, labels@, teacher, opts);
    let (v, h, bt) = match validate(student_hidden, weight, labels, teacher, opts) {
        Err(e) => {
            return Err(e);
        },
        Ok(sizes) => sizes,
    };
    match opts.backend {
        Backend::Cuda => {
            return Err(LossError::NoAccelerator);
        },
        Backend::Auto => {},
        Backend::Cpu => {},
    }
    let w_s = opts.student_ce_weight;
    let w_t = match opts.teacher_ce_weight {
        Some(w) => w,
        None => teacher.default_teacher_ce_weight(),
    };
    if A::flt(w_t, A::fint(0)) {
        return Err(LossError::TeacherWeight { got: w_t });
    }
    let n_non_ignore: usize = count_valid(labels, opts.ignore_index);
    let denom: usize = match opts.reduction {
        Reduction::Mean => if n_non_ignore > 1 { n_non_ignore } else { 1 },
        Reduction::Sum => 1,
    };
    let mean_scale = A::fdiv(A::fint(1), A::fint(denom as i128));

    let plan = resolve_chunk_size(bt, opts.chunk_size, Some(v), opts.config.max_chunks);
    let cs: usize = plan.chunk_size;
    let mut p = begin(weight, teacher, Ghost(s));
    let mut start: usize = 0;
    while start < bt
        invariant
            s == setup(student_hidden, weight, labels@, teacher, opts),
            ready(s),
            bt == s.bt(),
            w_t == s.teacher_ce_weight(),
            cs >= 1,
            2 * bt <= usize::MAX,
            start <= bt,
            p.reached(s, start as int),
        decreases bt - start,
    {
        let end: usize = if cs < bt - start { start + cs } else { bt };
        advance(student_hidden, weight, labels, teacher, opts, w_t, start, end, &mut p);
        start = end;
    }

    let Progress { mut grad_h_s, outer_s, mut grad_h_t, outer_t, student_nll, teacher_nll, kl } = p;
    let uses_teacher_ce = A::flt(A::fint(0), w_t);
    let mode = teacher.mode();
    let mut grad_w: Mat<A::F> = Mat::zeros::<A>(v, h);
    add_assign::<A>(&mut grad_w, &outer_s);
    if uses_teacher_ce && matches!(mode, TeacherMode::Tied) {
        add_assign::<A>(&mut grad_w, &outer_t);
    }
    scale_assign::<A>(&mut grad_h_s, mean_scale);
    scale_assign::<A>(&mut grad_w, mean_scale);
    proof {
        let whole = rows_times::<A>(s.student_grads(), s.weight@, s.h());
        assert(whole.subrange(0, s.bt()) =~= whole);
        let whole_t = rows_times::<A>(s.teacher_grads(), teacher_head(s), s.teacher_width());
        assert(whole_t.subrange(0, s.bt()) =~= whole_t);
    }
    let grad_teacher_hidden = if uses_teacher_ce && !matches!(mode, TeacherMode::Precomputed) {
        scale_assign::<A>(&mut grad_h_t, mean_scale);
        Some(grad_h_t)
    } else {
        None
    };
    let grad_teacher_weight = if uses_teacher_ce && matches!(mode, TeacherMode::Separate) {
        let mut grad_w_t: Mat<A::F> = Mat::zeros::<A>(v, outer_t.cols);
        add_assign::<A>(&mut grad_w_t, &outer_t);
        scale_assign::<A>(&mut grad_w_t, mean_scale);
        Some(grad_w_t)
    } else {
        None
    };
    if opts.config.quantize_grad_weight {
        grad_w = compress(&grad_w, labels, opts);
    }

    let kl_total = if A::flt(A::fint(0), opts.kd_weight) {
        A::dadd(A::dint(0), A::widen(A::narrow(kl)))
    } else {
        A::dint(0)
    };
    let wide_scale = A::widen(mean_scale);
    let student_ce = A::narrow(A::dmul(student_nll, wide_scale));
    let teacher_ce = A::narrow(A::dmul(teacher_nll, wide_scale));
    let reported_kl = A::narrow(A::dmul(kl_total, wide_scale));
    let weighted_ce = A::dadd(
        A::dmul(A::widen(w_s), student_nll),
        A::dmul(A::widen(w_t), teacher_nll),
    );
    let objective = A::dadd(weighted_ce, A::dmul(A::widen(opts.kd_weight), kl_total));
    let loss = A::narrow(A::dmul(objective, wide_scale));
    Ok(
        DistillationLossOutput {
            loss,
            student_ce,
            teacher_ce,
            kl: reported_kl,
            grad_student_hidden: grad_h_s,
            grad_weight: grad_w,
            grad_teacher_hidden,
            grad_teacher_weight,
            chunk_plan: plan,
        },
    )
}

} // verus!
