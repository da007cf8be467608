//! What the loss and its gradients are, as functions of the inputs.
//!
//! Nothing here runs. The rows are treated all at once: the result does not depend on how
//! they are cut into chunks.

use vstd::prelude::*;
use crate::arith::Arith;
use crate::config::{Backend, KernelConfig, Reduction};
use crate::mat::Mat;
use crate::options::{LossError, LossOptions};
use crate::teacher::Teacher;
#[allow(unused_imports)]
use crate::mat::{outer, row_times, row_times_transpose, scaled, sum_of};
#[allow(unused_imports)]
use crate::quant::{next_state, round_trip};
#[allow(unused_imports)]
use crate::reference::cross_entropy::{ce_grads, ce_total};
#[allow(unused_imports)]
use crate::reference::kl::{kl_grads, kl_sum};
#[allow(unused_imports)]
use crate::resolver::max;
#[allow(unused_imports)]
use crate::teacher::TeacherMode;

verus! {

/// A label is a class of a vocabulary of `v`, or the ignored one.
pub open spec fn label_ok(label: i64, v: int, ignore_index: i64) -> bool {
    label == ignore_index || 0 <= label < v
}

/// The first of the labels from number `i` on that is out of range.
pub open spec fn first_bad_label(labels: Seq<i64>, v: int, ignore_index: i64, i: int) -> Option<i64>
    decreases labels.len() - i,
{
    if i < 0 || i >= labels.len() {
        None
    } else if label_ok(labels[i], v, ignore_index) {
        first_bad_label(labels, v, ignore_index, i + 1)
    } else {
        Some(labels[i])
    }
}

/// Everything that a loss is computed from.
pub struct Setup<A: Arith> {
    pub student: Mat<A::F>,
    pub weight: Mat<A::F>,
    pub labels: Seq<i64>,
    pub teacher: Teacher<A>,
    pub opts: LossOptions<A>,
}

impl<A: Arith> Setup<A> {
    /// The matrices are well formed.
    pub open spec fn wf(self) -> bool {
        &&& self.student.wf()
        &&& self.weight.wf()
        &&& self.teacher.wf()
    }

    /// What is wrong with the teacher's shapes, if anything is.
    pub open spec fn teacher_error(self) -> Option<LossError<A::F>> {
        let bt = self.student.rows;
        let h = self.student.cols;
        let v = self.weight.rows;
        match self.teacher {
            Teacher::Tied { hidden } => if hidden.rows != bt || hidden.cols != h {
                Some(LossError::TiedShape { want: (bt, h), got: (hidden.rows, hidden.cols) })
            } else {
                None
            },
            Teacher::Separate { hidden, weight } => if hidden.rows != bt {
                Some(LossError::SeparateRows { bt })
            } else if weight.rows != v || weight.cols != hidden.cols {
                Some(
                    LossError::SeparateWeight {
                        want: (v, hidden.cols),
                        got: (weight.rows, weight.cols),
                    },
                )
            } else {
                None
            },
            Teacher::Precomputed { logits } => if logits.rows != bt || logits.cols != v {
                Some(
                    LossError::PrecomputedShape { want: (bt, v), got: (logits.rows, logits.cols) },
                )
            } else {
                None
            },
        }
    }

    /// The first thing wrong with shapes and arguments, if anything is.
    pub open spec fn error(self) -> Option<LossError<A::F>> {
        let bt = self.student.rows;
        let h = self.student.cols;
        let v = self.weight.rows;
        let o = self.opts;
        let zero = A::fint_spec(0);
        if o.config.config_error() is Some {
            Some(LossError::Config(o.config.config_error()->0))
        } else if bt == 0 {
            Some(LossError::NoRows)
        } else if self.weight.cols != h {
            Some(LossError::WeightShape { h, got: (v, self.weight.cols) })
        } else if self.labels.len() != bt {
            Some(LossError::LabelCount { bt, got: self.labels.len() as usize })
        } else if first_bad_label(self.labels, v as int, o.ignore_index, 0) is Some {
            Some(
                LossError::LabelRange {
                    label: first_bad_label(self.labels, v as int, o.ignore_index, 0)->0,
                    v,
                    ignore_index: o.ignore_index,
                },
            )
        } else if !(A::fle_spec(zero, o.label_smoothing) && A::fle_spec(o.label_smoothing, A::fint_spec(1))) {
            Some(LossError::LabelSmoothing { got: o.label_smoothing })
        } else if A::flt_spec(o.kd_weight, zero) {
            Some(LossError::KdWeight { got: o.kd_weight })
        } else if A::fle_spec(o.temperature, zero) {
            Some(LossError::Temperature { got: o.temperature })
        } else {
            self.teacher_error()
        }
    }
}

/// How many of the first `n` labels are not ignored.
pub open spec fn valid_tokens(labels: Seq<i64>, ignore_index: i64, n: int) -> int
    decreases n,
{
    if n <= 0 {
        0
    } else {
        valid_tokens(labels, ignore_index, n - 1) + if labels[n - 1] != ignore_index {
            1int
        } else {
            0
        }
    }
}

/// No more tokens count than there are rows.
pub proof fn lemma_valid_tokens(labels: Seq<i64>, ignore_index: i64, n: int)
    ensures
        0 <= valid_tokens(labels, ignore_index, n),
        n >= 0 ==> valid_tokens(labels, ignore_index, n) <= n,
    decreases n,
{
    if n > 0 {
        lemma_valid_tokens(labels, ignore_index, n - 1);
    }
}

/// The state from which the stochastic rounding draws, where that is asked for.
pub open spec fn rounding_state(config: KernelConfig) -> Option<u64> {
    if config.stochastic_rounding {
        match config.stochastic_seed {
            Some(seed) => Some(next_state(seed)),
            None => Some(next_state(0)),
        }
    } else {
        None
    }
}

/// A matrix of zeros, given by its rows.
pub open spec fn zero_rows<A: Arith>(rows: int, cols: int) -> Seq<Seq<A::F>> {
    Seq::new(rows as nat, |r: int| Seq::new(cols as nat, |c: int| A::fint_spec(0)))
}

/// Each of the rows `x` times `b`, which has `n` columns.
pub open spec fn rows_times<A: Arith>(x: Seq<Seq<A::F>>, b: Seq<Seq<A::F>>, n: int) -> Seq<Seq<A::F>> {
    Seq::new(x.len(), |r: int| row_times::<A>(x[r], b, n))
}

impl<A: Arith> Setup<A> {
    pub open spec fn bt(self) -> int {
        self.student.rows as int
    }

    pub open spec fn v(self) -> int {
        self.weight.rows as int
    }

    pub open spec fn h(self) -> int {
        self.student.cols as int
    }

    /// The weight of the teacher's cross-entropy.
    pub open spec fn teacher_ce_weight(self) -> A::F {
        match self.opts.teacher_ce_weight {
            Some(w) => w,
            None => self.teacher.default_weight(),
        }
    }

    /// Why [`crate::api::distillation_loss`] refuses to compute, if it does.
    pub open spec fn refusal(self) -> Option<LossError<A::F>> {
        if self.error() is Some {
            self.error()
        } else if self.opts.backend == Backend::Cuda {
            Some(LossError::NoAccelerator)
        } else if A::flt_spec(self.teacher_ce_weight(), A::fint_spec(0)) {
            Some(LossError::TeacherWeight { got: self.teacher_ce_weight() })
        } else {
            None
        }
    }

    /// Whether the KL is part of the objective.
    pub open spec fn uses_kl(self) -> bool {
        A::flt_spec(A::fint_spec(0), self.opts.kd_weight)
    }

    /// Whether the teacher's cross-entropy is part of the objective.
    pub open spec fn uses_teacher_ce(self) -> bool {
        A::flt_spec(A::fint_spec(0), self.teacher_ce_weight())
    }

    /// Whether the teacher's hidden states get a gradient.
    pub open spec fn has_teacher_hidden_grad(self) -> bool {
        self.uses_teacher_ce() && self.teacher.mode_spec() != TeacherMode::Precomputed
    }

    /// Whether the teacher's own weight gets a gradient.
    pub open spec fn has_teacher_weight_grad(self) -> bool {
        self.uses_teacher_ce() && self.teacher.mode_spec() == TeacherMode::Separate
    }

    /// The student's logits, `[BT, V]`.
    pub open spec fn student_logits(self) -> Seq<Seq<A::F>> {
        Seq::new(
            self.bt() as nat,
            |r: int| row_times_transpose::<A>(self.student@[r], self.weight@),
        )
    }

    /// The teacher's logits, `[BT, V]`.
    pub open spec fn teacher_logits(self) -> Seq<Seq<A::F>> {
        Seq::new(self.bt() as nat, |r: int| self.teacher.logits_row(self.weight@, r))
    }

    /// The gradient with respect to the student's logits: that of its cross-entropy, plus
    /// that of the KL where there is one. The teacher is a constant to the KL.
    pub open spec fn student_grads(self) -> Seq<Seq<A::F>> {
        let o = self.opts;
        let ce = ce_grads::<A>(
            self.student_logits(),
            self.labels,
            o.ignore_index,
            o.label_smoothing,
            o.student_ce_weight,
        );
        if self.uses_kl() {
            sum_of::<A>(
                ce,
                kl_grads::<A>(
                    self.student_logits(),
                    self.teacher_logits(),
                    self.labels,
                    o.ignore_index,
                    o.kd_weight,
                    o.temperature,
                    A::fint_spec(1),
                ),
            )
        } else {
            ce
        }
    }

    /// The gradient with respect to the teacher's logits, that of its cross-entropy.
    pub open spec fn teacher_grads(self) -> Seq<Seq<A::F>> {
        let o = self.opts;
        ce_grads::<A>(
            self.teacher_logits(),
            self.labels,
            o.ignore_index,
            o.label_smoothing,
            self.teacher_ce_weight(),
        )
    }

    /// The student's cross-entropy, summed over the first `n` rows.
    pub open spec fn student_nll(self, n: int) -> A::D {
        ce_total::<A>(
            A::dint_spec(0),
            self.student_logits(),
            self.labels,
            self.opts.ignore_index,
            self.opts.label_smoothing,
            n,
        )
    }

    /// The teacher's cross-entropy, summed over the first `n` rows; zero where it is no
    /// part of the objective.
    pub open spec fn teacher_nll(self, n: int) -> A::D {
        if self.uses_teacher_ce() {
            ce_total::<A>(
                A::dint_spec(0),
                self.teacher_logits(),
                self.labels,
                self.opts.ignore_index,
                self.opts.label_smoothing,
                n,
            )
        } else {
            A::dint_spec(0)
        }
    }

    /// The KL times `T^2`, summed over the first `n` rows; zero where it is no part of the
    /// objective.
    pub open spec fn kl_upto(self, n: int) -> A::D {
        if self.uses_kl() {
            kl_sum::<A>(
                A::dint_spec(0),
                self.student_logits(),
                self.teacher_logits(),
                self.labels,
                self.opts.ignore_index,
                self.opts.temperature,
                n,
            )
        } else {
            A::dint_spec(0)
        }
    }

    /// The KL of all rows, as the kernel reports it: narrowed, and then taken up into the
    /// wide sum.
    pub open spec fn kl_total(self) -> A::D {
        if self.uses_kl() {
            A::dadd_spec(
                A::dint_spec(0),
                A::widen_spec(A::narrow_spec(self.kl_upto(self.bt()))),
            )
        } else {
            A::dint_spec(0)
        }
    }

    /// What the first `n` rows add to the weight gradient on the student's side.
    pub open spec fn student_outer(self, n: int) -> Seq<Seq<A::F>> {
        outer::<A>(self.student_grads(), self.student@, self.v(), self.h(), n)
    }

    /// What the first `n` rows add to the gradient of the weight that the teacher uses.
    pub open spec fn teacher_outer(self, n: int) -> Seq<Seq<A::F>> {
        outer::<A>(
            self.teacher_grads(),
            self.teacher_hidden(),
            self.v(),
            self.teacher_width(),
            n,
        )
    }

    /// The weight gradient before the reduction: the student's part, and then the teacher's
    /// part where the teacher uses the same weight.
    pub open spec fn weight_sum(self) -> Seq<Seq<A::F>> {
        let with_student = sum_of::<A>(
            zero_rows::<A>(self.v(), self.h()),
            self.student_outer(self.bt()),
        );
        if self.uses_teacher_ce() && self.teacher.mode_spec() == TeacherMode::Tied {
            sum_of::<A>(with_student, self.teacher_outer(self.bt()))
        } else {
            with_student
        }
    }

    /// The gradient of a separate teacher's weight before the reduction.
    pub open spec fn teacher_weight_sum(self) -> Seq<Seq<A::F>> {
        sum_of::<A>(
            zero_rows::<A>(self.v(), self.teacher_width()),
            self.teacher_outer(self.bt()),
        )
    }

    /// The teacher's hidden states; none for precomputed logits.
    pub open spec fn teacher_hidden(self) -> Seq<Seq<A::F>> {
        match self.teacher {
            Teacher::Tied { hidden } => hidden@,
            Teacher::Separate { hidden, .. } => hidden@,
            Teacher::Precomputed { .. } => Seq::empty(),
        }
    }

    /// The width of the teacher's hidden states.
    pub open spec fn teacher_width(self) -> int {
        match self.teacher {
            Teacher::Tied { hidden } => hidden.cols as int,
            Teacher::Separate { hidden, .. } => hidden.cols as int,
            Teacher::Precomputed { .. } => 0,
        }
    }

    /// What everything is divided by: the tokens that count, or one.
    pub open spec fn denominator(self) -> int {
        match self.opts.reduction {
            Reduction::Mean => max(valid_tokens(self.labels, self.opts.ignore_index, self.bt()), 1),
            Reduction::Sum => 1,
        }
    }

    /// The factor that takes the sums to the reduction.
    pub open spec fn mean_scale(self) -> A::F {
        A::fdiv_spec(A::fint_spec(1), A::fint_spec(self.denominator()))
    }

    /// A sum, reduced.
    pub open spec fn reduced(self, sum: A::D) -> A::F {
        A::narrow_spec(A::dmul_spec(sum, A::widen_spec(self.mean_scale())))
    }

    /// The objective before the reduction.
    pub open spec fn objective_sum(self) -> A::D {
        A::dadd_spec(
            A::dadd_spec(
                A::dmul_spec(
                    A::widen_spec(self.opts.student_ce_weight),
                    self.student_nll(self.bt()),
                ),
                A::dmul_spec(
                    A::widen_spec(self.teacher_ce_weight()),
                    self.teacher_nll(self.bt()),
                ),
            ),
            A::dmul_spec(
                A::widen_spec(self.opts.kd_weight),
                self.kl_total(),
            ),
        )
    }

    /// The gradient with respect to the student's hidden states.
    pub open spec fn student_hidden_grad(self) -> Seq<Seq<A::F>> {
        scaled::<A>(
            rows_times::<A>(self.student_grads(), self.weight@, self.h()),
            self.mean_scale(),
        )
    }

    /// The gradient with respect to the teacher's hidden states.
    pub open spec fn teacher_hidden_grad(self) -> Seq<Seq<A::F>> {
        let head = match self.teacher {
            Teacher::Separate { weight, .. } => weight@,
            _ => self.weight@,
        };
        scaled::<A>(
            rows_times::<A>(self.teacher_grads(), head, self.teacher_width()),
            self.mean_scale(),
        )
    }

    /// The gradient with respect to the weight, before it is compressed.
    pub open spec fn exact_weight_grad(self) -> Seq<Seq<A::F>> {
        scaled::<A>(self.weight_sum(), self.mean_scale())
    }

    /// The gradient with respect to the weight: as it is, or through INT8 and back.
    pub open spec fn weight_grad(self) -> Seq<Seq<A::F>> {
        if self.opts.config.quantize_grad_weight {
            round_trip::<A>(
                self.exact_weight_grad(),
                self.h(),
                self.labels,
                self.opts.ignore_index,
                rounding_state(self.opts.config),
                A::fint_spec(1),
            )
        } else {
            self.exact_weight_grad()
        }
    }

    /// The gradient with respect to a separate teacher's weight.
    pub open spec fn teacher_weight_grad(self) -> Seq<Seq<A::F>> {
        scaled::<A>(self.teacher_weight_sum(), self.mean_scale())
    }
}

pub proof fn lemma_labels_in_range(labels: Seq<i64>, v: int, ignore_index: i64, i: int)
    requires
        0 <= i <= labels.len(),
        first_bad_label(labels, v, ignore_index, i) is None,
    ensures
        forall|k: int| i <= k < labels.len() ==> label_ok(#[trigger] labels[k], v, ignore_index),
    decreases labels.len() - i,
{
    if i < labels.len() {
        lemma_labels_in_range(labels, v, ignore_index, i + 1);
    }
}

} // verus!
