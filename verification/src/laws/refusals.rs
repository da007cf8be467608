//! Which inputs are accepted, and what is refused first.

#![allow(unused_imports)]

use vstd::prelude::*;
use vstd::arithmetic::power2::pow2;
use crate::arith::Arith;
use crate::config::{power_of_two, Backend, ConfigError};
use crate::objective::{first_bad_label, label_ok, lemma_labels_in_range, Setup};
use crate::options::LossError;
use crate::teacher::Teacher;

verus! {

/// The shapes fit: as many labels and teacher rows as student rows, of which there is one at
/// least, and matrices that can be multiplied.
pub open spec fn shapes_fit<A: Arith>(s: Setup<A>) -> bool {
    &&& s.student.rows >= 1
    &&& s.weight.cols == s.student.cols
    &&& s.labels.len() == s.student.rows
    &&& match s.teacher {
        Teacher::Tied { hidden } => hidden.rows == s.student.rows && hidden.cols == s.student.cols,
        Teacher::Separate { hidden, weight } => {
            &&& hidden.rows == s.student.rows
            &&& weight.cols == hidden.cols
            &&& weight.rows == s.weight.rows
        },
        Teacher::Precomputed { logits } => {
            &&& logits.rows == s.student.rows
            &&& logits.cols == s.weight.rows
        },
    }
}

/// Every label is the ignored one or a class.
pub open spec fn labels_fit<A: Arith>(s: Setup<A>) -> bool {
    forall|i: int|
        0 <= i < s.labels.len() ==> #[trigger] s.labels[i] == s.opts.ignore_index || 0
            <= s.labels[i] < s.weight.rows
}

proof fn lemma_labels<A: Arith>(s: Setup<A>, i: int)
    requires
        0 <= i <= s.labels.len(),
        forall|k: int|
            i <= k < s.labels.len() ==> #[trigger] s.labels[k] == s.opts.ignore_index || 0
                <= s.labels[k] < s.weight.rows,
    ensures
        first_bad_label(s.labels, s.v(), s.opts.ignore_index, i) is None,
    decreases s.labels.len() - i,
{
    if i < s.labels.len() {
        assert(s.labels[i] == s.opts.ignore_index || 0 <= s.labels[i] < s.weight.rows);
        lemma_labels(s, i + 1);
    }
}

/// A loss is computed exactly for inputs that fit, with a smoothing from zero to one, weights
/// of the KL and of the teacher that are not negative, a positive temperature, a tile that is a
/// power of two, a limit on the chunks, if any, of one at least, and no accelerator.
pub proof fn what_is_accepted<A: Arith>(s: Setup<A>)
    ensures
        s.refusal() is None <==> {
            let zero = A::fint_spec(0);
            let w_t = match s.opts.teacher_ce_weight {
                Some(w) => w,
                None => match s.teacher {
                    Teacher::Tied { .. } => A::fint_spec(1),
                    _ => zero,
                },
            };
            &&& shapes_fit(s)
            &&& labels_fit(s)
            &&& A::fle_spec(zero, s.opts.label_smoothing)
            &&& A::fle_spec(s.opts.label_smoothing, A::fint_spec(1))
            &&& !A::flt_spec(s.opts.kd_weight, zero)
            &&& !A::fle_spec(s.opts.temperature, zero)
            &&& !A::flt_spec(w_t, zero)
            &&& s.opts.backend != Backend::Cuda
            &&& s.opts.config.max_chunks != Some(0usize)
            &&& exists|k: nat| s.opts.config.max_fused_size == #[trigger] pow2(k)
        },
{
    if labels_fit(s) {
        lemma_labels(s, 0);
    }
    if first_bad_label(s.labels, s.v(), s.opts.ignore_index, 0) is None {
        lemma_labels_in_range(s.labels, s.v(), s.opts.ignore_index, 0);
        assert forall|i: int| 0 <= i < s.labels.len() implies #[trigger] s.labels[i]
            == s.opts.ignore_index || 0 <= s.labels[i] < s.weight.rows by {
            assert(label_ok(s.labels[i], s.v(), s.opts.ignore_index));
        }
    }
    assert(power_of_two(s.opts.config.max_fused_size as int) <==> exists|k: nat|
        s.opts.config.max_fused_size == #[trigger] pow2(k)) by {
        if exists|k: nat| s.opts.config.max_fused_size == #[trigger] pow2(k) {
            let k = choose|k: nat| s.opts.config.max_fused_size == #[trigger] pow2(k);
            assert(s.opts.config.max_fused_size as int == pow2(k));
        }
        if power_of_two(s.opts.config.max_fused_size as int) {
            let k = choose|k: nat| s.opts.config.max_fused_size as int == #[trigger] pow2(k);
            assert(s.opts.config.max_fused_size == pow2(k));
        }
    }
}

/// A refusal names what is wrong, with the value that is; and what is looked at before that is
/// right: kernel options, rows, the weight's shape, the labels, the smoothing, the weight of the
/// KL, the temperature, the teacher's shapes, the backend, the teacher's weight, in this order.
pub proof fn refusals_name_what_is_wrong<A: Arith>(s: Setup<A>)
    ensures
        ({
            let o = s.opts;
            let (bt, h, v) = (s.student.rows, s.student.cols, s.weight.rows);
            let zero = A::fint_spec(0);
            let counted = bt >= 1 && s.weight.cols == h && s.labels.len() == bt;
            let smooth = A::fle_spec(zero, o.label_smoothing) && A::fle_spec(
                o.label_smoothing,
                A::fint_spec(1),
            );
            let scalars = smooth && !A::flt_spec(o.kd_weight, zero) && !A::fle_spec(
                o.temperature,
                zero,
            );
            match s.refusal() {
                None => true,
                Some(LossError::Config(ConfigError::MaxFusedSize { got })) => {
                    &&& got == o.config.max_fused_size
                    &&& !power_of_two(got as int)
                },
                Some(LossError::Config(ConfigError::MaxChunks { got })) => {
                    &&& got == 0
                    &&& o.config.max_chunks == Some(0usize)
                    &&& power_of_two(o.config.max_fused_size as int)
                },
                Some(LossError::NoRows) => bt == 0,
                Some(LossError::WeightShape { h: want, got }) => {
                    &&& bt >= 1
                    &&& want == h
                    &&& got == (v, s.weight.cols)
                    &&& s.weight.cols != h
                },
                Some(LossError::LabelCount { bt: want, got }) => {
                    &&& bt >= 1 && s.weight.cols == h
                    &&& want == bt
                    &&& s.labels.len() != bt
                },
                Some(LossError::LabelRange { label, v: classes, ignore_index }) => {
                    &&& counted
                    &&& classes == v
                    &&& ignore_index == o.ignore_index
                    &&& label != ignore_index && !(0 <= label < v)
                    &&& s.labels.contains(label)
                },
                Some(LossError::LabelSmoothing { got }) => {
                    &&& counted && labels_fit(s)
                    &&& got == o.label_smoothing
                    &&& !smooth
                },
                Some(LossError::KdWeight { got }) => {
                    &&& counted && labels_fit(s) && smooth
                    &&& got == o.kd_weight
                    &&& A::flt_spec(got, zero)
                },
                Some(LossError::Temperature { got }) => {
                    &&& counted && labels_fit(s) && smooth
                    &&& got == o.temperature
                    &&& A::fle_spec(got, zero)
                },
                Some(LossError::TiedShape { want, got }) => {
                    &&& counted && labels_fit(s) && scalars
                    &&& want == (bt, h)
                    &&& s.teacher matches Teacher::Tied { hidden } && got == (
                    hidden.rows,
                    hidden.cols,
                    )
                    &&& want != got
                },
                Some(LossError::SeparateRows { bt: want }) => {
                    &&& counted && labels_fit(s) && scalars
                    &&& want == bt
                    &&& s.teacher matches Teacher::Separate { hidden, .. } && hidden.rows != bt
                },
                Some(LossError::SeparateWeight { want, got }) => {
                    &&& counted && labels_fit(s) && scalars
                    &&& s.teacher matches Teacher::Separate { hidden, weight } && want == (
                    v,
                    hidden.cols,
                    ) && got == (weight.rows, weight.cols)
                    &&& want != got
                },
                Some(LossError::PrecomputedShape { want, got }) => {
                    &&& counted && labels_fit(s) && scalars
                    &&& want == (bt, v)
                    &&& s.teacher matches Teacher::Precomputed { logits } && got == (
                    logits.rows,
                    logits.cols,
                    )
                    &&& want != got
                },
                Some(LossError::NoAccelerator) => {
                    &&& shapes_fit(s) && labels_fit(s) && scalars
                    &&& o.backend == Backend::Cuda
                },
                Some(LossError::TeacherWeight { got }) => {
                    &&& shapes_fit(s) && labels_fit(s) && scalars
                    &&& o.backend != Backend::Cuda
                    &&& A::flt_spec(got, zero)
                },
            }
        }),
{
    if first_bad_label(s.labels, s.v(), s.opts.ignore_index, 0) is None {
        lemma_labels_in_range(s.labels, s.v(), s.opts.ignore_index, 0);
        assert forall|i: int| 0 <= i < s.labels.len() implies #[trigger] s.labels[i]
            == s.opts.ignore_index || 0 <= s.labels[i] < s.weight.rows by {
            assert(label_ok(s.labels[i], s.v(), s.opts.ignore_index));
        }
    } else {
        lemma_bad_label(s, 0);
    }
}

proof fn lemma_bad_label<A: Arith>(s: Setup<A>, i: int)
    requires
        0 <= i <= s.labels.len(),
        first_bad_label(s.labels, s.v(), s.opts.ignore_index, i) is Some,
    ensures
        ({
            let label = first_bad_label(s.labels, s.v(), s.opts.ignore_index, i)->0;
            &&& s.labels.contains(label)
            &&& label != s.opts.ignore_index && !(0 <= label < s.weight.rows)
        }),
    decreases s.labels.len() - i,
{
    if i < s.labels.len() {
        if label_ok(s.labels[i], s.v(), s.opts.ignore_index) {
            lemma_bad_label(s, i + 1);
        } else {
            assert(s.labels[i] == first_bad_label(s.labels, s.v(), s.opts.ignore_index, i)->0);
        }
    }
}

} // verus!
