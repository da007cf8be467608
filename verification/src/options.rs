//! Options of the loss, and the ways in which they and the inputs can be wrong.

use vstd::prelude::*;
use crate::arith::Arith;
use crate::config::{Backend, ConfigError, KernelConfig, Reduction};
use crate::resolver::ChunkSize;
#[allow(unused_imports)]
use crate::config::Profile;

verus! {

/// Options of [`crate::api::distillation_loss`]. Start from [`LossOptions::default`].
#[derive(Clone, Debug)]
pub struct LossOptions<A: Arith> {
    /// Weight of the student's cross-entropy. Default one.
    pub student_ce_weight: A::F,
    /// Weight of the teacher's cross-entropy. `None` is the default of the teacher's mode.
    pub teacher_ce_weight: Option<A::F>,
    /// Weight of the forward KL. Default zero: no distillation.
    pub kd_weight: A::F,
    /// Temperature `T` of the KL. Default one.
    pub temperature: A::F,
    /// Target that is ignored. Default -100.
    pub ignore_index: i64,
    /// Label smoothing, from zero to one. Default zero.
    pub label_smoothing: A::F,
    /// Reduction. Default `Mean`.
    pub reduction: Reduction,
    /// Chunking. Default `Auto`.
    pub chunk_size: ChunkSize,
    /// Kernel options.
    pub config: KernelConfig,
    /// Backend. Default `Auto`.
    pub backend: Backend,
}

impl<A: Arith> Default for LossOptions<A> {
    fn default() -> (o: Self)
        ensures
            o == (LossOptions::<A> {
                student_ce_weight: A::fint_spec(1),
                teacher_ce_weight: None,
                kd_weight: A::fint_spec(0),
                temperature: A::fint_spec(1),
                ignore_index: (-100) as i64,
                label_smoothing: A::fint_spec(0),
                reduction: Reduction::Mean,
                chunk_size: ChunkSize::Auto,
                config: KernelConfig::profile_config(Profile::Balanced),
                backend: Backend::Auto,
            }),
    {
        LossOptions {
            student_ce_weight: A::fint(1),
            teacher_ce_weight: None,
            kd_weight: A::fint(0),
            temperature: A::fint(1),
            ignore_index: -100,
            label_smoothing: A::fint(0),
            reduction: Reduction::Mean,
            chunk_size: ChunkSize::Auto,
            config: KernelConfig::default(),
            backend: Backend::Auto,
        }
    }
}

/// Why a loss was not computed.
#[derive(Debug, PartialEq)]
#[allow(inconsistent_fields)]
pub enum LossError<F> {
    /// The kernel options are invalid.
    Config(ConfigError),
    /// The student has no rows.
    NoRows,
    /// The weight does not have the student's `h` columns.
    WeightShape { h: usize, got: (usize, usize) },
    /// There are not as many labels as rows.
    LabelCount { bt: usize, got: usize },
    /// A label is neither a class nor the ignored one.
    LabelRange { label: i64, v: usize, ignore_index: i64 },
    /// The label smoothing is not between zero and one.
    LabelSmoothing { got: F },
    /// The weight of the KL is negative.
    KdWeight { got: F },
    /// The temperature is not positive.
    Temperature { got: F },
    /// The hidden states of a tied teacher do not have the student's shape.
    TiedShape { want: (usize, usize), got: (usize, usize) },
    /// The hidden states of a separate teacher do not have the student's rows.
    SeparateRows { bt: usize },
    /// The weight of a separate teacher does not fit.
    SeparateWeight { want: (usize, usize), got: (usize, usize) },
    /// Precomputed logits do not fit.
    PrecomputedShape { want: (usize, usize), got: (usize, usize) },
    /// There is no accelerator in this library.
    NoAccelerator,
    /// The weight of the teacher's cross-entropy is negative.
    TeacherWeight { got: F },
}

} // verus!
