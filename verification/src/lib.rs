//! # orda
//!
//! Fused cross-entropy and forward-KL loss for knowledge distillation, with its gradients.
//!
//! For a student and a teacher over the same batch, [`distillation_loss`] computes
//! `w_s * CE(student) + w_t * CE(teacher) + kd * KL(teacher || student) * T^2` and the
//! gradients with respect to the hidden states and the projection weights. The rows of the
//! batch are taken in chunks, so that the logits of the whole batch never exist at once.
//!
//! Everything is written against the [`Arith`] trait: [`fixed::Fixed`] is a fixed-point
//! implementation of it, and floating point is another that a caller provides. What the
//! functions return is stated exactly, operation by operation; [`laws`] holds what follows
//! for the loss as a whole.
//!
//! * [`config`], [`options`], [`teacher`]: the inputs.
//! * [`resolver`]: how a batch is cut into chunks.
//! * [`mat`], [`reference`], [`quant`]: matrices, the kernels, INT8 compression.
//! * [`objective`]: the loss and its gradients as functions of the inputs.
//! * [`api`], [`forward`]: the loss with its gradients, and the value alone in wide numbers.
//! * [`tiles`], [`launch`]: the kernels as an accelerator runs them, and what is launched.

use vstd::prelude::*;

pub mod api;
pub mod arith;
pub mod config;
pub mod fixed;
pub mod forward;
pub mod launch;
pub mod laws;
pub mod mat;
pub mod objective;
pub mod options;
pub mod quant;
pub mod reference;
pub mod resolver;
pub mod teacher;
pub mod tiles;

pub use api::{
    distillation_loss, forward_loss_f64, loss_only_f64, teacher_logits, DistillationLossOutput,
    LossError, LossOptions,
};
pub use arith::Arith;
pub use config::{Backend, KernelConfig, Profile, Reduction};
pub use mat::Mat;
pub use resolver::{ChunkPlan, ChunkSize};
pub use teacher::{Teacher, TeacherMode};

verus! {

/// Whether the library can compute on an accelerator. It cannot: `Backend::Auto` is the
/// reference path, and `Backend::Cuda` is refused.
pub fn is_available() -> (available: bool)
    ensures
        !available,
{
    false
}

} // verus!
