//! The two kernels of the loss, row by row: fused cross-entropy and forward KL.

pub mod cross_entropy;
pub mod kl;
pub mod softmax;

pub use cross_entropy::{ce_fwdbwd_row, ce_loss_row};
pub use kl::{forward_kl_row, kl_chunk, kl_reference_chunk, softmax_logsoftmax};
