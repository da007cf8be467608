//! What holds of the loss as a whole.
//!
//! Nothing here runs. Each law relates the outputs of two evaluations, or says what one
//! evaluation keeps. Laws that need more than that equal arguments give equal results name
//! the facts about the arithmetic that they need; [`numbers`] lists these, and shows that
//! fixed point has them. Laws that rounding leaves only nearly true are stated in fixed point,
//! with a bound.

pub mod choices;
pub mod chunks;
pub mod codes;
pub mod ignored;
pub mod kernels;
pub mod kinship;
pub mod launches;
pub mod numbers;
pub mod outputs;
pub mod parity;
pub mod plans;
pub mod products;
pub mod refusals;
pub mod settings;
pub mod slopes;
pub mod smoothing;
pub mod teachers;
pub mod value;
pub mod weights;
pub mod widths;
