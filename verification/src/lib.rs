//! Verified core of a small feed-forward network trainer.
//!
//! The crate owns everything about the network that is not arithmetic: the
//! shape of its parameters, the layout of a stored model, the order in which
//! samples are visited during training, and the counting of correct
//! classifications. Scalars are carried as IEEE-754 single-precision bit
//! patterns in `u32`; the numeric kernels that interpret them live with the
//! caller.

pub mod scalar;
pub mod nn;
pub mod structs;
pub mod input;
