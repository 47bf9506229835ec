//! A feed-forward network of dense layers, trained by mini-batch gradient
//! descent, generic in the scalar type that its parameters hold.
//!
//! The crate owns where every parameter is kept, which shapes fit together,
//! which inputs are rejected, the order in which a forward pass, the error
//! signals, the gradient workspace and the update follow one another, and
//! how the workspace is reset. The arithmetic on scalars comes from the
//! caller as closures; every contract says which closure was handed which
//! values and where its answer went.

pub mod brain;
pub mod error;
pub mod evaluate;
pub mod gradient;
pub mod layer;
pub mod mnist;
pub mod sample;
pub mod train;

pub use crate::brain::Brain;
pub use crate::error::Error;
pub use crate::evaluate::Mnist;
pub use crate::layer::Linear;
pub use crate::train::Kernels;
