//! A dense integer matrix-multiply kernel built around a dispatcher that
//! partitions the output cells into per-cell tasks, a worker step that
//! computes one dot product per task, and an assembly step that rebuilds
//! the output matrix from an unordered stream of task results.
//!
//! The kernel's contract fixes the result: the returned matrix equals the
//! standard mathematical product, whatever order the task results arrive in.
//! Two counter-metrics utilities live beside it.

mod decimal;
mod errors;
mod matrix;
mod metrics;
mod vector;

pub use errors::MetricsError;
pub use errors::MultiplyError;
pub use matrix::assemble;
pub use matrix::assign_worker;
pub use matrix::multiply;
pub use matrix::Matrix;
pub use matrix::MsgInput;
pub use matrix::MsgOutput;
pub use metrics::AmapMetrics;
pub use metrics::Metrics;
pub use matrix::multiply_within_bounds;
pub use vector::dot_product;
pub use vector::dot_within_bounds;
pub use vector::Vector;
