use vstd::prelude::*;

verus! {

/// The failure kinds of the matrix kernel.
///
/// `ShapeMismatch`: a matrix was constructed from a flat buffer whose length
/// disagrees with the declared `rows * cols`.
/// `DimensionMismatch`: the inner dimensions of the two multiply operands
/// disagree (`a.cols != b.rows`).
/// `LengthMismatch`: the two sequences handed to the dot product differ in
/// length.
/// `ChannelFailure`: a task's reply could not be delivered or received by the
/// runtime that drives the kernel.
#[derive(Clone, Copy, Debug, PartialEq, Eq, Structural)]
pub enum MultiplyError {
    ShapeMismatch,
    DimensionMismatch,
    LengthMismatch,
    ChannelFailure,
}

impl MultiplyError {
    /// A short human-readable description of the failure.
    pub fn message(&self) -> (r: &'static str)
        ensures
            r@ == self.message_spec(),
    {
        match self {
            MultiplyError::ShapeMismatch => "Matrix shape mismatch",
            MultiplyError::DimensionMismatch => "Matrix size mismatch",
            MultiplyError::LengthMismatch => "Vector size mismatch",
            MultiplyError::ChannelFailure => "Channel failure",
        }
    }

    pub open spec fn message_spec(&self) -> Seq<char> {
        match self {
            MultiplyError::ShapeMismatch => "Matrix shape mismatch"@,
            MultiplyError::DimensionMismatch => "Matrix size mismatch"@,
            MultiplyError::LengthMismatch => "Vector size mismatch"@,
            MultiplyError::ChannelFailure => "Channel failure"@,
        }
    }
}

/// The failure kind of the counter-metrics utilities: an update named a
/// counter that the fixed key set does not contain.
#[derive(Clone, Copy, Debug, PartialEq, Eq, Structural)]
pub enum MetricsError {
    KeyNotFound,
}

} // verus!
