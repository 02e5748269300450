//! Error taxonomy of the library.

use vstd::prelude::*;

verus! {

/// Why ingestion, fitting or prediction could not be carried out.
#[derive(Clone, Copy, Debug, PartialEq, Eq, Structural)]
pub enum GpError {
    /// A supplied row was short or held a field that does not parse as a
    /// number; carries the row and field index at fault.
    IngestionError { row: usize, field: usize },
    /// A query's dimension differs from the training dimension.
    DimensionMismatch { expected: usize, actual: usize },
    /// The covariance matrix stayed short of positive definite after the
    /// diagonal jitter grew up to its cap.
    NumericalInstability,
    /// No optimizer restart reached a usable factorization; no model is
    /// produced.
    FitFailure,
}

} // verus!
