//! Gaussian-process regression over saturating fixed-point arithmetic.
//!
//! Real-valued quantities are carried as `i64` values scaled by `SCALE`
//! (six decimal digits of fraction); every arithmetic step saturates at
//! `FX_MAX` in magnitude, so no operation overflows or panics.

use vstd::prelude::*;

mod api;
mod clock;
mod errors;
mod fit;
mod fixed;
mod ingest;
mod kernel;
mod likelihood;
mod linalg;
mod matrix;
mod model;
mod predict;
mod prior;
mod rng;

pub use api::fit_and_predict;
pub use errors::GpError;
pub use fit::fit;
pub use fit::FitConfig;
pub use fit::FittedModel;
pub use fixed::fx_add;
pub use fixed::fx_div;
pub use fixed::fx_mul;
pub use fixed::fx_sqrt;
pub use fixed::fx_sub;
pub use fixed::FX_MAX;
pub use fixed::SCALE;
pub use ingest::ingest_queries;
pub use ingest::ingest_training;
pub use ingest::parse_fx;
pub use kernel::Kernel;
pub use kernel::KernelKind;
pub use linalg::build_covariance;
pub use linalg::cholesky_attempt;
pub use linalg::factorize;
pub use matrix::Matrix;
pub use model::TrainingSet;
pub use predict::predict_batch;
pub use predict::predict_one;
pub use predict::Prediction;
pub use prior::MeanPrior;

verus! {

} // verus!
