//! Mean priors: a constant bias, or a linear function of the inputs.

use vstd::prelude::*;

use crate::fixed::dot;
use crate::fixed::dot_s;
use crate::fixed::fx_add;
use crate::fixed::fx_add_s;
use crate::fixed::seq_vals;
use crate::fixed::FX_MAX;

verus! {

/// A prior mean function over input points.
#[derive(Clone, Debug)]
pub enum MeanPrior {
    /// A constant bias.
    Constant { bias: i64 },
    /// bias + weights . x, with one weight per input dimension.
    Linear { weights: Vec<i64>, bias: i64 },
}

impl MeanPrior {
    /// Well-formed for input dimension d.
    pub open spec fn wf(self, d: int) -> bool {
        match self {
            MeanPrior::Constant { .. } => true,
            MeanPrior::Linear { weights, .. } => weights.len() == d,
        }
    }

    /// The prior mean value at a point.
    pub open spec fn mean_s(self, x: Seq<int>) -> int {
        match self {
            MeanPrior::Constant { bias } => bias as int,
            MeanPrior::Linear { weights, bias } => fx_add_s(
                dot_s(seq_vals(weights@), x),
                bias as int,
            ),
        }
    }

    /// Evaluate the prior mean at a point.
    pub fn mean(&self, x: &Vec<i64>) -> (r: i64)
        requires
            self.wf(x.len() as int),
        ensures
            r as int == self.mean_s(seq_vals(x@)),
    {
        match self {
            MeanPrior::Constant { bias } => *bias,
            MeanPrior::Linear { weights, bias } => fx_add(dot(weights, x), *bias),
        }
    }
}

} // verus!
