//! The training-set data model.

use vstd::prelude::*;

use crate::matrix::Matrix;

verus! {

/// Largest accepted number of training rows; factorization is O(N^3) and
/// larger sets call for approximation techniques out of this library's scope.
pub const MAX_ROWS: usize = 10_000;

/// Largest accepted input dimension.
pub const MAX_COLS: usize = 100;

/// Immutable training data: an N x D matrix of inputs and N scalar targets.
pub struct TrainingSet {
    pub x: Matrix,
    pub y: Vec<i64>,
}

impl TrainingSet {
    /// Row counts of inputs and targets match, both dimensions are positive
    /// and within the supported size caps.
    pub open spec fn wf(self) -> bool {
        &&& self.x.wf()
        &&& self.y.len() == self.x.rows
        &&& 1 <= self.x.rows <= MAX_ROWS
        &&& 1 <= self.x.cols <= MAX_COLS
    }

    /// Number of observations.
    pub open spec fn n(self) -> int {
        self.x.rows as int
    }

    /// Input dimension.
    pub open spec fn d(self) -> int {
        self.x.cols as int
    }

    /// Build a training set from its parts.
    pub fn new(x: Matrix, y: Vec<i64>) -> (ts: TrainingSet)
        requires
            x.wf(),
            y.len() == x.rows,
            1 <= x.rows <= MAX_ROWS,
            1 <= x.cols <= MAX_COLS,
        ensures
            ts.wf(),
            ts.x == x,
            ts.y == y,
    {
        TrainingSet { x, y }
    }
}

} // verus!
