//! Posterior prediction: mean, latent-function variance and predictive
//! (observation-noise-inclusive) variance at query points.

use vstd::prelude::*;

use crate::errors::GpError;
use crate::fit::FittedModel;
use crate::fixed::copy_vec;
use crate::fixed::dot;
use crate::fixed::dot_s;
use crate::fixed::fx_add;
use crate::fixed::fx_add_s;
use crate::fixed::fx_sub;
use crate::fixed::fx_sub_s;
use crate::fixed::seq_vals;
use crate::linalg::mat_seq;
use crate::linalg::solve_lower;
use crate::linalg::solve_lower_s;

verus! {

/// One prediction: the query point, the posterior mean, the
/// latent-function variance, and the predictive variance, which adds the
/// observation noise to the latent one (both are exposed; the output
/// convention of this library is noise-inclusive).
pub struct Prediction {
    pub point: Vec<i64>,
    pub predicted_mean: i64,
    pub latent_variance: i64,
    pub predicted_variance: i64,
}

/// The covariances of a query point with every training row.
pub open spec fn kstar_s(m: FittedModel, q: Seq<int>) -> Seq<int> {
    Seq::new(m.ts.n() as nat, |i: int| m.kernel.cov_s(q, m.ts.x.row_s(i)))
}

/// Posterior mean: priorMean(q) + k*^T alpha.
pub open spec fn predict_mean_s(m: FittedModel, q: Seq<int>) -> int {
    fx_add_s(m.prior.mean_s(q), dot_s(kstar_s(m, q), seq_vals(m.alpha@)))
}

/// Latent-function variance before clamping: k(q, q) - v^T v with
/// v = L^-1 k*.
pub open spec fn latent_var_raw_s(m: FittedModel, q: Seq<int>) -> int {
    let v = solve_lower_s(mat_seq(m.l), kstar_s(m, q));
    fx_sub_s(m.kernel.cov_s(q, q), dot_s(v, v))
}

/// Latent-function variance, with negative floating-point-style
/// cancellation clamped to zero.
pub open spec fn latent_var_s(m: FittedModel, q: Seq<int>) -> int {
    if latent_var_raw_s(m, q) > 0 {
        latent_var_raw_s(m, q)
    } else {
        0
    }
}

/// Predictive variance: latent-function variance plus observation noise.
pub open spec fn predictive_var_s(m: FittedModel, q: Seq<int>) -> int {
    fx_add_s(latent_var_s(m, q), m.noise as int)
}

/// Determinism of prediction: with a fixed model, any two predictions at
/// the same query point carry the same mean and the same variances,
/// because each is pinned to the one spec-level value. `predict_one`'s
/// contract equates every result with these values, so two calls cannot
/// differ.
pub proof fn lemma_predict_deterministic(
    m: FittedModel,
    q: Seq<int>,
    mean1: int,
    var1: int,
    mean2: int,
    var2: int,
)
    requires
        mean1 == predict_mean_s(m, q),
        var1 == predictive_var_s(m, q),
        mean2 == predict_mean_s(m, q),
        var2 == predictive_var_s(m, q),
    ensures
        mean1 == mean2,
        var1 == var2,
{
}

/// Predict at one query point; a wrong dimension is exactly the
/// `DimensionMismatch` case.
pub fn predict_one(m: &FittedModel, q: &Vec<i64>) -> (res: Result<Prediction, GpError>)
    requires
        m.wf(),
    ensures
        match res {
            Ok(p) => {
                &&& q.len() == m.ts.x.cols
                &&& p.point@ == q@
                &&& p.predicted_mean as int == predict_mean_s(*m, seq_vals(q@))
                &&& p.latent_variance as int == latent_var_s(*m, seq_vals(q@))
                &&& p.latent_variance >= 0
                &&& p.predicted_variance as int == predictive_var_s(*m, seq_vals(q@))
                &&& p.predicted_variance >= 0
            },
            Err(e) => {
                &&& q.len() != m.ts.x.cols
                &&& e == (GpError::DimensionMismatch { expected: m.ts.x.cols, actual: q.len() })
            },
        },
{
    if q.len() != m.ts.x.cols {
        return Err(GpError::DimensionMismatch { expected: m.ts.x.cols, actual: q.len() });
    }
    let ghost qs = seq_vals(q@);
    let n = m.ts.x.rows;
    let mut kstar: Vec<i64> = Vec::new();
    let mut i: usize = 0;
    while i < n
        invariant
            m.wf(),
            q.len() == m.ts.x.cols,
            qs == seq_vals(q@),
            n == m.ts.x.rows,
            i <= n,
            kstar.len() == i,
            forall|t: int| 0 <= t < i ==> kstar[t] as int == kstar_s(*m, qs)[t],
        decreases n - i,
    {
        let row = m.ts.x.row(i);
        let c = m.kernel.covariance(q, &row);
        kstar.push(c);
        i = i + 1;
    }
    proof {
        assert(seq_vals(kstar@) =~= kstar_s(*m, qs));
    }
    let mean = fx_add(m.prior.mean(q), dot(&kstar, &m.alpha));
    let v = solve_lower(&m.l, &kstar);
    let kss = m.kernel.covariance(q, q);
    let vv = dot(&v, &v);
    let raw = fx_sub(kss, vv);
    let latent: i64 = if raw > 0 {
        raw
    } else {
        0
    };
    let pvar = fx_add(latent, m.noise);
    Ok(Prediction {
        point: copy_vec(q),
        predicted_mean: mean,
        latent_variance: latent,
        predicted_variance: pvar,
    })
}

/// Predict at an ordered batch of query points, in input order; the first
/// dimension mismatch aborts the batch with `DimensionMismatch`.
pub fn predict_batch(m: &FittedModel, qs: &Vec<Vec<i64>>) -> (res: Result<Vec<Prediction>, GpError>)
    requires
        m.wf(),
    ensures
        match res {
            Ok(ps) => {
                &&& forall|i: int| 0 <= i < qs.len() ==> #[trigger] qs[i]@.len() == m.ts.x.cols
                &&& ps.len() == qs.len()
                &&& forall|i: int|
                    0 <= i < qs.len() ==> #[trigger] ps[i].point@ == qs[i]@
                &&& forall|i: int|
                    0 <= i < qs.len() ==> #[trigger] ps[i].predicted_mean as int == predict_mean_s(
                        *m, seq_vals(qs[i]@))
                &&& forall|i: int|
                    0 <= i < qs.len() ==> #[trigger] ps[i].latent_variance as int == latent_var_s(
                        *m, seq_vals(qs[i]@))
                &&& forall|i: int|
                    0 <= i < qs.len() ==> #[trigger] ps[i].predicted_variance as int
                        == predictive_var_s(*m, seq_vals(qs[i]@))
                &&& forall|i: int|
                    0 <= i < qs.len() ==> #[trigger] ps[i].predicted_variance >= 0
            },
            Err(e) => exists|i: int|
                {
                    &&& 0 <= i < qs.len()
                    &&& #[trigger] qs[i]@.len() != m.ts.x.cols
                    &&& forall|t: int| 0 <= t < i ==> #[trigger] qs[t]@.len() == m.ts.x.cols
                    &&& e == (GpError::DimensionMismatch {
                        expected: m.ts.x.cols,
                        actual: qs[i]@.len() as usize,
                    })
                },
        },
{
    let mut ps: Vec<Prediction> = Vec::new();
    let mut i: usize = 0;
    while i < qs.len()
        invariant
            m.wf(),
            i <= qs.len(),
            ps.len() == i,
            forall|t: int| 0 <= t < i ==> #[trigger] qs[t]@.len() == m.ts.x.cols,
            forall|t: int| 0 <= t < i ==> #[trigger] ps[t].point@ == qs[t]@,
            forall|t: int|
                0 <= t < i ==> #[trigger] ps[t].predicted_mean as int == predict_mean_s(
                    *m, seq_vals(qs[t]@)),
            forall|t: int|
                0 <= t < i ==> #[trigger] ps[t].latent_variance as int == latent_var_s(
                    *m, seq_vals(qs[t]@)),
            forall|t: int|
                0 <= t < i ==> #[trigger] ps[t].predicted_variance as int == predictive_var_s(
                    *m, seq_vals(qs[t]@)),
            forall|t: int| 0 <= t < i ==> #[trigger] ps[t].predicted_variance >= 0,
        decreases qs.len() - i,
    {
        let r = predict_one(m, &qs[i]);
        match r {
            Ok(p) => {
                ps.push(p);
            },
            Err(e) => {
                return Err(e);
            },
        }
        i = i + 1;
    }
    Ok(ps)
}

} // verus!
