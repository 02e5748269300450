//! The end-to-end pipeline on plain values: ingest training rows, fit,
//! ingest query rows, predict.

use vstd::prelude::*;

use crate::errors::GpError;
use crate::fit::fit;
use crate::fit::FitConfig;
use crate::fit::FittedModel;
use crate::fixed::seq_vals;
use crate::ingest::ingest_queries;
use crate::ingest::ingest_training;
use crate::ingest::parse_fx_s;
use crate::ingest::query_row_ok;
use crate::ingest::train_row_ok;
use crate::ingest::ts_matches;
use crate::kernel::Kernel;
use crate::linalg::factorize_ok;
use crate::model::TrainingSet;
use crate::model::MAX_ROWS;
use crate::predict::predict_batch;
use crate::predict::predict_mean_s;
use crate::predict::predictive_var_s;
use crate::predict::latent_var_s;
use crate::predict::Prediction;
use crate::prior::MeanPrior;

verus! {

/// The parsed coordinates of one query row.
pub open spec fn query_point_s(rows: Seq<Vec<Vec<u8>>>, i: int) -> Seq<int> {
    seq![parse_fx_s(rows[i]@[0]@).unwrap(), parse_fx_s(rows[i]@[1]@).unwrap()]
}

/// Ingest training rows, fit a model, ingest query rows and predict at
/// each of them, in input order. The first malformed training row aborts
/// everything as `IngestionError`; an unfittable model is `FitFailure`; a
/// query row of the wrong arity is `DimensionMismatch`.
pub fn fit_and_predict(
    train_rows: &Vec<Vec<Vec<u8>>>,
    query_rows: &Vec<Vec<Vec<u8>>>,
    kern0: Kernel,
    p0: MeanPrior,
    noise: i64,
    cfg: &FitConfig,
) -> (res: Result<(FittedModel, Vec<Prediction>), GpError>)
    requires
        kern0.wf(2),
        p0.wf(2),
        noise >= 0,
        cfg.wf(),
    ensures
        match res {
            Ok(r) => {
                &&& 1 <= train_rows.len() <= MAX_ROWS
                &&& forall|i: int|
                    0 <= i < train_rows.len() ==> train_row_ok(#[trigger] train_rows[i]@)
                &&& ts_matches(r.0.ts, train_rows@)
                &&& r.0.wf()
                &&& r.0.noise == noise
                &&& r.0.kernel.kind == kern0.kind
                &&& (!cfg.fit_kernel ==> r.0.kernel.ls@ == kern0.ls@ && r.0.kernel.ampl
                    == kern0.ampl)
                &&& forall|i: int|
                    0 <= i < query_rows.len() ==> query_row_ok(#[trigger] query_rows[i]@)
                &&& r.1.len() == query_rows.len()
                &&& forall|i: int|
                    0 <= i < query_rows.len() ==> #[trigger] r.1[i].predicted_mean as int
                        == predict_mean_s(r.0, query_point_s(query_rows@, i))
                &&& forall|i: int|
                    0 <= i < query_rows.len() ==> #[trigger] r.1[i].predicted_variance as int
                        == predictive_var_s(r.0, query_point_s(query_rows@, i))
                &&& forall|i: int|
                    0 <= i < query_rows.len() ==> #[trigger] r.1[i].latent_variance as int
                        == latent_var_s(r.0, query_point_s(query_rows@, i))
                &&& forall|i: int|
                    0 <= i < query_rows.len() ==> #[trigger] r.1[i].predicted_variance >= 0
                &&& forall|i: int|
                    0 <= i < query_rows.len() ==> #[trigger] r.1[i].point@.len() == 2
                &&& forall|i: int|
                    0 <= i < query_rows.len() ==> #[trigger] seq_vals(r.1[i].point@)
                        == query_point_s(query_rows@, i)
            },
            Err(e) => {
                ||| (train_rows.len() == 0 && e == (GpError::IngestionError { row: 0, field: 0 }))
                ||| (train_rows.len() > MAX_ROWS && e == (GpError::IngestionError {
                    row: MAX_ROWS,
                    field: 0,
                }))
                ||| exists|i: int|
                    {
                        &&& 0 <= i < train_rows.len()
                        &&& !train_row_ok(#[trigger] train_rows[i]@)
                        &&& e matches GpError::IngestionError { .. }
                    }
                ||| (e == GpError::FitFailure && exists|ts: TrainingSet|
                    {
                        &&& #[trigger] ts_matches(ts, train_rows@)
                        &&& !factorize_ok(
                            ts, kern0, noise as int, cfg.jitter0 as int, cfg.jitter_cap as int)
                    })
                ||| exists|i: int|
                    {
                        &&& 0 <= i < query_rows.len()
                        &&& !query_row_ok(#[trigger] query_rows[i]@)
                        &&& (e matches GpError::IngestionError { .. } || e
                            matches GpError::DimensionMismatch { .. })
                    }
            },
        },
{
    let ts = match ingest_training(train_rows) {
        Ok(ts) => ts,
        Err(e) => {
            return Err(e);
        },
    };
    let ghost g_ts = ts;
    let model = match fit(ts, kern0, p0, noise, cfg) {
        Ok(m) => m,
        Err(e) => {
            proof {
                assert(ts_matches(g_ts, train_rows@));
            }
            return Err(e);
        },
    };
    let qs = match ingest_queries(query_rows) {
        Ok(qs) => qs,
        Err(e) => {
            return Err(e);
        },
    };
    let preds = match predict_batch(&model, &qs) {
        Ok(ps) => ps,
        Err(e) => {
            proof {
                assert(false);
            }
            return Err(e);
        },
    };
    proof {
        assert forall|i: int| 0 <= i < query_rows.len() implies #[trigger] seq_vals(qs[i]@)
            == query_point_s(query_rows@, i) by {
            assert(seq_vals(qs[i]@) =~= query_point_s(query_rows@, i));
        }
    }
    Ok((model, preds))
}

} // verus!
