use gp_regress::fit;
use gp_regress::fit_and_predict;
use gp_regress::fx_mul;
use gp_regress::build_covariance;
use gp_regress::cholesky_attempt;
use gp_regress::ingest_training;
use gp_regress::parse_fx;
use gp_regress::predict_one;
use gp_regress::FitConfig;
use gp_regress::GpError;
use gp_regress::Kernel;
use gp_regress::KernelKind;
use gp_regress::Matrix;
use gp_regress::MeanPrior;
use gp_regress::TrainingSet;
use gp_regress::SCALE;

fn fxv(x: f64) -> i64 {
    (x * SCALE as f64).round() as i64
}

fn to_f(v: i64) -> f64 {
    v as f64 / SCALE as f64
}

fn bytes(rows: &[&[&str]]) -> Vec<Vec<Vec<u8>>> {
    rows.iter()
        .map(|r| r.iter().map(|f| f.as_bytes().to_vec()).collect())
        .collect()
}

fn grid_training() -> TrainingSet {
    // 2x2 grid: (0,0)->1.0, (0,1)->2.0, (1,0)->2.0, (1,1)->3.0
    let data = vec![
        fxv(0.0),
        fxv(0.0),
        fxv(0.0),
        fxv(1.0),
        fxv(1.0),
        fxv(0.0),
        fxv(1.0),
        fxv(1.0),
    ];
    let x = Matrix { rows: 4, cols: 2, data };
    let y = vec![fxv(1.0), fxv(2.0), fxv(2.0), fxv(3.0)];
    TrainingSet::new(x, y)
}

fn fixed_kernel(ls: f64, ampl: f64) -> Kernel {
    Kernel { kind: KernelKind::SquaredExponential, ls: vec![fxv(ls)], ampl: fxv(ampl) }
}

fn no_tuning_config() -> FitConfig {
    FitConfig {
        fit_kernel: false,
        fit_prior: false,
        n_start: 1,
        max_iter: 10,
        ls_lo: fxv(0.01),
        ls_hi: fxv(10.0),
        ampl_lo: fxv(0.01),
        ampl_hi: fxv(10.0),
        tol: 10,
        seed: 42,
        jitter0: 1,
        jitter_cap: fxv(0.01),
        time_budget_ms: 0,
    }
}

#[test]
fn parse_plain_and_signed_decimals() {
    assert_eq!(parse_fx(&b"1.25".to_vec()), Some(1_250_000));
    assert_eq!(parse_fx(&b"-0.5".to_vec()), Some(-500_000));
    assert_eq!(parse_fx(&b"+3".to_vec()), Some(3_000_000));
    assert_eq!(parse_fx(&b"0.0000019".to_vec()), Some(1));
    assert_eq!(parse_fx(&b"42.".to_vec()), Some(42_000_000));
    assert_eq!(parse_fx(&b".5".to_vec()), Some(500_000));
}

#[test]
fn parse_rejects_malformed_fields() {
    assert_eq!(parse_fx(&b"".to_vec()), None);
    assert_eq!(parse_fx(&b"abc".to_vec()), None);
    assert_eq!(parse_fx(&b"1.2.3".to_vec()), None);
    assert_eq!(parse_fx(&b"-".to_vec()), None);
    assert_eq!(parse_fx(&b".".to_vec()), None);
    assert_eq!(parse_fx(&b"1x".to_vec()), None);
}

#[test]
fn cholesky_reconstruction_close_to_sigma() {
    // LL^T rebuilt from the factor matches Sigma within rounding tolerance.
    let ts = grid_training();
    let kern = fixed_kernel(1.0, 1.0);
    let sigma = build_covariance(&ts, &kern, fxv(0.01), 0);
    let l = cholesky_attempt(&sigma).expect("positive definite");
    let n = 4usize;
    for i in 0..n {
        for j in 0..=i {
            let mut recon: i64 = 0;
            for k in 0..=j {
                recon += fx_mul(l.get(i, k), l.get(j, k));
            }
            let piv = l.get(j, j);
            let tol = (2 * piv + 1) / SCALE + 3;
            let diff = (recon - sigma.get(i, j)).abs();
            assert!(
                diff <= tol,
                "entry ({}, {}): diff {} above tolerance {}",
                i,
                j,
                diff,
                tol
            );
        }
    }
}

#[test]
fn interpolation_at_training_point() {
    // Small noise: the mean at a training input is close to its target and
    // the predictive variance close to the noise itself.
    let ts = grid_training();
    let kern = fixed_kernel(0.7, 1.0);
    let noise = fxv(0.0001);
    let cfg = no_tuning_config();
    let m = fit(ts, kern, MeanPrior::Constant { bias: 0 }, noise, &cfg).expect("fit");
    let p = predict_one(&m, &vec![fxv(1.0), fxv(1.0)]).expect("predict");
    assert!((to_f(p.predicted_mean) - 3.0).abs() < 0.05, "mean {}", to_f(p.predicted_mean));
    assert!(
        (to_f(p.predicted_variance) - to_f(noise)).abs() < 0.01,
        "variance {}",
        to_f(p.predicted_variance)
    );
}

#[test]
fn predictive_variance_never_negative() {
    let ts = grid_training();
    let kern = fixed_kernel(0.3, 2.0);
    let cfg = no_tuning_config();
    let m = fit(ts, kern, MeanPrior::Constant { bias: 0 }, fxv(0.05), &cfg).expect("fit");
    let queries = [
        [0.0, 0.0],
        [0.5, 0.5],
        [10.0, -10.0],
        [-3.25, 7.5],
        [100.0, 100.0],
    ];
    for q in queries.iter() {
        let p = predict_one(&m, &vec![fxv(q[0]), fxv(q[1])]).expect("predict");
        assert!(p.predicted_variance >= 0);
        assert!(p.latent_variance >= 0);
    }
}

#[test]
fn nll_row_order_invariant_within_tolerance() {
    // Jointly permuting (X, y) leaves the objective nearly unchanged.
    let ts = grid_training();
    let data = vec![
        fxv(1.0),
        fxv(1.0),
        fxv(1.0),
        fxv(0.0),
        fxv(0.0),
        fxv(1.0),
        fxv(0.0),
        fxv(0.0),
    ];
    let x = Matrix { rows: 4, cols: 2, data };
    let y = vec![fxv(3.0), fxv(2.0), fxv(2.0), fxv(1.0)];
    let ts_perm = TrainingSet::new(x, y);
    let cfg = no_tuning_config();
    let m1 = fit(ts, fixed_kernel(0.7, 1.0), MeanPrior::Constant { bias: 0 }, fxv(0.01), &cfg)
        .expect("fit");
    let m2 = fit(ts_perm, fixed_kernel(0.7, 1.0), MeanPrior::Constant { bias: 0 }, fxv(0.01), &cfg)
        .expect("fit");
    assert!((to_f(m1.nll) - to_f(m2.nll)).abs() < 0.01, "{} vs {}", to_f(m1.nll), to_f(m2.nll));
}

#[test]
fn predict_twice_identical() {
    let ts = grid_training();
    let cfg = no_tuning_config();
    let m = fit(ts, fixed_kernel(0.7, 1.0), MeanPrior::Constant { bias: 0 }, fxv(0.01), &cfg)
        .expect("fit");
    let q = vec![fxv(0.25), fxv(0.75)];
    let p1 = predict_one(&m, &q).expect("predict");
    let p2 = predict_one(&m, &q).expect("predict");
    assert_eq!(p1.predicted_mean, p2.predicted_mean);
    assert_eq!(p1.latent_variance, p2.latent_variance);
    assert_eq!(p1.predicted_variance, p2.predicted_variance);
}

#[test]
fn grid_center_mean_between_corners_and_variance_larger() {
    // 2x2 grid, fixed small lengthscale, no kernel tuning.
    let ts = grid_training();
    let cfg = no_tuning_config();
    let m = fit(ts, fixed_kernel(0.5, 1.0), MeanPrior::Constant { bias: 0 }, fxv(0.001), &cfg)
        .expect("fit");
    let center = predict_one(&m, &vec![fxv(0.5), fxv(0.5)]).expect("predict");
    let mean = to_f(center.predicted_mean);
    assert!(mean > 1.0 && mean < 3.0, "center mean {}", mean);
    let corners = [[0.0, 0.0], [0.0, 1.0], [1.0, 0.0], [1.0, 1.0]];
    for c in corners.iter() {
        let p = predict_one(&m, &vec![fxv(c[0]), fxv(c[1])]).expect("predict");
        assert!(
            center.predicted_variance > p.predicted_variance,
            "center {} corner {:?} {}",
            center.predicted_variance,
            c,
            p.predicted_variance
        );
    }
}

#[test]
fn large_nugget_pulls_predictions_to_prior() {
    // Nugget large relative to the signal variance: means approach the
    // prior mean and the predictive variance approaches the nugget.
    let ts = grid_training();
    let cfg = no_tuning_config();
    let noise = fxv(1.0);
    let bias = fxv(2.0);
    let m = fit(ts, fixed_kernel(0.7, 0.001), MeanPrior::Constant { bias }, noise, &cfg)
        .expect("fit");
    let queries = [[0.0, 0.0], [0.5, 0.5], [1.0, 1.0], [4.0, -2.0]];
    for q in queries.iter() {
        let p = predict_one(&m, &vec![fxv(q[0]), fxv(q[1])]).expect("predict");
        assert!((to_f(p.predicted_mean) - 2.0).abs() < 0.01, "mean {}", to_f(p.predicted_mean));
        assert!(
            (to_f(p.predicted_variance) - 1.0).abs() < 0.01,
            "variance {}",
            to_f(p.predicted_variance)
        );
    }
}

#[test]
fn malformed_training_row_is_ingestion_error() {
    let rows = bytes(&[&["0.0", "0.0", "1.0"], &["1.0", "oops", "2.0"]]);
    match ingest_training(&rows) {
        Err(GpError::IngestionError { row, field }) => {
            assert_eq!(row, 1);
            assert_eq!(field, 1);
        }
        other => panic!("expected IngestionError, got {:?}", other.map(|_| ())),
    }
}

#[test]
fn malformed_row_aborts_whole_pipeline() {
    let train = bytes(&[&["0.0", "0.0", "1.0"], &["1.0", "1.0", "not-a-number"]]);
    let query = bytes(&[&["0.5", "0.5"]]);
    let cfg = no_tuning_config();
    let r = fit_and_predict(
        &train,
        &query,
        fixed_kernel(1.0, 1.0),
        MeanPrior::Constant { bias: 0 },
        fxv(0.01),
        &cfg,
    );
    match r {
        Err(GpError::IngestionError { row, field }) => {
            assert_eq!(row, 1);
            assert_eq!(field, 2);
        }
        other => panic!("expected IngestionError, got {:?}", other.map(|_| ())),
    }
}

#[test]
fn short_row_is_ingestion_error() {
    let rows = bytes(&[&["0.0", "1.0"]]);
    match ingest_training(&rows) {
        Err(GpError::IngestionError { row, field }) => {
            assert_eq!(row, 0);
            assert_eq!(field, 2);
        }
        other => panic!("expected IngestionError, got {:?}", other.map(|_| ())),
    }
}

#[test]
fn wrong_query_dimension_is_dimension_mismatch() {
    let ts = grid_training();
    let cfg = no_tuning_config();
    let m = fit(ts, fixed_kernel(0.7, 1.0), MeanPrior::Constant { bias: 0 }, fxv(0.01), &cfg)
        .expect("fit");
    match predict_one(&m, &vec![fxv(0.5)]) {
        Err(GpError::DimensionMismatch { expected, actual }) => {
            assert_eq!(expected, 2);
            assert_eq!(actual, 1);
        }
        other => panic!("expected DimensionMismatch, got {:?}", other.map(|_| ())),
    }
}

#[test]
fn singular_matrix_fails_cholesky() {
    // A zero diagonal defeats every pivot: the NumericalInstability path.
    let m = Matrix { rows: 2, cols: 2, data: vec![0, fxv(1.0), fxv(1.0), 0] };
    assert!(cholesky_attempt(&m).is_none());
}

#[test]
fn pipeline_end_to_end_produces_ordered_predictions() {
    let train = bytes(&[
        &["0.0", "0.0", "1.0"],
        &["0.0", "1.0", "2.0"],
        &["1.0", "0.0", "2.0"],
        &["1.0", "1.0", "3.0"],
    ]);
    let query = bytes(&[&["0.0", "0.0"], &["1.0", "1.0"], &["0.5", "0.5"]]);
    let mut cfg = no_tuning_config();
    cfg.fit_kernel = true;
    cfg.fit_prior = true;
    cfg.n_start = 3;
    cfg.max_iter = 5;
    let (model, preds) = fit_and_predict(
        &train,
        &query,
        fixed_kernel(1.0, 1.0),
        MeanPrior::Constant { bias: 0 },
        fxv(0.01),
        &cfg,
    )
    .expect("pipeline");
    assert_eq!(preds.len(), 3);
    assert_eq!(preds[0].point, vec![fxv(0.0), fxv(0.0)]);
    assert_eq!(preds[1].point, vec![fxv(1.0), fxv(1.0)]);
    assert_eq!(preds[2].point, vec![fxv(0.5), fxv(0.5)]);
    assert!(model.nll != 0);
    for p in preds.iter() {
        assert!(p.predicted_variance >= 0);
    }
}

#[test]
fn fixed_point_ops_exact_values() {
    assert_eq!(gp_regress::fx_add(fxv(1.5), fxv(2.25)), fxv(3.75));
    assert_eq!(gp_regress::fx_sub(fxv(1.0), fxv(2.5)), fxv(-1.5));
    assert_eq!(fx_mul(fxv(1.5), fxv(2.0)), fxv(3.0));
    assert_eq!(gp_regress::fx_div(fxv(3.0), fxv(2.0)), fxv(1.5));
    assert_eq!(gp_regress::fx_sqrt(fxv(2.25)), fxv(1.5));
    assert_eq!(gp_regress::fx_sqrt(fxv(4.0)), fxv(2.0));
}

#[test]
fn every_kernel_kind_has_sill_plus_noise_on_diagonal() {
    let ts = grid_training();
    let noise = fxv(0.25);
    let kinds = [
        KernelKind::SquaredExponential,
        KernelKind::Exponential,
        KernelKind::Matern32,
        KernelKind::Matern52,
    ];
    for kind in kinds.iter() {
        let kern = Kernel { kind: *kind, ls: vec![fxv(1.0)], ampl: fxv(2.0) };
        let sigma = build_covariance(&ts, &kern, noise, 0);
        for i in 0..4 {
            assert_eq!(sigma.get(i, i), fxv(2.0) + noise);
            for j in 0..4 {
                if i != j {
                    assert!(sigma.get(i, j) < sigma.get(i, i));
                    assert_eq!(sigma.get(i, j), sigma.get(j, i));
                }
            }
        }
    }
}

#[test]
fn anisotropic_lengthscales_accepted() {
    let ts = grid_training();
    let kern = Kernel {
        kind: KernelKind::SquaredExponential,
        ls: vec![fxv(0.5), fxv(2.0)],
        ampl: fxv(1.0),
    };
    let cfg = no_tuning_config();
    let m = fit(ts, kern, MeanPrior::Constant { bias: 0 }, fxv(0.01), &cfg).expect("fit");
    let p = predict_one(&m, &vec![fxv(0.5), fxv(0.5)]).expect("predict");
    assert!(p.predicted_variance >= 0);
}

#[test]
fn linear_prior_fits_plane_by_generalized_least_squares() {
    // Targets lie on the plane 1 + x + y; with a weak kernel and a fitted
    // linear prior, far-away predictions follow the plane.
    let ts = grid_training();
    let mut cfg = no_tuning_config();
    cfg.fit_prior = true;
    let kern = fixed_kernel(0.7, 0.001);
    let prior = MeanPrior::Linear { weights: vec![0, 0], bias: 0 };
    let m = fit(ts, kern, prior, fxv(0.5), &cfg).expect("fit");
    let p = predict_one(&m, &vec![fxv(3.0), fxv(3.0)]).expect("predict");
    assert!(
        (to_f(p.predicted_mean) - 7.0).abs() < 0.2,
        "far mean {}",
        to_f(p.predicted_mean)
    );
}
