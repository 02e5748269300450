//! Residuals, the solved vector alpha, the negative log marginal
//! likelihood, and the generalized-least-squares fit of the mean prior.

use vstd::prelude::*;

use crate::errors::GpError;
use crate::fixed::dot;
use crate::fixed::dot_s;
use crate::fixed::fx_add;
use crate::fixed::fx_add_s;
use crate::fixed::fx_mul;
use crate::fixed::fx_mul_s;
use crate::fixed::fx_sub;
use crate::fixed::fx_sub_s;
use crate::fixed::seq_vals;
use crate::fixed::tdiv;
use crate::fixed::tdiv_any;
use crate::kernel::Kernel;
use crate::linalg::chol_entry;
use crate::linalg::chol_ok;
use crate::linalg::cholesky_attempt;
use crate::linalg::factorize;
use crate::linalg::factorize_jitter;
use crate::linalg::factorize_ok;
use crate::linalg::logdet;
use crate::linalg::logdet_s;
use crate::linalg::mat_seq;
use crate::linalg::sigma_seq;
use crate::linalg::sigma_solve;
use crate::linalg::sigma_solve_s;
use crate::matrix::Matrix;
use crate::model::TrainingSet;
use crate::prior::MeanPrior;
use crate::fixed::SCALE;

verus! {

/// log(2 pi) in fixed point.
pub const LOG_2PI: i64 = 1_837_877;

/// The Cholesky factor of `a` as a sequence of rows.
pub open spec fn chol_seq(a: Seq<Seq<int>>) -> Seq<Seq<int>> {
    Seq::new(a.len(), |i: int| Seq::new(a.len(), |j: int| chol_entry(a, i, j)))
}

/// Residuals y - priorMean(X).
pub open spec fn resid_s(ts: TrainingSet, p: MeanPrior) -> Seq<int> {
    Seq::new(ts.n() as nat, |i: int| fx_sub_s(ts.y[i] as int, p.mean_s(ts.x.row_s(i))))
}

/// The solved vector alpha = Sigma^-1 (y - priorMean(X)) through the factor.
pub open spec fn alpha_s(ts: TrainingSet, kern: Kernel, p: MeanPrior, noise: int, jit: int) -> Seq<
    int,
> {
    sigma_solve_s(chol_seq(sigma_seq(ts, kern, noise, jit)), resid_s(ts, p))
}

/// Negative log marginal likelihood at the given hyperparameters:
/// (1/2) r^T alpha + (1/2) log det Sigma + (N/2) log(2 pi).
pub open spec fn nll_s(ts: TrainingSet, kern: Kernel, p: MeanPrior, noise: int, jit: int) -> int {
    let lseq = chol_seq(sigma_seq(ts, kern, noise, jit));
    let r = resid_s(ts, p);
    let quad = dot_s(r, alpha_s(ts, kern, p, noise, jit));
    let logd = logdet_s(lseq, ts.n());
    let cterm = tdiv(fx_mul_s(ts.n() * (SCALE as int), LOG_2PI as int), 2);
    fx_add_s(fx_add_s(tdiv(quad, 2), tdiv(logd, 2)), cterm)
}

/// Compute the residual vector y - priorMean(X).
pub fn residuals(ts: &TrainingSet, p: &MeanPrior) -> (r: Vec<i64>)
    requires
        ts.wf(),
        p.wf(ts.d()),
    ensures
        r.len() == ts.x.rows,
        seq_vals(r@) == resid_s(*ts, *p),
{
    let n = ts.x.rows;
    let mut r: Vec<i64> = Vec::new();
    let mut i: usize = 0;
    while i < n
        invariant
            ts.wf(),
            p.wf(ts.d()),
            n == ts.x.rows,
            i <= n,
            r.len() == i,
            forall|t: int| 0 <= t < i ==> r[t] as int == resid_s(*ts, *p)[t],
        decreases n - i,
    {
        let row = ts.x.row(i);
        let m = p.mean(&row);
        r.push(fx_sub(ts.y[i], m));
        i = i + 1;
    }
    proof {
        assert(seq_vals(r@) =~= resid_s(*ts, *p));
    }
    r
}

/// Column c of the prior design matrix [1, x_1, ..., x_D].
pub open spec fn fcol_s(ts: TrainingSet, c: int) -> Seq<int> {
    Seq::new(ts.n() as nat, |i: int| if c == 0 {
        SCALE as int
    } else {
        ts.x.at(i, c - 1)
    })
}

/// Number of generalized-least-squares coefficients of a prior shape.
pub open spec fn gls_dim(p: MeanPrior, d: int) -> int {
    match p {
        MeanPrior::Constant { .. } => 1,
        MeanPrior::Linear { .. } => d + 1,
    }
}

/// The normal-equation matrix F^T Sigma^-1 F of the generalized
/// least-squares problem, through the factor `lseq` of Sigma.
pub open spec fn gls_a_s(ts: TrainingSet, lseq: Seq<Seq<int>>, m: int) -> Seq<Seq<int>> {
    Seq::new(m as nat, |r: int| Seq::new(m as nat, |c: int| dot_s(
        fcol_s(ts, r), sigma_solve_s(lseq, fcol_s(ts, c)))))
}

/// The right-hand side F^T Sigma^-1 y.
pub open spec fn gls_rhs_s(ts: TrainingSet, lseq: Seq<Seq<int>>, m: int) -> Seq<int> {
    Seq::new(m as nat, |r: int| dot_s(fcol_s(ts, r), sigma_solve_s(lseq, seq_vals(ts.y@))))
}

/// The normal equations admit a factorization of their own.
pub open spec fn gls_ok(ts: TrainingSet, lseq: Seq<Seq<int>>, m: int) -> bool {
    chol_ok(gls_a_s(ts, lseq, m))
}

/// The fitted coefficients beta = (F^T Sigma^-1 F)^-1 F^T Sigma^-1 y.
pub open spec fn gls_beta_s(ts: TrainingSet, lseq: Seq<Seq<int>>, m: int) -> Seq<int> {
    sigma_solve_s(chol_seq(gls_a_s(ts, lseq, m)), gls_rhs_s(ts, lseq, m))
}

/// The prior a fit ends with: the refit one where generalized least
/// squares produced one, else the initial prior.
pub open spec fn picked_prior(opt: Option<MeanPrior>, p0: MeanPrior) -> MeanPrior {
    match opt {
        Some(p) => p,
        None => p0,
    }
}

/// `p` holds the generalized-least-squares coefficients `beta` in the
/// shape of `p0`.
pub open spec fn gls_refit_of(p: MeanPrior, p0: MeanPrior, beta: Seq<int>, d: int) -> bool {
    match p {
        MeanPrior::Constant { bias } => p0 is Constant && bias as int == beta[0],
        MeanPrior::Linear { weights, bias } => {
            &&& p0 is Linear
            &&& bias as int == beta[0]
            &&& weights.len() == d
            &&& forall|k: int| 0 <= k < d ==> #[trigger] weights[k] as int == beta[k + 1]
        },
    }
}

/// Build design column c as a vector.
fn design_col(ts: &TrainingSet, c: usize) -> (v: Vec<i64>)
    requires
        ts.wf(),
        c <= ts.x.cols,
    ensures
        v.len() == ts.x.rows,
        seq_vals(v@) == fcol_s(*ts, c as int),
{
    let n = ts.x.rows;
    let mut v: Vec<i64> = Vec::new();
    let mut i: usize = 0;
    while i < n
        invariant
            ts.wf(),
            c <= ts.x.cols,
            n == ts.x.rows,
            i <= n,
            v.len() == i,
            forall|t: int| 0 <= t < i ==> v[t] as int == fcol_s(*ts, c as int)[t],
        decreases n - i,
    {
        if c == 0 {
            v.push(SCALE);
        } else {
            v.push(ts.x.get(i, c - 1));
        }
        i = i + 1;
    }
    proof {
        assert(seq_vals(v@) =~= fcol_s(*ts, c as int));
    }
    v
}

/// Refit the prior's coefficients by generalized least squares against the
/// current covariance factor; `None` exactly when the normal equations do
/// not factorize.
pub fn gls_fit(ts: &TrainingSet, l: &Matrix, p0: &MeanPrior) -> (r: Option<MeanPrior>)
    requires
        ts.wf(),
        p0.wf(ts.d()),
        l.wf(),
        l.rows == l.cols,
        l.rows == ts.x.rows,
        forall|j: int| 0 <= j < l.rows ==> #[trigger] l.at(j, j) >= 1,
    ensures
        match r {
            Some(p) => {
                &&& gls_ok(*ts, mat_seq(*l), gls_dim(*p0, ts.d()))
                &&& p.wf(ts.d())
                &&& {
                    let beta = gls_beta_s(*ts, mat_seq(*l), gls_dim(*p0, ts.d()));
                    match p {
                        MeanPrior::Constant { bias } => p0 is Constant && bias as int == beta[0],
                        MeanPrior::Linear { weights, bias } => {
                            &&& p0 is Linear
                            &&& bias as int == beta[0]
                            &&& weights.len() == ts.x.cols
                            &&& forall|k: int|
                                0 <= k < ts.x.cols ==> #[trigger] weights[k] as int == beta[k + 1]
                        },
                    }
                }
            },
            None => !gls_ok(*ts, mat_seq(*l), gls_dim(*p0, ts.d())),
        },
{
    let ghost lseq = mat_seq(*l);
    let d = ts.x.cols;
    let m: usize = match p0 {
        MeanPrior::Constant { .. } => 1,
        MeanPrior::Linear { .. } => d + 1,
    };
    // design columns and Sigma^-1 applied to them
    let mut fcols: Vec<Vec<i64>> = Vec::new();
    let mut ucols: Vec<Vec<i64>> = Vec::new();
    let mut c: usize = 0;
    while c < m
        invariant
            ts.wf(),
            l.wf(),
            l.rows == l.cols,
            l.rows == ts.x.rows,
            forall|j: int| 0 <= j < l.rows ==> #[trigger] l.at(j, j) >= 1,
            lseq == mat_seq(*l),
            m <= ts.x.cols + 1,
            c <= m,
            fcols.len() == c,
            ucols.len() == c,
            forall|t: int| 0 <= t < c ==> #[trigger] seq_vals(fcols[t]@) == fcol_s(*ts, t),
            forall|t: int|
                0 <= t < c ==> #[trigger] seq_vals(ucols[t]@) == sigma_solve_s(
                    lseq, fcol_s(*ts, t)),
            forall|t: int| 0 <= t < c ==> #[trigger] fcols[t]@.len() == ts.x.rows,
            forall|t: int| 0 <= t < c ==> #[trigger] ucols[t]@.len() == ts.x.rows,
        decreases m - c,
    {
        let f = design_col(ts, c);
        let u = sigma_solve(l, &f);
        fcols.push(f);
        ucols.push(u);
        c = c + 1;
    }
    // normal-equation matrix and right-hand side
    proof {
        assert(m as int * m as int <= (ts.x.cols + 1) * (ts.x.cols + 1)) by (nonlinear_arith)
            requires
                0 <= m as int <= ts.x.cols + 1,
        ;
        assert((ts.x.cols + 1) * (ts.x.cols + 1) <= 101 * 101) by (nonlinear_arith)
            requires
                0 <= ts.x.cols + 1 <= 101,
        ;
    }
    let mut amat = Matrix::zero(m, m);
    let mut r: usize = 0;
    while r < m
        invariant
            ts.wf(),
            lseq == mat_seq(*l),
            m <= ts.x.cols + 1,
            r <= m,
            amat.wf(),
            amat.rows == m,
            amat.cols == m,
            fcols.len() == m,
            ucols.len() == m,
            forall|t: int| 0 <= t < m ==> #[trigger] seq_vals(fcols[t]@) == fcol_s(*ts, t),
            forall|t: int|
                0 <= t < m ==> #[trigger] seq_vals(ucols[t]@) == sigma_solve_s(
                    lseq, fcol_s(*ts, t)),
            forall|t: int| 0 <= t < m ==> #[trigger] fcols[t]@.len() == ts.x.rows,
            forall|t: int| 0 <= t < m ==> #[trigger] ucols[t]@.len() == ts.x.rows,
            forall|rr: int, cc: int|
                0 <= rr < r && 0 <= cc < m ==> amat.at(rr, cc) == gls_a_s(*ts, lseq, m as int)[rr][cc],
        decreases m - r,
    {
        let mut cc: usize = 0;
        while cc < m
            invariant
                ts.wf(),
                lseq == mat_seq(*l),
                m <= ts.x.cols + 1,
                r < m,
                cc <= m,
                amat.wf(),
                amat.rows == m,
                amat.cols == m,
                fcols.len() == m,
                ucols.len() == m,
                forall|t: int| 0 <= t < m ==> #[trigger] seq_vals(fcols[t]@) == fcol_s(*ts, t),
                forall|t: int|
                    0 <= t < m ==> #[trigger] seq_vals(ucols[t]@) == sigma_solve_s(
                        lseq, fcol_s(*ts, t)),
                forall|t: int| 0 <= t < m ==> #[trigger] fcols[t]@.len() == ts.x.rows,
                forall|t: int| 0 <= t < m ==> #[trigger] ucols[t]@.len() == ts.x.rows,
                forall|rr: int, c2: int|
                    0 <= rr < r && 0 <= c2 < m ==> amat.at(rr, c2) == gls_a_s(
                        *ts, lseq, m as int)[rr][c2],
                forall|c2: int|
                    0 <= c2 < cc ==> amat.at(r as int, c2) == gls_a_s(*ts, lseq, m as int)[
                        r as int][c2],
            decreases m - cc,
        {
            let v = dot(&fcols[r], &ucols[cc]);
            amat.put(r, cc, v);
            cc = cc + 1;
        }
        r = r + 1;
    }
    let lr = cholesky_attempt(&amat);
    match lr {
        None => {
            proof {
                assert(mat_seq(amat) =~~= gls_a_s(*ts, lseq, m as int));
            }
            None
        },
        Some(la) => {
            proof {
                assert(mat_seq(amat) =~~= gls_a_s(*ts, lseq, m as int));
                crate::linalg::lemma_chol_factor_diag(mat_seq(amat), la);
            }
            // right-hand side
            let mut rhs: Vec<i64> = Vec::new();
            let mut t: usize = 0;
            let uy = sigma_solve(l, &ts.y);
            while t < m
                invariant
                    ts.wf(),
                    lseq == mat_seq(*l),
                    m <= ts.x.cols + 1,
                    t <= m,
                    rhs.len() == t,
                    fcols.len() == m,
                    forall|q: int| 0 <= q < m ==> #[trigger] seq_vals(fcols[q]@) == fcol_s(*ts, q),
                    forall|q: int| 0 <= q < m ==> #[trigger] fcols[q]@.len() == ts.x.rows,
                    uy.len() == ts.x.rows,
                    seq_vals(uy@) == sigma_solve_s(lseq, seq_vals(ts.y@)),
                    forall|q: int|
                        0 <= q < t ==> rhs[q] as int == gls_rhs_s(*ts, lseq, m as int)[q],
                decreases m - t,
            {
                let v = dot(&fcols[t], &uy);
                rhs.push(v);
                t = t + 1;
            }
            proof {
                assert(seq_vals(rhs@) =~= gls_rhs_s(*ts, lseq, m as int));
            }
            let beta = sigma_solve(&la, &rhs);
            proof {
                assert(mat_seq(la) =~~= chol_seq(gls_a_s(*ts, lseq, m as int)));
                assert(seq_vals(beta@) == gls_beta_s(*ts, lseq, m as int));
            }
            let b0 = beta[0];
            match p0 {
                MeanPrior::Constant { .. } => Some(MeanPrior::Constant { bias: b0 }),
                MeanPrior::Linear { .. } => {
                    let mut w: Vec<i64> = Vec::new();
                    let mut k: usize = 0;
                    while k < d
                        invariant
                            d == ts.x.cols,
                            m == d + 1,
                            beta.len() == m,
                            seq_vals(beta@) == gls_beta_s(*ts, lseq, m as int),
                            k <= d,
                            w.len() == k,
                            forall|q: int|
                                0 <= q < k ==> #[trigger] w[q] as int == gls_beta_s(
                                    *ts, lseq, m as int)[q + 1],
                        decreases d - k,
                    {
                        w.push(beta[k + 1]);
                        k = k + 1;
                    }
                    Some(MeanPrior::Linear { weights: w, bias: b0 })
                },
            }
        },
    }
}

/// Everything one hyperparameter evaluation yields: the factor, the jitter
/// it needed, the refit prior if any, alpha, and the objective value.
pub struct Eval {
    pub l: Matrix,
    pub jitter: i64,
    pub prior: Option<MeanPrior>,
    pub alpha: Vec<i64>,
    pub nll: i64,
}

/// The clauses a successful evaluation establishes for kernel `kern`,
/// initial prior `p0` and the returned bundle.
pub open spec fn eval_post(
    ts: TrainingSet,
    kern: Kernel,
    p0: MeanPrior,
    fit_prior: bool,
    noise: int,
    j0: int,
    cap: int,
    e: Eval,
) -> bool {
    let jit = e.jitter as int;
    let sig = sigma_seq(ts, kern, noise, jit);
    let p = picked_prior(e.prior, p0);
    &&& factorize_ok(ts, kern, noise, j0, cap)
    &&& jit == factorize_jitter(ts, kern, noise, j0, cap)
    &&& jit >= 0
    &&& chol_ok(sig)
    &&& e.l.wf()
    &&& e.l.rows == ts.x.rows
    &&& e.l.cols == ts.x.rows
    &&& mat_seq(e.l) == chol_seq(sig)
    &&& (forall|j: int| 0 <= j < ts.n() ==> #[trigger] e.l.at(j, j) >= 1)
    &&& p.wf(ts.d())
    &&& (e.prior is Some <==> fit_prior && gls_ok(ts, chol_seq(sig), gls_dim(p0, ts.d())))
    &&& (e.prior is Some ==> gls_refit_of(
        p, p0, gls_beta_s(ts, chol_seq(sig), gls_dim(p0, ts.d())), ts.d()))
    &&& e.alpha.len() == ts.x.rows
    &&& seq_vals(e.alpha@) == alpha_s(ts, kern, p, noise, jit)
    &&& e.nll as int == nll_s(ts, kern, p, noise, jit)
}

/// Evaluate one kernel candidate: factorize with jitter growth, refit the
/// prior if asked, and compute the negative log marginal likelihood.
/// Fails with `NumericalInstability` exactly when no jitter of the
/// schedule factorizes.
pub fn evaluate(
    ts: &TrainingSet,
    kern: &Kernel,
    p0: &MeanPrior,
    fit_prior: bool,
    noise: i64,
    j0: i64,
    cap: i64,
) -> (res: Result<Eval, GpError>)
    requires
        ts.wf(),
        kern.wf(ts.d()),
        p0.wf(ts.d()),
        1 <= j0 <= cap,
    ensures
        match res {
            Ok(e) => eval_post(*ts, *kern, *p0, fit_prior, noise as int, j0 as int, cap as int, e),
            Err(er) => {
                &&& er == GpError::NumericalInstability
                &&& !factorize_ok(*ts, *kern, noise as int, j0 as int, cap as int)
            },
        },
{
    let n = ts.x.rows;
    let fr = factorize(ts, kern, noise, j0, cap);
    match fr {
        Err(er) => Err(er),
        Ok((l, jit)) => {
            let ghost sig = sigma_seq(*ts, *kern, noise as int, jit as int);
            proof {
                assert(mat_seq(l) =~~= chol_seq(sig));
            }
            let prior_opt: Option<MeanPrior> = if fit_prior {
                gls_fit(ts, &l, p0)
            } else {
                None
            };
            let resid = match &prior_opt {
                Some(p) => residuals(ts, p),
                None => residuals(ts, p0),
            };
            let alpha = sigma_solve(&l, &resid);
            let quad = dot(&resid, &alpha);
            let logd = logdet(&l);
            let nfx: i64 = (n as i64) * SCALE;
            let cterm = tdiv_any(fx_mul(nfx, LOG_2PI), 2);
            let nll = fx_add(fx_add(tdiv_any(quad, 2), tdiv_any(logd, 2)), cterm);
            Ok(Eval { l, jitter: jit, prior: prior_opt, alpha, nll })
        },
    }
}

} // verus!
