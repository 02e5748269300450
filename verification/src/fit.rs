//! Hyperparameter optimization and the fitted model.

use vstd::prelude::*;
use vstd::pervasive::VecAdditionalExecFns;

use crate::clock::now_millis;
use crate::errors::GpError;
use crate::fixed::copy_vec;
use crate::fixed::fx_mul;
use crate::fixed::fx_sub;
use crate::fixed::seq_vals;
use crate::fixed::FX_MAX;
use crate::kernel::Kernel;
use crate::likelihood::alpha_s;
use crate::likelihood::chol_seq;
use crate::likelihood::eval_post;
use crate::likelihood::evaluate;
use crate::likelihood::nll_s;
use crate::likelihood::picked_prior;
use crate::likelihood::Eval;
use crate::linalg::chol_ok;
use crate::linalg::factorize_jitter;
use crate::linalg::factorize_ok;
use crate::linalg::mat_seq;
use crate::linalg::sigma_seq;
use crate::matrix::Matrix;
use crate::model::TrainingSet;
use crate::prior::MeanPrior;
use crate::rng::Lcg;

verus! {

/// Multiplicative step of the local refinement, upward.
pub const STEP_UP: i64 = 1_500_000;

/// Multiplicative step of the local refinement, downward.
pub const STEP_DOWN: i64 = 666_667;

/// Configuration of a fit: which sub-models to tune, restart and iteration
/// budgets, bounds for the randomized initialization, the convergence
/// tolerance, the random seed, the jitter schedule, and a wall-clock
/// budget in milliseconds (0 for no budget).
#[derive(Clone, Copy, Debug)]
pub struct FitConfig {
    pub fit_kernel: bool,
    pub fit_prior: bool,
    pub n_start: usize,
    pub max_iter: usize,
    pub ls_lo: i64,
    pub ls_hi: i64,
    pub ampl_lo: i64,
    pub ampl_hi: i64,
    pub tol: i64,
    pub seed: u64,
    pub jitter0: i64,
    pub jitter_cap: i64,
    pub time_budget_ms: u64,
}

impl FitConfig {
    /// Bounds ordered and positive, jitter schedule nonempty, tolerance
    /// nonnegative.
    pub open spec fn wf(self) -> bool {
        &&& 1 <= self.ls_lo <= self.ls_hi <= FX_MAX
        &&& 1 <= self.ampl_lo <= self.ampl_hi <= FX_MAX
        &&& 1 <= self.jitter0 <= self.jitter_cap <= FX_MAX
        &&& self.tol >= 0
    }
}

/// The kernel's parameters lie inside the configured bounds.
pub open spec fn in_bounds(k: Kernel, cfg: FitConfig) -> bool {
    &&& (forall|i: int|
        0 <= i < k.ls.len() ==> cfg.ls_lo <= #[trigger] k.ls[i] <= cfg.ls_hi)
    &&& cfg.ampl_lo <= k.ampl <= cfg.ampl_hi
}

/// The optimized kernel either lies in the bounds or is the initial one.
pub open spec fn bounds_or_initial(k: Kernel, k0: Kernel, cfg: FitConfig) -> bool {
    in_bounds(k, cfg) || (k.ls@ == k0.ls@ && k.ampl == k0.ampl)
}

/// An immutable fitted model: training data, tuned kernel and prior, the
/// noise variance, the Cholesky factor of Sigma, and the solved vector
/// alpha = Sigma^-1 (y - priorMean(X)).
pub struct FittedModel {
    pub ts: TrainingSet,
    pub kernel: Kernel,
    pub prior: MeanPrior,
    pub noise: i64,
    pub jitter: i64,
    pub l: Matrix,
    pub alpha: Vec<i64>,
    pub nll: i64,
}

impl FittedModel {
    /// The cached factor and solved vector are exactly those of the
    /// stored hyperparameters.
    pub open spec fn wf(self) -> bool {
        let sig = sigma_seq(self.ts, self.kernel, self.noise as int, self.jitter as int);
        &&& self.ts.wf()
        &&& self.kernel.wf(self.ts.d())
        &&& self.prior.wf(self.ts.d())
        &&& self.noise >= 0
        &&& self.jitter >= 0
        &&& chol_ok(sig)
        &&& self.l.wf()
        &&& self.l.rows == self.ts.x.rows
        &&& self.l.cols == self.ts.x.rows
        &&& mat_seq(self.l) == chol_seq(sig)
        &&& (forall|j: int| 0 <= j < self.ts.n() ==> #[trigger] self.l.at(j, j) >= 1)
        &&& self.alpha.len() == self.ts.x.rows
        &&& seq_vals(self.alpha@) == alpha_s(
            self.ts, self.kernel, self.prior, self.noise as int, self.jitter as int)
        &&& self.nll as int == nll_s(
            self.ts, self.kernel, self.prior, self.noise as int, self.jitter as int)
    }
}

/// Clamp a value into [lo, hi].
fn clamp_to(v: i64, lo: i64, hi: i64) -> (r: i64)
    requires
        lo <= hi,
    ensures
        lo <= r <= hi,
        r == if v < lo { lo } else if v > hi { hi } else { v },
{
    if v < lo {
        lo
    } else if v > hi {
        hi
    } else {
        v
    }
}

/// Search the kernel parameter space for the lowest negative log marginal
/// likelihood: a baseline evaluation at the initial kernel, then randomly
/// initialized restarts with multiplicative coordinate refinement, all
/// within the configured bounds, budgets and wall-clock allowance. Ties
/// keep the earliest find. Fails with `FitFailure` only when the initial
/// kernel itself admits no factorization and no restart does either.
pub fn optimize(ts: &TrainingSet, kern0: Kernel, p0: &MeanPrior, noise: i64, cfg: &FitConfig) -> (res:
    Result<(Kernel, Eval), GpError>)
    requires
        ts.wf(),
        kern0.wf(ts.d()),
        p0.wf(ts.d()),
        cfg.wf(),
    ensures
        match res {
            Ok(r) => {
                &&& r.0.wf(ts.d())
                &&& r.0.kind == kern0.kind
                &&& r.0.ls.len() == kern0.ls.len()
                &&& eval_post(
                    *ts, r.0, *p0, cfg.fit_prior, noise as int, cfg.jitter0 as int,
                    cfg.jitter_cap as int, r.1)
                &&& (!cfg.fit_kernel ==> r.0.ls@ == kern0.ls@ && r.0.ampl == kern0.ampl)
                &&& bounds_or_initial(r.0, kern0, *cfg)
                &&& (!cfg.fit_prior && factorize_ok(
                    *ts, kern0, noise as int, cfg.jitter0 as int, cfg.jitter_cap as int))
                    ==> r.1.nll as int <= nll_s(
                    *ts, kern0, *p0, noise as int,
                    factorize_jitter(
                        *ts, kern0, noise as int, cfg.jitter0 as int, cfg.jitter_cap as int))
            },
            Err(e) => {
                &&& e == GpError::FitFailure
                &&& !factorize_ok(
                    *ts, kern0, noise as int, cfg.jitter0 as int, cfg.jitter_cap as int)
            },
        },
{
    let ghost g_k0 = kern0;
    let ghost g_ls0 = kern0.ls@;
    let ghost g_ampl0 = kern0.ampl;
    let kind = kern0.kind;
    let d_len = kern0.ls.len();
    let base = evaluate(ts, &kern0, p0, cfg.fit_prior, noise, cfg.jitter0, cfg.jitter_cap);
    if !cfg.fit_kernel {
        return match base {
            Ok(e) => Ok((kern0, e)),
            Err(_) => Err(GpError::FitFailure),
        };
    }
    let mut best: Option<(Kernel, Eval)> = match base {
        Ok(e) => Some((kern0, e)),
        Err(_) => None,
    };
    let start_ms = now_millis();
    let mut rng = Lcg::new(cfg.seed);
    let mut restart: usize = 0;
    while restart < cfg.n_start
        invariant
            ts.wf(),
            p0.wf(ts.d()),
            cfg.wf(),
            restart <= cfg.n_start,
            d_len == 1 || d_len == ts.d(),
            match best {
                Some(r) => {
                    &&& r.0.wf(ts.d())
                    &&& r.0.kind == kind
                    &&& r.0.ls.len() == d_len
                    &&& eval_post(
                        *ts, r.0, *p0, cfg.fit_prior, noise as int, cfg.jitter0 as int,
                        cfg.jitter_cap as int, r.1)
                    &&& (in_bounds(r.0, *cfg) || (r.0.ls@ == g_ls0 && r.0.ampl == g_ampl0))
                    &&& (!cfg.fit_prior && factorize_ok(
                        *ts, g_k0, noise as int, cfg.jitter0 as int, cfg.jitter_cap as int))
                        ==> r.1.nll as int <= nll_s(
                        *ts, g_k0, *p0, noise as int,
                        factorize_jitter(
                            *ts, g_k0, noise as int, cfg.jitter0 as int, cfg.jitter_cap as int))
                },
                None => !factorize_ok(
                    *ts, g_k0, noise as int, cfg.jitter0 as int, cfg.jitter_cap as int),
            },
        decreases cfg.n_start - restart,
    {
        // wall-clock budget, checked between iterations only
        if cfg.time_budget_ms > 0 {
            let now = now_millis();
            let elapsed = if now >= start_ms {
                now - start_ms
            } else {
                0
            };
            if elapsed >= cfg.time_budget_ms {
                break;
            }
        }
        // bounds-respecting randomized initial point
        let mut ls: Vec<i64> = Vec::new();
        let mut di: usize = 0;
        while di < d_len
            invariant
                cfg.wf(),
                di <= d_len,
                ls.len() == di,
                forall|t: int| 0 <= t < di ==> cfg.ls_lo <= #[trigger] ls[t] <= cfg.ls_hi,
            decreases d_len - di,
        {
            ls.push(rng.next_range(cfg.ls_lo, cfg.ls_hi));
            di = di + 1;
        }
        let ampl = rng.next_range(cfg.ampl_lo, cfg.ampl_hi);
        let cand = Kernel { kind, ls, ampl };
        let cand_eval = evaluate(ts, &cand, p0, cfg.fit_prior, noise, cfg.jitter0, cfg.jitter_cap);
        match cand_eval {
            Err(_) => {
                // this restart never reached a positive-definite Sigma
                restart = restart + 1;
                continue;
            },
            Ok(e0) => {
                let mut cur_k = cand;
                let mut cur_e = e0;
                let mut iter: usize = 0;
                while iter < cfg.max_iter
                    invariant
                        ts.wf(),
                        p0.wf(ts.d()),
                        cfg.wf(),
                        iter <= cfg.max_iter,
                        cur_k.wf(ts.d()),
                        cur_k.kind == kind,
                        cur_k.ls.len() == d_len,
                        in_bounds(cur_k, *cfg),
                        eval_post(
                            *ts, cur_k, *p0, cfg.fit_prior, noise as int, cfg.jitter0 as int,
                            cfg.jitter_cap as int, cur_e),
                    decreases cfg.max_iter - iter,
                {
                    if cfg.time_budget_ms > 0 {
                        let now = now_millis();
                        let elapsed = if now >= start_ms {
                            now - start_ms
                        } else {
                            0
                        };
                        if elapsed >= cfg.time_budget_ms {
                            break;
                        }
                    }
                    let prev_nll = cur_e.nll;
                    let mut p: usize = 0;
                    while p < d_len + 1
                        invariant
                            ts.wf(),
                            p0.wf(ts.d()),
                            cfg.wf(),
                            p <= d_len + 1,
                            cur_k.wf(ts.d()),
                            cur_k.kind == kind,
                            cur_k.ls.len() == d_len,
                            in_bounds(cur_k, *cfg),
                            eval_post(
                                *ts, cur_k, *p0, cfg.fit_prior, noise as int, cfg.jitter0 as int,
                                cfg.jitter_cap as int, cur_e),
                        decreases d_len + 1 - p,
                    {
                        let mut dir: usize = 0;
                        while dir < 2
                            invariant
                                ts.wf(),
                                p0.wf(ts.d()),
                                cfg.wf(),
                                dir <= 2,
                                p <= d_len,
                                cur_k.wf(ts.d()),
                                cur_k.kind == kind,
                                cur_k.ls.len() == d_len,
                                in_bounds(cur_k, *cfg),
                                eval_post(
                                    *ts, cur_k, *p0, cfg.fit_prior, noise as int,
                                    cfg.jitter0 as int, cfg.jitter_cap as int, cur_e),
                            decreases 2 - dir,
                        {
                            let factor = if dir == 0 {
                                STEP_UP
                            } else {
                                STEP_DOWN
                            };
                            let mut nls = copy_vec(&cur_k.ls);
                            let mut nampl = cur_k.ampl;
                            if p < d_len {
                                let nv = clamp_to(fx_mul(nls[p], factor), cfg.ls_lo, cfg.ls_hi);
                                nls.set(p, nv);
                            } else {
                                nampl = clamp_to(fx_mul(nampl, factor), cfg.ampl_lo, cfg.ampl_hi);
                            }
                            let nk = Kernel { kind, ls: nls, ampl: nampl };
                            let ne = evaluate(
                                ts, &nk, p0, cfg.fit_prior, noise, cfg.jitter0, cfg.jitter_cap);
                            match ne {
                                Ok(e2) => {
                                    if e2.nll < cur_e.nll {
                                        cur_k = nk;
                                        cur_e = e2;
                                    }
                                },
                                Err(_) => {},
                            }
                            dir = dir + 1;
                        }
                        p = p + 1;
                    }
                    // relative-improvement convergence test
                    let improvement = fx_sub(prev_nll, cur_e.nll);
                    let mag = if prev_nll >= 0 {
                        prev_nll
                    } else {
                        fx_sub(0, prev_nll)
                    };
                    let threshold = fx_mul(cfg.tol, mag);
                    if improvement <= threshold {
                        iter = iter + 1;
                        break;
                    }
                    iter = iter + 1;
                }
                let take = match &best {
                    Some(b) => cur_e.nll < b.1.nll,
                    None => true,
                };
                if take {
                    best = Some((cur_k, cur_e));
                }
                restart = restart + 1;
            },
        }
    }
    match best {
        Some(r) => Ok(r),
        None => Err(GpError::FitFailure),
    }
}

/// Fit a Gaussian-process model: optimize the hyperparameters, then keep
/// the winning kernel, the refit prior, the factor and alpha in an
/// immutable bundle. Fails with `FitFailure` exactly as `optimize` does.
pub fn fit(ts: TrainingSet, kern0: Kernel, p0: MeanPrior, noise: i64, cfg: &FitConfig) -> (res:
    Result<FittedModel, GpError>)
    requires
        ts.wf(),
        kern0.wf(ts.d()),
        p0.wf(ts.d()),
        noise >= 0,
        cfg.wf(),
    ensures
        match res {
            Ok(m) => {
                &&& m.wf()
                &&& m.ts == ts
                &&& m.noise == noise
                &&& m.kernel.kind == kern0.kind
                &&& m.kernel.ls.len() == kern0.ls.len()
                &&& (!cfg.fit_kernel ==> m.kernel.ls@ == kern0.ls@ && m.kernel.ampl == kern0.ampl)
                &&& bounds_or_initial(m.kernel, kern0, *cfg)
                &&& m.nll as int == nll_s(ts, m.kernel, m.prior, noise as int, m.jitter as int)
                &&& (!cfg.fit_prior && factorize_ok(
                    ts, kern0, noise as int, cfg.jitter0 as int, cfg.jitter_cap as int))
                    ==> m.nll as int <= nll_s(
                    ts, kern0, p0, noise as int,
                    factorize_jitter(
                        ts, kern0, noise as int, cfg.jitter0 as int, cfg.jitter_cap as int))
            },
            Err(e) => {
                &&& e == GpError::FitFailure
                &&& !factorize_ok(
                    ts, kern0, noise as int, cfg.jitter0 as int, cfg.jitter_cap as int)
            },
        },
{
    let r = optimize(&ts, kern0, &p0, noise, cfg);
    match r {
        Err(e) => Err(e),
        Ok((k, e)) => {
            let Eval { l, jitter, prior, alpha, nll } = e;
            let pfin = match prior {
                Some(p) => p,
                None => p0,
            };
            Ok(FittedModel { ts, kernel: k, prior: pfin, noise, jitter, l, alpha, nll })
        },
    }
}

} // verus!
