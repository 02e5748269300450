//! Covariance kernels: squared exponential, exponential, and Matern
//! (nu = 3/2 and nu = 5/2), with isotropic or per-dimension lengthscales.

use vstd::prelude::*;

use crate::fixed::fx_add;
use crate::fixed::fx_add_s;
use crate::fixed::fx_div;
use crate::fixed::fx_div_s;
use crate::fixed::fx_exp_neg;
use crate::fixed::fx_exp_neg_s;
use crate::fixed::fx_mul;
use crate::fixed::fx_mul_s;
use crate::fixed::fx_sqrt;
use crate::fixed::fx_sqrt_s;
use crate::fixed::fx_sub;
use crate::fixed::fx_sub_s;
use crate::fixed::lemma_fx_mul_nonneg;
use crate::fixed::lemma_fx_square_nonneg;
use crate::fixed::seq_vals;
use crate::fixed::tdiv;
use crate::fixed::tdiv_nonneg;
use crate::fixed::FX_MAX;
use crate::fixed::SCALE;

verus! {

/// sqrt(3) in fixed point.
pub const SQRT3: i64 = 1_732_051;

/// sqrt(5) in fixed point.
pub const SQRT5: i64 = 2_236_068;

/// The functional form of a kernel.
#[derive(Clone, Copy, Debug, PartialEq, Eq, Structural)]
pub enum KernelKind {
    SquaredExponential,
    Exponential,
    Matern32,
    Matern52,
}

/// A covariance kernel: a form, a lengthscale (one shared value or one per
/// dimension), and an amplitude (the sill).
#[derive(Clone, Debug)]
pub struct Kernel {
    pub kind: KernelKind,
    pub ls: Vec<i64>,
    pub ampl: i64,
}

impl Kernel {
    /// Well-formed for input dimension `d`: positive amplitude, and one
    /// positive lengthscale shared by all dimensions or one per dimension.
    pub open spec fn wf(self, d: int) -> bool {
        &&& 0 < self.ampl <= FX_MAX
        &&& (self.ls.len() == 1 || self.ls.len() == d)
        &&& forall|i: int| 0 <= i < self.ls.len() ==> 0 < #[trigger] self.ls[i] <= FX_MAX
    }

    /// Lengthscale used for dimension i.
    pub open spec fn ls_at(self, i: int) -> int {
        if self.ls.len() == 1 {
            self.ls[0] as int
        } else {
            self.ls[i] as int
        }
    }

    /// Lengthscale-weighted squared distance over the first k dimensions.
    pub open spec fn sq_dist_rec(self, x1: Seq<int>, x2: Seq<int>, k: int) -> int
        decreases k,
    {
        if k <= 0 {
            0
        } else {
            let u = fx_div_s(fx_sub_s(x1[k - 1], x2[k - 1]), self.ls_at(k - 1));
            fx_add_s(self.sq_dist_rec(x1, x2, k - 1), fx_mul_s(u, u))
        }
    }

    /// Lengthscale-weighted squared distance between two points.
    pub open spec fn sq_dist_s(self, x1: Seq<int>, x2: Seq<int>) -> int {
        self.sq_dist_rec(x1, x2, x1.len() as int)
    }

    /// Covariance between two points.
    pub open spec fn cov_s(self, x1: Seq<int>, x2: Seq<int>) -> int {
        let d2 = self.sq_dist_s(x1, x2);
        match self.kind {
            KernelKind::SquaredExponential => fx_mul_s(
                self.ampl as int,
                fx_exp_neg_s(tdiv(d2, 2)),
            ),
            KernelKind::Exponential => fx_mul_s(
                self.ampl as int,
                fx_exp_neg_s(fx_sqrt_s(d2)),
            ),
            KernelKind::Matern32 => {
                let t = fx_mul_s(SQRT3 as int, fx_sqrt_s(d2));
                fx_mul_s(self.ampl as int, fx_mul_s(fx_add_s(SCALE as int, t), fx_exp_neg_s(t)))
            },
            KernelKind::Matern52 => {
                let t = fx_mul_s(SQRT5 as int, fx_sqrt_s(d2));
                let poly = fx_add_s(fx_add_s(SCALE as int, t), tdiv(fx_mul_s(t, t), 3));
                fx_mul_s(self.ampl as int, fx_mul_s(poly, fx_exp_neg_s(t)))
            },
        }
    }

    /// The weighted squared distance is nonnegative.
    pub proof fn lemma_sq_dist_nonneg(self, x1: Seq<int>, x2: Seq<int>, k: int)
        ensures
            self.sq_dist_rec(x1, x2, k) >= 0,
        decreases k,
    {
        if k > 0 {
            self.lemma_sq_dist_nonneg(x1, x2, k - 1);
            let u = fx_div_s(fx_sub_s(x1[k - 1], x2[k - 1]), self.ls_at(k - 1));
            lemma_fx_square_nonneg(u);
        }
    }

    /// The weighted squared distance of a point to itself is zero.
    pub proof fn lemma_sq_dist_self(self, x: Seq<int>, k: int)
        requires
            self.wf(x.len() as int),
            k <= x.len(),
        ensures
            self.sq_dist_rec(x, x, k) == 0,
        decreases k,
    {
        if k > 0 {
            self.lemma_sq_dist_self(x, k - 1);
            let l = self.ls_at(k - 1);
            vstd::arithmetic::div_mod::lemma_div_basics(l);
            assert(fx_div_s(fx_sub_s(x[k - 1], x[k - 1]), l) == 0);
            vstd::arithmetic::div_mod::lemma_div_basics(SCALE as int);
        }
    }

    /// At zero distance the covariance is exactly the amplitude: the
    /// kernel's value at a training point against itself is the sill, the
    /// exact core of the interpolation property.
    pub proof fn lemma_cov_self(self, x: Seq<int>)
        requires
            self.wf(x.len() as int),
        ensures
            self.cov_s(x, x) == self.ampl,
    {
        self.lemma_sq_dist_self(x, x.len() as int);
        let sc = SCALE as int;
        vstd::arithmetic::div_mod::lemma_div_basics(sc);
        assert(fx_exp_neg_s(0) == sc) by {
            vstd::arithmetic::div_mod::lemma_div_basics(sc);
            assert(fx_mul_s(0, 0) == 0);
            assert(tdiv(sc * sc, sc) == sc) by {
                vstd::arithmetic::div_mod::lemma_div_multiples_vanish(sc, sc);
            }
        }
        assert(fx_sqrt_s(0) == 0);
        assert(fx_mul_s(SQRT3 as int, 0) == 0) by {
            vstd::arithmetic::div_mod::lemma_div_basics(sc);
        }
        assert(fx_mul_s(SQRT5 as int, 0) == 0) by {
            vstd::arithmetic::div_mod::lemma_div_basics(sc);
        }
        assert(fx_mul_s(sc, sc) == sc) by {
            vstd::arithmetic::div_mod::lemma_div_multiples_vanish(sc, sc);
        }
        assert(fx_mul_s(self.ampl as int, sc) == self.ampl) by {
            vstd::arithmetic::div_mod::lemma_div_multiples_vanish(self.ampl as int, sc);
            assert(self.ampl as int * sc == sc * (self.ampl as int)) by (nonlinear_arith);
            assert(self.ampl as int * sc >= 0) by (nonlinear_arith)
                requires
                    self.ampl as int > 0,
                    sc > 0,
            ;
        }
    }

    /// Covariance between two input points.
    pub fn covariance(&self, x1: &Vec<i64>, x2: &Vec<i64>) -> (r: i64)
        requires
            self.wf(x1.len() as int),
            x1.len() == x2.len(),
        ensures
            r as int == self.cov_s(seq_vals(x1@), seq_vals(x2@)),
    {
        let ghost gx1 = seq_vals(x1@);
        let ghost gx2 = seq_vals(x2@);
        let d = x1.len();
        let mut d2: i64 = 0;
        let mut j: usize = 0;
        proof {
            self.lemma_sq_dist_nonneg(gx1, gx2, d as int);
        }
        while j < d
            invariant
                self.wf(d as int),
                x1.len() == d,
                x2.len() == d,
                gx1 == seq_vals(x1@),
                gx2 == seq_vals(x2@),
                j <= d,
                d2 as int == self.sq_dist_rec(gx1, gx2, j as int),
                d2 >= 0,
            decreases d - j,
        {
            let l: i64 = if self.ls.len() == 1 {
                self.ls[0]
            } else {
                self.ls[j]
            };
            let u = fx_div(fx_sub(x1[j], x2[j]), l);
            let t = fx_mul(u, u);
            proof {
                lemma_fx_square_nonneg(u as int);
            }
            d2 = fx_add(d2, t);
            j = j + 1;
        }
        match self.kind {
            KernelKind::SquaredExponential => {
                let h = tdiv_nonneg(d2, 2);
                fx_mul(self.ampl, fx_exp_neg(h))
            },
            KernelKind::Exponential => {
                let s = fx_sqrt(d2);
                fx_mul(self.ampl, fx_exp_neg(s))
            },
            KernelKind::Matern32 => {
                let s = fx_sqrt(d2);
                let t = fx_mul(SQRT3, s);
                proof {
                    lemma_fx_mul_nonneg(SQRT3 as int, s as int);
                }
                fx_mul(self.ampl, fx_mul(fx_add(SCALE, t), fx_exp_neg(t)))
            },
            KernelKind::Matern52 => {
                let s = fx_sqrt(d2);
                let t = fx_mul(SQRT5, s);
                proof {
                    lemma_fx_mul_nonneg(SQRT5 as int, s as int);
                    lemma_fx_square_nonneg(t as int);
                }
                let poly = fx_add(fx_add(SCALE, t), tdiv_nonneg(fx_mul(t, t), 3));
                fx_mul(self.ampl, fx_mul(poly, fx_exp_neg(t)))
            },
        }
    }
}

} // verus!
