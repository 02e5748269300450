//! Covariance matrix construction, Cholesky factorization with jitter
//! growth, triangular solves and log-determinants.

use vstd::prelude::*;
use vstd::pervasive::VecAdditionalExecFns;

use crate::errors::GpError;
use crate::fixed::fx_add;
use crate::fixed::fx_add_s;
use crate::fixed::fx_div;
use crate::fixed::fx_div_s;
use crate::fixed::fx_ln;
use crate::fixed::fx_ln_s;
use crate::fixed::fx_mul;
use crate::fixed::fx_mul_s;
use crate::fixed::fx_sqrt;
use crate::fixed::fx_sqrt_s;
use crate::fixed::fx_sub;
use crate::fixed::fx_sub_s;
use crate::fixed::lemma_sqrt_pos;
use crate::fixed::seq_vals;
use crate::kernel::Kernel;
use crate::matrix::Matrix;
use crate::model::TrainingSet;
use crate::model::MAX_ROWS;

verus! {

/// The entries of a matrix as a sequence of rows.
pub open spec fn mat_seq(m: Matrix) -> Seq<Seq<int>> {
    Seq::new(m.rows as nat, |i: int| Seq::new(m.cols as nat, |j: int| m.at(i, j)))
}

/// Entry (i, j) of the covariance matrix K(X, X) + (noise + jitter) I.
pub open spec fn sigma_s(
    ts: TrainingSet,
    kern: Kernel,
    noise: int,
    jit: int,
    i: int,
    j: int,
) -> int {
    if i == j {
        fx_add_s(fx_add_s(kern.cov_s(ts.x.row_s(i), ts.x.row_s(i)), noise), jit)
    } else if i < j {
        kern.cov_s(ts.x.row_s(i), ts.x.row_s(j))
    } else {
        kern.cov_s(ts.x.row_s(j), ts.x.row_s(i))
    }
}

/// The full covariance matrix as a sequence of rows.
pub open spec fn sigma_seq(ts: TrainingSet, kern: Kernel, noise: int, jit: int) -> Seq<Seq<int>> {
    Seq::new(ts.n() as nat, |i: int| Seq::new(ts.n() as nat, |j: int| sigma_s(ts, kern, noise, jit, i, j)))
}

/// Build the symmetric covariance matrix K(X, X) + (noise + jitter) I.
pub fn build_covariance(ts: &TrainingSet, kern: &Kernel, noise: i64, jit: i64) -> (m: Matrix)
    requires
        ts.wf(),
        kern.wf(ts.d()),
    ensures
        m.wf(),
        m.rows == ts.x.rows,
        m.cols == ts.x.rows,
        forall|i: int, j: int|
            0 <= i < ts.n() && 0 <= j < ts.n() ==> m.at(i, j) == sigma_s(*ts, *kern, noise as int, jit as int, i, j),
        mat_seq(m) == sigma_seq(*ts, *kern, noise as int, jit as int),
{
    let n = ts.x.rows;
    proof {
        assert(n as int * n as int <= 10_000 * 10_000) by (nonlinear_arith)
            requires
                0 <= n as int <= 10_000,
        ;
    }
    let mut m = Matrix::zero(n, n);
    let mut i: usize = 0;
    while i < n
        invariant
            ts.wf(),
            kern.wf(ts.d()),
            n == ts.x.rows,
            m.wf(),
            m.rows == n,
            m.cols == n,
            i <= n,
            forall|r: int, c: int|
                0 <= r < n && 0 <= c < n && (r < i || c < i) ==> m.at(r, c) == sigma_s(
                    *ts, *kern, noise as int, jit as int, r, c),
        decreases n - i,
    {
        let ri = ts.x.row(i);
        let mut j: usize = i;
        while j < n
            invariant
                ts.wf(),
                kern.wf(ts.d()),
                n == ts.x.rows,
                m.wf(),
                m.rows == n,
                m.cols == n,
                i < n,
                i <= j <= n,
                ri.len() == ts.x.cols,
                seq_vals(ri@) == ts.x.row_s(i as int),
                forall|r: int, c: int|
                    0 <= r < n && 0 <= c < n && (r < i || c < i) ==> m.at(r, c) == sigma_s(
                        *ts, *kern, noise as int, jit as int, r, c),
                forall|c: int|
                    i <= c < j ==> m.at(i as int, c) == sigma_s(
                        *ts, *kern, noise as int, jit as int, i as int, c),
                forall|c: int|
                    i <= c < j ==> m.at(c, i as int) == sigma_s(
                        *ts, *kern, noise as int, jit as int, c, i as int),
            decreases n - j,
        {
            let rj = ts.x.row(j);
            let c = kern.covariance(&ri, &rj);
            if i == j {
                m.put(i, i, fx_add(fx_add(c, noise), jit));
            } else {
                m.put(i, j, c);
                m.put(j, i, c);
            }
            j = j + 1;
        }
        i = i + 1;
    }
    proof {
        assert(mat_seq(m) =~~= sigma_seq(*ts, *kern, noise as int, jit as int));
    }
    m
}

/// Partial inner product of rows i and j of the Cholesky factor of `a`:
/// the sum over the first k columns.
pub open spec fn chol_dot(a: Seq<Seq<int>>, i: int, j: int, k: int) -> int
    decreases k, 0int, 0int, 0int,
{
    if k <= 0 {
        0
    } else {
        fx_add_s(
            chol_dot(a, i, j, k - 1),
            fx_mul_s(chol_entry(a, i, k - 1), chol_entry(a, j, k - 1)),
        )
    }
}

/// Entry (i, j) of the Cholesky factor of `a`, taken as 0 wherever a pivot
/// fails; `chol_ok` says whether every pivot succeeds.
pub open spec fn chol_entry(a: Seq<Seq<int>>, i: int, j: int) -> int
    decreases j, 1int, i, 0int,
{
    if i < 0 || j < 0 || i < j {
        0
    } else if i == j {
        let d = fx_sub_s(a[j][j], chol_dot(a, j, j, j));
        if d > 0 {
            fx_sqrt_s(d)
        } else {
            0
        }
    } else {
        let piv = chol_entry(a, j, j);
        if piv > 0 {
            fx_div_s(fx_sub_s(a[i][j], chol_dot(a, i, j, j)), piv)
        } else {
            0
        }
    }
}

/// The pivot of column j is positive.
pub open spec fn chol_pivot_ok(a: Seq<Seq<int>>, j: int) -> bool {
    fx_sub_s(a[j][j], chol_dot(a, j, j, j)) > 0
}

/// Every pivot of the factorization is positive: `a` factors as L L^T.
pub open spec fn chol_ok(a: Seq<Seq<int>>) -> bool {
    forall|j: int| 0 <= j < a.len() ==> chol_pivot_ok(a, j)
}

/// A positive pivot gives a diagonal entry of at least one unit.
pub proof fn lemma_chol_diag_pos(a: Seq<Seq<int>>, j: int)
    requires
        0 <= j,
        chol_pivot_ok(a, j),
    ensures
        chol_entry(a, j, j) >= 1,
{
    let d = fx_sub_s(a[j][j], chol_dot(a, j, j, j));
    assert(d * 1_000_000 >= 1_000_000) by (nonlinear_arith)
        requires
            d >= 1,
    ;
    lemma_sqrt_pos(d * 1_000_000);
}

/// Attempt a Cholesky factorization; `None` exactly when some pivot fails.
pub fn cholesky_attempt(m: &Matrix) -> (res: Option<Matrix>)
    requires
        m.wf(),
        m.rows == m.cols,
        m.rows <= MAX_ROWS,
    ensures
        match res {
            Some(l) => {
                &&& chol_ok(mat_seq(*m))
                &&& l.wf()
                &&& l.rows == m.rows
                &&& l.cols == m.rows
                &&& forall|i: int, j: int|
                    0 <= i < m.rows && 0 <= j < m.rows ==> l.at(i, j) == chol_entry(
                        mat_seq(*m), i, j)
            },
            None => !chol_ok(mat_seq(*m)),
        },
{
    let ghost a = mat_seq(*m);
    let n = m.rows;
    proof {
        assert(n as int * n as int <= 10_000 * 10_000) by (nonlinear_arith)
            requires
                0 <= n as int <= 10_000,
        ;
    }
    let mut l = Matrix::zero(n, n);
    let mut j: usize = 0;
    while j < n
        invariant
            m.wf(),
            m.rows == n,
            m.cols == n,
            n <= MAX_ROWS,
            a == mat_seq(*m),
            l.wf(),
            l.rows == n,
            l.cols == n,
            j <= n,
            forall|jj: int| 0 <= jj < j ==> chol_pivot_ok(a, jj),
            forall|r: int, c: int|
                0 <= r < n && 0 <= c < j ==> l.at(r, c) == chol_entry(a, r, c),
            forall|r: int, c: int|
                0 <= r < n && j <= c < n ==> l.at(r, c) == 0,
        decreases n - j,
    {
        // pivot of column j
        let mut acc: i64 = 0;
        let mut t: usize = 0;
        while t < j
            invariant
                m.wf(),
                m.rows == n,
                m.cols == n,
                a == mat_seq(*m),
                l.wf(),
                l.rows == n,
                l.cols == n,
                t <= j < n,
                forall|r: int, c: int|
                    0 <= r < n && 0 <= c < j ==> l.at(r, c) == chol_entry(a, r, c),
                acc as int == chol_dot(a, j as int, j as int, t as int),
            decreases j - t,
        {
            let v = l.get(j, t);
            acc = fx_add(acc, fx_mul(v, v));
            t = t + 1;
        }
        let d = fx_sub(m.get(j, j), acc);
        if d <= 0 {
            proof {
                assert(!chol_pivot_ok(a, j as int));
            }
            return None;
        }
        let piv = fx_sqrt(d);
        proof {
            lemma_chol_diag_pos(a, j as int);
            assert(piv as int == chol_entry(a, j as int, j as int));
        }
        l.put(j, j, piv);
        let mut i: usize = j + 1;
        while i < n
            invariant
                m.wf(),
                m.rows == n,
                m.cols == n,
                a == mat_seq(*m),
                l.wf(),
                l.rows == n,
                l.cols == n,
                j < n,
                j + 1 <= i <= n,
                piv as int == chol_entry(a, j as int, j as int),
                piv >= 1,
                chol_pivot_ok(a, j as int),
                forall|r: int, c: int|
                    0 <= r < n && 0 <= c < j ==> l.at(r, c) == chol_entry(a, r, c),
                l.at(j as int, j as int) == chol_entry(a, j as int, j as int),
                forall|r: int| j < r < i ==> l.at(r, j as int) == chol_entry(a, r, j as int),
                forall|r: int| 0 <= r < n && (i <= r < n || r < j) ==> l.at(r, j as int) == 0,
                forall|r: int, c: int|
                    0 <= r < n && j < c < n ==> l.at(r, c) == 0,
            decreases n - i,
        {
            let mut acc2: i64 = 0;
            let mut t2: usize = 0;
            while t2 < j
                invariant
                    m.wf(),
                    m.rows == n,
                    m.cols == n,
                    a == mat_seq(*m),
                    l.wf(),
                    l.rows == n,
                    l.cols == n,
                    t2 <= j < n,
                    j < i < n,
                    forall|r: int, c: int|
                        0 <= r < n && 0 <= c < j ==> l.at(r, c) == chol_entry(a, r, c),
                    acc2 as int == chol_dot(a, i as int, j as int, t2 as int),
                decreases j - t2,
            {
                acc2 = fx_add(acc2, fx_mul(l.get(i, t2), l.get(j, t2)));
                t2 = t2 + 1;
            }
            let num = fx_sub(m.get(i, j), acc2);
            let v = fx_div(num, piv);
            proof {
                assert(v as int == chol_entry(a, i as int, j as int));
            }
            l.put(i, j, v);
            i = i + 1;
        }
        j = j + 1;
    }
    Some(l)
}

/// The jitter schedule from `jit` on (doubling, capped at `cap`) reaches a
/// value whose covariance matrix factorizes.
pub open spec fn jitter_chain_ok(
    ts: TrainingSet,
    kern: Kernel,
    noise: int,
    jit: int,
    cap: int,
) -> bool
    decreases cap - jit when 1 <= jit
{
    if chol_ok(sigma_seq(ts, kern, noise, jit)) {
        true
    } else if 2 * jit > cap {
        false
    } else {
        jitter_chain_ok(ts, kern, noise, 2 * jit, cap)
    }
}

/// The first jitter of the schedule whose covariance matrix factorizes.
pub open spec fn jitter_chain_used(
    ts: TrainingSet,
    kern: Kernel,
    noise: int,
    jit: int,
    cap: int,
) -> int
    decreases cap - jit when 1 <= jit
{
    if chol_ok(sigma_seq(ts, kern, noise, jit)) {
        jit
    } else if 2 * jit > cap {
        0
    } else {
        jitter_chain_used(ts, kern, noise, 2 * jit, cap)
    }
}

/// Some jitter — none, or one of the growing schedule — lets the
/// covariance matrix factorize.
pub open spec fn factorize_ok(
    ts: TrainingSet,
    kern: Kernel,
    noise: int,
    j0: int,
    cap: int,
) -> bool {
    chol_ok(sigma_seq(ts, kern, noise, 0)) || jitter_chain_ok(ts, kern, noise, j0, cap)
}

/// The jitter a successful factorization uses: zero if none is needed,
/// else the first of the schedule that succeeds.
pub open spec fn factorize_jitter(
    ts: TrainingSet,
    kern: Kernel,
    noise: int,
    j0: int,
    cap: int,
) -> int {
    if chol_ok(sigma_seq(ts, kern, noise, 0)) {
        0
    } else {
        jitter_chain_used(ts, kern, noise, j0, cap)
    }
}

/// Factorize K(X, X) + noise I, retrying with growing diagonal jitter up to
/// `cap`; fails with `NumericalInstability` exactly when no jitter of the
/// schedule gives positive pivots.
pub fn factorize(ts: &TrainingSet, kern: &Kernel, noise: i64, j0: i64, cap: i64) -> (res: Result<
    (Matrix, i64),
    GpError,
>)
    requires
        ts.wf(),
        kern.wf(ts.d()),
        1 <= j0 <= cap,
    ensures
        match res {
            Ok(p) => {
                &&& factorize_ok(*ts, *kern, noise as int, j0 as int, cap as int)
                &&& p.1 >= 0
                &&& p.1 as int == factorize_jitter(*ts, *kern, noise as int, j0 as int, cap as int)
                &&& chol_ok(sigma_seq(*ts, *kern, noise as int, p.1 as int))
                &&& p.0.wf()
                &&& p.0.rows == ts.x.rows
                &&& p.0.cols == ts.x.rows
                &&& forall|i: int, j: int|
                    0 <= i < ts.n() && 0 <= j < ts.n() ==> p.0.at(i, j) == chol_entry(
                        sigma_seq(*ts, *kern, noise as int, p.1 as int), i, j)
                &&& forall|j: int| 0 <= j < ts.n() ==> #[trigger] p.0.at(j, j) >= 1
            },
            Err(e) => {
                &&& e == GpError::NumericalInstability
                &&& !factorize_ok(*ts, *kern, noise as int, j0 as int, cap as int)
            },
        },
{
    let m0 = build_covariance(ts, kern, noise, 0);
    let r0 = cholesky_attempt(&m0);
    match r0 {
        Some(l) => {
            proof {
                lemma_chol_factor_diag(sigma_seq(*ts, *kern, noise as int, 0), l);
            }
            return Ok((l, 0));
        },
        None => {},
    }
    let mut jit: i64 = j0;
    loop
        invariant
            ts.wf(),
            kern.wf(ts.d()),
            1 <= j0 <= cap,
            j0 <= jit <= cap,
            !chol_ok(sigma_seq(*ts, *kern, noise as int, 0)),
            jitter_chain_ok(*ts, *kern, noise as int, jit as int, cap as int)
                == jitter_chain_ok(*ts, *kern, noise as int, j0 as int, cap as int),
            jitter_chain_used(*ts, *kern, noise as int, jit as int, cap as int)
                == jitter_chain_used(*ts, *kern, noise as int, j0 as int, cap as int),
        decreases cap - jit,
    {
        let m = build_covariance(ts, kern, noise, jit);
        let r = cholesky_attempt(&m);
        match r {
            Some(l) => {
                proof {
                    lemma_chol_factor_diag(sigma_seq(*ts, *kern, noise as int, jit as int), l);
                }
                return Ok((l, jit));
            },
            None => {},
        }
        let half = crate::fixed::tdiv_nonneg(cap, 2);
        if jit > half {
            proof {
                vstd::arithmetic::div_mod::lemma_fundamental_div_mod(cap as int, 2);
            }
            return Err(GpError::NumericalInstability);
        }
        proof {
            vstd::arithmetic::div_mod::lemma_fundamental_div_mod(cap as int, 2);
        }
        jit = 2 * jit;
    }
}

/// Successful factors have a positive diagonal.
pub proof fn lemma_chol_factor_diag(a: Seq<Seq<int>>, l: Matrix)
    requires
        chol_ok(a),
        a.len() == l.rows,
        l.rows == l.cols,
        forall|i: int, j: int|
            0 <= i < l.rows && 0 <= j < l.rows ==> l.at(i, j) == chol_entry(a, i, j),
    ensures
        forall|j: int| 0 <= j < l.rows ==> #[trigger] l.at(j, j) >= 1,
{
    assert forall|j: int| 0 <= j < l.rows implies #[trigger] l.at(j, j) >= 1 by {
        assert(chol_pivot_ok(a, j));
        lemma_chol_diag_pos(a, j);
    }
}

/// Reconstructing L L^T from the computed Cholesky factor matches the
/// factored matrix entry by entry within an explicit rounding tolerance:
/// for j <= i the reconstructed entry, the factor's own fixed-point inner
/// product over columns up to j, differs from a[i][j] by at most
/// (2 L[j][j] + 1) / SCALE + 2. The hypotheses say only that the four
/// arithmetic steps of that entry did not saturate.
pub proof fn lemma_reconstruction(a: Seq<Seq<int>>, i: int, j: int)
    requires
        chol_ok(a),
        0 <= j <= i < a.len(),
        fx_sub_s(a[i][j], chol_dot(a, i, j, j)) == a[i][j] - chol_dot(a, i, j, j),
        i > j ==> chol_entry(a, i, j) == crate::fixed::tdiv(
            (a[i][j] - chol_dot(a, i, j, j)) * (crate::fixed::SCALE as int),
            chol_entry(a, j, j),
        ),
        fx_mul_s(chol_entry(a, i, j), chol_entry(a, j, j)) == crate::fixed::tdiv(
            chol_entry(a, i, j) * chol_entry(a, j, j),
            crate::fixed::SCALE as int,
        ),
        fx_add_s(
            chol_dot(a, i, j, j),
            fx_mul_s(chol_entry(a, i, j), chol_entry(a, j, j)),
        ) == chol_dot(a, i, j, j) + fx_mul_s(chol_entry(a, i, j), chol_entry(a, j, j)),
    ensures
        (chol_dot(a, i, j, j + 1) - a[i][j]) * (crate::fixed::SCALE as int) <= 2 * chol_entry(
            a, j, j) + 1 + 2 * (crate::fixed::SCALE as int),
        -(2 * chol_entry(a, j, j) + 1 + 2 * (crate::fixed::SCALE as int)) <= (chol_dot(
            a, i, j, j + 1) - a[i][j]) * (crate::fixed::SCALE as int),
{
    let sc = crate::fixed::SCALE as int;
    let dot = chol_dot(a, i, j, j);
    let piv = chol_entry(a, j, j);
    let m = fx_mul_s(chol_entry(a, i, j), piv);
    assert(chol_pivot_ok(a, j));
    lemma_chol_diag_pos(a, j);
    assert(chol_dot(a, i, j, j + 1) == fx_add_s(dot, m));
    assert(chol_dot(a, i, j, j + 1) == dot + m);
    if i == j {
        let d = a[j][j] - dot;
        assert(d >= 1);
        assert(piv == fx_sqrt_s(d));
        assert(d * sc >= sc) by (nonlinear_arith)
            requires
                d >= 1,
                sc == 1_000_000,
        ;
        crate::fixed::lemma_sqrt_floor(d * sc);
        assert(m == crate::fixed::tdiv(piv * piv, sc));
        crate::fixed::lemma_tdiv_mul_range(piv * piv, sc);
        assert((piv + 1) * (piv + 1) == piv * piv + 2 * piv + 1) by (nonlinear_arith);
        assert((dot + m - a[i][j]) * sc == m * sc - d * sc) by (nonlinear_arith)
            requires
                d == a[i][j] - dot,
        ;
        assert(m * sc == sc * m) by (nonlinear_arith);
    } else {
        let w = a[i][j] - dot;
        let q = chol_entry(a, i, j);
        assert(q == crate::fixed::tdiv(w * sc, piv));
        crate::fixed::lemma_tdiv_mul_range(w * sc, piv);
        assert(m == crate::fixed::tdiv(q * piv, sc));
        crate::fixed::lemma_tdiv_mul_range(q * piv, sc);
        assert((dot + m - a[i][j]) * sc == m * sc - w * sc) by (nonlinear_arith)
            requires
                w == a[i][j] - dot,
        ;
        assert(m * sc == sc * m) by (nonlinear_arith);
        assert(piv * q == q * piv) by (nonlinear_arith);
        assert(-(piv + sc) < m * sc - w * sc < piv + sc) by (nonlinear_arith)
            requires
                -piv < w * sc - piv * q < piv,
                -sc < q * piv - sc * m < sc,
                piv * q == q * piv,
                m * sc == sc * m,
        ;
        assert(piv + sc <= 2 * piv + 1 + 2 * sc);
    }
}

/// Partial sum for forward substitution: sum over the first k columns of
/// L[i][t] * y[t].
pub open spec fn fsub_dot(l: Seq<Seq<int>>, b: Seq<int>, i: int, k: int) -> int
    decreases k, 0int,
{
    if k <= 0 {
        0
    } else {
        fx_add_s(fsub_dot(l, b, i, k - 1), fx_mul_s(l[i][k - 1], fsub_entry(l, b, k - 1)))
    }
}

/// Entry i of the solution of L y = b by forward substitution.
pub open spec fn fsub_entry(l: Seq<Seq<int>>, b: Seq<int>, i: int) -> int
    decreases i, 1int,
{
    if i < 0 {
        0
    } else if l[i][i] > 0 {
        fx_div_s(fx_sub_s(b[i], fsub_dot(l, b, i, i)), l[i][i])
    } else {
        0
    }
}

/// The solution of L y = b by forward substitution, as a sequence.
pub open spec fn solve_lower_s(l: Seq<Seq<int>>, b: Seq<int>) -> Seq<int> {
    Seq::new(l.len(), |i: int| fsub_entry(l, b, i))
}

/// Solve L y = b by forward substitution against a lower-triangular factor
/// with positive diagonal.
pub fn solve_lower(l: &Matrix, b: &Vec<i64>) -> (y: Vec<i64>)
    requires
        l.wf(),
        l.rows == l.cols,
        b.len() == l.rows,
        forall|j: int| 0 <= j < l.rows ==> #[trigger] l.at(j, j) >= 1,
    ensures
        y.len() == l.rows,
        forall|i: int|
            0 <= i < l.rows ==> #[trigger] y[i] as int == fsub_entry(
                mat_seq(*l), seq_vals(b@), i),
        seq_vals(y@) == solve_lower_s(mat_seq(*l), seq_vals(b@)),
{
    let ghost la = mat_seq(*l);
    let ghost bs = seq_vals(b@);
    let n = l.rows;
    let mut y: Vec<i64> = Vec::new();
    let mut i: usize = 0;
    while i < n
        invariant
            l.wf(),
            l.rows == n,
            l.cols == n,
            b.len() == n,
            la == mat_seq(*l),
            bs == seq_vals(b@),
            forall|j: int| 0 <= j < n ==> #[trigger] l.at(j, j) >= 1,
            i <= n,
            y.len() == i,
            forall|t: int| 0 <= t < i ==> #[trigger] y[t] as int == fsub_entry(la, bs, t),
        decreases n - i,
    {
        let mut acc: i64 = 0;
        let mut t: usize = 0;
        while t < i
            invariant
                l.wf(),
                l.rows == n,
                l.cols == n,
                b.len() == n,
                la == mat_seq(*l),
                bs == seq_vals(b@),
                t <= i < n,
                y.len() == i,
                forall|u: int| 0 <= u < i ==> #[trigger] y[u] as int == fsub_entry(la, bs, u),
                acc as int == fsub_dot(la, bs, i as int, t as int),
            decreases i - t,
        {
            acc = fx_add(acc, fx_mul(l.get(i, t), y[t]));
            t = t + 1;
        }
        let v = fx_div(fx_sub(b[i], acc), l.get(i, i));
        y.push(v);
        i = i + 1;
    }
    proof {
        assert(seq_vals(y@) =~= solve_lower_s(la, bs));
    }
    y
}

/// Partial sum for back substitution: sum over rows t in [k, n) of
/// L[t][i] * x[t].
pub open spec fn bsub_dot(l: Seq<Seq<int>>, b: Seq<int>, n: int, i: int, k: int) -> int
    decreases n - k, 1int,
{
    if k >= n {
        0
    } else {
        fx_add_s(fx_mul_s(l[k][i], bsub_entry(l, b, n, k)), bsub_dot(l, b, n, i, k + 1))
    }
}

/// Entry i of the solution of L^T x = b by back substitution.
pub open spec fn bsub_entry(l: Seq<Seq<int>>, b: Seq<int>, n: int, i: int) -> int
    decreases n - i, 0int,
{
    if i < 0 || i >= n {
        0
    } else if l[i][i] > 0 {
        fx_div_s(fx_sub_s(b[i], bsub_dot(l, b, n, i, i + 1)), l[i][i])
    } else {
        0
    }
}

/// The solution of L^T x = b by back substitution, as a sequence.
pub open spec fn solve_lower_transpose_s(l: Seq<Seq<int>>, b: Seq<int>) -> Seq<int> {
    Seq::new(l.len(), |i: int| bsub_entry(l, b, l.len() as int, i))
}

/// Applying the inverse of L L^T to a vector, through the two triangular
/// solves.
pub open spec fn sigma_solve_s(l: Seq<Seq<int>>, b: Seq<int>) -> Seq<int> {
    solve_lower_transpose_s(l, solve_lower_s(l, b))
}

/// Solve L^T x = b by back substitution against a lower-triangular factor
/// with positive diagonal.
pub fn solve_lower_transpose(l: &Matrix, b: &Vec<i64>) -> (x: Vec<i64>)
    requires
        l.wf(),
        l.rows == l.cols,
        b.len() == l.rows,
        forall|j: int| 0 <= j < l.rows ==> #[trigger] l.at(j, j) >= 1,
    ensures
        x.len() == l.rows,
        forall|i: int|
            0 <= i < l.rows ==> #[trigger] x[i] as int == bsub_entry(
                mat_seq(*l), seq_vals(b@), l.rows as int, i),
        seq_vals(x@) == solve_lower_transpose_s(mat_seq(*l), seq_vals(b@)),
{
    let ghost la = mat_seq(*l);
    let ghost bs = seq_vals(b@);
    let n = l.rows;
    // Allocate zeroes, then fill from the last entry down.
    let mut x: Vec<i64> = Vec::new();
    let mut k: usize = 0;
    while k < n
        invariant
            k <= n,
            x.len() == k,
        decreases n - k,
    {
        x.push(0);
        k = k + 1;
    }
    let mut i: usize = n;
    while i > 0
        invariant
            l.wf(),
            l.rows == n,
            l.cols == n,
            b.len() == n,
            la == mat_seq(*l),
            bs == seq_vals(b@),
            forall|j: int| 0 <= j < n ==> #[trigger] l.at(j, j) >= 1,
            i <= n,
            x.len() == n,
            forall|t: int| i <= t < n ==> #[trigger] x[t] as int == bsub_entry(la, bs, n as int, t),
        decreases i,
    {
        let r = i - 1;
        let mut acc: i64 = 0;
        let mut t: usize = n;
        while t > r + 1
            invariant
                l.wf(),
                l.rows == n,
                l.cols == n,
                b.len() == n,
                la == mat_seq(*l),
                bs == seq_vals(b@),
                r < n,
                r + 1 <= t <= n,
                x.len() == n,
                forall|u: int| r < u < n ==> #[trigger] x[u] as int == bsub_entry(la, bs, n as int, u),
                acc as int == bsub_dot(la, bs, n as int, r as int, t as int),
            decreases t,
        {
            let s = t - 1;
            acc = fx_add(acc, fx_mul(l.get(s, r), x[s]));
            t = s;
        }
        let v = fx_div(fx_sub(b[r], acc), l.get(r, r));
        x.set(r, v);
        i = r;
    }
    proof {
        assert(seq_vals(x@) =~= solve_lower_transpose_s(la, bs));
    }
    x
}

/// Apply the inverse of L L^T to a vector through two triangular solves.
pub fn sigma_solve(l: &Matrix, b: &Vec<i64>) -> (x: Vec<i64>)
    requires
        l.wf(),
        l.rows == l.cols,
        b.len() == l.rows,
        forall|j: int| 0 <= j < l.rows ==> #[trigger] l.at(j, j) >= 1,
    ensures
        x.len() == l.rows,
        seq_vals(x@) == sigma_solve_s(mat_seq(*l), seq_vals(b@)),
{
    let y = solve_lower(l, b);
    solve_lower_transpose(l, &y)
}

/// Saturating sum of the logarithms of the first k diagonal entries.
pub open spec fn logdiag_rec(l: Seq<Seq<int>>, k: int) -> int
    decreases k,
{
    if k <= 0 {
        0
    } else {
        fx_add_s(logdiag_rec(l, k - 1), fx_ln_s(l[k - 1][k - 1]))
    }
}

/// Log-determinant of L L^T: twice the sum of the logs of L's diagonal.
pub open spec fn logdet_s(l: Seq<Seq<int>>, n: int) -> int {
    fx_add_s(logdiag_rec(l, n), logdiag_rec(l, n))
}

/// Log-determinant of L L^T from the factor's diagonal.
pub fn logdet(l: &Matrix) -> (r: i64)
    requires
        l.wf(),
        l.rows == l.cols,
        forall|j: int| 0 <= j < l.rows ==> #[trigger] l.at(j, j) >= 1,
    ensures
        r as int == logdet_s(mat_seq(*l), l.rows as int),
{
    let ghost la = mat_seq(*l);
    let n = l.rows;
    let mut acc: i64 = 0;
    let mut k: usize = 0;
    while k < n
        invariant
            l.wf(),
            l.rows == n,
            l.cols == n,
            la == mat_seq(*l),
            forall|j: int| 0 <= j < n ==> #[trigger] l.at(j, j) >= 1,
            k <= n,
            acc as int == logdiag_rec(la, k as int),
        decreases n - k,
    {
        acc = fx_add(acc, fx_ln(l.get(k, k)));
        k = k + 1;
    }
    fx_add(acc, acc)
}

} // verus!
