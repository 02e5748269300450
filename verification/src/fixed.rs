//! Saturating fixed-point arithmetic.
//!
//! A fixed-point number is an `i64` whose real value is the integer divided
//! by `SCALE`. Multiplication and division round toward zero; every result
//! is clamped into `[-FX_MAX, FX_MAX]`, so the operations are total and
//! never overflow.

use vstd::prelude::*;

verus! {

/// Number of integer units that stand for 1.0.
pub const SCALE: i64 = 1_000_000;

/// Largest magnitude of a fixed-point value; results saturate here.
pub const FX_MAX: i64 = 9_000_000_000_000_000_000;

/// Clamp a mathematical integer into the representable fixed-point range.
pub open spec fn fx_clamp(v: int) -> int {
    if v > FX_MAX as int {
        FX_MAX as int
    } else if v < -(FX_MAX as int) {
        -(FX_MAX as int)
    } else {
        v
    }
}

/// Truncating (round-toward-zero) division by a positive divisor.
pub open spec fn tdiv(a: int, b: int) -> int
    recommends
        b > 0,
{
    if a >= 0 {
        a / b
    } else {
        -((-a) / b)
    }
}

/// Saturating fixed-point addition.
pub open spec fn fx_add_s(a: int, b: int) -> int {
    fx_clamp(a + b)
}

/// Saturating fixed-point subtraction.
pub open spec fn fx_sub_s(a: int, b: int) -> int {
    fx_clamp(a - b)
}

/// Saturating fixed-point multiplication, rounding toward zero.
pub open spec fn fx_mul_s(a: int, b: int) -> int {
    fx_clamp(tdiv(a * b, SCALE as int))
}

/// Saturating fixed-point division, rounding toward zero; divisor positive.
pub open spec fn fx_div_s(a: int, b: int) -> int
    recommends
        b > 0,
{
    fx_clamp(tdiv(a * (SCALE as int), b))
}

/// Floor of the square root of a nonnegative integer.
pub open spec fn sqrt_floor(n: int) -> int
    decreases n,
{
    if n <= 0 {
        0
    } else {
        let r = sqrt_floor(n - 1);
        if (r + 1) * (r + 1) <= n {
            r + 1
        } else {
            r
        }
    }
}

/// Fixed-point square root: the floor of sqrt(a / SCALE) in fixed point.
pub open spec fn fx_sqrt_s(a: int) -> int
    recommends
        a >= 0,
{
    sqrt_floor(a * (SCALE as int))
}

pub proof fn lemma_sqrt_floor(n: int)
    requires
        n >= 0,
    ensures
        sqrt_floor(n) >= 0,
        sqrt_floor(n) * sqrt_floor(n) <= n,
        n < (sqrt_floor(n) + 1) * (sqrt_floor(n) + 1),
    decreases n,
{
    if n == 0 {
    } else {
        lemma_sqrt_floor(n - 1);
        let r = sqrt_floor(n - 1);
        assert(sqrt_floor(n) * sqrt_floor(n) <= n && n < (sqrt_floor(n) + 1) * (sqrt_floor(n)
            + 1)) by (nonlinear_arith)
            requires
                r >= 0,
                r * r <= n - 1,
                n - 1 < (r + 1) * (r + 1),
                sqrt_floor(n) == if (r + 1) * (r + 1) <= n { r + 1 } else { r },
        ;
    }
}

pub proof fn lemma_sqrt_unique(n: int, r: int)
    requires
        n >= 0,
        r >= 0,
        r * r <= n,
        n < (r + 1) * (r + 1),
    ensures
        r == sqrt_floor(n),
{
    lemma_sqrt_floor(n);
    let s = sqrt_floor(n);
    assert(r == s) by (nonlinear_arith)
        requires
            r >= 0,
            s >= 0,
            r * r <= n,
            n < (r + 1) * (r + 1),
            s * s <= n,
            n < (s + 1) * (s + 1),
    ;
}

/// The square root of a positive value is positive.
pub proof fn lemma_sqrt_pos(n: int)
    requires
        n >= 1,
    ensures
        sqrt_floor(n) >= 1,
{
    lemma_sqrt_floor(n);
    let r = sqrt_floor(n);
    assert(r >= 1) by (nonlinear_arith)
        requires
            r >= 0,
            n >= 1,
            n < (r + 1) * (r + 1),
    ;
}

/// Truncating division stays within the magnitude of the dividend.
pub proof fn lemma_tdiv_bounds(a: int, b: int)
    requires
        b > 0,
    ensures
        a >= 0 ==> 0 <= tdiv(a, b) <= a,
        a < 0 ==> a <= tdiv(a, b) <= 0,
        b == 1 ==> tdiv(a, b) == a,
{
    if a >= 0 {
        vstd::arithmetic::div_mod::lemma_div_is_ordered_by_denominator(a, 1, b);
        vstd::arithmetic::div_mod::lemma_div_basics(a);
        vstd::arithmetic::div_mod::lemma_div_pos_is_pos(a, b);
    } else {
        vstd::arithmetic::div_mod::lemma_div_is_ordered_by_denominator(-a, 1, b);
        vstd::arithmetic::div_mod::lemma_div_basics(-a);
        vstd::arithmetic::div_mod::lemma_div_pos_is_pos(-a, b);
    }
}

/// Multiplying a truncated quotient back differs from the dividend by
/// less than the divisor.
pub proof fn lemma_tdiv_mul_range(x: int, b: int)
    requires
        b > 0,
    ensures
        -b < x - b * tdiv(x, b),
        x - b * tdiv(x, b) < b,
{
    if x >= 0 {
        vstd::arithmetic::div_mod::lemma_fundamental_div_mod(x, b);
        vstd::arithmetic::div_mod::lemma_mod_bound(x, b);
    } else {
        vstd::arithmetic::div_mod::lemma_fundamental_div_mod(-x, b);
        vstd::arithmetic::div_mod::lemma_mod_bound(-x, b);
        assert(b * -((-x) / b) == -(b * ((-x) / b))) by (nonlinear_arith);
    }
}

/// Truncating division is monotone in the dividend and antitone in the
/// divisor, on nonnegative dividends.
pub proof fn lemma_tdiv_ordered(a1: int, a2: int, b1: int, b2: int)
    requires
        0 <= a1 <= a2,
        0 < b1 <= b2,
    ensures
        tdiv(a1, b2) <= tdiv(a2, b2),
        tdiv(a1, b2) <= tdiv(a1, b1),
{
    vstd::arithmetic::div_mod::lemma_div_is_ordered(a1, a2, b2);
    vstd::arithmetic::div_mod::lemma_div_is_ordered_by_denominator(a1, b1, b2);
}

pub fn fx_clamp_i128(v: i128) -> (r: i64)
    ensures
        r as int == fx_clamp(v as int),
{
    if v > FX_MAX as i128 {
        FX_MAX
    } else if v < -(FX_MAX as i128) {
        -FX_MAX
    } else {
        v as i64
    }
}

fn div_trunc_i128(a: i128, b: i128) -> (r: i128)
    requires
        b > 0,
        a != i128::MIN,
    ensures
        r as int == tdiv(a as int, b as int),
        a >= 0 ==> 0 <= r <= a,
        a < 0 ==> a <= r <= 0,
{
    proof {
        lemma_tdiv_bounds(a as int, b as int);
    }
    if a >= 0 {
        let q: u128 = (a as u128) / (b as u128);
        q as i128
    } else {
        let q: u128 = ((-a) as u128) / (b as u128);
        -(q as i128)
    }
}

/// Saturating fixed-point addition.
pub fn fx_add(a: i64, b: i64) -> (r: i64)
    ensures
        r as int == fx_add_s(a as int, b as int),
{
    let s: i128 = a as i128 + b as i128;
    fx_clamp_i128(s)
}

/// Saturating fixed-point subtraction.
pub fn fx_sub(a: i64, b: i64) -> (r: i64)
    ensures
        r as int == fx_sub_s(a as int, b as int),
{
    let s: i128 = a as i128 - b as i128;
    fx_clamp_i128(s)
}

/// Saturating fixed-point multiplication.
pub fn fx_mul(a: i64, b: i64) -> (r: i64)
    ensures
        r as int == fx_mul_s(a as int, b as int),
{
    proof {
        assert(-0x40000000000000000000000000000000int <= (a as int) * (b as int)
            <= 0x40000000000000000000000000000000int) by (nonlinear_arith)
            requires
                -0x8000000000000000int <= a as int <= 0x7fffffffffffffffint,
                -0x8000000000000000int <= b as int <= 0x7fffffffffffffffint,
        ;
    }
    let p: i128 = (a as i128) * (b as i128);
    let q: i128 = div_trunc_i128(p, SCALE as i128);
    fx_clamp_i128(q)
}

/// Saturating fixed-point division by a positive divisor.
pub fn fx_div(a: i64, b: i64) -> (r: i64)
    requires
        b > 0,
    ensures
        r as int == fx_div_s(a as int, b as int),
{
    proof {
        assert(-0x40000000000000000000000000000000int <= (a as int) * (SCALE as int)
            <= 0x40000000000000000000000000000000int) by (nonlinear_arith)
            requires
                -0x8000000000000000int <= a as int <= 0x7fffffffffffffffint,
                SCALE as int == 1_000_000int,
        ;
    }
    let p: i128 = (a as i128) * (SCALE as i128);
    let q: i128 = div_trunc_i128(p, b as i128);
    fx_clamp_i128(q)
}

fn isqrt_u128(n: u128) -> (r: u128)
    requires
        n < 0x10000000000000000000000000,  // 2^100
    ensures
        r * r <= n < (r + 1) * (r + 1),
{
    let mut lo: u128 = 0;
    let mut hi: u128 = 0x4000000000000;  // 2^50
    proof {
        assert(0x4000000000000int * 0x4000000000000int == 0x10000000000000000000000000int)
            by (nonlinear_arith);
    }
    while lo + 1 < hi
        invariant
            lo < hi <= 0x4000000000000,
            (lo as int) * (lo as int) <= n as int,
            (n as int) < (hi as int) * (hi as int),
        decreases hi - lo,
    {
        let mid: u128 = lo + (hi - lo) / 2;
        assert(lo < mid < hi);
        proof {
            assert((mid as int) * (mid as int) < 0x10000000000000000000000000int)
                by (nonlinear_arith)
                requires
                    0 <= mid as int,
                    mid as int <= 0x3ffffffffffffint,
            ;
        }
        if mid * mid <= n {
            lo = mid;
        } else {
            hi = mid;
        }
    }
    lo
}

/// Fixed-point square root of a nonnegative value.
pub fn fx_sqrt(a: i64) -> (r: i64)
    requires
        a >= 0,
    ensures
        r as int == fx_sqrt_s(a as int),
        r >= 0,
{
    let n: u128 = (a as u128) * 1_000_000u128;
    let r = isqrt_u128(n);
    proof {
        lemma_sqrt_unique(n as int, r as int);
        assert(r as int <= 3_050_000_000_000int) by (nonlinear_arith)
            requires
                r as int >= 0,
                (r as int) * (r as int) <= n as int,
                n as int <= 9_300_000_000_000_000_000_000_000int,
        ;
    }
    r as i64
}

/// Natural logarithm of 2 in fixed point.
pub const LN2: i64 = 693_147;

/// The mathematical values of a sequence of fixed-point numbers.
pub open spec fn seq_vals(s: Seq<i64>) -> Seq<int> {
    s.map_values(|v: i64| v as int)
}

/// Saturating dot product of the first k coordinates.
pub open spec fn dot_rec(a: Seq<int>, b: Seq<int>, k: int) -> int
    decreases k,
{
    if k <= 0 {
        0
    } else {
        fx_add_s(dot_rec(a, b, k - 1), fx_mul_s(a[k - 1], b[k - 1]))
    }
}

/// Saturating dot product of two equal-length vectors.
pub open spec fn dot_s(a: Seq<int>, b: Seq<int>) -> int {
    dot_rec(a, b, a.len() as int)
}

/// Saturating dot product of two fixed-point vectors.
pub fn dot(a: &Vec<i64>, b: &Vec<i64>) -> (r: i64)
    requires
        a.len() == b.len(),
    ensures
        r as int == dot_s(seq_vals(a@), seq_vals(b@)),
{
    let mut acc: i64 = 0;
    let mut k: usize = 0;
    while k < a.len()
        invariant
            a.len() == b.len(),
            k <= a.len(),
            acc as int == dot_rec(seq_vals(a@), seq_vals(b@), k as int),
        decreases a.len() - k,
    {
        acc = fx_add(acc, fx_mul(a[k], b[k]));
        k = k + 1;
    }
    acc
}

/// Copy a vector of fixed-point values.
pub fn copy_vec(v: &Vec<i64>) -> (r: Vec<i64>)
    ensures
        r@ == v@,
{
    let mut r: Vec<i64> = Vec::new();
    let mut i: usize = 0;
    while i < v.len()
        invariant
            i <= v.len(),
            r@ == v@.take(i as int),
        decreases v.len() - i,
    {
        r.push(v[i]);
        i = i + 1;
    }
    proof {
        assert(v@.take(v.len() as int) =~= v@);
    }
    r
}

/// The square of any fixed-point value is nonnegative.
pub proof fn lemma_fx_square_nonneg(a: int)
    ensures
        fx_mul_s(a, a) >= 0,
{
    assert(a * a >= 0) by (nonlinear_arith);
    lemma_tdiv_bounds(a * a, SCALE as int);
}

/// Logarithm core on [1, 2): two terms of the atanh series for ln.
pub open spec fn ln_core_s(x: int) -> int
    recommends
        SCALE as int <= x < 2 * SCALE as int,
{
    let z = fx_div_s(x - SCALE as int, x + SCALE as int);
    let z2 = fx_mul_s(z, z);
    let z3 = fx_mul_s(z2, z);
    let z5 = fx_mul_s(z3, z2);
    let s = fx_add_s(fx_add_s(z, tdiv(z3, 3)), tdiv(z5, 5));
    fx_add_s(s, s)
}

/// Logarithm of a value below 1, by doubling up into [1, 2).
pub open spec fn ln_up_s(x: int) -> int
    recommends
        1 <= x < SCALE as int,
    decreases SCALE as int - x when 1 <= x < SCALE as int
{
    if 2 * x >= SCALE as int {
        fx_sub_s(ln_core_s(2 * x), LN2 as int)
    } else {
        fx_sub_s(ln_up_s(2 * x), LN2 as int)
    }
}

/// Logarithm of a value at least 1, by halving down into [1, 2).
pub open spec fn ln_down_s(x: int) -> int
    recommends
        x >= SCALE as int,
    decreases x when x >= SCALE as int
{
    if x < 2 * SCALE as int {
        ln_core_s(x)
    } else {
        fx_add_s(ln_down_s(tdiv(x, 2)), LN2 as int)
    }
}

/// Fixed-point natural logarithm of a positive value.
pub open spec fn fx_ln_s(x: int) -> int
    recommends
        x >= 1,
{
    if x < SCALE as int {
        ln_up_s(x)
    } else {
        ln_down_s(x)
    }
}

fn ln_core(x: i64) -> (r: i64)
    requires
        SCALE <= x < 2 * SCALE,
    ensures
        r as int == ln_core_s(x as int),
{
    let z = fx_div(x - SCALE, x + SCALE);
    proof {
        lemma_tdiv_bounds((x - SCALE) as int * SCALE as int, (x + SCALE) as int);
    }
    let z2 = fx_mul(z, z);
    let z3 = fx_mul(z2, z);
    let z5 = fx_mul(z3, z2);
    proof {
        lemma_fx_mul_nonneg(z2 as int, z as int);
        lemma_fx_mul_nonneg(z as int, z as int);
        lemma_fx_mul_nonneg(z3 as int, z2 as int);
    }
    let s = fx_add(fx_add(z, tdiv_nonneg(z3, 3)), tdiv_nonneg(z5, 5));
    fx_add(s, s)
}

fn ln_up(x: i64) -> (r: i64)
    requires
        1 <= x < SCALE,
    ensures
        r as int == ln_up_s(x as int),
    decreases SCALE - x,
{
    if 2 * x >= SCALE {
        fx_sub(ln_core(2 * x), LN2)
    } else {
        fx_sub(ln_up(2 * x), LN2)
    }
}

fn ln_down(x: i64) -> (r: i64)
    requires
        x >= SCALE,
    ensures
        r as int == ln_down_s(x as int),
    decreases x,
{
    if x < 2 * SCALE {
        ln_core(x)
    } else {
        let h = tdiv_nonneg(x, 2);
        fx_add(ln_down(h), LN2)
    }
}

/// Fixed-point natural logarithm of a positive value.
pub fn fx_ln(x: i64) -> (r: i64)
    requires
        x >= 1,
    ensures
        r as int == fx_ln_s(x as int),
{
    if x < SCALE {
        ln_up(x)
    } else {
        ln_down(x)
    }
}

/// Fixed-point approximation of exp(-x) for nonnegative x: the reciprocal
/// of a five-term Taylor polynomial of exp(x). Always in [0, SCALE].
pub open spec fn fx_exp_neg_s(x: int) -> int
    recommends
        x >= 0,
{
    let x2 = fx_mul_s(x, x);
    let x3 = fx_mul_s(x2, x);
    let x4 = fx_mul_s(x2, x2);
    let x5 = fx_mul_s(x4, x);
    let d1 = fx_add_s(SCALE as int, x);
    let d2 = fx_add_s(d1, tdiv(x2, 2));
    let d3 = fx_add_s(d2, tdiv(x3, 6));
    let d4 = fx_add_s(d3, tdiv(x4, 24));
    let d = fx_add_s(d4, tdiv(x5, 120));
    fx_div_s(SCALE as int, d)
}

/// The product of nonnegative fixed-point values is nonnegative.
pub proof fn lemma_fx_mul_nonneg(a: int, b: int)
    requires
        a >= 0,
        b >= 0,
    ensures
        fx_mul_s(a, b) >= 0,
{
    assert(a * b >= 0) by (nonlinear_arith)
        requires
            a >= 0,
            b >= 0,
    ;
    lemma_tdiv_bounds(a * b, SCALE as int);
}

/// Fixed-point approximation of exp(-x) for nonnegative x.
pub fn fx_exp_neg(x: i64) -> (r: i64)
    requires
        x >= 0,
    ensures
        r as int == fx_exp_neg_s(x as int),
        0 <= r <= SCALE,
{
    let x2 = fx_mul(x, x);
    proof {
        lemma_fx_mul_nonneg(x as int, x as int);
    }
    let x3 = fx_mul(x2, x);
    let x4 = fx_mul(x2, x2);
    proof {
        lemma_fx_mul_nonneg(x2 as int, x as int);
        lemma_fx_mul_nonneg(x2 as int, x2 as int);
    }
    let x5 = fx_mul(x4, x);
    proof {
        lemma_fx_mul_nonneg(x4 as int, x as int);
        lemma_tdiv_bounds(x2 as int, 2);
        lemma_tdiv_bounds(x3 as int, 6);
        lemma_tdiv_bounds(x4 as int, 24);
        lemma_tdiv_bounds(x5 as int, 120);
    }
    let d1 = fx_add(SCALE, x);
    let d2 = fx_add(d1, tdiv_nonneg(x2, 2));
    let d3 = fx_add(d2, tdiv_nonneg(x3, 6));
    let d4 = fx_add(d3, tdiv_nonneg(x4, 24));
    let d = fx_add(d4, tdiv_nonneg(x5, 120));
    let r = fx_div(SCALE, d);
    proof {
        lemma_tdiv_ordered(SCALE as int * SCALE as int, SCALE as int * SCALE as int,
            SCALE as int, d as int);
        vstd::arithmetic::div_mod::lemma_div_by_multiple(SCALE as int, SCALE as int);
        lemma_tdiv_bounds(SCALE as int * SCALE as int, d as int);
    }
    r
}

/// Truncating division of any value by a positive divisor.
pub fn tdiv_any(a: i64, b: i64) -> (r: i64)
    requires
        b > 0,
    ensures
        r as int == tdiv(a as int, b as int),
{
    let q = div_trunc_i128(a as i128, b as i128);
    q as i64
}

/// Truncating division of a nonnegative value by a positive constant.
pub fn tdiv_nonneg(a: i64, b: i64) -> (r: i64)
    requires
        a >= 0,
        b > 0,
    ensures
        r as int == tdiv(a as int, b as int),
        0 <= r <= a,
{
    proof {
        lemma_tdiv_bounds(a as int, b as int);
    }
    let q: u128 = (a as u128) / (b as u128);
    q as i64
}

} // verus!
