//! Deterministic fixed-point arithmetic.
//!
//! A fixed-point number represents the real value `x / SCALE`. Every
//! operation here is exact integer arithmetic with floor division, so results
//! are reproducible on every machine — a requirement for a pricing model that
//! gates real fund transfers.

use vstd::prelude::*;

verus! {

/// Minor units per whole currency unit; also the fixed-point scale.
pub const SCALE: u128 = 1_000_000;

/// ln(2) in fixed point.
pub const LN2_FP: u128 = 693_147;

/// Fixed-point product, `a * b / SCALE` with floor division.
pub open spec fn mulf(a: int, b: int) -> int {
    a * b / (SCALE as int)
}

/// Fixed-point quotient, `a * SCALE / b` with floor division.
pub open spec fn divf(a: int, b: int) -> int {
    a * (SCALE as int) / b
}

/// Fixed-point multiplication.
pub fn mul_fp(a: u128, b: u128) -> (r: u128)
    requires
        a * b <= u128::MAX,
    ensures
        r == mulf(a as int, b as int),
{
    (a * b) / SCALE
}

/// Fixed-point multiplication where the second factor is at most one
/// (`b <= SCALE`), so the result is bounded by the first factor.
pub fn mul_le_one(a: u128, b: u128) -> (r: u128)
    requires
        a * b <= u128::MAX,
        b <= SCALE,
    ensures
        r == mulf(a as int, b as int),
        r <= a,
{
    proof {
        vstd::arithmetic::mul::lemma_mul_inequality(b as int, SCALE as int, a as int);
        vstd::arithmetic::div_mod::lemma_div_is_ordered(
            a as int * b as int,
            a as int * SCALE as int,
            SCALE as int,
        );
        vstd::arithmetic::div_mod::lemma_div_by_multiple(a as int, SCALE as int);
    }
    (a * b) / SCALE
}

/// Fixed-point division.
pub fn div_fp(a: u128, b: u128) -> (r: u128)
    requires
        b >= 1,
        a * SCALE <= u128::MAX,
    ensures
        r == divf(a as int, b as int),
{
    (a * SCALE) / b
}

/// Floor of the square root of `v`.
pub open spec fn sqrtf(v: nat) -> nat
    decreases v,
{
    if v == 0 {
        0
    } else {
        let p = sqrtf((v - 1) as nat);
        if (p + 1) * (p + 1) <= v {
            (p + 1) as nat
        } else {
            p
        }
    }
}

pub proof fn lemma_sqrtf_bounds(v: nat)
    ensures
        sqrtf(v) * sqrtf(v) <= v,
        v < (sqrtf(v) + 1) * (sqrtf(v) + 1),
    decreases v,
{
    if v > 0 {
        lemma_sqrtf_bounds((v - 1) as nat);
        let p = sqrtf((v - 1) as nat);
        assert(p * p <= v - 1);
        assert(v - 1 < (p + 1) * (p + 1));
        if (p + 1) * (p + 1) <= v {
            assert(sqrtf(v) == p + 1);
            assert(v == (p + 1) * (p + 1));
            assert(v < (p + 2) * (p + 2)) by (nonlinear_arith)
                requires
                    v == (p + 1) * (p + 1),
            ;
        } else {
            assert(sqrtf(v) == p);
        }
        assert(sqrtf(v) * sqrtf(v) <= v);
        assert(v < (sqrtf(v) + 1) * (sqrtf(v) + 1)) by (nonlinear_arith)
            requires
                sqrtf(v) == p + 1 && v == (p + 1) * (p + 1) || sqrtf(v) == p && v < (p + 1) * (p
                    + 1),
        ;
    } else {
        assert(sqrtf(v) == 0);
        assert(sqrtf(v) * sqrtf(v) <= v);
        assert(v < (sqrtf(v) + 1) * (sqrtf(v) + 1)) by (nonlinear_arith)
            requires
                v == 0,
                sqrtf(v) == 0,
        ;
    }
}

pub proof fn lemma_sqrtf_unique(v: nat, r: nat)
    requires
        r * r <= v,
        v < (r + 1) * (r + 1),
    ensures
        r == sqrtf(v),
{
    lemma_sqrtf_bounds(v);
    let s = sqrtf(v);
    assert(r == s) by (nonlinear_arith)
        requires
            r * r <= v,
            v < (r + 1) * (r + 1),
            s * s <= v,
            v < (s + 1) * (s + 1),
    ;
}

/// Floor integer square root, by binary search.
pub fn isqrt(v: u128) -> (r: u128)
    requires
        v < 0x1000000000000000000000000,
    ensures
        r == sqrtf(v as nat),
        r * r <= v,
        v < (r + 1) * (r + 1),
{
    let mut lo: u128 = 0;
    let mut hi: u128 = 0x1000000000000;
    proof {
        assert(v < hi * hi) by (nonlinear_arith)
            requires
                v < 0x1000000000000000000000000,
                hi == 0x1000000000000,
        ;
    }
    while lo + 1 < hi
        invariant
            lo * lo <= v,
            v < hi * hi,
            lo < hi,
            hi <= 0x1000000000000,
        decreases hi - lo,
    {
        let mid = lo + (hi - lo) / 2;
        proof {
            assert(mid * mid <= u128::MAX) by (nonlinear_arith)
                requires
                    mid < 0x1000000000001,
            ;
        }
        if mid * mid <= v {
            lo = mid;
        } else {
            hi = mid;
        }
    }
    proof {
        lemma_sqrtf_unique(v as nat, lo as nat);
    }
    lo
}

/// `v` halved `n` times, flooring at each step.
pub open spec fn halvef(v: int, n: nat) -> int
    decreases n,
{
    if n == 0 {
        v
    } else {
        halvef(v / 2, (n - 1) as nat)
    }
}

pub proof fn lemma_halvef_bounds(v: int, n: nat)
    requires
        v >= 0,
    ensures
        0 <= halvef(v, n) <= v,
    decreases n,
{
    if n > 0 {
        lemma_halvef_bounds(v / 2, (n - 1) as nat);
    }
}

/// Halve `v` a total of `n` times.
pub fn halve_n(v: u128, n: u64) -> (r: u128)
    ensures
        r == halvef(v as int, n as nat),
        r <= v,
    decreases n,
{
    if n == 0 {
        v
    } else {
        halve_n(v / 2, n - 1)
    }
}

/// `exp(-y)` is below the fixed-point resolution for `y >= EXP_FLOOR` and is
/// taken as zero there.
pub const EXP_FLOOR: u128 = 20_000_000;

/// Steepness of the logistic curve used to approximate the standard normal
/// cumulative distribution, 1.702 in fixed point.
pub const CDF_K: u128 = 1_702_000;

/// One Taylor-series step: `t * x / SCALE / k`, bounded by the previous term.
fn term_step(t: u128, x: u128, k: u128) -> (r: u128)
    requires
        t <= SCALE,
        x <= SCALE,
        1 <= k,
    ensures
        r == mulf(t as int, x as int) / (k as int),
        r <= t,
{
    proof {
        assert(t * x <= u128::MAX) by (nonlinear_arith)
            requires
                t <= SCALE,
                x <= SCALE,
                SCALE == 1_000_000,
        ;
    }
    let m = mul_le_one(t, x);
    proof {
        vstd::arithmetic::div_mod::lemma_div_nonincreasing(m as int, k as int);
    }
    m / k
}

/// Taylor series for `exp(x)` on `0 <= x < ln 2`, in fixed point.
pub open spec fn exp1f(x: int) -> int {
    let t1 = x;
    let t2 = mulf(t1, x) / 2;
    let t3 = mulf(t2, x) / 3;
    let t4 = mulf(t3, x) / 4;
    let t5 = mulf(t4, x) / 5;
    let t6 = mulf(t5, x) / 6;
    let t7 = mulf(t6, x) / 7;
    let t8 = mulf(t7, x) / 8;
    let t9 = mulf(t8, x) / 9;
    let t10 = mulf(t9, x) / 10;
    SCALE + t1 + t2 + t3 + t4 + t5 + t6 + t7 + t8 + t9 + t10
}

proof fn lemma_term_nonneg(t: int, x: int, k: int)
    requires
        0 <= t,
        0 <= x <= SCALE,
        1 <= k,
    ensures
        0 <= mulf(t, x) / k <= t,
{
    vstd::arithmetic::mul::lemma_mul_nonnegative(t, x);
    vstd::arithmetic::div_mod::lemma_div_pos_is_pos(t * x, SCALE as int);
    vstd::arithmetic::div_mod::lemma_div_pos_is_pos(mulf(t, x), k);
    assert(t * x <= t * SCALE) by (nonlinear_arith)
        requires
            0 <= t,
            0 <= x <= SCALE,
        ;
    vstd::arithmetic::div_mod::lemma_div_is_ordered(t * x, t * (SCALE as int), SCALE as int);
    vstd::arithmetic::div_mod::lemma_div_by_multiple(t, SCALE as int);
    vstd::arithmetic::div_mod::lemma_div_nonincreasing(mulf(t, x), k);
}

/// The series never drops below one: every term is nonnegative.
pub proof fn lemma_exp1f_ge_one(x: int)
    requires
        0 <= x,
    ensures
        SCALE <= exp1f(x),
{
    let t1 = x;
    let t2 = mulf(t1, x) / 2;
    let t3 = mulf(t2, x) / 3;
    let t4 = mulf(t3, x) / 4;
    let t5 = mulf(t4, x) / 5;
    let t6 = mulf(t5, x) / 6;
    let t7 = mulf(t6, x) / 7;
    let t8 = mulf(t7, x) / 8;
    let t9 = mulf(t8, x) / 9;
    if x <= SCALE {
        lemma_term_nonneg(t1, x, 2);
        lemma_term_nonneg(t2, x, 3);
        lemma_term_nonneg(t3, x, 4);
        lemma_term_nonneg(t4, x, 5);
        lemma_term_nonneg(t5, x, 6);
        lemma_term_nonneg(t6, x, 7);
        lemma_term_nonneg(t7, x, 8);
        lemma_term_nonneg(t8, x, 9);
        lemma_term_nonneg(t9, x, 10);
    } else {
        assert(SCALE < x);
        vstd::arithmetic::mul::lemma_mul_nonnegative(t1, x);
        vstd::arithmetic::div_mod::lemma_div_pos_is_pos(t1 * x, SCALE as int);
        vstd::arithmetic::div_mod::lemma_div_pos_is_pos(mulf(t1, x), 2);
        assert(0 <= t2);
        vstd::arithmetic::mul::lemma_mul_nonnegative(t2, x);
        vstd::arithmetic::div_mod::lemma_div_pos_is_pos(t2 * x, SCALE as int);
        vstd::arithmetic::div_mod::lemma_div_pos_is_pos(mulf(t2, x), 3);
        vstd::arithmetic::mul::lemma_mul_nonnegative(t3, x);
        vstd::arithmetic::div_mod::lemma_div_pos_is_pos(t3 * x, SCALE as int);
        vstd::arithmetic::div_mod::lemma_div_pos_is_pos(mulf(t3, x), 4);
        vstd::arithmetic::mul::lemma_mul_nonnegative(t4, x);
        vstd::arithmetic::div_mod::lemma_div_pos_is_pos(t4 * x, SCALE as int);
        vstd::arithmetic::div_mod::lemma_div_pos_is_pos(mulf(t4, x), 5);
        vstd::arithmetic::mul::lemma_mul_nonnegative(t5, x);
        vstd::arithmetic::div_mod::lemma_div_pos_is_pos(t5 * x, SCALE as int);
        vstd::arithmetic::div_mod::lemma_div_pos_is_pos(mulf(t5, x), 6);
        vstd::arithmetic::mul::lemma_mul_nonnegative(t6, x);
        vstd::arithmetic::div_mod::lemma_div_pos_is_pos(t6 * x, SCALE as int);
        vstd::arithmetic::div_mod::lemma_div_pos_is_pos(mulf(t6, x), 7);
        vstd::arithmetic::mul::lemma_mul_nonnegative(t7, x);
        vstd::arithmetic::div_mod::lemma_div_pos_is_pos(t7 * x, SCALE as int);
        vstd::arithmetic::div_mod::lemma_div_pos_is_pos(mulf(t7, x), 8);
        vstd::arithmetic::mul::lemma_mul_nonnegative(t8, x);
        vstd::arithmetic::div_mod::lemma_div_pos_is_pos(t8 * x, SCALE as int);
        vstd::arithmetic::div_mod::lemma_div_pos_is_pos(mulf(t8, x), 9);
        vstd::arithmetic::mul::lemma_mul_nonnegative(t9, x);
        vstd::arithmetic::div_mod::lemma_div_pos_is_pos(t9 * x, SCALE as int);
        vstd::arithmetic::div_mod::lemma_div_pos_is_pos(mulf(t9, x), 10);
    }
}

/// `exp(x)` for `0 <= x < ln 2`.
fn exp_unit(x: u128) -> (r: u128)
    requires
        x < LN2_FP,
    ensures
        r == exp1f(x as int),
        SCALE <= r <= 11 * SCALE,
{
    let t1 = x;
    let t2 = term_step(t1, x, 2);
    let t3 = term_step(t2, x, 3);
    let t4 = term_step(t3, x, 4);
    let t5 = term_step(t4, x, 5);
    let t6 = term_step(t5, x, 6);
    let t7 = term_step(t6, x, 7);
    let t8 = term_step(t7, x, 8);
    let t9 = term_step(t8, x, 9);
    let t10 = term_step(t9, x, 10);
    SCALE + t1 + t2 + t3 + t4 + t5 + t6 + t7 + t8 + t9 + t10
}

/// `exp(-y)` for `y >= 0`: range-reduce by powers of two, then the unit
/// series. Zero once `y` reaches [`EXP_FLOOR`].
pub open spec fn exp_negf(y: int) -> int {
    if y >= EXP_FLOOR {
        0
    } else {
        let q = y / (LN2_FP as int);
        let rem = y % (LN2_FP as int);
        halvef((SCALE * SCALE) as int / exp1f(rem), q as nat)
    }
}

pub proof fn lemma_exp_negf_bounds(y: int)
    requires
        0 <= y,
    ensures
        0 <= exp_negf(y) <= SCALE,
{
    if y < EXP_FLOOR {
        let q = y / (LN2_FP as int);
        let rem = y % (LN2_FP as int);
        vstd::arithmetic::div_mod::lemma_mod_division_less_than_divisor(y, LN2_FP as int);
        vstd::arithmetic::div_mod::lemma_div_pos_is_pos(y, LN2_FP as int);
        lemma_exp1f_ge_one(rem);
        let e = (SCALE * SCALE) as int / exp1f(rem);
        vstd::arithmetic::div_mod::lemma_div_pos_is_pos((SCALE * SCALE) as int, exp1f(rem));
        vstd::arithmetic::div_mod::lemma_div_is_ordered_by_denominator(
            (SCALE * SCALE) as int,
            SCALE as int,
            exp1f(rem),
        );
        vstd::arithmetic::div_mod::lemma_div_by_multiple(SCALE as int, SCALE as int);
        lemma_halvef_bounds(e, q as nat);
    }
}

/// `exp(-y)` for `y >= 0`.
pub fn exp_neg(y: u128) -> (r: u128)
    ensures
        r == exp_negf(y as int),
        r <= SCALE,
{
    if y >= EXP_FLOOR {
        0
    } else {
        let q = y / LN2_FP;
        let rem = y % LN2_FP;
        proof {
            vstd::arithmetic::div_mod::lemma_mod_division_less_than_divisor(
                y as int,
                LN2_FP as int,
            );
            vstd::arithmetic::div_mod::lemma_div_is_ordered(y as int, EXP_FLOOR as int, LN2_FP as int);
        }
        let er = exp_unit(rem);
        let inv = (SCALE * SCALE) / er;
        proof {
            vstd::arithmetic::div_mod::lemma_div_is_ordered_by_denominator(
                (SCALE * SCALE) as int,
                SCALE as int,
                er as int,
            );
            vstd::arithmetic::div_mod::lemma_div_by_multiple(SCALE as int, SCALE as int);
        }
        halve_n(inv, q as u64)
    }
}

/// Standard normal cumulative distribution, approximated by the logistic
/// curve `1 / (1 + exp(-CDF_K * x))`. The argument is a sign-magnitude
/// fixed-point number: the value is `-m` if `neg`, else `m`. By construction
/// `cdff(true, m) + cdff(false, m) == SCALE` exactly.
pub open spec fn cdff(neg: bool, m: int) -> int {
    let e = exp_negf(mulf(CDF_K as int, m));
    let q = (SCALE as int) * e / ((SCALE as int) + e);
    if neg {
        q
    } else {
        SCALE - q
    }
}

pub proof fn lemma_cdff_bounds(neg: bool, m: int)
    requires
        0 <= m,
    ensures
        0 <= cdff(neg, m) <= SCALE,
{
    vstd::arithmetic::mul::lemma_mul_nonnegative(CDF_K as int, m);
    vstd::arithmetic::div_mod::lemma_div_pos_is_pos((CDF_K as int) * m, SCALE as int);
    lemma_exp_negf_bounds(mulf(CDF_K as int, m));
    let e = exp_negf(mulf(CDF_K as int, m));
    vstd::arithmetic::mul::lemma_mul_nonnegative(SCALE as int, e);
    vstd::arithmetic::div_mod::lemma_div_pos_is_pos((SCALE as int) * e, (SCALE as int) + e);
    vstd::arithmetic::mul::lemma_mul_inequality(e, (SCALE as int) + e, SCALE as int);
    vstd::arithmetic::div_mod::lemma_div_is_ordered(
        (SCALE as int) * e,
        ((SCALE as int) + e) * (SCALE as int),
        (SCALE as int) + e,
    );
    vstd::arithmetic::div_mod::lemma_div_by_multiple(SCALE as int, (SCALE as int) + e);
}

/// The approximation is an exact mirror around zero: the weights of `x` and
/// `-x` always sum to one.
pub proof fn lemma_cdf_complement(m: int)
    ensures
        cdff(true, m) + cdff(false, m) == SCALE,
{
}

/// The logistic normal-distribution weight of a sign-magnitude argument.
pub fn cdf_fp(neg: bool, m: u128) -> (r: u128)
    requires
        (CDF_K as int) * m <= u128::MAX,
    ensures
        r == cdff(neg, m as int),
        r <= SCALE,
{
    proof {
        lemma_cdff_bounds(neg, m as int);
        lemma_cdff_bounds(!neg, m as int);
        lemma_cdf_complement(m as int);
    }
    let e = exp_neg(mul_fp(CDF_K, m));
    let q = (SCALE * e) / (SCALE + e);
    if neg {
        q
    } else {
        SCALE - q
    }
}

/// Series for `ln(m / SCALE)` on `SCALE <= m < 2 * SCALE`, via
/// `ln u == 2 * atanh((u - 1) / (u + 1))`.
pub open spec fn ln1f(m: int) -> int {
    let z = (m - SCALE) * SCALE / (m + SCALE);
    let z2 = mulf(z, z);
    let p3 = mulf(z, z2);
    let p5 = mulf(p3, z2);
    let p7 = mulf(p5, z2);
    let p9 = mulf(p7, z2);
    let p11 = mulf(p9, z2);
    2 * (z + p3 / 3 + p5 / 5 + p7 / 7 + p9 / 9 + p11 / 11)
}

/// `ln(m / SCALE)` for a mantissa in `[1, 2)`.
fn ln_unit(m: u128) -> (r: u128)
    requires
        SCALE <= m < 2 * SCALE,
    ensures
        r == ln1f(m as int),
        r <= 12 * SCALE,
{
    let z = ((m - SCALE) * SCALE) / (m + SCALE);
    proof {
        vstd::arithmetic::div_mod::lemma_div_is_ordered_by_denominator(
            ((m - SCALE) * SCALE) as int,
            SCALE as int,
            (m + SCALE) as int,
        );
        vstd::arithmetic::div_mod::lemma_div_by_multiple((m - SCALE) as int, SCALE as int);
    }
    proof {
        assert(z <= SCALE);
        vstd::arithmetic::mul::lemma_mul_upper_bound(z as int, SCALE as int, z as int, SCALE as int);
    }
    let z2 = mul_le_one(z, z);
    proof {
        vstd::arithmetic::mul::lemma_mul_upper_bound(z as int, SCALE as int, z2 as int, SCALE as int);
    }
    let p3 = mul_le_one(z, z2);
    proof {
        vstd::arithmetic::mul::lemma_mul_upper_bound(p3 as int, SCALE as int, z2 as int, SCALE as int);
    }
    let p5 = mul_le_one(p3, z2);
    proof {
        vstd::arithmetic::mul::lemma_mul_upper_bound(p5 as int, SCALE as int, z2 as int, SCALE as int);
    }
    let p7 = mul_le_one(p5, z2);
    proof {
        vstd::arithmetic::mul::lemma_mul_upper_bound(p7 as int, SCALE as int, z2 as int, SCALE as int);
    }
    let p9 = mul_le_one(p7, z2);
    proof {
        vstd::arithmetic::mul::lemma_mul_upper_bound(p9 as int, SCALE as int, z2 as int, SCALE as int);
    }
    let p11 = mul_le_one(p9, z2);
    proof {
        vstd::arithmetic::div_mod::lemma_div_nonincreasing(p3 as int, 3);
        vstd::arithmetic::div_mod::lemma_div_nonincreasing(p5 as int, 5);
        vstd::arithmetic::div_mod::lemma_div_nonincreasing(p7 as int, 7);
        vstd::arithmetic::div_mod::lemma_div_nonincreasing(p9 as int, 9);
        vstd::arithmetic::div_mod::lemma_div_nonincreasing(p11 as int, 11);
    }
    2 * (z + p3 / 3 + p5 / 5 + p7 / 7 + p9 / 9 + p11 / 11)
}

/// How many halvings bring `x` down into `[SCALE, 2 * SCALE)`.
pub open spec fn norm_k(x: int) -> nat
    decreases x,
{
    if x < 2 * SCALE {
        0
    } else {
        1 + norm_k(x / 2)
    }
}

proof fn lemma_halvef_step(v: int, n: nat)
    ensures
        halvef(v, n + 1) == halvef(v, n) / 2,
    decreases n,
{
    assert(halvef(v, n + 1) == halvef(v / 2, n));
    if n > 0 {
        lemma_halvef_step(v / 2, (n - 1) as nat);
        assert(halvef(v, n) == halvef(v / 2, (n - 1) as nat));
    }
}

/// Normalize `x >= SCALE` to a mantissa in `[SCALE, 2 * SCALE)` and the
/// number of halvings applied.
fn ln_norm(x: u128) -> (r: (u128, u64))
    requires
        SCALE <= x <= 0x7FFF_FFFF_FFFF_FFFF,
    ensures
        r.0 == halvef(x as int, norm_k(x as int)),
        r.1 == norm_k(x as int),
        SCALE <= r.0 < 2 * SCALE,
        r.1 <= 43,
{
    let mut m = x;
    let mut k: u64 = 0;
    proof {
        vstd::arithmetic::power2::lemma2_to64();
    }
    while m >= 2 * SCALE
        invariant
            SCALE <= m <= x,
            m == halvef(x as int, k as nat),
            norm_k(x as int) == k + norm_k(m as int),
            vstd::arithmetic::power2::pow2(k as nat) * m <= x,
            x <= 0x7FFF_FFFF_FFFF_FFFF,
            k <= 43,
        decreases m,
    {
        proof {
            vstd::arithmetic::power2::lemma2_to64();
            vstd::arithmetic::power2::lemma2_to64_rest();
            let p = vstd::arithmetic::power2::pow2(k as nat);
            assert(p <= 4_611_686_018_428) by (nonlinear_arith)
                requires
                    p * m <= x,
                    x <= 0x7FFF_FFFF_FFFF_FFFF,
                    m >= 2 * SCALE,
                    SCALE == 1_000_000,
                    p >= 0,
            ;
            if k > 43 {
                vstd::arithmetic::power2::lemma_pow2_strictly_increases(43, k as nat);
            }
            assert(k <= 42);
            lemma_halvef_step(x as int, k as nat);
            vstd::arithmetic::power2::lemma_pow2_unfold((k + 1) as nat);
            assert(vstd::arithmetic::power2::pow2((k + 1) as nat) * (m / 2) <= p * m)
                by (nonlinear_arith)
                requires
                    vstd::arithmetic::power2::pow2((k + 1) as nat) == 2 * p,
                    2 * (m / 2) <= m,
                    p >= 0,
                    m >= 0,
            ;
        }
        m = m / 2;
        k = k + 1;
    }
    (m, k)
}

/// Natural logarithm of `x / SCALE` for `x >= SCALE`, in fixed point:
/// `norm_k(x)` halvings contribute `ln 2` each, the mantissa the series.
pub open spec fn lnf(x: int) -> int {
    norm_k(x) * (LN2_FP as int) + ln1f(halvef(x, norm_k(x)))
}

/// Natural logarithm of `x / SCALE`, for `x >= SCALE` (so the result is
/// nonnegative).
pub fn ln_fp(x: u128) -> (r: u128)
    requires
        SCALE <= x <= 0x7FFF_FFFF_FFFF_FFFF,
    ensures
        r == lnf(x as int),
        r <= 42_000_000,
{
    let nk = ln_norm(x);
    let lm = ln_unit(nk.0);
    (nk.1 as u128) * LN2_FP + lm
}

} // verus!
