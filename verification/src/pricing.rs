//! The pricing engine: a deterministic fixed-point valuation of a European
//! option.
//!
//! The model is the classic two-term formula over the auxiliary values
//! `d1 = (ln(spot/strike) + T * (r + sigma^2 / 2)) / (sigma * sqrt(T))` and
//! `d2 = d1 - sigma * sqrt(T)`, with the standard normal cumulative
//! distribution approximated by the logistic curve `1 / (1 + e^(-1.702 x))`.
//! Every step is integer arithmetic on [`crate::fixed::SCALE`]-scaled values,
//! so the same inputs yield the same settlement amounts everywhere; the spec
//! functions in this module *are* the fixed approximation algorithm.

use vstd::prelude::*;

use crate::error::ContractError;
use crate::fixed::{
    cdf_fp, cdff, div_fp, divf, exp_neg, exp_negf, isqrt, lemma_cdff_bounds,
    lemma_exp_negf_bounds, lemma_sqrtf_bounds, ln_fp, lnf, mul_fp, mul_le_one, mulf, sqrtf,
    CDF_K, SCALE,
};

verus! {

/// Largest money amount (strike or oracle spot) the engine accepts, in minor
/// units: one million whole units.
pub const AMOUNT_MAX: u128 = 1_000_000_000_000;

/// Largest volatility accepted: 100.0 in fixed point.
pub const VOL_MAX: u128 = 100_000_000;

/// Largest risk-free rate accepted: 1.0 in fixed point.
pub const RATE_MAX: u128 = 1_000_000;

/// Largest time to expiry, in whole periods.
pub const PERIODS_MAX: u64 = 1_000_000_000;

/// The inputs on which the pricing model is defined. Outside it, pricing
/// fails with [`ContractError::InvalidPricingInput`].
pub open spec fn pricing_domain(spot: int, strike: int, t: int, vol: int, rate: int) -> bool {
    &&& 1 <= spot <= AMOUNT_MAX
    &&& 1 <= strike <= AMOUNT_MAX
    &&& 1 <= t <= PERIODS_MAX
    &&& 1 <= vol <= VOL_MAX
    &&& 0 <= rate <= RATE_MAX
}

/// `sqrt(T)` in fixed point, for `t` whole periods.
pub open spec fn spec_sqrt_t(t: int) -> int {
    sqrtf((t * SCALE * SCALE) as nat) as int
}

/// `sigma * sqrt(T)` in fixed point.
pub open spec fn spec_sst(vol: int, t: int) -> int {
    mulf(vol, spec_sqrt_t(t))
}

/// `T * (r + sigma^2 / 2)` in fixed point.
pub open spec fn spec_drift(t: int, vol: int, rate: int) -> int {
    mulf(t * SCALE, rate + mulf(vol, vol) / 2)
}

/// `|ln(spot/strike)|` in fixed point.
pub open spec fn spec_lnmag(spot: int, strike: int) -> int {
    if spot >= strike {
        lnf(divf(spot, strike))
    } else {
        lnf(divf(strike, spot))
    }
}

/// `d1` as a sign-magnitude fixed-point value: `.0` is the sign (true means
/// negative), `.1` the magnitude.
pub open spec fn spec_d1(spot: int, strike: int, t: int, vol: int, rate: int) -> (bool, int) {
    let lm = spec_lnmag(spot, strike);
    let dr = spec_drift(t, vol, rate);
    let sst = spec_sst(vol, t);
    if spot >= strike {
        (false, divf(lm + dr, sst))
    } else if lm <= dr {
        (false, divf(dr - lm, sst))
    } else {
        (true, divf(lm - dr, sst))
    }
}

/// `d2 = d1 - sigma * sqrt(T)`, sign-magnitude.
pub open spec fn spec_d2(spot: int, strike: int, t: int, vol: int, rate: int) -> (bool, int) {
    let d1 = spec_d1(spot, strike, t, vol, rate);
    let sst = spec_sst(vol, t);
    if d1.0 {
        (true, d1.1 + sst)
    } else if d1.1 >= sst {
        (false, d1.1 - sst)
    } else {
        (true, sst - d1.1)
    }
}

/// The discount factor `e^(-r * T)` in fixed point.
pub open spec fn spec_disc(t: int, rate: int) -> int {
    exp_negf(mulf(rate, t * SCALE))
}

/// The discounted strike `strike * e^(-r * T)`.
pub open spec fn spec_dk(strike: int, t: int, rate: int) -> int {
    mulf(strike, spec_disc(t, rate))
}

/// The normal weight of `d1`.
pub open spec fn spec_nd1(spot: int, strike: int, t: int, vol: int, rate: int) -> int {
    let d1 = spec_d1(spot, strike, t, vol, rate);
    cdff(d1.0, d1.1)
}

/// The normal weight of `d2`.
pub open spec fn spec_nd2(spot: int, strike: int, t: int, vol: int, rate: int) -> int {
    let d2 = spec_d2(spot, strike, t, vol, rate);
    cdff(d2.0, d2.1)
}

/// Model value of the call, `spot * N(d1) - strike * e^(-rT) * N(d2)`.
/// The logistic tail underweights deep moneyness, so far from the strike the
/// model value can fall materially below the intrinsic bound — on the put
/// side even below zero, by an amount linear in the notional, not a mere
/// rounding sliver. The settled value ([`spec_fair`]) therefore floors each
/// side at its no-arbitrage bound.
pub open spec fn spec_call(spot: int, strike: int, t: int, vol: int, rate: int) -> int {
    let nd1 = spec_nd1(spot, strike, t, vol, rate);
    let nd2 = spec_nd2(spot, strike, t, vol, rate);
    let dk = spec_dk(strike, t, rate);
    mulf(spot, nd1) - mulf(dk, nd2)
}

/// Model value of the put, `strike * e^(-rT) * N(-d2) - spot * N(-d1)`,
/// with `N(-x) == 1 - N(x)` exactly by construction.
pub open spec fn spec_put(spot: int, strike: int, t: int, vol: int, rate: int) -> int {
    let nd1 = spec_nd1(spot, strike, t, vol, rate);
    let nd2 = spec_nd2(spot, strike, t, vol, rate);
    let dk = spec_dk(strike, t, rate);
    mulf(dk, SCALE - nd2) - mulf(spot, SCALE - nd1)
}

pub open spec fn clamp0(x: int) -> int {
    if x < 0 {
        0
    } else {
        x
    }
}

/// The fair value a transition settles at: the model value of the requested
/// side, floored at its no-arbitrage bound — `spot` minus the discounted
/// strike for a call, the discounted strike minus `spot` for a put, and zero
/// in any case. The floor keeps the settled values inside the arbitrage-free
/// band (see [`lemma_fair_bounds`]) and preserves put–call parity of the
/// settled values (see [`lemma_settled_parity`]) where the logistic tail
/// would otherwise drag a deep-in-the-money side below intrinsic value.
pub open spec fn spec_fair(
    is_put: bool,
    spot: int,
    strike: int,
    t: int,
    vol: int,
    rate: int,
) -> int {
    let dk = spec_dk(strike, t, rate);
    if is_put {
        let model = clamp0(spec_put(spot, strike, t, vol, rate));
        let bound = clamp0(dk - spot);
        if model >= bound {
            model
        } else {
            bound
        }
    } else {
        let model = clamp0(spec_call(spot, strike, t, vol, rate));
        let bound = clamp0(spot - dk);
        if model >= bound {
            model
        } else {
            bound
        }
    }
}

/// `sigma * sqrt(T)` is positive and small on the pricing domain.
proof fn lemma_sst_bounds(vol: int, t: int)
    requires
        1 <= vol <= VOL_MAX,
        1 <= t <= PERIODS_MAX,
    ensures
        1 <= spec_sst(vol, t) <= 5_000_000_000_000,
        1_000_000 <= spec_sqrt_t(t) <= 40_000_000_000,
{
    let v = (t * SCALE * SCALE) as nat;
    lemma_sqrtf_bounds(v);
    let s = sqrtf(v) as int;
    assert(SCALE * SCALE <= t * SCALE * SCALE <= 1_000_000_000 * SCALE * SCALE)
        by (nonlinear_arith)
        requires
            1 <= t <= 1_000_000_000,
            SCALE == 1_000_000,
    ;
    assert(1_000_000 <= s <= 40_000_000_000) by (nonlinear_arith)
        requires
            s * s <= v,
            v < (s + 1) * (s + 1),
            SCALE * SCALE <= v <= 1_000_000_000 * SCALE * SCALE,
            SCALE == 1_000_000,
            s >= 0,
    ;
    assert(1_000_000 <= vol * s <= 100_000_000 * 40_000_000_000) by (nonlinear_arith)
        requires
            1 <= vol <= 100_000_000,
            1_000_000 <= s <= 40_000_000_000,
    ;
    vstd::arithmetic::div_mod::lemma_div_is_ordered(
        SCALE as int,
        vol * s,
        SCALE as int,
    );
    vstd::arithmetic::div_mod::lemma_div_is_ordered(
        vol * s,
        100_000_000int * 40_000_000_000int,
        SCALE as int,
    );
}

/// `N(d1)` and `N(d2)` are well-defined weights on the pricing domain.
proof fn lemma_nd_bounds(spot: int, strike: int, t: int, vol: int, rate: int)
    requires
        pricing_domain(spot, strike, t, vol, rate),
    ensures
        0 <= spec_nd1(spot, strike, t, vol, rate) <= SCALE,
        0 <= spec_nd2(spot, strike, t, vol, rate) <= SCALE,
        spec_d1(spot, strike, t, vol, rate).1 >= 0,
        spec_d2(spot, strike, t, vol, rate).1 >= 0,
{
    lemma_sst_bounds(vol, t);
    let sst = spec_sst(vol, t);
    let d1 = spec_d1(spot, strike, t, vol, rate);
    let lm = spec_lnmag(spot, strike);
    let dr = spec_drift(t, vol, rate);
    assert(lm + dr >= 0 && (lm <= dr ==> dr - lm >= 0) && (lm > dr ==> lm - dr >= 0)) by {
        lemma_lnmag_nonneg(spot, strike);
        lemma_drift_nonneg(t, vol, rate);
    }
    if spot >= strike {
        vstd::arithmetic::mul::lemma_mul_nonnegative(lm + dr, SCALE as int);
        vstd::arithmetic::div_mod::lemma_div_pos_is_pos((lm + dr) * SCALE, sst);
    } else if lm <= dr {
        vstd::arithmetic::mul::lemma_mul_nonnegative(dr - lm, SCALE as int);
        vstd::arithmetic::div_mod::lemma_div_pos_is_pos((dr - lm) * SCALE, sst);
    } else {
        vstd::arithmetic::mul::lemma_mul_nonnegative(lm - dr, SCALE as int);
        vstd::arithmetic::div_mod::lemma_div_pos_is_pos((lm - dr) * SCALE, sst);
    }
    let d2 = spec_d2(spot, strike, t, vol, rate);
    assert(d2.1 >= 0);
    lemma_cdff_bounds(d1.0, d1.1);
    lemma_cdff_bounds(d2.0, d2.1);
}

proof fn lemma_lnmag_nonneg(spot: int, strike: int)
    requires
        1 <= spot,
        1 <= strike,
    ensures
        spec_lnmag(spot, strike) >= 0,
{
    if spot >= strike {
        lemma_ratio_ge_one(spot, strike);
        lemma_lnf_nonneg(divf(spot, strike));
    } else {
        lemma_ratio_ge_one(strike, spot);
        lemma_lnf_nonneg(divf(strike, spot));
    }
}

/// `a * SCALE / b >= SCALE` whenever `a >= b >= 1`.
proof fn lemma_ratio_ge_one(a: int, b: int)
    requires
        1 <= b <= a,
    ensures
        divf(a, b) >= SCALE,
{
    assert(a * SCALE >= (SCALE as int) * b) by (nonlinear_arith)
        requires
            1 <= b <= a,
            SCALE == 1_000_000,
    ;
    vstd::arithmetic::div_mod::lemma_div_is_ordered((SCALE as int) * b, a * SCALE, b);
    vstd::arithmetic::div_mod::lemma_div_by_multiple(SCALE as int, b);
}

/// The normalized mantissa stays in `[SCALE, 2 * SCALE)`.
proof fn lemma_norm_mant_range(x: int)
    requires
        SCALE <= x,
    ensures
        SCALE <= crate::fixed::halvef(x, crate::fixed::norm_k(x)) < 2 * SCALE,
    decreases x,
{
    if x >= 2 * SCALE {
        lemma_norm_mant_range(x / 2);
    }
}

proof fn lemma_lnf_nonneg(x: int)
    requires
        SCALE <= x,
    ensures
        lnf(x) >= 0,
{
    let k = crate::fixed::norm_k(x);
    let m = crate::fixed::halvef(x, k);
    lemma_norm_mant_range(x);
    lemma_ln1f_nonneg(m);
    vstd::arithmetic::mul::lemma_mul_nonnegative(k as int, crate::fixed::LN2_FP as int);
}

proof fn lemma_ln1f_nonneg(m: int)
    requires
        SCALE <= m,
    ensures
        crate::fixed::ln1f(m) >= 0,
{
    let z = (m - SCALE) * SCALE / ((m + SCALE) as int);
    let z2 = mulf(z, z);
    let p3 = mulf(z, z2);
    let p5 = mulf(p3, z2);
    let p7 = mulf(p5, z2);
    let p9 = mulf(p7, z2);
    let p11 = mulf(p9, z2);
    assert(z * z >= 0 && z * z2 >= 0 && p3 * z2 >= 0 && p5 * z2 >= 0 && p7 * z2 >= 0 && p9 * z2
        >= 0 && z + p3 / 3 + p5 / 5 + p7 / 7 + p9 / 9 + p11 / 11 >= 0) by {
        lemma_ln1f_terms(m);
    }
}

proof fn lemma_ln1f_terms(m: int)
    requires
        SCALE <= m,
    ensures
        ({
            let z = (m - SCALE) * SCALE / ((m + SCALE) as int);
            let z2 = mulf(z, z);
            let p3 = mulf(z, z2);
            let p5 = mulf(p3, z2);
            let p7 = mulf(p5, z2);
            let p9 = mulf(p7, z2);
            let p11 = mulf(p9, z2);
            z >= 0 && z2 >= 0 && p3 >= 0 && p5 >= 0 && p7 >= 0 && p9 >= 0 && p11 >= 0 && z * z
                >= 0 && z * z2 >= 0 && p3 * z2 >= 0 && p5 * z2 >= 0 && p7 * z2 >= 0 && p9 * z2
                >= 0 && z + p3 / 3 + p5 / 5 + p7 / 7 + p9 / 9 + p11 / 11 >= 0
        }),
{
    let z = (m - SCALE) * SCALE / ((m + SCALE) as int);
    assert(z >= 0) by {
        lemma_z_nonneg(m);
    }
    let z2 = mulf(z, z);
    vstd::arithmetic::mul::lemma_mul_nonnegative(z, z);
    vstd::arithmetic::div_mod::lemma_div_pos_is_pos(z * z, SCALE as int);
    let p3 = mulf(z, z2);
    vstd::arithmetic::mul::lemma_mul_nonnegative(z, z2);
    vstd::arithmetic::div_mod::lemma_div_pos_is_pos(z * z2, SCALE as int);
    let p5 = mulf(p3, z2);
    vstd::arithmetic::mul::lemma_mul_nonnegative(p3, z2);
    vstd::arithmetic::div_mod::lemma_div_pos_is_pos(p3 * z2, SCALE as int);
    let p7 = mulf(p5, z2);
    vstd::arithmetic::mul::lemma_mul_nonnegative(p5, z2);
    vstd::arithmetic::div_mod::lemma_div_pos_is_pos(p5 * z2, SCALE as int);
    let p9 = mulf(p7, z2);
    vstd::arithmetic::mul::lemma_mul_nonnegative(p7, z2);
    vstd::arithmetic::div_mod::lemma_div_pos_is_pos(p7 * z2, SCALE as int);
    let p11 = mulf(p9, z2);
    vstd::arithmetic::mul::lemma_mul_nonnegative(p9, z2);
    vstd::arithmetic::div_mod::lemma_div_pos_is_pos(p9 * z2, SCALE as int);
    vstd::arithmetic::div_mod::lemma_div_pos_is_pos(p3, 3);
    vstd::arithmetic::div_mod::lemma_div_pos_is_pos(p5, 5);
    vstd::arithmetic::div_mod::lemma_div_pos_is_pos(p7, 7);
    vstd::arithmetic::div_mod::lemma_div_pos_is_pos(p9, 9);
    vstd::arithmetic::div_mod::lemma_div_pos_is_pos(p11, 11);
}

proof fn lemma_z_nonneg(m: int)
    requires
        SCALE <= m,
    ensures
        (m - SCALE) * SCALE / ((m + SCALE) as int) >= 0,
{
    vstd::arithmetic::mul::lemma_mul_nonnegative(m - SCALE, SCALE as int);
    vstd::arithmetic::div_mod::lemma_div_pos_is_pos((m - SCALE) * SCALE, m + SCALE);
}

proof fn lemma_drift_nonneg(t: int, vol: int, rate: int)
    requires
        1 <= t,
        1 <= vol,
        0 <= rate,
    ensures
        spec_drift(t, vol, rate) >= 0,
{
    vstd::arithmetic::mul::lemma_mul_nonnegative(vol, vol);
    vstd::arithmetic::div_mod::lemma_div_pos_is_pos(vol * vol, SCALE as int);
    vstd::arithmetic::mul::lemma_mul_nonnegative(t, SCALE as int);
    vstd::arithmetic::mul::lemma_mul_nonnegative(t * SCALE, rate + mulf(vol, vol) / 2);
    vstd::arithmetic::div_mod::lemma_div_pos_is_pos(
        (t * SCALE) * (rate + mulf(vol, vol) / 2),
        SCALE as int,
    );
}

/// Splitting a weight between `x` and `SCALE - x` loses at most one minor
/// unit to flooring.
proof fn lemma_split_floor(s: int, x: int)
    requires
        0 <= s,
        0 <= x <= SCALE,
    ensures
        s - 1 <= mulf(s, x) + mulf(s, SCALE - x) <= s,
{
    let u = s * x;
    let v = s * (SCALE - x);
    assert(s * x + s * (SCALE - x) == s * SCALE) by (nonlinear_arith);
    vstd::arithmetic::mul::lemma_mul_nonnegative(s, x);
    vstd::arithmetic::mul::lemma_mul_nonnegative(s, SCALE - x);
    vstd::arithmetic::div_mod::lemma_fundamental_div_mod(u, SCALE as int);
    vstd::arithmetic::div_mod::lemma_fundamental_div_mod(v, SCALE as int);
    vstd::arithmetic::div_mod::lemma_mod_division_less_than_divisor(u, SCALE as int);
    vstd::arithmetic::div_mod::lemma_mod_division_less_than_divisor(v, SCALE as int);
    let q = u / (SCALE as int) + v / (SCALE as int);
    assert((SCALE as int) * (s - q) == u % (SCALE as int) + v % (SCALE as int)) by (nonlinear_arith)
        requires
            u == (SCALE as int) * (u / (SCALE as int)) + u % (SCALE as int),
            v == (SCALE as int) * (v / (SCALE as int)) + v % (SCALE as int),
            u + v == s * SCALE,
            q == u / (SCALE as int) + v / (SCALE as int),
            SCALE == 1_000_000,
    ;
    assert(0 <= s - q <= 1) by (nonlinear_arith)
        requires
            (SCALE as int) * (s - q) == u % (SCALE as int) + v % (SCALE as int),
            0 <= u % (SCALE as int) < SCALE,
            0 <= v % (SCALE as int) < SCALE,
            SCALE == 1_000_000,
    ;
}

/// Put–call parity: for the same `spot`, `strike`, `T`, `sigma` and `r`, the
/// call and put model values differ by `spot` minus the discounted strike, to
/// within one minor unit of the settlement currency — the fixed numerical
/// tolerance of this pricing model.
pub proof fn lemma_put_call_parity(spot: int, strike: int, t: int, vol: int, rate: int)
    requires
        pricing_domain(spot, strike, t, vol, rate),
    ensures
        spec_call(spot, strike, t, vol, rate) - spec_put(spot, strike, t, vol, rate) - (spot
            - spec_dk(strike, t, rate)) <= 1,
        -1 <= spec_call(spot, strike, t, vol, rate) - spec_put(spot, strike, t, vol, rate) - (
        spot - spec_dk(strike, t, rate)),
{
    lemma_nd_bounds(spot, strike, t, vol, rate);
    let nd1 = spec_nd1(spot, strike, t, vol, rate);
    let nd2 = spec_nd2(spot, strike, t, vol, rate);
    let dk = spec_dk(strike, t, rate);
    vstd::arithmetic::mul::lemma_mul_nonnegative(rate, t * SCALE);
    vstd::arithmetic::div_mod::lemma_div_pos_is_pos(rate * (t * SCALE), SCALE as int);
    lemma_exp_negf_bounds(mulf(rate, t * SCALE));
    vstd::arithmetic::mul::lemma_mul_nonnegative(strike, spec_disc(t, rate));
    vstd::arithmetic::div_mod::lemma_div_pos_is_pos(strike * spec_disc(t, rate), SCALE as int);
    lemma_split_floor(spot, nd1);
    lemma_split_floor(dk, nd2);
}

/// `mulf(a, x)` stays between zero and `a` for a weight `x` of at most one.
proof fn lemma_mulf_le(a: int, x: int)
    requires
        0 <= a,
        0 <= x <= SCALE,
    ensures
        0 <= mulf(a, x) <= a,
{
    vstd::arithmetic::mul::lemma_mul_nonnegative(a, x);
    vstd::arithmetic::div_mod::lemma_div_pos_is_pos(a * x, SCALE as int);
    assert(a * x <= a * SCALE) by (nonlinear_arith)
        requires
            0 <= a,
            0 <= x <= SCALE,
    ;
    vstd::arithmetic::div_mod::lemma_div_is_ordered(a * x, a * (SCALE as int), SCALE as int);
    vstd::arithmetic::div_mod::lemma_div_by_multiple(a, SCALE as int);
}

/// No-arbitrage band: on the pricing domain the settled call value lies
/// between `spot` minus the discounted strike (floored at zero) and `spot`,
/// and the settled put value between the discounted strike minus `spot`
/// (floored at zero) and the discounted strike.
pub proof fn lemma_fair_bounds(spot: int, strike: int, t: int, vol: int, rate: int)
    requires
        pricing_domain(spot, strike, t, vol, rate),
    ensures
        0 <= spec_dk(strike, t, rate) <= strike,
        clamp0(spot - spec_dk(strike, t, rate)) <= spec_fair(false, spot, strike, t, vol, rate)
            <= spot,
        clamp0(spec_dk(strike, t, rate) - spot) <= spec_fair(true, spot, strike, t, vol, rate)
            <= spec_dk(strike, t, rate),
{
    lemma_nd_bounds(spot, strike, t, vol, rate);
    let nd1 = spec_nd1(spot, strike, t, vol, rate);
    let nd2 = spec_nd2(spot, strike, t, vol, rate);
    vstd::arithmetic::mul::lemma_mul_nonnegative(rate, t * SCALE);
    vstd::arithmetic::div_mod::lemma_div_pos_is_pos(rate * (t * SCALE), SCALE as int);
    lemma_exp_negf_bounds(mulf(rate, t * SCALE));
    let dk = spec_dk(strike, t, rate);
    lemma_mulf_le(strike, spec_disc(t, rate));
    lemma_mulf_le(spot, nd1);
    lemma_mulf_le(dk, nd2);
    lemma_mulf_le(dk, SCALE - nd2);
    lemma_mulf_le(spot, SCALE - nd1);
}

/// Put–call parity of the *settled* values: with the no-arbitrage floor in
/// place, the settled call and put values still differ by `spot` minus the
/// discounted strike to within one minor unit, everywhere on the pricing
/// domain — deep in the money the floor binds on one side and the intrinsic
/// difference is exact.
pub proof fn lemma_settled_parity(spot: int, strike: int, t: int, vol: int, rate: int)
    requires
        pricing_domain(spot, strike, t, vol, rate),
    ensures
        spec_fair(false, spot, strike, t, vol, rate) - spec_fair(true, spot, strike, t, vol, rate)
            - (spot - spec_dk(strike, t, rate)) <= 1,
        -1 <= spec_fair(false, spot, strike, t, vol, rate) - spec_fair(
            true,
            spot,
            strike,
            t,
            vol,
            rate,
        ) - (spot - spec_dk(strike, t, rate)),
{
    lemma_put_call_parity(spot, strike, t, vol, rate);
    lemma_fair_bounds(spot, strike, t, vol, rate);
}

/// Theoretical fair value of one option unit, in minor units of the
/// settlement currency: the model value of the requested side, floored at
/// its no-arbitrage bound (see [`spec_fair`]). Fails with
/// [`ContractError::InvalidPricingInput`] exactly when an input lies outside
/// [`pricing_domain`].
pub fn price(spot: u128, strike: u128, t: u64, vol: u128, rate: u128, is_put: bool) -> (r: Result<
    u128,
    ContractError,
>)
    ensures
        r is Ok <==> pricing_domain(
            spot as int,
            strike as int,
            t as int,
            vol as int,
            rate as int,
        ),
        r matches Ok(v) ==> v == spec_fair(
            is_put,
            spot as int,
            strike as int,
            t as int,
            vol as int,
            rate as int,
        ) && v <= AMOUNT_MAX,
        r is Err ==> r == Err::<u128, ContractError>(ContractError::InvalidPricingInput),
{
    if !(1 <= spot && spot <= AMOUNT_MAX && 1 <= strike && strike <= AMOUNT_MAX && 1 <= t && t
        <= PERIODS_MAX && 1 <= vol && vol <= VOL_MAX && rate <= RATE_MAX) {
        return Err(ContractError::InvalidPricingInput);
    }
    proof {
        lemma_sst_bounds(vol as int, t as int);
    }
    let t_fp: u128 = (t as u128) * SCALE;
    let sq = isqrt(t_fp * SCALE);
    proof {
        assert(sq == spec_sqrt_t(t as int));
        assert(vol * sq <= u128::MAX) by (nonlinear_arith)
            requires
                vol <= 100_000_000,
                sq <= 40_000_000_000,
                vol >= 0,
                sq >= 0,
        ;
    }
    let sst = mul_fp(vol, sq);
    proof {
        assert(sst == spec_sst(vol as int, t as int));
        assert(vol * vol <= u128::MAX) by (nonlinear_arith)
            requires
                vol <= 100_000_000,
                vol >= 0,
        ;
    }
    let v2 = mul_fp(vol, vol);
    proof {
        vstd::arithmetic::mul::lemma_mul_upper_bound(
            vol as int,
            100_000_000int,
            vol as int,
            100_000_000int,
        );
        vstd::arithmetic::div_mod::lemma_div_is_ordered(
            (vol * vol) as int,
            100_000_000int * 100_000_000int,
            SCALE as int,
        );
    }
    let s2h = v2 / 2;
    let rs = rate + s2h;
    proof {
        assert(t_fp * rs <= u128::MAX) by (nonlinear_arith)
            requires
                t_fp <= 1_000_000_000_000_000,
                rs <= 5_001_000_000,
                t_fp >= 0,
                rs >= 0,
        ;
    }
    let drift = mul_fp(t_fp, rs);
    proof {
        assert(drift == spec_drift(t as int, vol as int, rate as int));
        vstd::arithmetic::mul::lemma_mul_upper_bound(
            t_fp as int,
            1_000_000_000_000_000int,
            rs as int,
            5_001_000_000int,
        );
        vstd::arithmetic::div_mod::lemma_div_is_ordered(
            (t_fp * rs) as int,
            1_000_000_000_000_000int * 5_001_000_000int,
            SCALE as int,
        );
    }
    let lnm: u128 = if spot >= strike {
        proof {
            lemma_ratio_ge_one(spot as int, strike as int);
            vstd::arithmetic::div_mod::lemma_div_nonincreasing(
                (spot * SCALE) as int,
                strike as int,
            );
        }
        let ratio = div_fp(spot, strike);
        ln_fp(ratio)
    } else {
        proof {
            lemma_ratio_ge_one(strike as int, spot as int);
            vstd::arithmetic::div_mod::lemma_div_nonincreasing(
                (strike * SCALE) as int,
                spot as int,
            );
        }
        let ratio = div_fp(strike, spot);
        ln_fp(ratio)
    };
    proof {
        assert(lnm == spec_lnmag(spot as int, strike as int));
    }
    let ln_nonneg: bool = spot >= strike;
    let nneg: bool = if ln_nonneg {
        false
    } else {
        lnm > drift
    };
    let nmag: u128 = if ln_nonneg {
        lnm + drift
    } else if lnm <= drift {
        drift - lnm
    } else {
        lnm - drift
    };
    let d1m = div_fp(nmag, sst);
    proof {
        assert((nneg, d1m as int) == spec_d1(
            spot as int,
            strike as int,
            t as int,
            vol as int,
            rate as int,
        ));
        vstd::arithmetic::div_mod::lemma_div_nonincreasing((nmag * SCALE) as int, sst as int);
    }
    let d2n: bool = if !nneg {
        d1m < sst
    } else {
        true
    };
    let d2m: u128 = if !nneg {
        if d1m >= sst {
            d1m - sst
        } else {
            sst - d1m
        }
    } else {
        d1m + sst
    };
    proof {
        assert((d2n, d2m as int) == spec_d2(
            spot as int,
            strike as int,
            t as int,
            vol as int,
            rate as int,
        ));
        assert(rate * t_fp <= u128::MAX) by (nonlinear_arith)
            requires
                rate <= 1_000_000,
                t_fp <= 1_000_000_000_000_000,
                rate >= 0,
                t_fp >= 0,
        ;
    }
    let disc = exp_neg(mul_fp(rate, t_fp));
    proof {
        assert(disc == spec_disc(t as int, rate as int));
        assert(strike * disc <= u128::MAX) by (nonlinear_arith)
            requires
                strike <= 1_000_000_000_000,
                disc <= 1_000_000,
                strike >= 0,
                disc >= 0,
        ;
    }
    let dk = mul_le_one(strike, disc);
    proof {
        assert(dk == spec_dk(strike as int, t as int, rate as int));
        assert((CDF_K as int) * d1m <= u128::MAX && (CDF_K as int) * d2m <= u128::MAX)
            by (nonlinear_arith)
            requires
                d1m <= 7_000_000_000_000_000_000_000_000,
                d2m <= 8_000_000_000_000_000_000_000_000,
                d1m >= 0,
                d2m >= 0,
                CDF_K == 1_702_000,
        ;
    }
    let nd1 = cdf_fp(nneg, d1m);
    let nd2 = cdf_fp(d2n, d2m);
    proof {
        assert(nd1 == spec_nd1(spot as int, strike as int, t as int, vol as int, rate as int));
        assert(nd2 == spec_nd2(spot as int, strike as int, t as int, vol as int, rate as int));
        assert(spot * nd1 <= u128::MAX && spot * (SCALE - nd1) <= u128::MAX && dk * nd2
            <= u128::MAX && dk * (SCALE - nd2) <= u128::MAX) by (nonlinear_arith)
            requires
                spot <= 1_000_000_000_000,
                dk <= 1_000_000_000_000,
                nd1 <= SCALE,
                nd2 <= SCALE,
                SCALE == 1_000_000,
                spot >= 0,
                dk >= 0,
                nd1 >= 0,
                nd2 >= 0,
        ;
    }
    let side_a = mul_le_one(spot, nd1);
    let side_b = mul_le_one(dk, nd2);
    let side_c = mul_le_one(dk, SCALE - nd2);
    let side_d = mul_le_one(spot, SCALE - nd1);
    if is_put {
        let model: u128 = if side_c >= side_d {
            side_c - side_d
        } else {
            0
        };
        let bound: u128 = if dk >= spot {
            dk - spot
        } else {
            0
        };
        if model >= bound {
            Ok(model)
        } else {
            Ok(bound)
        }
    } else {
        let model: u128 = if side_a >= side_b {
            side_a - side_b
        } else {
            0
        };
        let bound: u128 = if spot >= dk {
            spot - dk
        } else {
            0
        };
        if model >= bound {
            Ok(model)
        } else {
            Ok(bound)
        }
    }
}

} // verus!
