//! The fixed-point pricing model on concrete values.

use option_protocol::error::ContractError;
use option_protocol::fixed::{cdf_fp, exp_neg, isqrt, ln_fp, mul_fp};
use option_protocol::pricing::price;

const SCALE: u128 = 1_000_000;

#[test]
fn isqrt_exact_values() {
    assert_eq!(isqrt(0), 0);
    assert_eq!(isqrt(1), 1);
    assert_eq!(isqrt(4_000_000_000_000), 2_000_000);
    assert_eq!(isqrt(2), 1);
    assert_eq!(isqrt(999_999), 999);
}

#[test]
fn exp_neg_exact_values() {
    // e^0 is one.
    assert_eq!(exp_neg(0), SCALE);
    // e^(-ln 2) is one half, exactly in this fixed-point model.
    assert_eq!(exp_neg(693_147), 500_000);
    // Far in the tail the model flushes to zero.
    assert_eq!(exp_neg(20_000_000), 0);
}

#[test]
fn cdf_is_a_symmetric_weight() {
    // The weight of zero is exactly one half.
    assert_eq!(cdf_fp(false, 0), 500_000);
    assert_eq!(cdf_fp(true, 0), 500_000);
    // Complement: the weights of x and -x sum to one, exactly.
    for m in [1u128, 137_000, 500_000, 1_000_000, 3_000_000, 19_999_999] {
        assert_eq!(cdf_fp(false, m) + cdf_fp(true, m), SCALE);
    }
    // Monotone sanity: a larger argument has a larger weight.
    assert!(cdf_fp(false, 2_000_000) > cdf_fp(false, 1_000_000));
    assert!(cdf_fp(true, 2_000_000) < cdf_fp(true, 1_000_000));
}

#[test]
fn ln_exact_values() {
    assert_eq!(ln_fp(SCALE), 0);
    // ln 2 comes straight from one normalization step.
    assert_eq!(ln_fp(2 * SCALE), 693_147);
    // ln 4 is two steps.
    assert_eq!(ln_fp(4 * SCALE), 2 * 693_147);
}

#[test]
fn price_rejects_out_of_domain_inputs() {
    assert_eq!(price(0, SCALE, 1, SCALE, 0, false).unwrap_err(), ContractError::InvalidPricingInput);
    assert_eq!(price(SCALE, 0, 1, SCALE, 0, false).unwrap_err(), ContractError::InvalidPricingInput);
    assert_eq!(price(SCALE, SCALE, 0, SCALE, 0, false).unwrap_err(), ContractError::InvalidPricingInput);
    assert_eq!(price(SCALE, SCALE, 1, 0, 0, false).unwrap_err(), ContractError::InvalidPricingInput);
    assert_eq!(
        price(SCALE, SCALE, 1, SCALE, 2 * SCALE, false).unwrap_err(),
        ContractError::InvalidPricingInput
    );
}

// Put-call parity of the settled values: callPrice - putPrice equals spot
// minus the discounted strike, to within one minor unit — also deep in the
// money, where the no-arbitrage floor binds.
#[test]
fn put_call_parity_concrete() {
    let cases: [(u128, u128, u64, u128, u128); 6] = [
        (8_010_000, 8_000_000, 1, SCALE, 2_100),
        (12_000_000, 8_000_000, 3, 2 * SCALE, 50_000),
        (5_000_000, 9_000_000, 2, 500_000, 0),
        (1_000_000_000_000, 1, 7, SCALE, 100),
        (20_000_000, 1_000_000, 1, SCALE, 0),
        (1_000_000, 20_000_000, 1, SCALE, 0),
    ];
    for (spot, strike, t, vol, rate) in cases {
        let call = price(spot, strike, t, vol, rate, false).unwrap() as i128;
        let put = price(spot, strike, t, vol, rate, true).unwrap() as i128;
        let disc = exp_neg(mul_fp(rate, (t as u128) * SCALE));
        let dk = mul_fp(strike, disc) as i128;
        let gap = (call - put) - (spot as i128 - dk);
        assert!(-1 <= gap && gap <= 1, "parity gap {gap}");
    }
}

// Deep in the money the logistic tail would price the call below intrinsic
// value, so the no-arbitrage floor binds: with rate zero the discounted
// strike is the strike itself and the settled call is exactly spot - strike,
// while the put settles at zero.
#[test]
fn deep_in_the_money_floors_at_intrinsic() {
    let spot: u128 = 20 * SCALE;
    let strike: u128 = SCALE;
    let call = price(spot, strike, 1, SCALE, 0, false).unwrap();
    assert_eq!(call, 19 * SCALE);
    let put = price(spot, strike, 1, SCALE, 0, true).unwrap();
    assert_eq!(put, 0);
}

// The settled values stay inside the no-arbitrage band: the call between
// max(0, spot - discounted strike) and spot, the put between
// max(0, discounted strike - spot) and the discounted strike.
#[test]
fn fair_values_stay_in_arbitrage_free_band() {
    let cases: [(u128, u128, u64, u128, u128); 4] = [
        (8_010_000, 8_000_000, 1, SCALE, 2_100),
        (20_000_000, 1_000_000, 1, SCALE, 0),
        (1_000_000, 20_000_000, 1, SCALE, 0),
        (12_000_000, 8_000_000, 3, 2 * SCALE, 50_000),
    ];
    for (spot, strike, t, vol, rate) in cases {
        let dk = mul_fp(strike, exp_neg(mul_fp(rate, (t as u128) * SCALE)));
        let call = price(spot, strike, t, vol, rate, false).unwrap();
        assert!(call >= spot.saturating_sub(dk) && call <= spot, "call {call}");
        let put = price(spot, strike, t, vol, rate, true).unwrap();
        assert!(put >= dk.saturating_sub(spot) && put <= dk, "put {put}");
    }
}

// The opening scenario's model value: spot 8.01, strike 8.00, one period,
// unit volatility, rate 0.0021. d1 and d2 sit near parity, so the call is
// worth a sizable fraction of the spot and strictly more than the put.
#[test]
fn call_price_scenario_is_deterministic() {
    let c1 = price(8_010_000, 8_000_000, 1, SCALE, 2_100, false).unwrap();
    let c2 = price(8_010_000, 8_000_000, 1, SCALE, 2_100, false).unwrap();
    assert_eq!(c1, c2);
    assert!(c1 > 2 * SCALE && c1 < 5 * SCALE, "call {c1}");
    let p1 = price(8_010_000, 8_000_000, 1, SCALE, 2_100, true).unwrap();
    assert!(p1 < c1);
}
