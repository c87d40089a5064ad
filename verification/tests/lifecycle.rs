//! Lifecycle and settlement scenarios.

use option_protocol::contract::{execute, instantiate, query, try_expires, try_initoption, try_selloption};
use option_protocol::error::ContractError;
use option_protocol::msg::{ExecuteMsg, InstantiateMsg, QueryMsg};
use option_protocol::state::{Coin, OptionStore};

const SCALE: u128 = 1_000_000;

fn call_long_msg() -> InstantiateMsg {
    InstantiateMsg {
        strike_price: Coin { amount: 8 * SCALE, denom: "uusd".to_string() },
        expiration_date: 1,
        buysell: false,
        putcall: false,
        quantity: 10,
        liq_pool: "pool".to_string(),
        conv_coin: "uusd".to_string(),
        opt_coin: "uopt".to_string(),
    }
}

fn open_store(msg: InstantiateMsg) -> OptionStore {
    let mut store = OptionStore::new();
    let r = instantiate(&mut store, 0, "owner".to_string(), Vec::new(), msg);
    assert!(r.is_ok());
    assert!(r.unwrap().transfers.is_empty());
    store
}

#[test]
fn create_rejects_past_expiration() {
    let mut store = OptionStore::new();
    let mut msg = call_long_msg();
    msg.expiration_date = 5;
    let r = instantiate(&mut store, 5, "owner".to_string(), Vec::new(), msg);
    assert_eq!(r.unwrap_err(), ContractError::InvalidTerms);
    assert!(store.record.is_none());
}

#[test]
fn create_rejects_zero_quantity() {
    let mut store = OptionStore::new();
    let mut msg = call_long_msg();
    msg.quantity = 0;
    let r = instantiate(&mut store, 0, "owner".to_string(), Vec::new(), msg);
    assert_eq!(r.unwrap_err(), ContractError::InvalidTerms);
}

#[test]
fn create_rejects_zero_strike() {
    let mut store = OptionStore::new();
    let mut msg = call_long_msg();
    msg.strike_price.amount = 0;
    let r = instantiate(&mut store, 0, "owner".to_string(), Vec::new(), msg);
    assert_eq!(r.unwrap_err(), ContractError::InvalidTerms);
}

#[test]
fn query_roundtrip() {
    let store = OptionStore::new();
    assert!(matches!(query(&store, QueryMsg::Config {}), Err(ContractError::NotFound)));
    let store = open_store(call_long_msg());
    let terms = query(&store, QueryMsg::Config {}).unwrap();
    assert_eq!(terms.owner, "owner");
    assert_eq!(terms.liquidity, "pool");
    assert_eq!(terms.strike_price.amount, 8 * SCALE);
    assert_eq!(terms.quantity, 10);
    assert!(!terms.putcall);
    assert!(!terms.buysell);
}

// Opening scenario: strike 8.00, spot 8.01, quantity 10, long call,
// volatility 1.00, rate 0.0021, one period to expiry. The pool pays the
// holder the call premium for ten units and the holder posts ten units of
// the option currency as collateral.
#[test]
fn open_funding_long_call_scenario() {
    let store = open_store(call_long_msg());
    let spot: u128 = 8_010_000;
    let vol: u128 = SCALE;
    let rate: u128 = 2_100;
    let unit = option_protocol::pricing::price(spot, 8 * SCALE, 1, vol, rate, false).unwrap();
    // spot is a whisker above strike, so the one-period call is worth
    // roughly half the spot under unit volatility: a loose sanity corridor.
    assert!(unit > 2 * SCALE && unit < 5 * SCALE, "unit price {unit}");
    let resp = try_initoption(&store, spot, vol, rate).unwrap();
    assert_eq!(resp.transfers.len(), 2);
    let premium = &resp.transfers[0];
    assert_eq!(premium.from, "pool");
    assert_eq!(premium.to, "owner");
    assert_eq!(premium.amount, unit * 10);
    assert_eq!(premium.denom, "uusd");
    let collateral = &resp.transfers[1];
    assert_eq!(collateral.from, "owner");
    assert_eq!(collateral.to, "pool");
    assert_eq!(collateral.amount, 10);
    assert_eq!(collateral.denom, "uopt");
    // Opening the funding legs does not change state.
    assert!(store.record.is_some());
}

#[test]
fn open_funding_short_pays_premium_in() {
    let mut msg = call_long_msg();
    msg.buysell = true;
    let store = open_store(msg);
    let resp = try_initoption(&store, 8_010_000, SCALE, 2_100).unwrap();
    assert_eq!(resp.transfers.len(), 1);
    assert_eq!(resp.transfers[0].from, "owner");
    assert_eq!(resp.transfers[0].to, "pool");
    assert_eq!(resp.transfers[0].denom, "uusd");
}

#[test]
fn open_funding_long_put_posts_cash_collateral() {
    let mut msg = call_long_msg();
    msg.putcall = true;
    let store = open_store(msg);
    let unit = option_protocol::pricing::price(8_010_000, 8 * SCALE, 1, SCALE, 2_100, true)
        .unwrap();
    let resp = try_initoption(&store, 8_010_000, SCALE, 2_100).unwrap();
    assert_eq!(resp.transfers.len(), 2);
    assert_eq!(resp.transfers[0].from, "pool");
    assert_eq!(resp.transfers[0].to, "owner");
    assert_eq!(resp.transfers[0].amount, unit * 10);
    assert_eq!(resp.transfers[0].denom, "uusd");
    // strike * quantity in the settlement currency.
    assert_eq!(resp.transfers[1].from, "owner");
    assert_eq!(resp.transfers[1].to, "pool");
    assert_eq!(resp.transfers[1].amount, 8 * SCALE * 10);
    assert_eq!(resp.transfers[1].denom, "uusd");
}

#[test]
fn open_funding_rejects_bad_oracle() {
    let store = open_store(call_long_msg());
    let r = try_initoption(&store, 0, SCALE, 2_100);
    assert_eq!(r.unwrap_err(), ContractError::InvalidPricingInput);
    let r = try_initoption(&store, 8_010_000, 0, 2_100);
    assert_eq!(r.unwrap_err(), ContractError::InvalidPricingInput);
}

#[test]
fn open_funding_without_record_not_found() {
    let store = OptionStore::new();
    assert_eq!(
        try_initoption(&store, 8_010_000, SCALE, 2_100).unwrap_err(),
        ContractError::NotFound
    );
}

// Expiry scenario: spot 9.00 above strike 8.00 on a long call. The pool pays
// the holder quantity * (spot - strike); the record is deleted; a repeated
// call fails with NotFound.
#[test]
fn expire_long_call_in_the_money() {
    let mut store = open_store(call_long_msg());
    let resp = try_expires(&mut store, 1, 9 * SCALE).unwrap();
    assert_eq!(resp.transfers.len(), 1);
    assert_eq!(resp.transfers[0].from, "pool");
    assert_eq!(resp.transfers[0].to, "owner");
    assert_eq!(resp.transfers[0].amount, 10 * (9 * SCALE - 8 * SCALE));
    assert_eq!(resp.transfers[0].denom, "uusd");
    assert!(store.record.is_none());
    assert_eq!(try_expires(&mut store, 1, 9 * SCALE).unwrap_err(), ContractError::NotFound);
    assert_eq!(
        try_selloption(&mut store, "owner".to_string(), 0, 9 * SCALE, SCALE, 2_100).unwrap_err(),
        ContractError::NotFound
    );
}

#[test]
fn expire_is_premature_before_expiration() {
    let mut store = open_store(call_long_msg());
    assert_eq!(try_expires(&mut store, 0, 9 * SCALE).unwrap_err(), ContractError::Unauthorized);
    assert!(store.record.is_some());
}

#[test]
fn expire_accepts_zero_spot() {
    // Expiry settles from intrinsic value alone: a worthless underlying is a
    // legitimate outcome, out of the money for a long call.
    let mut store = open_store(call_long_msg());
    let resp = try_expires(&mut store, 1, 0).unwrap();
    assert!(resp.transfers.is_empty());
    assert!(store.record.is_none());
}

#[test]
fn expire_rejects_spot_beyond_machine_bound() {
    let mut store = open_store(call_long_msg());
    let over = option_protocol::contract::EXPIRY_SPOT_MAX + 1;
    assert_eq!(try_expires(&mut store, 1, over).unwrap_err(), ContractError::InvalidPricingInput);
    assert!(store.record.is_some());
}

// Moneyness boundary: with the spot exactly on the strike, a long call and a
// long put both expire with no transfer at all.
#[test]
fn expire_at_the_money_long_is_empty() {
    let mut store = open_store(call_long_msg());
    let resp = try_expires(&mut store, 1, 8 * SCALE).unwrap();
    assert!(resp.transfers.is_empty());

    let mut put = call_long_msg();
    put.putcall = true;
    let mut store = open_store(put);
    let resp = try_expires(&mut store, 1, 8 * SCALE).unwrap();
    assert!(resp.transfers.is_empty());
}

#[test]
fn expire_short_call_settles_or_returns_collateral() {
    let mut short = call_long_msg();
    short.buysell = true;
    // In the money: cash settlement of quantity * spot.
    let mut store = open_store(short);
    let resp = try_expires(&mut store, 1, 9 * SCALE).unwrap();
    assert_eq!(resp.transfers.len(), 1);
    assert_eq!(resp.transfers[0].amount, 10 * 9 * SCALE);
    assert_eq!(resp.transfers[0].denom, "uusd");
    // Out of the money: the posted collateral comes back.
    let mut short = call_long_msg();
    short.buysell = true;
    let mut store = open_store(short);
    let resp = try_expires(&mut store, 1, 7 * SCALE).unwrap();
    assert_eq!(resp.transfers.len(), 1);
    assert_eq!(resp.transfers[0].amount, 10);
    assert_eq!(resp.transfers[0].denom, "uopt");
}

#[test]
fn expire_short_put_mirrors() {
    let mut short_put = call_long_msg();
    short_put.buysell = true;
    short_put.putcall = true;
    // In the money for a put: spot below strike; collateral units go back.
    let mut store = open_store(short_put);
    let resp = try_expires(&mut store, 1, 7 * SCALE).unwrap();
    assert_eq!(resp.transfers.len(), 1);
    assert_eq!(resp.transfers[0].amount, 10);
    assert_eq!(resp.transfers[0].denom, "uopt");
    // Out of the money: strike * quantity in cash.
    let mut short_put = call_long_msg();
    short_put.buysell = true;
    short_put.putcall = true;
    let mut store = open_store(short_put);
    let resp = try_expires(&mut store, 1, 9 * SCALE).unwrap();
    assert_eq!(resp.transfers.len(), 1);
    assert_eq!(resp.transfers[0].amount, 8 * SCALE * 10);
    assert_eq!(resp.transfers[0].denom, "uusd");
}

#[test]
fn expire_long_put_in_the_money() {
    let mut put = call_long_msg();
    put.putcall = true;
    let mut store = open_store(put);
    let resp = try_expires(&mut store, 1, 7 * SCALE).unwrap();
    assert_eq!(resp.transfers.len(), 1);
    assert_eq!(resp.transfers[0].amount, 10 * (8 * SCALE - 7 * SCALE));
    assert_eq!(resp.transfers[0].denom, "uusd");
}

#[test]
fn early_sale_requires_owner() {
    let mut store = open_store(call_long_msg());
    assert_eq!(
        try_selloption(&mut store, "mallory".to_string(), 0, 8_010_000, SCALE, 2_100).unwrap_err(),
        ContractError::Unauthorized
    );
    assert!(store.record.is_some());
}

// Timing gate: early sale succeeds only strictly before expiration, expiry
// only at or after it; at any single time exactly one is eligible.
#[test]
fn early_sale_rejected_once_expired() {
    let mut store = open_store(call_long_msg());
    assert_eq!(
        try_selloption(&mut store, "owner".to_string(), 1, 8_010_000, SCALE, 2_100).unwrap_err(),
        ContractError::Unauthorized
    );
    // At the same instant, expiry is the eligible transition.
    assert!(try_expires(&mut store, 1, 8_010_000).is_ok());
    assert!(store.record.is_none());
}

#[test]
fn early_sale_long_receives_fair_value_and_deletes() {
    let mut store = open_store(call_long_msg());
    let unit = option_protocol::pricing::price(8_010_000, 8 * SCALE, 1, SCALE, 2_100, false)
        .unwrap();
    let resp = try_selloption(&mut store, "owner".to_string(), 0, 8_010_000, SCALE, 2_100)
        .unwrap();
    assert_eq!(resp.transfers.len(), 1);
    assert_eq!(resp.transfers[0].from, "pool");
    assert_eq!(resp.transfers[0].to, "owner");
    assert_eq!(resp.transfers[0].amount, unit * 10);
    assert!(store.record.is_none());
    assert_eq!(
        try_selloption(&mut store, "owner".to_string(), 0, 8_010_000, SCALE, 2_100).unwrap_err(),
        ContractError::NotFound
    );
}

#[test]
fn early_sale_short_unwinds_both_legs() {
    let mut msg = call_long_msg();
    msg.buysell = true;
    let mut store = open_store(msg);
    let resp = try_selloption(&mut store, "owner".to_string(), 0, 8_010_000, SCALE, 2_100)
        .unwrap();
    assert_eq!(resp.transfers.len(), 2);
    assert_eq!(resp.transfers[0].from, "owner");
    assert_eq!(resp.transfers[0].to, "pool");
    assert_eq!(resp.transfers[0].denom, "uusd");
    assert_eq!(resp.transfers[1].from, "pool");
    assert_eq!(resp.transfers[1].to, "owner");
    assert_eq!(resp.transfers[1].amount, 10);
    assert_eq!(resp.transfers[1].denom, "uopt");
}

#[test]
fn execute_dispatches_all_three() {
    let mut store = open_store(call_long_msg());
    let r = execute(
        &mut store,
        0,
        "anyone".to_string(),
        ExecuteMsg::InitOption { recipient: "owner".to_string() },
        8_010_000,
        SCALE,
        2_100,
    );
    assert!(r.is_ok());
    let r = execute(
        &mut store,
        0,
        "owner".to_string(),
        ExecuteMsg::SellOption { owner: "owner".to_string() },
        8_010_000,
        SCALE,
        2_100,
    );
    assert!(r.is_ok());
    assert!(store.record.is_none());
    let r = execute(&mut store, 1, "anyone".to_string(), ExecuteMsg::Expires {}, 9 * SCALE, SCALE, 2_100);
    assert_eq!(r.unwrap_err(), ContractError::NotFound);
}

// Opening premiums on two records identical but for the option type satisfy
// put-call parity: the difference is quantity * (spot - discounted strike),
// within quantity minor units.
#[test]
fn open_funding_premiums_satisfy_parity() {
    let spot: u128 = 8_010_000;
    let rate: u128 = 2_100;
    let call_store = open_store(call_long_msg());
    let mut put_msg = call_long_msg();
    put_msg.putcall = true;
    let put_store = open_store(put_msg);
    let c = try_initoption(&call_store, spot, SCALE, rate).unwrap();
    let p = try_initoption(&put_store, spot, SCALE, rate).unwrap();
    let disc = option_protocol::fixed::exp_neg(option_protocol::fixed::mul_fp(rate, SCALE));
    let dk = option_protocol::fixed::mul_fp(8 * SCALE, disc);
    let gap = c.transfers[0].amount as i128 - p.transfers[0].amount as i128
        - 10 * (spot as i128 - dk as i128);
    assert!(-10 <= gap && gap <= 10, "premium parity gap {gap}");
}

// Conservation, checked on a concrete settlement: the owner's net change and
// the pool's net change cancel in each currency.
#[test]
fn settlement_conserves_funds() {
    let store = open_store(call_long_msg());
    let resp = try_initoption(&store, 8_010_000, SCALE, 2_100).unwrap();
    for denom in ["uusd", "uopt"] {
        let mut owner: i128 = 0;
        let mut pool: i128 = 0;
        for t in &resp.transfers {
            if t.denom == denom {
                let a = t.amount as i128;
                if t.to == "owner" { owner += a }
                if t.from == "owner" { owner -= a }
                if t.to == "pool" { pool += a }
                if t.from == "pool" { pool -= a }
            }
        }
        assert_eq!(owner + pool, 0);
    }
}
