//! Exact-value tests for the rate curve and the share ledger.

use lending_protocol::calculations::{
    calculate_borrow_apr, calculate_borrow_rate, calculate_interests, calculate_s_interest,
    calculate_token_price, get_utilisation, UNITS_PER_YEAR,
};
use lending_protocol::decimal::{Decimal, SCALE};

fn dec(units: u64) -> Decimal {
    Decimal::from_int(units)
}

fn frac(raw: u128) -> Decimal {
    Decimal::from_raw(raw)
}

#[test]
fn utilisation_is_borrow_over_deposit() {
    let u = get_utilisation(dec(2000), dec(500));
    assert_eq!(u.raw, SCALE / 4);
}

#[test]
fn utilisation_zero_borrow_is_zero() {
    // utilisation(d, 0) = 0 for any d > 0
    assert_eq!(get_utilisation(dec(123456), dec(0)).raw, 0);
    assert_eq!(get_utilisation(dec(1), dec(0)).raw, 0);
}

#[test]
fn utilisation_zero_deposit_is_zero() {
    // utilisation(0, b) = 0 for any b: no division by zero
    assert_eq!(get_utilisation(dec(0), dec(900)).raw, 0);
    assert_eq!(get_utilisation(dec(0), dec(0)).raw, 0);
}

#[test]
fn borrow_rate_below_kink() {
    // base 0.001, base_multiplier 0.03, u 0.35 -> 0.001 + 0.03 * 0.35 = 0.0115
    let r = calculate_borrow_rate(
        dec(10),
        frac(3 * SCALE / 100),
        frac(SCALE / 1000),
        frac(7 * SCALE / 10),
        frac(35 * SCALE / 100),
    );
    assert_eq!(r.raw, 11_500_000);
}

#[test]
fn borrow_rate_above_kink() {
    // 0.001 + 0.03 * 0.7 + 10 * (0.8 - 0.7) = 1.022
    let r = calculate_borrow_rate(
        dec(10),
        frac(3 * SCALE / 100),
        frac(SCALE / 1000),
        frac(7 * SCALE / 10),
        frac(8 * SCALE / 10),
    );
    assert_eq!(r.raw, 1_022_000_000);
}

#[test]
fn borrow_rate_zero_utilisation_is_zero() {
    let r = calculate_borrow_rate(
        dec(10),
        frac(3 * SCALE / 100),
        frac(SCALE / 1000),
        frac(7 * SCALE / 10),
        dec(0),
    );
    assert_eq!(r.raw, 0);
}

#[test]
fn borrow_rate_is_continuous_at_the_kink() {
    // just below the kink the first segment's value approaches the curve's
    // value at the kink itself
    let kink = frac(7 * SCALE / 10);
    let at_kink = calculate_borrow_rate(
        dec(10),
        frac(3 * SCALE / 100),
        frac(SCALE / 1000),
        kink,
        kink,
    );
    // base + base_multiplier * kink, with no second-segment contribution
    assert_eq!(at_kink.raw, 1_000_000 + 21_000_000);
    let just_below = calculate_borrow_rate(
        dec(10),
        frac(3 * SCALE / 100),
        frac(SCALE / 1000),
        kink,
        frac(7 * SCALE / 10 - 1),
    );
    // one raw unit below the kink the rate differs by at most the slope step
    assert!(just_below.raw <= at_kink.raw);
    assert!(at_kink.raw - just_below.raw <= 1);
}

#[test]
fn borrow_rate_is_non_decreasing() {
    let mut previous: u128 = 0;
    let mut u: u128 = 0;
    while u <= SCALE {
        let r = calculate_borrow_rate(
            dec(10),
            frac(3 * SCALE / 100),
            frac(SCALE / 1000),
            frac(7 * SCALE / 10),
            frac(u),
        );
        assert!(r.raw >= previous);
        previous = r.raw;
        u += SCALE / 20;
    }
}

#[test]
fn borrow_apr_full_year_is_the_rate() {
    let apr = calculate_borrow_apr(frac(SCALE / 10), 0, UNITS_PER_YEAR);
    assert_eq!(apr.raw, SCALE / 10);
}

#[test]
fn borrow_apr_single_unit() {
    // 0.1 / 105120 rounded down
    let apr = calculate_borrow_apr(frac(SCALE / 10), 100, 101);
    assert_eq!(apr.raw, (SCALE / 10) / (UNITS_PER_YEAR as u128));
    assert_eq!(apr.raw, 951);
}

#[test]
fn interests_split_exactly() {
    // borrow 1000 at period rate 0.1, reserve factor 0.1
    let (bi, ri, di) = calculate_interests(dec(1000), frac(SCALE / 10), frac(SCALE / 10));
    assert_eq!(bi.raw, 100 * SCALE);
    assert_eq!(ri.raw, 10 * SCALE);
    assert_eq!(di.raw, 90 * SCALE);
    assert_eq!(ri.raw + di.raw, bi.raw);
}

#[test]
fn interests_split_exactly_with_rounding_factor() {
    // a reserve factor that does not divide evenly still splits exactly
    let third = frac(333_333_333);
    let (bi, ri, di) = calculate_interests(dec(1000), frac(SCALE / 10), third);
    assert_eq!(ri.raw + di.raw, bi.raw);
    assert!(ri.raw <= bi.raw);
}

#[test]
fn interests_split_at_factor_bounds() {
    // reserve factor 0: everything to depositors
    let (bi, ri, di) = calculate_interests(dec(1000), frac(SCALE / 10), dec(0));
    assert_eq!(ri.raw, 0);
    assert_eq!(di.raw, bi.raw);
    // reserve factor 1: everything to the reserve
    let (bi, ri, di) = calculate_interests(dec(1000), frac(SCALE / 10), frac(SCALE));
    assert_eq!(ri.raw, bi.raw);
    assert_eq!(di.raw, 0);
}

#[test]
fn token_price_of_empty_pool_is_one() {
    // token_price(total, 0) = 1
    assert_eq!(calculate_token_price(dec(12345), dec(0)).raw, SCALE);
    assert_eq!(calculate_token_price(dec(0), dec(0)).raw, SCALE);
}

#[test]
fn token_price_is_underlying_per_share() {
    assert_eq!(calculate_token_price(dec(1500), dec(1000)).raw, 3 * SCALE / 2);
}

#[test]
fn first_shares_are_minted_one_to_one() {
    // shares_for(amount, 0, any) = amount
    assert_eq!(calculate_s_interest(dec(777), dec(0), dec(0)).raw, 777 * SCALE);
    assert_eq!(calculate_s_interest(dec(777), dec(0), dec(5)).raw, 777 * SCALE);
}

#[test]
fn shares_follow_the_share_price() {
    // price 2 per share: 100 underlying mints 50 shares
    assert_eq!(calculate_s_interest(dec(100), dec(2000), dec(1000)).raw, 50 * SCALE);
}

#[test]
fn round_trip_on_fresh_pool_loses_nothing() {
    // mint shares for 1000 on an empty pool, then price them back
    let s = calculate_s_interest(dec(1000), dec(0), dec(0));
    assert_eq!(s.raw, 1000 * SCALE);
    let price = calculate_token_price(dec(1000), s);
    let value = s.mul(&price);
    assert!(value.raw <= 1000 * SCALE);
    assert_eq!(value.raw, 1000 * SCALE);
}
