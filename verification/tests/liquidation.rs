//! Liquidation settlement scenarios: the trigger threshold, every bound,
//! and the payout arithmetic.

use lending_protocol::decimal::{Decimal, SCALE};
use lending_protocol::errors::LendingError;
use lending_protocol::protocol::LendingProtocol;
use lending_protocol::table::Table;

fn dec(units: u64) -> Decimal {
    Decimal::from_int(units)
}

fn frac(raw: u128) -> Decimal {
    Decimal::from_raw(raw)
}

fn approve_quorum(protocol: &mut LendingProtocol) {
    protocol.approve_admin_functions(1).unwrap();
    protocol.approve_admin_functions(2).unwrap();
    protocol.approve_admin_functions(3).unwrap();
}

fn one_price() -> Table<Decimal> {
    let mut prices: Table<Decimal> = Table::new();
    prices.insert(1, Decimal::one());
    prices
}

/// One pool for asset 1 at ltv 1, bonus 0.1, reserve factor 0.2 and
/// min_collateral_ratio 1; a liquidity provider with 10000 and a borrower
/// with deposit 1000 who owes 900.
fn liquidation_setup() -> (LendingProtocol, u64) {
    let mut protocol = LendingProtocol::instantiate();
    approve_quorum(&mut protocol);
    protocol
        .create_pool(
            1,
            frac(SCALE / 1000),
            frac(3 * SCALE / 100),
            dec(10),
            frac(7 * SCALE / 10),
            frac(SCALE / 10),
            frac(SCALE),
            0,
        )
        .unwrap();
    approve_quorum(&mut protocol);
    protocol
        .update_pool_parameters(
            1,
            frac(SCALE / 5),
            frac(SCALE / 10),
            frac(SCALE / 2),
            frac(SCALE),
            frac(SCALE),
            frac(SCALE / 5),
            dec(100000),
        )
        .unwrap();
    protocol.create_user_and_deposit(1, dec(10000), String::new(), String::new(), 0).unwrap();
    let borrower = protocol
        .create_user_and_deposit(1, dec(1000), String::new(), String::new(), 0)
        .unwrap();
    let prices = one_price();
    protocol.borrow(1, dec(900), borrower, &prices, 0).unwrap();
    (protocol, borrower)
}

/// Marks the borrower's debt up to a value of 1050 against collateral 1000.
fn push_under_water(protocol: &mut LendingProtocol) {
    approve_quorum(protocol);
    protocol
        .update_balances(1, dec(11000), dec(11000), dec(1050), dec(900), dec(0), 0)
        .unwrap();
}

#[test]
fn healthy_position_cannot_be_liquidated() {
    // deposit value 1000, borrow value 900, min collateral ratio 1:
    // loan-limit-used 0.9 stays under the threshold
    let (mut protocol, borrower) = liquidation_setup();
    let prices = one_price();
    let r = protocol.liquidate(borrower, 1, dec(450), 1, &prices, 0);
    assert_eq!(r, Err(LendingError::LiquidationNotAllowed(frac(SCALE))));
}

#[test]
fn under_water_position_is_liquidated_within_the_deposit() {
    // raising the borrow value to 1050 lifts loan-limit-used to 1.05:
    // liquidation is accepted and reward + platform bonus stay within the
    // seized deposit's value of 1000
    let (mut protocol, borrower) = liquidation_setup();
    push_under_water(&mut protocol);
    let prices = one_price();
    let reward = protocol.liquidate(borrower, 1, dec(450), 1, &prices, 0).unwrap();
    // reward 450 * (1 + 0.1 * (1 - 0.2)) = 486, platform bonus
    // 450 * 0.1 * 0.2 = 9; together 495 <= 1000
    assert_eq!(reward.raw, 486 * SCALE);
    let pool = protocol.pool_parameters.get(1).unwrap();
    assert_eq!(pool.deposit_balance.raw, 10505 * SCALE);
    assert_eq!(pool.sd_balance.raw, 10505 * SCALE);
    assert_eq!(pool.reserve_balance.raw, 9 * SCALE);
    assert_eq!(pool.borrow_balance.raw, 600 * SCALE);
    let position = protocol.users.borrow_val(borrower).unwrap();
    assert_eq!(position.get_deposit(1).raw, 505 * SCALE);
    // the pool's borrow shares track the only borrower's shares
    assert_eq!(pool.sb_balance.raw, position.get_borrow(1).raw);
}

#[test]
fn liquidation_needs_a_targeted_deposit() {
    let (mut protocol, borrower) = liquidation_setup();
    let prices = one_price();
    let r = protocol.liquidate(borrower, 1, dec(450), 7, &prices, 0);
    assert_eq!(r, Err(LendingError::NoDepositToSeize));
}

#[test]
fn liquidation_needs_a_known_user() {
    let (mut protocol, _) = liquidation_setup();
    let prices = one_price();
    let r = protocol.liquidate(99, 1, dec(450), 1, &prices, 0);
    assert_eq!(r, Err(LendingError::UserNotFound));
}

#[test]
fn liquidation_needs_an_outstanding_loan() {
    let (mut protocol, _) = liquidation_setup();
    let prices = one_price();
    // the liquidity provider owes nothing
    let r = protocol.liquidate(1, 1, dec(450), 1, &prices, 0);
    assert_eq!(r, Err(LendingError::NoLoanOutstanding));
}

#[test]
fn liquidation_needs_prices_for_held_assets() {
    let (mut protocol, borrower) = liquidation_setup();
    let empty: Table<Decimal> = Table::new();
    let r = protocol.liquidate(borrower, 1, dec(450), 1, &empty, 0);
    assert_eq!(r, Err(LendingError::PriceNotFound));
}

#[test]
fn liquidation_is_bounded_by_the_max_repayment() {
    let (mut protocol, borrower) = liquidation_setup();
    push_under_water(&mut protocol);
    let prices = one_price();
    // the position is insolvent, so the whole debt value of just under
    // 1050 is repayable, but no more
    let r = protocol.liquidate(borrower, 1, dec(1100), 1, &prices, 0);
    assert_eq!(r, Err(LendingError::MaxRepaymentExceeded(frac(1_049_999_999_400))));
}

#[test]
fn liquidation_is_bounded_by_the_seized_deposit() {
    let (mut protocol, borrower) = liquidation_setup();
    push_under_water(&mut protocol);
    let prices = one_price();
    // deposit value 1000 over (0.1 * 0.2 + 1 + 0.1 * 0.8) = 1.1 caps the
    // accepted repay value at 909.09...
    let r = protocol.liquidate(borrower, 1, dec(950), 1, &prices, 0);
    assert_eq!(r, Err(LendingError::MaxLiquidationExceeded(frac(909_090_909_090))));
}

#[test]
fn liquidation_is_bounded_by_pool_liquidity() {
    let (mut protocol, borrower) = liquidation_setup();
    push_under_water(&mut protocol);
    let prices = one_price();
    // disbursable liquidity is 11000 - 0.2 * 11000 - 1050 = 7750; a repay
    // value of 7100 would draw 7100 * 1.1 > 7750 from the pool
    let r = protocol.liquidate(borrower, 1, dec(7100), 1, &prices, 0);
    assert_eq!(r, Err(LendingError::InsufficientLiquidity(dec(7750))));
}

#[test]
fn liquidation_repayment_is_bounded_by_the_per_asset_debt() {
    // a second pool: the borrower owes only 50 there, however large the
    // total debt is
    let (mut protocol, borrower) = liquidation_setup();
    approve_quorum(&mut protocol);
    protocol
        .create_pool(
            2,
            frac(SCALE / 1000),
            frac(3 * SCALE / 100),
            dec(10),
            frac(7 * SCALE / 10),
            frac(SCALE / 10),
            frac(SCALE / 2),
            0,
        )
        .unwrap();
    protocol.create_user_and_deposit(2, dec(10000), String::new(), String::new(), 0).unwrap();
    let mut prices: Table<Decimal> = Table::new();
    prices.insert(1, Decimal::one());
    prices.insert(2, Decimal::one());
    protocol.borrow(2, dec(50), borrower, &prices, 0).unwrap();
    push_under_water(&mut protocol);
    let r = protocol.liquidate(borrower, 2, dec(100), 1, &prices, 0);
    assert_eq!(r, Err(LendingError::RepayExceedsDebt(dec(50))));
    // repaying within the per-asset debt settles
    protocol.liquidate(borrower, 2, dec(40), 1, &prices, 0).unwrap();
    let pool2 = protocol.pool_parameters.get(2).unwrap();
    assert_eq!(pool2.borrow_balance.raw, 10 * SCALE);
}
