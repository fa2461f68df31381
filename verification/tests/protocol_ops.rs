//! End-to-end tests of the protocol operations: pool registration,
//! deposits, withdrawals, borrowing and repaying, with their error cases.

use lending_protocol::decimal::{Decimal, SCALE};
use lending_protocol::errors::LendingError;
use lending_protocol::protocol::LendingProtocol;
use lending_protocol::table::Table;

fn dec(units: u64) -> Decimal {
    Decimal::from_int(units)
}

fn frac(raw: u128) -> Decimal {
    Decimal::from_raw(raw)
}

fn approve_quorum(protocol: &mut LendingProtocol) {
    protocol.approve_admin_functions(1).unwrap();
    protocol.approve_admin_functions(2).unwrap();
    protocol.approve_admin_functions(3).unwrap();
}

/// A protocol with one pool for asset 1: the bootstrap-scenario curve.
fn protocol_with_pool(ltv_raw: u128) -> LendingProtocol {
    let mut protocol = LendingProtocol::instantiate();
    approve_quorum(&mut protocol);
    protocol
        .create_pool(
            1,
            frac(SCALE / 1000),
            frac(3 * SCALE / 100),
            dec(10),
            frac(7 * SCALE / 10),
            frac(SCALE / 10),
            frac(ltv_raw),
            0,
        )
        .unwrap();
    protocol
}

fn one_price() -> Table<Decimal> {
    let mut prices: Table<Decimal> = Table::new();
    prices.insert(1, Decimal::one());
    prices
}

#[test]
fn pool_bootstrap_mints_shares_one_to_one() {
    // register base=0.001, base_multiplier=0.03, multiplier=10, kink=0.7,
    // reserve_factor=0.1, ltv=0.5; the first deposit of 1000 mints 1000
    // shares at price 1
    let mut protocol = protocol_with_pool(SCALE / 2);
    let user = protocol.create_user_and_deposit(1, dec(1000), String::new(), String::new(), 0)
        .unwrap();
    assert_eq!(user, 1);
    let pool = protocol.pool_parameters.get(1).unwrap();
    assert_eq!(pool.deposit_balance.raw, 1000 * SCALE);
    assert_eq!(pool.sd_balance.raw, 1000 * SCALE);
    // a second deposit of 500 before any borrow mints exactly 500 shares:
    // utilisation stayed 0, so the price is unchanged
    protocol.deposit(1, dec(500), user, 0).unwrap();
    let pool = protocol.pool_parameters.get(1).unwrap();
    assert_eq!(pool.deposit_balance.raw, 1500 * SCALE);
    assert_eq!(pool.sd_balance.raw, 1500 * SCALE);
    let position = protocol.users.borrow_val(user).unwrap();
    assert_eq!(position.get_deposit(1).raw, 1500 * SCALE);
}

#[test]
fn registration_validates_parameters() {
    let mut protocol = LendingProtocol::instantiate();
    // privileged registration needs three distinct approvals first
    let r = protocol.create_pool(
        1,
        frac(SCALE / 1000),
        frac(3 * SCALE / 100),
        dec(10),
        frac(7 * SCALE / 10),
        frac(SCALE / 10),
        frac(SCALE / 2),
        0,
    );
    assert_eq!(r, Err(LendingError::NotApprovedByAdmins));
    approve_quorum(&mut protocol);
    let r = protocol.create_pool(
        1,
        dec(0),
        frac(SCALE / 100),
        dec(10),
        frac(SCALE / 2),
        dec(0),
        frac(2 * SCALE),
        0,
    );
    assert_eq!(r, Err(LendingError::InvalidLtvRatio));
    let r = protocol.create_pool(
        1,
        dec(0),
        frac(SCALE / 100),
        dec(0),
        frac(SCALE / 2),
        dec(0),
        frac(SCALE / 2),
        0,
    );
    assert_eq!(r, Err(LendingError::InvalidMultiplier));
    let r = protocol.create_pool(
        1,
        dec(0),
        dec(11),
        dec(10),
        frac(SCALE / 2),
        dec(0),
        frac(SCALE / 2),
        0,
    );
    assert_eq!(r, Err(LendingError::InvalidMultiplier));
    let r = protocol.create_pool(
        1,
        dec(0),
        frac(SCALE / 100),
        dec(10),
        frac(SCALE / 2),
        dec(2),
        frac(SCALE / 2),
        0,
    );
    assert_eq!(r, Err(LendingError::InvalidReserveFactor));
    let r = protocol.create_pool(
        1,
        dec(0),
        frac(SCALE / 100),
        dec(10),
        dec(101),
        frac(SCALE / 10),
        frac(SCALE / 2),
        0,
    );
    assert_eq!(r, Err(LendingError::InvalidKink));
}

#[test]
fn duplicate_registration_is_rejected() {
    let mut protocol = protocol_with_pool(SCALE / 2);
    approve_quorum(&mut protocol);
    let r = protocol.create_pool(
        1,
        frac(SCALE / 1000),
        frac(3 * SCALE / 100),
        dec(10),
        frac(7 * SCALE / 10),
        frac(SCALE / 10),
        frac(SCALE / 2),
        0,
    );
    assert_eq!(r, Err(LendingError::PoolAlreadyExists));
}

#[test]
fn deposit_to_unknown_pool_is_rejected() {
    let mut protocol = protocol_with_pool(SCALE / 2);
    let user = protocol.create_user_and_deposit(1, dec(10), String::new(), String::new(), 0)
        .unwrap();
    assert_eq!(protocol.deposit(9, dec(10), user, 0), Err(LendingError::PoolNotFound));
}

#[test]
fn deposit_for_unknown_user_is_rejected() {
    let mut protocol = protocol_with_pool(SCALE / 2);
    assert_eq!(protocol.deposit(1, dec(10), 42, 0), Err(LendingError::UserNotFound));
}

#[test]
fn deposit_limit_is_enforced() {
    // the registration default caps a pool's deposits at 100000
    let mut protocol = protocol_with_pool(SCALE / 2);
    let r = protocol.create_user_and_deposit(1, dec(100001), String::new(), String::new(), 0);
    assert_eq!(r, Err(LendingError::DepositLimitReached(dec(100000))));
    protocol.create_user_and_deposit(1, dec(100000), String::new(), String::new(), 0).unwrap();
}

#[test]
fn locks_disable_each_operation() {
    let mut protocol = protocol_with_pool(SCALE / 2);
    let user = protocol.create_user_and_deposit(1, dec(1000), String::new(), String::new(), 0)
        .unwrap();
    approve_quorum(&mut protocol);
    protocol.lock_pool(1, true, true, true, true).unwrap();
    let prices = one_price();
    assert_eq!(protocol.deposit(1, dec(10), user, 0), Err(LendingError::DepositLocked));
    assert_eq!(
        protocol.withdraw(1, dec(10), user, &prices, 0),
        Err(LendingError::WithdrawLocked)
    );
    assert_eq!(
        protocol.borrow(1, dec(10), user, &prices, 0),
        Err(LendingError::BorrowLocked)
    );
    assert_eq!(protocol.repay(1, dec(10), user, 0), Err(LendingError::RepayLocked));
    // unlocking restores the operations
    approve_quorum(&mut protocol);
    protocol.lock_pool(1, false, false, false, false).unwrap();
    protocol.deposit(1, dec(10), user, 0).unwrap();
}

#[test]
fn withdraw_returns_the_full_deposit_on_a_fresh_pool() {
    // deposit 1000 then immediately withdraw the shares' full value with no
    // intervening accrual: the returned amount equals the deposit
    let mut protocol = protocol_with_pool(SCALE / 2);
    approve_quorum(&mut protocol);
    // let the whole pool be disbursable for the round trip
    protocol
        .update_pool_parameters(
            1,
            frac(SCALE / 5),
            frac(SCALE / 10),
            frac(SCALE / 2),
            frac(SCALE / 10),
            frac(SCALE),
            dec(0),
            dec(100000),
        )
        .unwrap();
    let user = protocol.create_user_and_deposit(1, dec(1000), String::new(), String::new(), 0)
        .unwrap();
    let prices = one_price();
    let returned = protocol.withdraw(1, dec(1000), user, &prices, 0).unwrap();
    assert!(returned.raw <= 1000 * SCALE);
    assert_eq!(returned.raw, 1000 * SCALE);
    let pool = protocol.pool_parameters.get(1).unwrap();
    assert_eq!(pool.deposit_balance.raw, 0);
    assert_eq!(pool.sd_balance.raw, 0);
}

#[test]
fn withdraw_is_capped_by_pool_liquidity() {
    // the pool keeps a 0.2 protected reserve fraction: 800 of 1000 is
    // disbursable
    let mut protocol = protocol_with_pool(SCALE / 2);
    let user = protocol.create_user_and_deposit(1, dec(1000), String::new(), String::new(), 0)
        .unwrap();
    let prices = one_price();
    let r = protocol.withdraw(1, dec(900), user, &prices, 0);
    assert_eq!(r, Err(LendingError::InsufficientLiquidity(dec(800))));
}

#[test]
fn withdraw_is_capped_by_the_own_deposit() {
    let mut protocol = protocol_with_pool(SCALE / 2);
    protocol.create_user_and_deposit(1, dec(10000), String::new(), String::new(), 0).unwrap();
    let user = protocol.create_user_and_deposit(1, dec(100), String::new(), String::new(), 0)
        .unwrap();
    let prices = one_price();
    let r = protocol.withdraw(1, dec(200), user, &prices, 0);
    assert_eq!(r, Err(LendingError::InsufficientDeposit(dec(100))));
}

#[test]
fn withdraw_needs_a_price_for_held_assets() {
    let mut protocol = protocol_with_pool(SCALE / 2);
    let user = protocol.create_user_and_deposit(1, dec(1000), String::new(), String::new(), 0)
        .unwrap();
    let empty: Table<Decimal> = Table::new();
    let r = protocol.withdraw(1, dec(100), user, &empty, 0);
    assert_eq!(r, Err(LendingError::PriceNotFound));
}

#[test]
fn withdraw_keeps_collateral_backing_loans() {
    // ltv 0.5: deposit 1000 backs 500; with a 100 loan the collateral
    // still needed keeps (500 - 100) / 0.5 = 800 withdrawable
    let mut protocol = protocol_with_pool(SCALE / 2);
    approve_quorum(&mut protocol);
    protocol
        .update_pool_parameters(
            1,
            frac(SCALE / 5),
            frac(SCALE / 10),
            frac(SCALE / 2),
            frac(SCALE / 10),
            frac(SCALE),
            dec(0),
            dec(100000),
        )
        .unwrap();
    let user = protocol.create_user_and_deposit(1, dec(1000), String::new(), String::new(), 0)
        .unwrap();
    let prices = one_price();
    protocol.borrow(1, dec(100), user, &prices, 0).unwrap();
    let r = protocol.withdraw(1, dec(850), user, &prices, 0);
    assert_eq!(r, Err(LendingError::MaxWithdrawalExceeded(dec(800))));
    protocol.withdraw(1, dec(800), user, &prices, 0).unwrap();
}

#[test]
fn borrow_needs_collateral() {
    // ltv 0.5: a 1000 deposit backs only 500 of debt
    let mut protocol = protocol_with_pool(SCALE / 2);
    let user = protocol.create_user_and_deposit(1, dec(1000), String::new(), String::new(), 0)
        .unwrap();
    let prices = one_price();
    let r = protocol.borrow(1, dec(600), user, &prices, 0);
    assert_eq!(r, Err(LendingError::InsufficientCollateral(dec(500))));
}

#[test]
fn borrow_is_capped_by_the_pool_percent() {
    // max_borrow_percent defaults to 0.1: of a 5000 pool at most 500
    let mut protocol = protocol_with_pool(SCALE / 2);
    let user = protocol.create_user_and_deposit(1, dec(5000), String::new(), String::new(), 0)
        .unwrap();
    let prices = one_price();
    let r = protocol.borrow(1, dec(600), user, &prices, 0);
    assert_eq!(r, Err(LendingError::MaxBorrowExceeded(dec(500))));
    protocol.borrow(1, dec(500), user, &prices, 0).unwrap();
}

#[test]
fn borrow_updates_pool_and_position() {
    let mut protocol = protocol_with_pool(SCALE / 2);
    let user = protocol.create_user_and_deposit(1, dec(1000), String::new(), String::new(), 0)
        .unwrap();
    let prices = one_price();
    let out = protocol.borrow(1, dec(100), user, &prices, 0).unwrap();
    assert_eq!(out.raw, 100 * SCALE);
    let pool = protocol.pool_parameters.get(1).unwrap();
    assert_eq!(pool.borrow_balance.raw, 100 * SCALE);
    assert_eq!(pool.sb_balance.raw, 100 * SCALE);
    let position = protocol.users.borrow_val(user).unwrap();
    assert_eq!(position.get_borrow(1).raw, 100 * SCALE);
}

#[test]
fn repay_reduces_the_debt_and_returns_change() {
    let mut protocol = protocol_with_pool(SCALE / 2);
    let user = protocol.create_user_and_deposit(1, dec(1000), String::new(), String::new(), 0)
        .unwrap();
    let prices = one_price();
    protocol.borrow(1, dec(100), user, &prices, 0).unwrap();
    let change = protocol.repay(1, dec(40), user, 0).unwrap();
    assert_eq!(change.raw, 0);
    let pool = protocol.pool_parameters.get(1).unwrap();
    assert_eq!(pool.borrow_balance.raw, 60 * SCALE);
    assert_eq!(pool.sb_balance.raw, 60 * SCALE);
    // offering more than is owed returns the overpayment as change
    let change = protocol.repay(1, dec(100), user, 0).unwrap();
    assert_eq!(change.raw, 40 * SCALE);
    let pool = protocol.pool_parameters.get(1).unwrap();
    assert_eq!(pool.borrow_balance.raw, 0);
    assert_eq!(pool.sb_balance.raw, 0);
    let position = protocol.users.borrow_val(user).unwrap();
    assert_eq!(position.get_borrow(1).raw, 0);
}

#[test]
fn interest_accrues_over_elapsed_time() {
    // utilisation 0.5 under the bootstrap curve: rate 0.001 + 0.03 * 0.5 =
    // 0.016; over one year the loan book of 500 accrues 8, of which the
    // 0.1 reserve factor keeps 0.8
    let mut protocol = protocol_with_pool(SCALE / 2);
    approve_quorum(&mut protocol);
    protocol
        .update_pool_parameters(
            1,
            frac(SCALE / 5),
            frac(SCALE / 10),
            frac(SCALE / 2),
            frac(SCALE),
            frac(SCALE),
            frac(SCALE / 5),
            dec(100000),
        )
        .unwrap();
    let user = protocol.create_user_and_deposit(1, dec(1000), String::new(), String::new(), 0)
        .unwrap();
    let prices = one_price();
    protocol.borrow(1, dec(500), user, &prices, 0).unwrap();
    let year: u64 = 365 * 24 * 60 / 5;
    protocol.deposit(1, dec(100), user, year).unwrap();
    let pool = protocol.pool_parameters.get(1).unwrap();
    assert_eq!(pool.borrow_balance.raw, 508 * SCALE);
    assert_eq!(pool.reserve_balance.raw, 8 * SCALE / 10);
    assert_eq!(pool.deposit_balance.raw, 1100 * SCALE + 7_200_000_000);
    assert_eq!(pool.balances_updated_at, year);
}

#[test]
fn reserve_collection_is_gated_and_bounded() {
    let mut protocol = protocol_with_pool(SCALE / 2);
    assert_eq!(
        protocol.collect_reserve_balance(1, dec(1), 0),
        Err(LendingError::NotApprovedByAdmins)
    );
    approve_quorum(&mut protocol);
    assert_eq!(
        protocol.collect_reserve_balance(1, dec(1), 0),
        Err(LendingError::InsufficientReserve(dec(0)))
    );
    approve_quorum(&mut protocol);
    let taken = protocol.collect_reserve_balance(1, dec(0), 0).unwrap();
    assert_eq!(taken.raw, 0);
}

#[test]
fn prices_weigh_cross_asset_collateral() {
    // collateral in an asset priced at 4 backs four times the debt the
    // same amount would back at price 1
    let mut protocol = protocol_with_pool(SCALE / 2);
    approve_quorum(&mut protocol);
    protocol
        .create_pool(
            2,
            frac(SCALE / 1000),
            frac(3 * SCALE / 100),
            dec(10),
            frac(7 * SCALE / 10),
            frac(SCALE / 10),
            frac(SCALE / 2),
            0,
        )
        .unwrap();
    let user = protocol.create_user_and_deposit(1, dec(1000), String::new(), String::new(), 0)
        .unwrap();
    protocol.create_user_and_deposit(2, dec(20000), String::new(), String::new(), 0).unwrap();
    let mut prices: Table<Decimal> = Table::new();
    prices.insert(1, dec(4));
    prices.insert(2, Decimal::one());
    // collateral value 1000 * 4 * 0.5 = 2000 in the common unit
    let r = protocol.borrow(2, dec(2500), user, &prices, 0);
    assert_eq!(r, Err(LendingError::InsufficientCollateral(dec(2000))));
    protocol.borrow(2, dec(1500), user, &prices, 0).unwrap();
    let pool2 = protocol.pool_parameters.get(2).unwrap();
    assert_eq!(pool2.borrow_balance.raw, 1500 * SCALE);
}

#[test]
fn gated_updates_rewrite_the_registry() {
    let mut protocol = protocol_with_pool(SCALE / 2);
    assert_eq!(
        protocol.update_pool_settings(
            1,
            dec(0),
            frac(SCALE / 100),
            dec(2),
            frac(SCALE / 2),
            frac(SCALE / 20),
            frac(SCALE / 4),
        ),
        Err(LendingError::NotApprovedByAdmins)
    );
    approve_quorum(&mut protocol);
    protocol
        .update_pool_settings(
            1,
            dec(0),
            frac(SCALE / 100),
            dec(2),
            frac(SCALE / 2),
            frac(SCALE / 20),
            frac(SCALE / 4),
        )
        .unwrap();
    let pool = protocol.pool_parameters.get(1).unwrap();
    assert_eq!(pool.multiplier.raw, 2 * SCALE);
    assert_eq!(pool.ltv_ratio.raw, SCALE / 4);
    approve_quorum(&mut protocol);
    assert_eq!(
        protocol.update_pool_settings(9, dec(0), dec(0), dec(1), dec(0), dec(0), dec(0)),
        Err(LendingError::PoolNotFound)
    );
    protocol
        .update_balances(1, dec(7), dec(6), dec(5), dec(4), dec(3), 11)
        .unwrap();
    let pool = protocol.pool_parameters.get(1).unwrap();
    assert_eq!(pool.deposit_balance.raw, 7 * SCALE);
    assert_eq!(pool.sd_balance.raw, 6 * SCALE);
    assert_eq!(pool.borrow_balance.raw, 5 * SCALE);
    assert_eq!(pool.sb_balance.raw, 4 * SCALE);
    assert_eq!(pool.reserve_balance.raw, 3 * SCALE);
    assert_eq!(pool.balances_updated_at, 11);
}

#[test]
fn pools_can_be_registered_with_existing_balances() {
    let mut protocol = LendingProtocol::instantiate();
    approve_quorum(&mut protocol);
    protocol
        .insert_pool_component(
            1,
            dec(500),
            dec(500),
            dec(100),
            dec(100),
            dec(2),
            frac(SCALE / 1000),
            frac(3 * SCALE / 100),
            dec(10),
            frac(7 * SCALE / 10),
            frac(SCALE / 10),
            frac(SCALE / 2),
            0,
        )
        .unwrap();
    let pool = protocol.pool_parameters.get(1).unwrap();
    assert_eq!(pool.deposit_balance.raw, 500 * SCALE);
    assert_eq!(pool.borrow_balance.raw, 100 * SCALE);
    assert_eq!(pool.reserve_balance.raw, 2 * SCALE);
}

#[test]
fn round_trip_shortfall_is_one_rounding_unit() {
    // a pool seeded at share price 1.5: depositing 100 mints
    // 66.666666666 shares; cashing their full recorded value right back
    // returns 99.999999999, one raw unit short of the deposit
    let mut protocol = LendingProtocol::instantiate();
    approve_quorum(&mut protocol);
    protocol
        .insert_pool_component(
            1,
            dec(1500),
            dec(1000),
            dec(0),
            dec(0),
            dec(0),
            frac(SCALE / 1000),
            frac(3 * SCALE / 100),
            dec(10),
            frac(7 * SCALE / 10),
            frac(SCALE / 10),
            frac(SCALE),
            0,
        )
        .unwrap();
    let user = protocol.create_user_and_deposit(1, dec(100), String::new(), String::new(), 0)
        .unwrap();
    let position = protocol.users.borrow_val(user).unwrap();
    assert_eq!(position.get_deposit(1).raw, 66_666_666_666);
    let prices = one_price();
    let full_value: u128 = 99_999_999_999;
    let returned = protocol.withdraw(1, frac(full_value), user, &prices, 0).unwrap();
    assert_eq!(returned.raw, full_value);
    assert_eq!(100 * SCALE - full_value, 1);
    let position = protocol.users.borrow_val(user).unwrap();
    assert_eq!(position.get_deposit(1).raw, 0);
}
