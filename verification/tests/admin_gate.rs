//! The admin gate: quorum, fresh signatures per action, idempotent
//! approvals, and the blacklist.  Also the custody mirror and the
//! position-level bookkeeping.

use lending_protocol::decimal::{Decimal, SCALE};
use lending_protocol::errors::LendingError;
use lending_protocol::pool::Pool;
use lending_protocol::protocol::LendingProtocol;
use lending_protocol::user::UserData;

fn dec(units: u64) -> Decimal {
    Decimal::from_int(units)
}

#[test]
fn quorum_needs_three_distinct_approvals() {
    // two distinct approvals: the privileged call is rejected; a third
    // distinct approval lets the same call succeed and clears the set; an
    // identical fourth call without new approvals is rejected again
    let mut protocol = LendingProtocol::instantiate();
    approve_and_register(&mut protocol);
    protocol.approve_admin_functions(1).unwrap();
    protocol.approve_admin_functions(2).unwrap();
    let r = protocol.lock_pool(1, true, false, false, false);
    assert_eq!(r, Err(LendingError::NotApprovedByAdmins));
    protocol.approve_admin_functions(3).unwrap();
    protocol.lock_pool(1, true, false, false, false).unwrap();
    let r = protocol.lock_pool(1, true, false, false, false);
    assert_eq!(r, Err(LendingError::NotApprovedByAdmins));
}

#[test]
fn approving_twice_does_not_double_count() {
    let mut protocol = LendingProtocol::instantiate();
    approve_and_register(&mut protocol);
    protocol.approve_admin_functions(1).unwrap();
    protocol.approve_admin_functions(1).unwrap();
    protocol.approve_admin_functions(2).unwrap();
    protocol.approve_admin_functions(2).unwrap();
    let r = protocol.lock_pool(1, true, false, false, false);
    assert_eq!(r, Err(LendingError::NotApprovedByAdmins));
}

#[test]
fn blacklisted_admins_cannot_approve() {
    let mut protocol = LendingProtocol::instantiate();
    for id in [1, 2, 3] {
        protocol.approve_admin_functions(id).unwrap();
    }
    protocol.add_to_blacklist(7).unwrap();
    assert_eq!(protocol.approve_admin_functions(7), Err(LendingError::AdminBlacklisted));
    for id in [1, 2, 3] {
        protocol.approve_admin_functions(id).unwrap();
    }
    protocol.remove_from_blacklist(7).unwrap();
    protocol.approve_admin_functions(7).unwrap();
}

#[test]
fn badge_numbers_advance_under_the_gate() {
    let mut protocol = LendingProtocol::instantiate();
    assert_eq!(protocol.mint_admin_badge(), Err(LendingError::NotApprovedByAdmins));
    for id in [1, 2, 3] {
        protocol.approve_admin_functions(id).unwrap();
    }
    // the five initial badges are numbered 1 through 5
    assert_eq!(protocol.mint_admin_badge(), Ok(6));
    assert_eq!(protocol.mint_admin_badge(), Err(LendingError::NotApprovedByAdmins));
    for id in [1, 2, 3] {
        protocol.approve_admin_functions(id).unwrap();
    }
    protocol.take_protocol_badge().unwrap();
    assert_eq!(protocol.take_protocol_badge(), Err(LendingError::NotApprovedByAdmins));
}

fn approve_and_register(protocol: &mut LendingProtocol) {
    for id in [1, 2, 3] {
        protocol.approve_admin_functions(id).unwrap();
    }
    protocol
        .create_pool(
            1,
            Decimal::from_raw(SCALE / 1000),
            Decimal::from_raw(3 * SCALE / 100),
            dec(10),
            Decimal::from_raw(7 * SCALE / 10),
            Decimal::from_raw(SCALE / 10),
            Decimal::from_raw(SCALE / 2),
            0,
        )
        .unwrap();
}

#[test]
fn custody_mirror_tracks_the_totals() {
    let mut pool = Pool::instantiate();
    pool.put(dec(1000), dec(1000), dec(1000), dec(0), dec(0), dec(0), 5);
    assert_eq!(pool.liquidity_pool.raw, 1000 * SCALE);
    let taken = pool.take(dec(400), dec(600), dec(600), dec(0), dec(0), dec(0), 6);
    assert_eq!(taken.raw, 400 * SCALE);
    assert_eq!(pool.liquidity_pool.raw, 600 * SCALE);
    let balances = pool.get_pool_balances();
    assert_eq!(balances.0.raw, 600 * SCALE);
    assert_eq!(balances.1.raw, 600 * SCALE);
    assert_eq!(pool.updated_at, 6);
}

#[test]
fn position_bookkeeping_clamps_repayments() {
    let mut user = UserData::new(String::new(), String::new(), 0);
    user.on_borrow(1, dec(100));
    assert_eq!(user.get_borrow(1).raw, 100 * SCALE);
    // repaying more than is owed clamps the balance at zero
    user.on_repay(1, dec(150));
    assert_eq!(user.get_borrow(1).raw, 0);
    user.on_deposit(1, dec(30));
    user.on_deposit(2, dec(20));
    user.on_withdraw(1, dec(10));
    assert_eq!(user.get_deposit(1).raw, 20 * SCALE);
    assert_eq!(user.get_deposit(2).raw, 20 * SCALE);
    assert_eq!(user.get_deposit(3).raw, 0);
}
