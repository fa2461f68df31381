//! Per-asset pool state: rate-curve inputs, risk limits, operational locks
//! and the pool-level balances, together with the lazy accrual step that
//! rolls interest forward from the last recorded clock value.

use vstd::prelude::*;
use vstd::arithmetic::div_mod::lemma_div_pos_is_pos;
use vstd::arithmetic::mul::lemma_mul_nonnegative;
use crate::decimal::{Decimal, SCALE};
use crate::calculations::{
    spec_utilisation, spec_borrow_rate, spec_borrow_apr, spec_borrow_interest,
    spec_reserve_interest, borrow_rate_fits, interests_fit, get_utilisation,
    calculate_borrow_rate, calculate_borrow_apr, calculate_interests, lemma_fraction_at_most,
    UNITS_PER_YEAR,
};

verus! {

/// Configuration and balances of one asset pool.
#[derive(Clone, Copy)]
pub struct PoolParameters {
    /// Loan-limit-used level above which a position may be liquidated.
    pub min_collateral_ratio: Decimal,
    /// The max percent of liquidity pool a user can borrow.
    pub max_borrow_percent: Decimal,
    /// The max percent of debt a liquidator can repay in one action.
    pub max_liquidation_percent: Decimal,
    /// Premium paid to a liquidator from seized collateral.
    pub liquidation_bonus: Decimal,
    /// Loan-to-value ratio.
    pub ltv_ratio: Decimal,
    /// Rate-curve slope above the kink.
    pub multiplier: Decimal,
    /// Rate-curve slope below the kink.
    pub base_multiplier: Decimal,
    /// Rate-curve intercept.
    pub base: Decimal,
    /// Fraction of accrued interest kept by the protocol reserve.
    pub reserve_factor: Decimal,
    /// Utilisation where the rate curve's slope changes.
    pub kink: Decimal,
    /// Fraction of the liquidation bonus kept by the reserve.
    pub liquidation_reserve_factor: Decimal,
    /// Deposit lock state (true if locked).
    pub deposit_locked: bool,
    /// Borrow lock state (true if locked).
    pub borrow_locked: bool,
    /// Withdraw lock state (true if locked).
    pub withdraw_locked: bool,
    /// Repay lock state (true if locked).
    pub repay_locked: bool,
    /// Percent of the pool amount that can not be borrowed or withdrawn.
    pub pool_reserve: Decimal,
    /// Pool deposit limit in the common unit; 0 disables the limit.
    pub deposit_limit: Decimal,
    /// Total underlying lent out.
    pub borrow_balance: Decimal,
    /// Total underlying deposited.
    pub deposit_balance: Decimal,
    /// Platform reserve balance.
    pub reserve_balance: Decimal,
    /// Total deposit shares.
    pub sd_balance: Decimal,
    /// Total borrow shares.
    pub sb_balance: Decimal,
    /// Clock value of the last balance commit.
    pub balances_updated_at: u64,
}

/// Registration-time validation of curve and risk parameters.
pub open spec fn valid_pool_settings(
    base_multiplier: Decimal,
    multiplier: Decimal,
    reserve_factor: Decimal,
    kink: Decimal,
    ltv_ratio: Decimal,
) -> bool {
    &&& ltv_ratio.raw <= SCALE
    &&& multiplier.raw > 0
    &&& multiplier.raw > base_multiplier.raw
    &&& reserve_factor.raw <= SCALE
    &&& kink.raw <= 100 * SCALE
}

/// Current utilisation of the pool.
pub open spec fn pool_utilisation(p: PoolParameters) -> int {
    spec_utilisation(p.deposit_balance.raw as int, p.borrow_balance.raw as int)
}

/// Current borrow rate of the pool.
pub open spec fn pool_rate(p: PoolParameters) -> int {
    spec_borrow_rate(
        p.multiplier.raw as int,
        p.base_multiplier.raw as int,
        p.base.raw as int,
        p.kink.raw as int,
        pool_utilisation(p),
    )
}

/// Rate for the period since the pool's last commit.
pub open spec fn pool_apr(p: PoolParameters, now: int) -> int {
    spec_borrow_apr(pool_rate(p), now - p.balances_updated_at)
}

/// Interest charged to the loan book for the period ending at `now`.
pub open spec fn pool_borrow_interest(p: PoolParameters, now: int) -> int {
    spec_borrow_interest(p.borrow_balance.raw as int, pool_apr(p, now))
}

/// The reserve's cut of the period interest.
pub open spec fn pool_reserve_interest(p: PoolParameters, now: int) -> int {
    spec_reserve_interest(pool_borrow_interest(p, now), p.reserve_factor.raw as int)
}

/// The depositors' share of the period interest.
pub open spec fn pool_deposit_interest(p: PoolParameters, now: int) -> int {
    pool_borrow_interest(p, now) - pool_reserve_interest(p, now)
}

/// The whole accrual step stays within the machine word.
pub open spec fn accrual_fits(p: PoolParameters, now: int) -> bool {
    &&& p.balances_updated_at <= now
    &&& p.borrow_balance.raw * SCALE <= u128::MAX
    &&& borrow_rate_fits(
        p.multiplier.raw as int,
        p.base_multiplier.raw as int,
        p.base.raw as int,
        p.kink.raw as int,
        pool_utilisation(p),
    )
    &&& pool_rate(p) * (now - p.balances_updated_at) <= u128::MAX
    &&& p.reserve_factor.raw <= SCALE
    &&& interests_fit(p.borrow_balance.raw as int, pool_apr(p, now), p.reserve_factor.raw as int)
    &&& p.borrow_balance.raw + pool_borrow_interest(p, now) <= u128::MAX
    &&& p.reserve_balance.raw + pool_reserve_interest(p, now) <= u128::MAX
    &&& p.deposit_balance.raw + pool_deposit_interest(p, now) <= u128::MAX
}

/// Runs the rate curve over the elapsed clock units and splits the period's
/// interest into the borrower charge, the reserve cut and the depositor
/// earnings.
pub fn accrue(p: &PoolParameters, now: u64) -> (r: (Decimal, Decimal, Decimal))
    requires
        accrual_fits(*p, now as int),
    ensures
        r.0.raw == pool_borrow_interest(*p, now as int),
        r.1.raw == pool_reserve_interest(*p, now as int),
        r.2.raw == pool_deposit_interest(*p, now as int),
        r.1.raw + r.2.raw == r.0.raw,
{
    let utilisation = get_utilisation(p.deposit_balance, p.borrow_balance);
    let borrow_rate = calculate_borrow_rate(
        p.multiplier,
        p.base_multiplier,
        p.base,
        p.kink,
        utilisation,
    );
    let borrow_apr = calculate_borrow_apr(borrow_rate, p.balances_updated_at, now);
    calculate_interests(p.borrow_balance, borrow_apr, p.reserve_factor)
}

impl PoolParameters {
    /// The liquidation limits and the deposit cap, as one tuple.
    pub fn _get_pool_parameters(&mut self) -> (r: (Decimal, Decimal, Decimal, Decimal))
        ensures
            *final(self) == *old(self),
            r == (
                old(self).max_liquidation_percent,
                old(self).liquidation_bonus,
                old(self).liquidation_reserve_factor,
                old(self).deposit_limit,
            ),
    {
        (
            self.max_liquidation_percent,
            self.liquidation_bonus,
            self.liquidation_reserve_factor,
            self.deposit_limit,
        )
    }

    /// Replaces the risk limits.
    pub fn update_pool_parameters(
        &mut self,
        liquidation_reserve_factor: Decimal,
        liquidation_bonus: Decimal,
        max_liquidation_percent: Decimal,
        max_borrow_percent: Decimal,
        min_collateral_ratio: Decimal,
        pool_reserve: Decimal,
        pool_deposit_limit: Decimal,
    )
        ensures
            *final(self) == (PoolParameters {
                liquidation_reserve_factor,
                liquidation_bonus,
                max_liquidation_percent,
                max_borrow_percent,
                min_collateral_ratio,
                pool_reserve,
                deposit_limit: pool_deposit_limit,
                ..*old(self)
            }),
    {
        self.liquidation_reserve_factor = liquidation_reserve_factor;
        self.liquidation_bonus = liquidation_bonus;
        self.max_liquidation_percent = max_liquidation_percent;
        self.max_borrow_percent = max_borrow_percent;
        self.min_collateral_ratio = min_collateral_ratio;
        self.pool_reserve = pool_reserve;
        self.deposit_limit = pool_deposit_limit;
    }

    /// Replaces the rate-curve settings.
    pub fn update_pool_settings(
        &mut self,
        base: Decimal,
        base_multiplier: Decimal,
        multiplier: Decimal,
        kink: Decimal,
        reserve_factor: Decimal,
        ltv_ratio: Decimal,
    )
        ensures
            *final(self) == (PoolParameters {
                base,
                base_multiplier,
                multiplier,
                kink,
                reserve_factor,
                ltv_ratio,
                ..*old(self)
            }),
    {
        self.base = base;
        self.base_multiplier = base_multiplier;
        self.multiplier = multiplier;
        self.kink = kink;
        self.reserve_factor = reserve_factor;
        self.ltv_ratio = ltv_ratio;
    }

    /// Commits the five balance totals and stamps the clock: the single place
    /// the balances are written.
    pub fn update_balances(
        &mut self,
        deposit_balance: Decimal,
        sd_balance: Decimal,
        borrow_balance: Decimal,
        sb_balance: Decimal,
        reserve_balance: Decimal,
        now: u64,
    )
        ensures
            *final(self) == (PoolParameters {
                deposit_balance,
                sd_balance,
                borrow_balance,
                sb_balance,
                reserve_balance,
                balances_updated_at: now,
                ..*old(self)
            }),
    {
        self.deposit_balance = deposit_balance;
        self.sd_balance = sd_balance;
        self.borrow_balance = borrow_balance;
        self.sb_balance = sb_balance;
        self.reserve_balance = reserve_balance;
        self.balances_updated_at = now;
    }

    /// Sets the four per-operation locks.
    pub fn lock_pool(
        &mut self,
        deposit_locked: bool,
        borrow_locked: bool,
        withdraw_locked: bool,
        repay_locked: bool,
    )
        ensures
            *final(self) == (PoolParameters {
                deposit_locked,
                borrow_locked,
                withdraw_locked,
                repay_locked,
                ..*old(self)
            }),
    {
        self.deposit_locked = deposit_locked;
        self.borrow_locked = borrow_locked;
        self.withdraw_locked = withdraw_locked;
        self.repay_locked = repay_locked;
    }
}

/// One accrual step never produces negative interest, and the reserve's
/// and depositors' parts never exceed the borrowers' charge.
pub proof fn lemma_interest_nonneg(p: PoolParameters, now: int)
    requires
        accrual_fits(p, now),
    ensures
        0 <= pool_borrow_interest(p, now),
        0 <= pool_reserve_interest(p, now) <= pool_borrow_interest(p, now),
        0 <= pool_deposit_interest(p, now) <= pool_borrow_interest(p, now),
{
    let u = pool_utilisation(p);
    let d = p.deposit_balance.raw as int;
    let b = p.borrow_balance.raw as int;
    assert(0 <= u) by {
        if d != 0 {
            lemma_mul_nonnegative(b, SCALE as int);
            lemma_div_pos_is_pos(b * (SCALE as int), d);
        }
    }
    let rate = pool_rate(p);
    assert(0 <= rate) by {
        if u > 0 {
            if u < p.kink.raw {
                lemma_mul_nonnegative(p.base_multiplier.raw as int, u);
                lemma_div_pos_is_pos(p.base_multiplier.raw * u, SCALE as int);
            } else {
                lemma_mul_nonnegative(p.base_multiplier.raw as int, p.kink.raw as int);
                lemma_div_pos_is_pos(p.base_multiplier.raw * (p.kink.raw as int), SCALE as int);
                lemma_mul_nonnegative(p.multiplier.raw as int, u - p.kink.raw);
                lemma_div_pos_is_pos(p.multiplier.raw * (u - p.kink.raw), SCALE as int);
            }
        }
    }
    let apr = pool_apr(p, now);
    assert(0 <= apr) by {
        lemma_mul_nonnegative(rate, now - p.balances_updated_at);
        lemma_div_pos_is_pos(rate * (now - p.balances_updated_at), UNITS_PER_YEAR as int);
    }
    assert(0 <= pool_borrow_interest(p, now)) by {
        lemma_mul_nonnegative(b, apr);
        lemma_div_pos_is_pos(b * apr, SCALE as int);
    }
    lemma_fraction_at_most(pool_borrow_interest(p, now), p.reserve_factor.raw as int);
}

} // verus!
