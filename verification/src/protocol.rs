//! The lending protocol: the per-asset pool registry, the user positions,
//! the admin gate, and every user-facing operation.  Each operation loads
//! the pool, rolls interest forward, checks its limits, and either commits
//! the fully recomputed balances or aborts with no change at all.
//!
//! Custody of the underlying funds, badge minting and the price oracle are
//! external collaborators: operations take the caller's identity, amounts
//! and a price snapshot as plain values and return the amounts the host
//! must move.

use vstd::prelude::*;
use vstd::arithmetic::div_mod::{lemma_div_is_ordered, lemma_div_multiples_vanish};
use vstd::arithmetic::mul::{lemma_mul_inequality, lemma_mul_is_commutative};
use crate::admin::IdSet;
use crate::calculations::{
    spec_s_interest, s_interest_fits, calculate_s_interest, spec_token_price,
    calculate_token_price,
};
use crate::decimal::{Decimal, SCALE, mul_down, div_down, lemma_div_mul_le};
use crate::errors::LendingError;
use crate::pool_parameters::{
    PoolParameters, valid_pool_settings, accrue, accrual_fits, pool_borrow_interest,
    pool_reserve_interest, pool_deposit_interest, lemma_interest_nonneg,
};
use crate::table::Table;
use crate::user::{
    UserData, collateral_sum, loan_sum, prices_cover, valuation_fits, xrd_balance_fits,
    balances_priced, deposit_value_sum, borrow_value_sum, liq_fits, liq_effective_max_percent,
    liq_denominator, liq_reward, liq_platform_bonus, liq_borrow_in_xrd, liq_new_borrow_shares,
    deposit_share_sum, borrow_share_sum, lemma_share_sum_remove, lemma_share_sum_push,
};

verus! {

/// Distinct admin approvals a privileged action needs.
pub const ADMIN_QUORUM: usize = 3;

/// The share books balance for the asset: the sum of all positions'
/// deposit shares and borrow shares equals the pool's recorded totals.
pub open spec fn share_books_balanced(s: LendingProtocol, asset: u64) -> bool {
    &&& deposit_share_sum(s.users.pairs@, asset) == s.pool_parameters.val(asset).sd_balance.raw
    &&& borrow_share_sum(s.users.pairs@, asset) == s.pool_parameters.val(asset).sb_balance.raw
}

/// The protocol's whole state.
pub struct LendingProtocol {
    /// One entry per registered asset: parameters and balances.
    pub pool_parameters: Table<PoolParameters>,
    /// One position per identity, keyed by the badge number.
    pub users: Table<UserData>,
    /// Admin identities that signed the pending privileged action.
    pub admin_signature_check: IdSet,
    /// Admin identities barred from approving.
    pub admin_blacklist: IdSet,
    /// Highest admin badge number handed out so far.
    pub admin_badge_id_counter: u64,
}

impl LendingProtocol {
    /// Every table has unique keys and every stored position is sound.
    pub open spec fn wf(self) -> bool {
        &&& self.pool_parameters.wf()
        &&& self.users.wf()
        &&& self.admin_signature_check.wf()
        &&& self.admin_blacklist.wf()
        &&& forall|i: int|
            0 <= i < self.users.pairs@.len() ==> (#[trigger] self.users.pairs@[i]).1.wf()
    }

    /// The pending privileged action has its quorum.
    pub open spec fn spec_approved(self) -> bool {
        self.admin_signature_check.count() >= ADMIN_QUORUM
    }

    /// A fresh protocol with no pools, no users, a clear gate, and the
    /// initially minted admin badges numbered 1 through 5.
    pub fn instantiate() -> (r: LendingProtocol)
        ensures
            r.wf(),
            r.pool_parameters.pairs@.len() == 0,
            r.users.pairs@.len() == 0,
            r.admin_signature_check.count() == 0,
            forall|id: u64| !r.admin_blacklist.contains(id),
            r.admin_badge_id_counter == 5,
    {
        LendingProtocol {
            pool_parameters: Table::new(),
            users: Table::new(),
            admin_signature_check: IdSet::new(),
            admin_blacklist: IdSet::new(),
            admin_badge_id_counter: 5,
        }
    }

    /// Whether the pending privileged action has enough distinct signers.
    fn is_approved_by_admins(&self) -> (r: bool)
        ensures
            r == self.spec_approved(),
    {
        let signature_count = self.admin_signature_check.len();
        if signature_count < ADMIN_QUORUM {
            false
        } else {
            true
        }
    }

    /// Records one admin's approval of the pending privileged action.
    /// Approving is idempotent: signing twice does not double-count.
    pub fn approve_admin_functions(&mut self, admin_id: u64) -> (r: Result<(), LendingError>)
        requires
            old(self).wf(),
        ensures
            final(self).wf(),
            match r {
                Err(e) => {
                    &&& *final(self) == *old(self)
                    &&& e == LendingError::AdminBlacklisted
                    &&& old(self).admin_blacklist.contains(admin_id)
                },
                Ok(()) => {
                    &&& !old(self).admin_blacklist.contains(admin_id)
                    &&& final(self).admin_signature_check.contains(admin_id)
                    &&& (old(self).admin_signature_check.contains(admin_id) ==> final(self).admin_signature_check == old(self).admin_signature_check)
                    &&& (!old(self).admin_signature_check.contains(admin_id) ==> final(self).admin_signature_check.count() == old(self).admin_signature_check.count() + 1)
                    &&& forall|id2: u64|
                        id2 != admin_id ==> #[trigger] final(self).admin_signature_check.contains(
                            id2,
                        ) == old(self).admin_signature_check.contains(id2)
                    &&& final(self).pool_parameters == old(self).pool_parameters
                    &&& final(self).users == old(self).users
                    &&& final(self).admin_blacklist == old(self).admin_blacklist
                    &&& final(self).admin_badge_id_counter == old(self).admin_badge_id_counter
                },
            },
    {
        if self.admin_blacklist.contains_id(admin_id) {
            return Err(LendingError::AdminBlacklisted);
        }
        self.admin_signature_check.insert(admin_id);
        Ok(())
    }

    /// Bars an admin identity from approving; needs the quorum and spends
    /// it.
    pub fn add_to_blacklist(&mut self, admin_id: u64) -> (r: Result<(), LendingError>)
        requires
            old(self).wf(),
        ensures
            final(self).wf(),
            match r {
                Err(e) => {
                    &&& *final(self) == *old(self)
                    &&& e == LendingError::NotApprovedByAdmins
                    &&& !old(self).spec_approved()
                },
                Ok(()) => {
                    &&& old(self).spec_approved()
                    &&& final(self).admin_signature_check.count() == 0
                    &&& final(self).admin_blacklist.contains(admin_id)
                    &&& forall|id2: u64|
                        id2 != admin_id ==> #[trigger] final(self).admin_blacklist.contains(id2)
                            == old(self).admin_blacklist.contains(id2)
                    &&& final(self).pool_parameters == old(self).pool_parameters
                    &&& final(self).users == old(self).users
                    &&& final(self).admin_badge_id_counter == old(self).admin_badge_id_counter
                },
            },
    {
        if !self.is_approved_by_admins() {
            return Err(LendingError::NotApprovedByAdmins);
        }
        self.admin_signature_check.clear();
        self.admin_blacklist.insert(admin_id);
        Ok(())
    }

    /// Lifts the bar from an admin identity; needs the quorum and spends
    /// it.
    pub fn remove_from_blacklist(&mut self, admin_id: u64) -> (r: Result<(), LendingError>)
        requires
            old(self).wf(),
        ensures
            final(self).wf(),
            match r {
                Err(e) => {
                    &&& *final(self) == *old(self)
                    &&& e == LendingError::NotApprovedByAdmins
                    &&& !old(self).spec_approved()
                },
                Ok(()) => {
                    &&& old(self).spec_approved()
                    &&& final(self).admin_signature_check.count() == 0
                    &&& !final(self).admin_blacklist.contains(admin_id)
                    &&& forall|id2: u64|
                        id2 != admin_id ==> #[trigger] final(self).admin_blacklist.contains(id2)
                            == old(self).admin_blacklist.contains(id2)
                    &&& final(self).pool_parameters == old(self).pool_parameters
                    &&& final(self).users == old(self).users
                    &&& final(self).admin_badge_id_counter == old(self).admin_badge_id_counter
                },
            },
    {
        if !self.is_approved_by_admins() {
            return Err(LendingError::NotApprovedByAdmins);
        }
        self.admin_signature_check.clear();
        self.admin_blacklist.remove(admin_id);
        Ok(())
    }

    /// Releases the protocol badge to the host's custody; needs the quorum
    /// and spends it.  The badge itself lives with the identity
    /// collaborator.
    pub fn take_protocol_badge(&mut self) -> (r: Result<(), LendingError>)
        requires
            old(self).wf(),
        ensures
            final(self).wf(),
            match r {
                Err(e) => {
                    &&& *final(self) == *old(self)
                    &&& e == LendingError::NotApprovedByAdmins
                    &&& !old(self).spec_approved()
                },
                Ok(()) => {
                    &&& old(self).spec_approved()
                    &&& final(self).admin_signature_check.count() == 0
                    &&& final(self).pool_parameters == old(self).pool_parameters
                    &&& final(self).users == old(self).users
                    &&& final(self).admin_blacklist == old(self).admin_blacklist
                    &&& final(self).admin_badge_id_counter == old(self).admin_badge_id_counter
                },
            },
    {
        if !self.is_approved_by_admins() {
            return Err(LendingError::NotApprovedByAdmins);
        }
        self.admin_signature_check.clear();
        Ok(())
    }

    /// Hands out the next admin badge number; needs the quorum and spends
    /// it.  The identity collaborator mints the badge itself.
    pub fn mint_admin_badge(&mut self) -> (r: Result<u64, LendingError>)
        requires
            old(self).wf(),
            old(self).admin_badge_id_counter < u64::MAX,
        ensures
            final(self).wf(),
            match r {
                Err(e) => {
                    &&& *final(self) == *old(self)
                    &&& e == LendingError::NotApprovedByAdmins
                    &&& !old(self).spec_approved()
                },
                Ok(new_id) => {
                    &&& old(self).spec_approved()
                    &&& new_id == old(self).admin_badge_id_counter + 1
                    &&& final(self).admin_badge_id_counter == new_id
                    &&& final(self).admin_signature_check.count() == 0
                    &&& final(self).pool_parameters == old(self).pool_parameters
                    &&& final(self).users == old(self).users
                    &&& final(self).admin_blacklist == old(self).admin_blacklist
                },
            },
    {
        if !self.is_approved_by_admins() {
            return Err(LendingError::NotApprovedByAdmins);
        }
        let new_id = self.admin_badge_id_counter + 1;
        self.admin_badge_id_counter = new_id;
        self.admin_signature_check.clear();
        Ok(new_id)
    }

    /// Replaces a pool's risk limits; needs the quorum and spends it.
    pub fn update_pool_parameters(
        &mut self,
        resource_address: u64,
        liquidation_reserve_factor: Decimal,
        liquidation_bonus: Decimal,
        max_liquidation_percent: Decimal,
        max_borrow_percent: Decimal,
        min_collateral_ratio: Decimal,
        pool_reserve: Decimal,
        pool_deposit_limit: Decimal,
    ) -> (r: Result<(), LendingError>)
        requires
            old(self).wf(),
        ensures
            final(self).wf(),
            match r {
                Err(e) => *final(self) == *old(self) && (if !old(self).spec_approved() {
                    e == LendingError::NotApprovedByAdmins
                } else if !old(self).pool_parameters.contains_key(resource_address) {
                    e == LendingError::PoolNotFound
                } else {
                    false
                }),
                Ok(()) => {
                    &&& old(self).spec_approved()
                    &&& old(self).pool_parameters.contains_key(resource_address)
                    &&& final(self).pool_parameters.val(resource_address) == (PoolParameters {
                        liquidation_reserve_factor,
                        liquidation_bonus,
                        max_liquidation_percent,
                        max_borrow_percent,
                        min_collateral_ratio,
                        pool_reserve,
                        deposit_limit: pool_deposit_limit,
                        ..old(self).pool_parameters.val(resource_address)
                    })
                    &&& final(self).pool_parameters.contains_key(resource_address)
                    &&& forall|a: u64|
                        a != resource_address ==> #[trigger] final(self).pool_parameters
                            .contains_key(a) == old(self).pool_parameters.contains_key(a)
                    &&& forall|a: u64|
                        a != resource_address && old(self).pool_parameters.contains_key(a)
                            ==> #[trigger] final(self).pool_parameters.val(a) == old(self).pool_parameters.val(a)
                    &&& final(self).users == old(self).users
                    &&& final(self).admin_blacklist == old(self).admin_blacklist
                    &&& final(self).admin_badge_id_counter == old(self).admin_badge_id_counter
                    &&& final(self).admin_signature_check.count() == 0
                },
            },
    {
        if !self.is_approved_by_admins() {
            return Err(LendingError::NotApprovedByAdmins);
        }
        let mut parameters: PoolParameters;
        match self.pool_parameters.get(resource_address) {
            Some(p) => {
                parameters = p;
            },
            None => {
                return Err(LendingError::PoolNotFound);
            },
        }
        parameters.update_pool_parameters(
            liquidation_reserve_factor,
            liquidation_bonus,
            max_liquidation_percent,
            max_borrow_percent,
            min_collateral_ratio,
            pool_reserve,
            pool_deposit_limit,
        );
        self.pool_parameters.insert(resource_address, parameters);
        self.admin_signature_check.clear();
        Ok(())
    }

    /// Replaces a pool's rate-curve settings; needs the quorum and spends
    /// it.
    pub fn update_pool_settings(
        &mut self,
        resource_address: u64,
        base: Decimal,
        base_multiplier: Decimal,
        multiplier: Decimal,
        kink: Decimal,
        reserve_factor: Decimal,
        ltv_ratio: Decimal,
    ) -> (r: Result<(), LendingError>)
        requires
            old(self).wf(),
        ensures
            final(self).wf(),
            match r {
                Err(e) => *final(self) == *old(self) && (if !old(self).spec_approved() {
                    e == LendingError::NotApprovedByAdmins
                } else if !old(self).pool_parameters.contains_key(resource_address) {
                    e == LendingError::PoolNotFound
                } else {
                    false
                }),
                Ok(()) => {
                    &&& old(self).spec_approved()
                    &&& old(self).pool_parameters.contains_key(resource_address)
                    &&& final(self).pool_parameters.val(resource_address) == (PoolParameters {
                        base,
                        base_multiplier,
                        multiplier,
                        kink,
                        reserve_factor,
                        ltv_ratio,
                        ..old(self).pool_parameters.val(resource_address)
                    })
                    &&& final(self).pool_parameters.contains_key(resource_address)
                    &&& forall|a: u64|
                        a != resource_address ==> #[trigger] final(self).pool_parameters
                            .contains_key(a) == old(self).pool_parameters.contains_key(a)
                    &&& forall|a: u64|
                        a != resource_address && old(self).pool_parameters.contains_key(a)
                            ==> #[trigger] final(self).pool_parameters.val(a) == old(self).pool_parameters.val(a)
                    &&& final(self).users == old(self).users
                    &&& final(self).admin_blacklist == old(self).admin_blacklist
                    &&& final(self).admin_badge_id_counter == old(self).admin_badge_id_counter
                    &&& final(self).admin_signature_check.count() == 0
                },
            },
    {
        if !self.is_approved_by_admins() {
            return Err(LendingError::NotApprovedByAdmins);
        }
        let mut parameters: PoolParameters;
        match self.pool_parameters.get(resource_address) {
            Some(p) => {
                parameters = p;
            },
            None => {
                return Err(LendingError::PoolNotFound);
            },
        }
        parameters.update_pool_settings(
            base,
            base_multiplier,
            multiplier,
            kink,
            reserve_factor,
            ltv_ratio,
        );
        self.pool_parameters.insert(resource_address, parameters);
        self.admin_signature_check.clear();
        Ok(())
    }

    /// Writes a pool's five balance totals directly; needs the quorum and
    /// spends it.
    pub fn update_balances(
        &mut self,
        resource_address: u64,
        deposit: Decimal,
        sd_balance: Decimal,
        borrow: Decimal,
        sb_balance: Decimal,
        reserve: Decimal,
        now: u64,
    ) -> (r: Result<(), LendingError>)
        requires
            old(self).wf(),
        ensures
            final(self).wf(),
            match r {
                Err(e) => *final(self) == *old(self) && (if !old(self).spec_approved() {
                    e == LendingError::NotApprovedByAdmins
                } else if !old(self).pool_parameters.contains_key(resource_address) {
                    e == LendingError::PoolNotFound
                } else {
                    false
                }),
                Ok(()) => {
                    &&& old(self).spec_approved()
                    &&& old(self).pool_parameters.contains_key(resource_address)
                    &&& final(self).pool_parameters.val(resource_address) == (PoolParameters {
                        deposit_balance: deposit,
                        sd_balance,
                        borrow_balance: borrow,
                        sb_balance,
                        reserve_balance: reserve,
                        balances_updated_at: now,
                        ..old(self).pool_parameters.val(resource_address)
                    })
                    &&& final(self).pool_parameters.contains_key(resource_address)
                    &&& forall|a: u64|
                        a != resource_address ==> #[trigger] final(self).pool_parameters
                            .contains_key(a) == old(self).pool_parameters.contains_key(a)
                    &&& forall|a: u64|
                        a != resource_address && old(self).pool_parameters.contains_key(a)
                            ==> #[trigger] final(self).pool_parameters.val(a) == old(self).pool_parameters.val(a)
                    &&& final(self).users == old(self).users
                    &&& final(self).admin_blacklist == old(self).admin_blacklist
                    &&& final(self).admin_badge_id_counter == old(self).admin_badge_id_counter
                    &&& final(self).admin_signature_check.count() == 0
                },
            },
    {
        if !self.is_approved_by_admins() {
            return Err(LendingError::NotApprovedByAdmins);
        }
        match self.pool_parameters.find(resource_address) {
            Some(_) => (),
            None => {
                return Err(LendingError::PoolNotFound);
            },
        }
        self.update_pool_balances(resource_address, deposit, sd_balance, borrow, sb_balance,
            reserve, now);
        self.admin_signature_check.clear();
        Ok(())
    }

    /// Sets a pool's four per-operation locks; needs the quorum and spends
    /// it.
    pub fn lock_pool(
        &mut self,
        resource_address: u64,
        deposit_locked: bool,
        borrow_locked: bool,
        withdraw_locked: bool,
        repay_locked: bool,
    ) -> (r: Result<(), LendingError>)
        requires
            old(self).wf(),
        ensures
            final(self).wf(),
            match r {
                Err(e) => *final(self) == *old(self) && (if !old(self).spec_approved() {
                    e == LendingError::NotApprovedByAdmins
                } else if !old(self).pool_parameters.contains_key(resource_address) {
                    e == LendingError::PoolNotFound
                } else {
                    false
                }),
                Ok(()) => {
                    &&& old(self).spec_approved()
                    &&& old(self).pool_parameters.contains_key(resource_address)
                    &&& final(self).pool_parameters.val(resource_address) == (PoolParameters {
                        deposit_locked,
                        borrow_locked,
                        withdraw_locked,
                        repay_locked,
                        ..old(self).pool_parameters.val(resource_address)
                    })
                    &&& final(self).pool_parameters.contains_key(resource_address)
                    &&& forall|a: u64|
                        a != resource_address ==> #[trigger] final(self).pool_parameters
                            .contains_key(a) == old(self).pool_parameters.contains_key(a)
                    &&& forall|a: u64|
                        a != resource_address && old(self).pool_parameters.contains_key(a)
                            ==> #[trigger] final(self).pool_parameters.val(a) == old(self).pool_parameters.val(a)
                    &&& final(self).users == old(self).users
                    &&& final(self).admin_blacklist == old(self).admin_blacklist
                    &&& final(self).admin_badge_id_counter == old(self).admin_badge_id_counter
                    &&& final(self).admin_signature_check.count() == 0
                },
            },
    {
        if !self.is_approved_by_admins() {
            return Err(LendingError::NotApprovedByAdmins);
        }
        let mut parameters: PoolParameters;
        match self.pool_parameters.get(resource_address) {
            Some(p) => {
                parameters = p;
            },
            None => {
                return Err(LendingError::PoolNotFound);
            },
        }
        parameters.lock_pool(deposit_locked, borrow_locked, withdraw_locked, repay_locked);
        self.pool_parameters.insert(resource_address, parameters);
        self.admin_signature_check.clear();
        Ok(())
    }

    /// Commits a pool's recomputed balances: the single write path every
    /// accrual-driven mutation goes through.
    fn update_pool_balances(
        &mut self,
        resource_address: u64,
        deposit: Decimal,
        sd_balance: Decimal,
        borrow: Decimal,
        sb_balance: Decimal,
        reserve: Decimal,
        now: u64,
    )
        requires
            old(self).wf(),
            old(self).pool_parameters.contains_key(resource_address),
        ensures
            final(self).wf(),
            final(self).pool_parameters.contains_key(resource_address),
            final(self).pool_parameters.val(resource_address) == (PoolParameters {
                deposit_balance: deposit,
                sd_balance,
                borrow_balance: borrow,
                sb_balance,
                reserve_balance: reserve,
                balances_updated_at: now,
                ..old(self).pool_parameters.val(resource_address)
            }),
            forall|a: u64|
                a != resource_address ==> #[trigger] final(self).pool_parameters.contains_key(a)
                    == old(self).pool_parameters.contains_key(a),
            forall|a: u64|
                a != resource_address && old(self).pool_parameters.contains_key(a)
                    ==> #[trigger] final(self).pool_parameters.val(a) == old(self).pool_parameters.val(a),
            final(self).users == old(self).users,
            final(self).admin_signature_check == old(self).admin_signature_check,
            final(self).admin_blacklist == old(self).admin_blacklist,
            final(self).admin_badge_id_counter == old(self).admin_badge_id_counter,
    {
        let mut parameters: PoolParameters;
        match self.pool_parameters.get(resource_address) {
            Some(p) => {
                parameters = p;
            },
            None => {
                proof {
                    assert(false);
                }
                return ;
            },
        }
        parameters.update_balances(deposit, sd_balance, borrow, sb_balance, reserve, now);
        self.pool_parameters.insert(resource_address, parameters);
    }

    /// Liquidity the pool can disburse right now: deposits minus the
    /// reserve balance, the protected reserve fraction and the outstanding
    /// loans.  `None` when the pool is overdrawn and the mathematical value
    /// is negative.
    fn available_liquidity(
        &self,
        total_deposit: Decimal,
        total_borrow: Decimal,
        reserve_balance: Decimal,
        pool_reserve: Decimal,
    ) -> (r: Option<Decimal>)
        requires
            total_deposit.raw * pool_reserve.raw <= u128::MAX,
            reserve_balance.raw + mul_down(total_deposit.raw as int, pool_reserve.raw as int)
                + total_borrow.raw <= u128::MAX,
        ensures
            ({
                let al = total_deposit.raw - reserve_balance.raw - mul_down(
                    total_deposit.raw as int,
                    pool_reserve.raw as int,
                ) - total_borrow.raw;
                match r {
                    Some(v) => v.raw == al && al >= 0,
                    None => al < 0,
                }
            }),
    {
        let protected = total_deposit.mul(&pool_reserve);
        let claimed = reserve_balance.add(&protected).add(&total_borrow);
        if claimed.le(&total_deposit) {
            Some(total_deposit.sub(&claimed))
        } else {
            None
        }
    }
}

impl LendingProtocol {
    /// Registers a brand-new pool with validated curve and risk settings
    /// and zero balances; needs the quorum and spends it.  The host
    /// instantiates the matching custody pool.
    pub fn create_pool(
        &mut self,
        resource_address: u64,
        base: Decimal,
        base_multiplier: Decimal,
        multiplier: Decimal,
        kink: Decimal,
        reserve_factor: Decimal,
        ltv_ratio: Decimal,
        now: u64,
    ) -> (r: Result<(), LendingError>)
        requires
            old(self).wf(),
        ensures
            final(self).wf(),
            match r {
                Err(e) => *final(self) == *old(self) && (if !old(self).spec_approved() {
                    e == LendingError::NotApprovedByAdmins
                } else if ltv_ratio.raw > SCALE {
                    e == LendingError::InvalidLtvRatio
                } else if multiplier.raw == 0 || multiplier.raw <= base_multiplier.raw {
                    e == LendingError::InvalidMultiplier
                } else if reserve_factor.raw > SCALE {
                    e == LendingError::InvalidReserveFactor
                } else if kink.raw > 100 * SCALE {
                    e == LendingError::InvalidKink
                } else if old(self).pool_parameters.contains_key(resource_address) {
                    e == LendingError::PoolAlreadyExists
                } else {
                    false
                }),
                Ok(()) => {
                    &&& old(self).spec_approved()
                    &&& valid_pool_settings(base_multiplier, multiplier, reserve_factor, kink,
                        ltv_ratio)
                    &&& !old(self).pool_parameters.contains_key(resource_address)
                    &&& final(self).pool_parameters.contains_key(resource_address)
                    &&& final(self).pool_parameters.val(resource_address) == (PoolParameters {
                        min_collateral_ratio: (Decimal { raw: SCALE }),
                        max_borrow_percent: (Decimal { raw: SCALE / 10 }),
                        max_liquidation_percent: (Decimal { raw: SCALE / 2 }),
                        liquidation_bonus: (Decimal { raw: SCALE / 10 }),
                        ltv_ratio,
                        multiplier,
                        base_multiplier,
                        base,
                        reserve_factor,
                        kink,
                        liquidation_reserve_factor: (Decimal { raw: SCALE / 5 }),
                        deposit_locked: false,
                        borrow_locked: false,
                        withdraw_locked: false,
                        repay_locked: false,
                        pool_reserve: (Decimal { raw: SCALE / 5 }),
                        deposit_limit: (Decimal { raw: (100000 * SCALE) as u128 }),
                        borrow_balance: (Decimal { raw: 0 }),
                        deposit_balance: (Decimal { raw: 0 }),
                        reserve_balance: (Decimal { raw: 0 }),
                        sd_balance: (Decimal { raw: 0 }),
                        sb_balance: (Decimal { raw: 0 }),
                        balances_updated_at: now,
                    })
                    &&& forall|a: u64|
                        a != resource_address ==> #[trigger] final(self).pool_parameters
                            .contains_key(a) == old(self).pool_parameters.contains_key(a)
                    &&& forall|a: u64|
                        a != resource_address && old(self).pool_parameters.contains_key(a)
                            ==> #[trigger] final(self).pool_parameters.val(a) == old(self).pool_parameters.val(a)
                    &&& final(self).users == old(self).users
                    &&& final(self).admin_blacklist == old(self).admin_blacklist
                    &&& final(self).admin_badge_id_counter == old(self).admin_badge_id_counter
                    &&& final(self).admin_signature_check.count() == 0
                },
            },
    {
        self.insert_pool_component(
            resource_address,
            Decimal::zero(),
            Decimal::zero(),
            Decimal::zero(),
            Decimal::zero(),
            Decimal::zero(),
            base,
            base_multiplier,
            multiplier,
            kink,
            reserve_factor,
            ltv_ratio,
            now,
        )
    }

    /// Registers a pool whose custody component already exists, seeding the
    /// registry with that component's reported balances; needs the quorum
    /// and spends it.
    pub fn insert_pool_component(
        &mut self,
        resource_address: u64,
        deposit_balance: Decimal,
        sd_balance: Decimal,
        borrow_balance: Decimal,
        sb_balance: Decimal,
        reserve_balance: Decimal,
        base: Decimal,
        base_multiplier: Decimal,
        multiplier: Decimal,
        kink: Decimal,
        reserve_factor: Decimal,
        ltv_ratio: Decimal,
        now: u64,
    ) -> (r: Result<(), LendingError>)
        requires
            old(self).wf(),
        ensures
            final(self).wf(),
            match r {
                Err(e) => *final(self) == *old(self) && (if !old(self).spec_approved() {
                    e == LendingError::NotApprovedByAdmins
                } else if ltv_ratio.raw > SCALE {
                    e == LendingError::InvalidLtvRatio
                } else if multiplier.raw == 0 || multiplier.raw <= base_multiplier.raw {
                    e == LendingError::InvalidMultiplier
                } else if reserve_factor.raw > SCALE {
                    e == LendingError::InvalidReserveFactor
                } else if kink.raw > 100 * SCALE {
                    e == LendingError::InvalidKink
                } else if old(self).pool_parameters.contains_key(resource_address) {
                    e == LendingError::PoolAlreadyExists
                } else {
                    false
                }),
                Ok(()) => {
                    &&& old(self).spec_approved()
                    &&& valid_pool_settings(base_multiplier, multiplier, reserve_factor, kink,
                        ltv_ratio)
                    &&& !old(self).pool_parameters.contains_key(resource_address)
                    &&& final(self).pool_parameters.contains_key(resource_address)
                    &&& final(self).pool_parameters.val(resource_address) == (PoolParameters {
                        min_collateral_ratio: (Decimal { raw: SCALE }),
                        max_borrow_percent: (Decimal { raw: SCALE / 10 }),
                        max_liquidation_percent: (Decimal { raw: SCALE / 2 }),
                        liquidation_bonus: (Decimal { raw: SCALE / 10 }),
                        ltv_ratio,
                        multiplier,
                        base_multiplier,
                        base,
                        reserve_factor,
                        kink,
                        liquidation_reserve_factor: (Decimal { raw: SCALE / 5 }),
                        deposit_locked: false,
                        borrow_locked: false,
                        withdraw_locked: false,
                        repay_locked: false,
                        pool_reserve: (Decimal { raw: SCALE / 5 }),
                        deposit_limit: (Decimal { raw: (100000 * SCALE) as u128 }),
                        borrow_balance,
                        deposit_balance,
                        reserve_balance,
                        sd_balance,
                        sb_balance,
                        balances_updated_at: now,
                    })
                    &&& forall|a: u64|
                        a != resource_address ==> #[trigger] final(self).pool_parameters
                            .contains_key(a) == old(self).pool_parameters.contains_key(a)
                    &&& forall|a: u64|
                        a != resource_address && old(self).pool_parameters.contains_key(a)
                            ==> #[trigger] final(self).pool_parameters.val(a) == old(self).pool_parameters.val(a)
                    &&& final(self).users == old(self).users
                    &&& final(self).admin_blacklist == old(self).admin_blacklist
                    &&& final(self).admin_badge_id_counter == old(self).admin_badge_id_counter
                    &&& final(self).admin_signature_check.count() == 0
                },
            },
    {
        if !self.is_approved_by_admins() {
            return Err(LendingError::NotApprovedByAdmins);
        }
        if ltv_ratio.gt(&Decimal::one()) {
            return Err(LendingError::InvalidLtvRatio);
        }
        if multiplier.is_zero() || !multiplier.gt(&base_multiplier) {
            return Err(LendingError::InvalidMultiplier);
        }
        if reserve_factor.gt(&Decimal::one()) {
            return Err(LendingError::InvalidReserveFactor);
        }
        if kink.gt(&Decimal::from_int(100)) {
            return Err(LendingError::InvalidKink);
        }
        match self.pool_parameters.find(resource_address) {
            Some(_) => {
                return Err(LendingError::PoolAlreadyExists);
            },
            None => (),
        }
        let data = PoolParameters {
            min_collateral_ratio: Decimal::one(),
            max_borrow_percent: Decimal::from_raw(SCALE / 10),
            max_liquidation_percent: Decimal::from_raw(SCALE / 2),
            liquidation_bonus: Decimal::from_raw(SCALE / 10),
            ltv_ratio,
            multiplier,
            base_multiplier,
            base,
            reserve_factor,
            kink,
            liquidation_reserve_factor: Decimal::from_raw(SCALE / 5),
            deposit_locked: false,
            borrow_locked: false,
            withdraw_locked: false,
            repay_locked: false,
            pool_reserve: Decimal::from_raw(SCALE / 5),
            deposit_limit: Decimal::from_int(100000),
            borrow_balance,
            deposit_balance,
            reserve_balance,
            sd_balance,
            sb_balance,
            balances_updated_at: now,
        };
        self.pool_parameters.insert(resource_address, data);
        self.admin_signature_check.clear();
        Ok(())
    }
}

/// Deposit shares minted for `amount` entering the pool right after the
/// accrual step.
pub open spec fn deposit_minted_shares(p: PoolParameters, amount: int, now: int) -> int {
    spec_s_interest(
        amount,
        p.deposit_balance.raw + pool_deposit_interest(p, now),
        p.sd_balance.raw as int,
    )
}

/// The whole deposit computation stays within the machine word and the
/// share conversion is defined.
pub open spec fn deposit_fits(
    s: LendingProtocol,
    asset: u64,
    amount: Decimal,
    user_id: u64,
    now: u64,
) -> bool {
    s.pool_parameters.contains_key(asset) ==> {
        let p = s.pool_parameters.val(asset);
        let d1 = p.deposit_balance.raw + pool_deposit_interest(p, now as int);
        let sm = deposit_minted_shares(p, amount.raw as int, now as int);
        &&& accrual_fits(p, now as int)
        &&& p.deposit_balance.raw + amount.raw <= u128::MAX
        &&& s_interest_fits(amount.raw as int, d1, p.sd_balance.raw as int)
        &&& d1 + amount.raw <= u128::MAX
        &&& p.sd_balance.raw + sm <= u128::MAX
        &&& (s.users.contains_key(user_id) ==> s.users.val(user_id).spec_deposit(asset) + sm
            <= u128::MAX)
    }
}

impl LendingProtocol {
    /// Deposits `asset_amount` of a registered asset for an existing user:
    /// rolls interest forward, mints deposit shares at the post-accrual
    /// share price, credits them to the position and commits the recomputed
    /// pool balances.  The host moves the funds into custody only when this
    /// returns successfully.
    pub fn deposit(
        &mut self,
        resource_address: u64,
        asset_amount: Decimal,
        user_id: u64,
        now: u64,
    ) -> (r: Result<(), LendingError>)
        requires
            old(self).wf(),
            deposit_fits(*old(self), resource_address, asset_amount, user_id, now),
        ensures
            final(self).wf(),
            ({
                let registered = old(self).pool_parameters.contains_key(resource_address);
                let p = old(self).pool_parameters.val(resource_address);
                let limit_hit = p.deposit_limit.raw > 0 && p.deposit_balance.raw + asset_amount.raw
                    > p.deposit_limit.raw;
                let user_known = old(self).users.contains_key(user_id);
                let di = pool_deposit_interest(p, now as int);
                let bi = pool_borrow_interest(p, now as int);
                let ri = pool_reserve_interest(p, now as int);
                let sm = deposit_minted_shares(p, asset_amount.raw as int, now as int);
                match r {
                    Err(e) => *final(self) == *old(self) && (if !registered {
                        e == LendingError::PoolNotFound
                    } else if p.deposit_locked {
                        e == LendingError::DepositLocked
                    } else if limit_hit {
                        e == LendingError::DepositLimitReached(p.deposit_limit)
                    } else if !user_known {
                        e == LendingError::UserNotFound
                    } else {
                        false
                    }),
                    Ok(()) => {
                        &&& registered
                        &&& !p.deposit_locked
                        &&& !limit_hit
                        &&& user_known
                        &&& final(self).pool_parameters.contains_key(resource_address)
                        &&& final(self).pool_parameters.val(resource_address) == (PoolParameters {
                            deposit_balance: (Decimal {
                                raw: (p.deposit_balance.raw + di + asset_amount.raw) as u128,
                            }),
                            sd_balance: (Decimal { raw: (p.sd_balance.raw + sm) as u128 }),
                            borrow_balance: (Decimal { raw: (p.borrow_balance.raw + bi) as u128 }),
                            reserve_balance: (Decimal {
                                raw: (p.reserve_balance.raw + ri) as u128,
                            }),
                            balances_updated_at: now,
                            ..p
                        })
                        &&& forall|a: u64|
                            a != resource_address ==> #[trigger] final(self).pool_parameters
                                .contains_key(a) == old(self).pool_parameters.contains_key(a)
                        &&& forall|a: u64|
                            a != resource_address && old(self).pool_parameters.contains_key(a)
                                ==> #[trigger] final(self).pool_parameters.val(a) == old(self).pool_parameters.val(a)
                        &&& final(self).users.contains_key(user_id)
                        &&& final(self).users.val(user_id).spec_deposit(resource_address) == old(self).users.val(user_id).spec_deposit(resource_address) + sm
                        &&& forall|a: u64|
                            a != resource_address ==> #[trigger] final(self).users.val(
                                user_id,
                            ).spec_deposit(a) == old(self).users.val(user_id).spec_deposit(a)
                        &&& final(self).users.val(user_id).borrows == old(self).users.val(
                            user_id,
                        ).borrows
                        &&& final(self).users.val(user_id).updated_at == now
                        &&& final(self).users.val(user_id).minted_at == old(self).users.val(
                            user_id,
                        ).minted_at
                        &&& forall|u: u64|
                            u != user_id ==> #[trigger] final(self).users.contains_key(u) == old(self).users.contains_key(u)
                        &&& forall|u: u64|
                            u != user_id && old(self).users.contains_key(u) ==> #[trigger] final(self).users.val(u) == old(self).users.val(u)
                        &&& deposit_share_sum(final(self).users.pairs@, resource_address)
                            == deposit_share_sum(old(self).users.pairs@, resource_address) + sm
                        &&& forall|a: u64|
                            a != resource_address ==> #[trigger] deposit_share_sum(
                                final(self).users.pairs@,
                                a,
                            ) == deposit_share_sum(old(self).users.pairs@, a)
                        &&& forall|a: u64|
                            #[trigger] borrow_share_sum(final(self).users.pairs@, a)
                                == borrow_share_sum(old(self).users.pairs@, a)
                        &&& (share_books_balanced(*old(self), resource_address) ==> share_books_balanced(
                            *final(self),
                            resource_address,
                        ))
                        &&& final(self).admin_signature_check == old(self).admin_signature_check
                        &&& final(self).admin_blacklist == old(self).admin_blacklist
                        &&& final(self).admin_badge_id_counter == old(self).admin_badge_id_counter
                    },
                }
            }),
    {
        let parameters: PoolParameters;
        match self.pool_parameters.get(resource_address) {
            Some(p) => {
                parameters = p;
            },
            None => {
                return Err(LendingError::PoolNotFound);
            },
        }
        if parameters.deposit_locked {
            return Err(LendingError::DepositLocked);
        }
        if parameters.deposit_limit.gt(&Decimal::zero()) {
            let current_deposit_balance = parameters.deposit_balance.add(&asset_amount);
            if current_deposit_balance.gt(&parameters.deposit_limit) {
                return Err(LendingError::DepositLimitReached(parameters.deposit_limit));
            }
        }
        let interests = accrue(&parameters, now);
        let asset_total_deposit_balance = parameters.deposit_balance.add(&interests.2);
        let sd_interest = calculate_s_interest(
            asset_amount,
            asset_total_deposit_balance,
            parameters.sd_balance,
        );
        let sd_balance = parameters.sd_balance.add(&sd_interest);
        match self.users.find(user_id) {
            Some(_) => (),
            None => {
                return Err(LendingError::UserNotFound);
            },
        }
        proof {
            let j = old(self).users.index_of_key(user_id);
            assert(old(self).users.pairs@[j].1.wf());
        }
        let mut user: UserData;
        match self.users.remove(user_id) {
            Some(u) => {
                user = u;
            },
            None => {
                proof {
                    assert(false);
                }
                return Err(LendingError::UserNotFound);
            },
        }
        let ghost mid_users = self.users;
        let ghost user0 = user;
        user.on_deposit(resource_address, sd_interest);
        let ghost user1 = user;
        user.updated_at = now;
        self.users.insert(user_id, user);
        proof {
            assert forall|a: u64| a != resource_address implies #[trigger] self.users.val(
                user_id,
            ).spec_deposit(a) == old(self).users.val(user_id).spec_deposit(a) by {
                assert(user1.spec_deposit(a) == user0.spec_deposit(a));
                assert(self.users.val(user_id) == user);
                assert(user.deposits == user1.deposits);
            }
            // both share books move in lock-step with the pool totals
            let j = old(self).users.index_of_key(user_id);
            assert(old(self).users.pairs@[j].1 == user0);
            assert forall|a: u64| #[trigger] deposit_share_sum(self.users.pairs@, a)
                == deposit_share_sum(old(self).users.pairs@, a) + (if a == resource_address {
                sd_interest.raw as int
            } else {
                0int
            }) by {
                lemma_share_sum_remove(old(self).users.pairs@, j, a);
                lemma_share_sum_push(mid_users.pairs@, (user_id, user), a);
                assert(user.spec_deposit(a) == user1.spec_deposit(a));
            }
            assert forall|a: u64| #[trigger] borrow_share_sum(self.users.pairs@, a)
                == borrow_share_sum(old(self).users.pairs@, a) by {
                lemma_share_sum_remove(old(self).users.pairs@, j, a);
                lemma_share_sum_push(mid_users.pairs@, (user_id, user), a);
                assert(user.spec_borrow(a) == user0.spec_borrow(a)) by {
                    assert(user.borrows == user0.borrows);
                }
            }
            assert forall|i: int| 0 <= i < self.users.pairs@.len() implies (
            #[trigger] self.users.pairs@[i]).1.wf() by {
                if i < self.users.pairs@.len() - 1 {
                    let j = old(self).users.index_of_key(user_id);
                    if i < j {
                        assert(mid_users.pairs@[i] == old(self).users.pairs@[i]);
                    } else {
                        assert(mid_users.pairs@[i] == old(self).users.pairs@[i + 1]);
                    }
                }
            }
        }
        let asset_total_borrow_balance = parameters.borrow_balance.add(&interests.0);
        let asset_total_reserve_balance = parameters.reserve_balance.add(&interests.1);
        let new_total_deposit = asset_total_deposit_balance.add(&asset_amount);
        self.update_pool_balances(
            resource_address,
            new_total_deposit,
            sd_balance,
            asset_total_borrow_balance,
            parameters.sb_balance,
            asset_total_reserve_balance,
            now,
        );
        Ok(())
    }
}

impl LendingProtocol {
    /// First contact: mints a fresh position for a new identity and makes
    /// its first deposit in one step.  The new badge number is one past the
    /// number of existing positions; the identity collaborator mints the
    /// badge itself.
    pub fn create_user_and_deposit(
        &mut self,
        resource_address: u64,
        asset_amount: Decimal,
        name: String,
        key_image_url: String,
        now: u64,
    ) -> (r: Result<u64, LendingError>)
        requires
            old(self).wf(),
            old(self).users.pairs@.len() + 1 <= u64::MAX,
            !old(self).users.contains_key((old(self).users.pairs@.len() + 1) as u64),
            deposit_fits(
                *old(self),
                resource_address,
                asset_amount,
                (old(self).users.pairs@.len() + 1) as u64,
                now,
            ),
        ensures
            final(self).wf(),
            ({
                let registered = old(self).pool_parameters.contains_key(resource_address);
                let p = old(self).pool_parameters.val(resource_address);
                let limit_hit = p.deposit_limit.raw > 0 && p.deposit_balance.raw + asset_amount.raw
                    > p.deposit_limit.raw;
                let di = pool_deposit_interest(p, now as int);
                let bi = pool_borrow_interest(p, now as int);
                let ri = pool_reserve_interest(p, now as int);
                let sm = deposit_minted_shares(p, asset_amount.raw as int, now as int);
                match r {
                    Err(e) => *final(self) == *old(self) && (if !registered {
                        e == LendingError::PoolNotFound
                    } else if p.deposit_locked {
                        e == LendingError::DepositLocked
                    } else if limit_hit {
                        e == LendingError::DepositLimitReached(p.deposit_limit)
                    } else {
                        false
                    }),
                    Ok(user_id) => {
                        &&& registered
                        &&& !p.deposit_locked
                        &&& !limit_hit
                        &&& user_id == old(self).users.pairs@.len() + 1
                        &&& final(self).pool_parameters.contains_key(resource_address)
                        &&& final(self).pool_parameters.val(resource_address) == (PoolParameters {
                            deposit_balance: (Decimal {
                                raw: (p.deposit_balance.raw + di + asset_amount.raw) as u128,
                            }),
                            sd_balance: (Decimal { raw: (p.sd_balance.raw + sm) as u128 }),
                            borrow_balance: (Decimal { raw: (p.borrow_balance.raw + bi) as u128 }),
                            reserve_balance: (Decimal {
                                raw: (p.reserve_balance.raw + ri) as u128,
                            }),
                            balances_updated_at: now,
                            ..p
                        })
                        &&& forall|a: u64|
                            a != resource_address ==> #[trigger] final(self).pool_parameters
                                .contains_key(a) == old(self).pool_parameters.contains_key(a)
                        &&& forall|a: u64|
                            a != resource_address && old(self).pool_parameters.contains_key(a)
                                ==> #[trigger] final(self).pool_parameters.val(a) == old(self).pool_parameters.val(a)
                        &&& final(self).users.contains_key(user_id)
                        &&& final(self).users.val(user_id).spec_deposit(resource_address) == sm
                        &&& final(self).users.val(user_id).spec_borrow(resource_address) == 0
                        &&& deposit_share_sum(final(self).users.pairs@, resource_address)
                            == deposit_share_sum(old(self).users.pairs@, resource_address) + sm
                        &&& forall|a: u64|
                            a != resource_address ==> #[trigger] deposit_share_sum(
                                final(self).users.pairs@,
                                a,
                            ) == deposit_share_sum(old(self).users.pairs@, a)
                        &&& forall|a: u64|
                            #[trigger] borrow_share_sum(final(self).users.pairs@, a)
                                == borrow_share_sum(old(self).users.pairs@, a)
                        &&& final(self).users.val(user_id).borrows.contains_key(resource_address)
                        &&& final(self).users.val(user_id).minted_at == now
                        &&& final(self).users.val(user_id).updated_at == now
                        &&& final(self).users.val(user_id).name == name
                        &&& final(self).users.val(user_id).key_image_url == key_image_url
                        &&& forall|u: u64|
                            u != user_id ==> #[trigger] final(self).users.contains_key(u) == old(self).users.contains_key(u)
                        &&& forall|u: u64|
                            u != user_id && old(self).users.contains_key(u) ==> #[trigger] final(self).users.val(u) == old(self).users.val(u)
                        &&& (share_books_balanced(*old(self), resource_address) ==> share_books_balanced(
                            *final(self),
                            resource_address,
                        ))
                        &&& final(self).admin_signature_check == old(self).admin_signature_check
                        &&& final(self).admin_blacklist == old(self).admin_blacklist
                        &&& final(self).admin_badge_id_counter == old(self).admin_badge_id_counter
                    },
                }
            }),
    {
        let parameters: PoolParameters;
        match self.pool_parameters.get(resource_address) {
            Some(p) => {
                parameters = p;
            },
            None => {
                return Err(LendingError::PoolNotFound);
            },
        }
        if parameters.deposit_locked {
            return Err(LendingError::DepositLocked);
        }
        if parameters.deposit_limit.gt(&Decimal::zero()) {
            let current_deposit_balance = parameters.deposit_balance.add(&asset_amount);
            if current_deposit_balance.gt(&parameters.deposit_limit) {
                return Err(LendingError::DepositLimitReached(parameters.deposit_limit));
            }
        }
        let interests = accrue(&parameters, now);
        let asset_total_deposit_balance = parameters.deposit_balance.add(&interests.2);
        let sd_interest = calculate_s_interest(
            asset_amount,
            asset_total_deposit_balance,
            parameters.sd_balance,
        );
        let sd_balance = parameters.sd_balance.add(&sd_interest);
        let user_id = (self.users.len() as u64) + 1;
        let mut user = UserData::new(name, key_image_url, now);
        user.update_deposit(resource_address, sd_interest);
        user.update_borrow(resource_address, Decimal::zero());
        self.users.insert(user_id, user);
        proof {
            assert forall|i: int| 0 <= i < self.users.pairs@.len() implies (
            #[trigger] self.users.pairs@[i]).1.wf() by {
                if i < self.users.pairs@.len() - 1 {
                    assert(self.users.pairs@[i] == old(self).users.pairs@[i]);
                }
            }
            // the fresh position's shares join the books in lock-step
            assert forall|a: u64| #[trigger] deposit_share_sum(self.users.pairs@, a)
                == deposit_share_sum(old(self).users.pairs@, a) + (if a == resource_address {
                sd_interest.raw as int
            } else {
                0int
            }) by {
                lemma_share_sum_push(old(self).users.pairs@, (user_id, user), a);
            }
            assert forall|a: u64| #[trigger] borrow_share_sum(self.users.pairs@, a)
                == borrow_share_sum(old(self).users.pairs@, a) by {
                lemma_share_sum_push(old(self).users.pairs@, (user_id, user), a);
            }
        }
        let asset_total_borrow_balance = parameters.borrow_balance.add(&interests.0);
        let asset_total_reserve_balance = parameters.reserve_balance.add(&interests.1);
        let new_total_deposit = asset_total_deposit_balance.add(&asset_amount);
        self.update_pool_balances(
            resource_address,
            new_total_deposit,
            sd_balance,
            asset_total_borrow_balance,
            parameters.sb_balance,
            asset_total_reserve_balance,
            now,
        );
        Ok(user_id)
    }
}

/// Underlying value of the position's recorded deposit shares in one pool,
/// at the pool's raw share price.
pub open spec fn user_deposit_value(user: UserData, asset: u64, p: PoolParameters) -> int {
    div_down(mul_down(user.spec_deposit(asset), p.deposit_balance.raw as int),
        p.sd_balance.raw as int)
}

/// The whole withdrawal computation stays within the machine word, the
/// share prices involved are defined, and the position's shares do not
/// exceed the pool's total.
pub open spec fn withdraw_fits(
    s: LendingProtocol,
    asset: u64,
    amount: Decimal,
    user_id: u64,
    prices: Table<Decimal>,
    now: u64,
) -> bool {
    s.pool_parameters.contains_key(asset) ==> {
        let p = s.pool_parameters.val(asset);
        &&& p.deposit_balance.raw * p.pool_reserve.raw <= u128::MAX
        &&& p.reserve_balance.raw + mul_down(p.deposit_balance.raw as int, p.pool_reserve.raw as int)
            + p.borrow_balance.raw <= u128::MAX
        &&& (s.users.contains_key(user_id) ==> {
            let user = s.users.val(user_id);
            let c = collateral_sum(s.pool_parameters.pairs@, user, prices);
            let l = loan_sum(s.pool_parameters.pairs@, user, prices);
            let d1 = p.deposit_balance.raw + pool_deposit_interest(p, now as int);
            let sm = spec_s_interest(amount.raw as int, d1, p.sd_balance.raw as int);
            &&& p.sd_balance.raw != 0
            &&& p.deposit_balance.raw * SCALE <= u128::MAX
            &&& user.spec_deposit(asset) * p.deposit_balance.raw <= u128::MAX
            &&& mul_down(user.spec_deposit(asset), p.deposit_balance.raw as int) * SCALE
                <= u128::MAX
            &&& user.spec_deposit(asset) <= p.sd_balance.raw
            &&& valuation_fits(s.pool_parameters.pairs@, user, prices)
            &&& (prices_cover(s.pool_parameters.pairs@, user, prices) ==> {
                &&& prices.contains_key(asset)
                &&& prices.val(asset).raw > 0
                &&& p.ltv_ratio.raw != 0
                &&& (c >= l ==> (c - l) * SCALE <= u128::MAX && div_down(
                    c - l,
                    p.ltv_ratio.raw as int,
                ) * SCALE <= u128::MAX)
            })
            &&& accrual_fits(p, now as int)
            &&& s_interest_fits(amount.raw as int, d1, p.sd_balance.raw as int)
        })
    }
}

impl LendingProtocol {
    /// Withdraws `amount` of underlying from the caller's deposit: rolls
    /// interest forward, checks the pool's disbursable liquidity, the
    /// caller's deposit value and the collateral the caller's loans still
    /// need, burns the matching deposit shares and commits the recomputed
    /// balances.  Returns the amount the host must pay out of custody.
    pub fn withdraw(
        &mut self,
        resource_address: u64,
        amount: Decimal,
        user_id: u64,
        prices: &Table<Decimal>,
        now: u64,
    ) -> (r: Result<Decimal, LendingError>)
        requires
            old(self).wf(),
            prices.wf(),
            withdraw_fits(*old(self), resource_address, amount, user_id, *prices, now),
        ensures
            final(self).wf(),
            ({
                let user_known = old(self).users.contains_key(user_id);
                let registered = old(self).pool_parameters.contains_key(resource_address);
                let p = old(self).pool_parameters.val(resource_address);
                let user = old(self).users.val(user_id);
                let al = p.deposit_balance.raw - p.reserve_balance.raw - mul_down(
                    p.deposit_balance.raw as int,
                    p.pool_reserve.raw as int,
                ) - p.borrow_balance.raw;
                let ud = user_deposit_value(user, resource_address, p);
                let c = collateral_sum(old(self).pool_parameters.pairs@, user, *prices);
                let l = loan_sum(old(self).pool_parameters.pairs@, user, *prices);
                let covered = prices_cover(old(self).pool_parameters.pairs@, user, *prices);
                let w = div_down(
                    div_down(c - l, p.ltv_ratio.raw as int),
                    prices.val(resource_address).raw as int,
                );
                let di = pool_deposit_interest(p, now as int);
                let bi = pool_borrow_interest(p, now as int);
                let ri = pool_reserve_interest(p, now as int);
                let sm = spec_s_interest(
                    amount.raw as int,
                    p.deposit_balance.raw + di,
                    p.sd_balance.raw as int,
                );
                match r {
                    Err(e) => *final(self) == *old(self) && (if !user_known {
                        e == LendingError::UserNotFound
                    } else if !registered {
                        e == LendingError::PoolNotFound
                    } else if p.withdraw_locked {
                        e == LendingError::WithdrawLocked
                    } else if al < amount.raw {
                        e == LendingError::InsufficientLiquidity(
                            (Decimal { raw: (if al >= 0 { al } else { 0int }) as u128 }),
                        )
                    } else if ud < amount.raw {
                        e == LendingError::InsufficientDeposit((Decimal { raw: ud as u128 }))
                    } else if !covered {
                        e == LendingError::PriceNotFound
                    } else if c < l {
                        e == LendingError::MaxWithdrawalExceeded((Decimal { raw: 0 }))
                    } else if amount.raw > w {
                        e == LendingError::MaxWithdrawalExceeded((Decimal { raw: w as u128 }))
                    } else if sm > user.spec_deposit(resource_address) {
                        e == LendingError::InsufficientDeposit(
                            (Decimal { raw: user.spec_deposit(resource_address) as u128 }),
                        )
                    } else {
                        false
                    }),
                    Ok(out) => {
                        &&& user_known
                        &&& registered
                        &&& !p.withdraw_locked
                        &&& al >= amount.raw
                        &&& ud >= amount.raw
                        &&& covered
                        &&& c >= l
                        &&& amount.raw <= w
                        &&& sm <= user.spec_deposit(resource_address)
                        &&& out == amount
                        &&& final(self).pool_parameters.contains_key(resource_address)
                        &&& final(self).pool_parameters.val(resource_address) == (PoolParameters {
                            deposit_balance: (Decimal {
                                raw: (p.deposit_balance.raw + di - amount.raw) as u128,
                            }),
                            sd_balance: (Decimal { raw: (p.sd_balance.raw - sm) as u128 }),
                            borrow_balance: (Decimal { raw: (p.borrow_balance.raw + bi) as u128 }),
                            reserve_balance: (Decimal {
                                raw: (p.reserve_balance.raw + ri) as u128,
                            }),
                            balances_updated_at: now,
                            ..p
                        })
                        &&& forall|a: u64|
                            a != resource_address ==> #[trigger] final(self).pool_parameters
                                .contains_key(a) == old(self).pool_parameters.contains_key(a)
                        &&& forall|a: u64|
                            a != resource_address && old(self).pool_parameters.contains_key(a)
                                ==> #[trigger] final(self).pool_parameters.val(a) == old(self).pool_parameters.val(a)
                        &&& final(self).users.contains_key(user_id)
                        &&& final(self).users.val(user_id).spec_deposit(resource_address) == user
                            .spec_deposit(resource_address) - sm
                        &&& deposit_share_sum(final(self).users.pairs@, resource_address)
                            == deposit_share_sum(old(self).users.pairs@, resource_address) - sm
                        &&& forall|a: u64|
                            a != resource_address ==> #[trigger] deposit_share_sum(
                                final(self).users.pairs@,
                                a,
                            ) == deposit_share_sum(old(self).users.pairs@, a)
                        &&& forall|a: u64|
                            #[trigger] borrow_share_sum(final(self).users.pairs@, a)
                                == borrow_share_sum(old(self).users.pairs@, a)
                        &&& forall|a: u64|
                            a != resource_address ==> #[trigger] final(self).users.val(
                                user_id,
                            ).spec_deposit(a) == user.spec_deposit(a)
                        &&& final(self).users.val(user_id).borrows == user.borrows
                        &&& final(self).users.val(user_id).updated_at == now
                        &&& final(self).users.val(user_id).minted_at == user.minted_at
                        &&& forall|u: u64|
                            u != user_id ==> #[trigger] final(self).users.contains_key(u) == old(self).users.contains_key(u)
                        &&& forall|u: u64|
                            u != user_id && old(self).users.contains_key(u) ==> #[trigger] final(self).users.val(u) == old(self).users.val(u)
                        &&& (share_books_balanced(*old(self), resource_address) ==> share_books_balanced(
                            *final(self),
                            resource_address,
                        ))
                        &&& final(self).admin_signature_check == old(self).admin_signature_check
                        &&& final(self).admin_blacklist == old(self).admin_blacklist
                        &&& final(self).admin_badge_id_counter == old(self).admin_badge_id_counter
                    },
                }
            }),
    {
        match self.users.find(user_id) {
            Some(_) => (),
            None => {
                return Err(LendingError::UserNotFound);
            },
        }
        let parameters: PoolParameters;
        match self.pool_parameters.get(resource_address) {
            Some(p) => {
                parameters = p;
            },
            None => {
                return Err(LendingError::PoolNotFound);
            },
        }
        if parameters.withdraw_locked {
            return Err(LendingError::WithdrawLocked);
        }
        match self.available_liquidity(
            parameters.deposit_balance,
            parameters.borrow_balance,
            parameters.reserve_balance,
            parameters.pool_reserve,
        ) {
            Some(available_liquidity) => {
                if available_liquidity.lt(&amount) {
                    return Err(LendingError::InsufficientLiquidity(available_liquidity));
                }
            },
            None => {
                return Err(LendingError::InsufficientLiquidity(Decimal::zero()));
            },
        }
        proof {
            let j = old(self).users.index_of_key(user_id);
            assert(old(self).users.pairs@[j].1.wf());
        }
        let withdrawable_amount: Decimal;
        let sd_interest: Decimal;
        let interests: (Decimal, Decimal, Decimal);
        match self.users.borrow_val(user_id) {
            None => {
                proof {
                    assert(false);
                }
                return Err(LendingError::UserNotFound);
            },
            Some(user_ref) => {
                let user_deposit_balance = user_ref.get_deposit(resource_address).mul(
                    &parameters.deposit_balance,
                ).div(&parameters.sd_balance);
                if user_deposit_balance.lt(&amount) {
                    return Err(LendingError::InsufficientDeposit(user_deposit_balance));
                }
                let collateral_and_loan: (Decimal, Decimal);
                match user_ref.calculate_total_collateral_and_loan(&self.pool_parameters, prices) {
                    Ok(cl) => {
                        collateral_and_loan = cl;
                    },
                    Err(e) => {
                        return Err(e);
                    },
                }
                if collateral_and_loan.0.lt(&collateral_and_loan.1) {
                    return Err(LendingError::MaxWithdrawalExceeded(Decimal::zero()));
                }
                let user_available_collateral = collateral_and_loan.0.sub(&collateral_and_loan.1);
                let withdrawable_amount_in_xrd = user_available_collateral.div(
                    &parameters.ltv_ratio,
                );
                let cost_of_asset_in_terms_of_xrd: Decimal;
                match prices.get(resource_address) {
                    Some(c) => {
                        cost_of_asset_in_terms_of_xrd = c;
                    },
                    None => {
                        proof {
                            assert(false);
                        }
                        return Err(LendingError::PriceNotFound);
                    },
                }
                withdrawable_amount = withdrawable_amount_in_xrd.div(
                    &cost_of_asset_in_terms_of_xrd,
                );
                if amount.gt(&withdrawable_amount) {
                    return Err(LendingError::MaxWithdrawalExceeded(withdrawable_amount));
                }
                interests = accrue(&parameters, now);
                let asset_total_deposit_balance = parameters.deposit_balance.add(&interests.2);
                sd_interest = calculate_s_interest(
                    amount,
                    asset_total_deposit_balance,
                    parameters.sd_balance,
                );
                let user_shares = user_ref.get_deposit(resource_address);
                if sd_interest.gt(&user_shares) {
                    return Err(LendingError::InsufficientDeposit(user_shares));
                }
            },
        }
        let mut user: UserData;
        match self.users.remove(user_id) {
            Some(u) => {
                user = u;
            },
            None => {
                proof {
                    assert(false);
                }
                return Err(LendingError::UserNotFound);
            },
        }
        let ghost mid_users = self.users;
        let ghost user0 = user;
        user.on_withdraw(resource_address, sd_interest);
        let ghost user1 = user;
        user.updated_at = now;
        self.users.insert(user_id, user);
        proof {
            assert forall|i: int| 0 <= i < self.users.pairs@.len() implies (
            #[trigger] self.users.pairs@[i]).1.wf() by {
                if i < self.users.pairs@.len() - 1 {
                    let j = old(self).users.index_of_key(user_id);
                    if i < j {
                        assert(mid_users.pairs@[i] == old(self).users.pairs@[i]);
                    } else {
                        assert(mid_users.pairs@[i] == old(self).users.pairs@[i + 1]);
                    }
                }
            }
            assert forall|a: u64| a != resource_address implies #[trigger] self.users.val(
                user_id,
            ).spec_deposit(a) == old(self).users.val(user_id).spec_deposit(a) by {
                assert(user1.spec_deposit(a) == user0.spec_deposit(a));
                assert(self.users.val(user_id) == user);
                assert(user.deposits == user1.deposits);
            }
            // both share books move in lock-step with the pool totals
            let j = old(self).users.index_of_key(user_id);
            assert(old(self).users.pairs@[j].1 == user0);
            assert forall|a: u64| #[trigger] deposit_share_sum(self.users.pairs@, a)
                == deposit_share_sum(old(self).users.pairs@, a) - (if a == resource_address {
                sd_interest.raw as int
            } else {
                0int
            }) by {
                lemma_share_sum_remove(old(self).users.pairs@, j, a);
                lemma_share_sum_push(mid_users.pairs@, (user_id, user), a);
                assert(user.spec_deposit(a) == user1.spec_deposit(a));
            }
            assert forall|a: u64| #[trigger] borrow_share_sum(self.users.pairs@, a)
                == borrow_share_sum(old(self).users.pairs@, a) by {
                lemma_share_sum_remove(old(self).users.pairs@, j, a);
                lemma_share_sum_push(mid_users.pairs@, (user_id, user), a);
                assert(user.spec_borrow(a) == user0.spec_borrow(a)) by {
                    assert(user.borrows == user0.borrows);
                }
            }
            // the burned shares leave both the pool and the position
            lemma_interest_nonneg(parameters, now as int);
        }
        let asset_total_deposit_balance = parameters.deposit_balance.add(&interests.2);
        let asset_total_borrow_balance = parameters.borrow_balance.add(&interests.0);
        let asset_total_reserve_balance = parameters.reserve_balance.add(&interests.1);
        let new_total_deposit = asset_total_deposit_balance.sub(&amount);
        let new_sd_balance = parameters.sd_balance.sub(&sd_interest);
        self.update_pool_balances(
            resource_address,
            new_total_deposit,
            new_sd_balance,
            asset_total_borrow_balance,
            parameters.sb_balance,
            asset_total_reserve_balance,
            now,
        );
        Ok(amount)
    }
}


/// The whole borrow computation stays within the machine word and the
/// share conversion is defined.
pub open spec fn borrow_fits(
    s: LendingProtocol,
    asset: u64,
    amount: Decimal,
    user_id: u64,
    prices: Table<Decimal>,
    now: u64,
) -> bool {
    s.pool_parameters.contains_key(asset) ==> {
        let p = s.pool_parameters.val(asset);
        &&& p.deposit_balance.raw * p.pool_reserve.raw <= u128::MAX
        &&& p.reserve_balance.raw + mul_down(p.deposit_balance.raw as int, p.pool_reserve.raw as int)
            + p.borrow_balance.raw <= u128::MAX
        &&& (s.users.contains_key(user_id) ==> {
            let user = s.users.val(user_id);
            let b1 = p.borrow_balance.raw + pool_borrow_interest(p, now as int);
            let sm = spec_s_interest(amount.raw as int, b1, p.sb_balance.raw as int);
            &&& (prices.contains_key(asset) ==> amount.raw * prices.val(asset).raw <= u128::MAX)
            &&& valuation_fits(s.pool_parameters.pairs@, user, prices)
            &&& p.max_borrow_percent.raw * p.deposit_balance.raw <= u128::MAX
            &&& amount.raw + user.spec_borrow(asset) <= u128::MAX
            &&& accrual_fits(p, now as int)
            &&& s_interest_fits(amount.raw as int, b1, p.sb_balance.raw as int)
            &&& b1 + amount.raw <= u128::MAX
            &&& p.sb_balance.raw + sm <= u128::MAX
            &&& user.spec_borrow(asset) + sm <= u128::MAX
        })
    }
}

impl LendingProtocol {
    /// Borrows `amount` of underlying against the caller's collateral:
    /// rolls interest forward, checks the pool's disbursable liquidity, the
    /// caller's available collateral and the pool's borrow cap, mints
    /// borrow shares and commits the recomputed balances.  Returns the
    /// amount the host must pay out of custody.
    pub fn borrow(
        &mut self,
        asset_address: u64,
        amount: Decimal,
        user_id: u64,
        prices: &Table<Decimal>,
        now: u64,
    ) -> (r: Result<Decimal, LendingError>)
        requires
            old(self).wf(),
            prices.wf(),
            borrow_fits(*old(self), asset_address, amount, user_id, *prices, now),
        ensures
            final(self).wf(),
            ({
                let user_known = old(self).users.contains_key(user_id);
                let registered = old(self).pool_parameters.contains_key(asset_address);
                let p = old(self).pool_parameters.val(asset_address);
                let user = old(self).users.val(user_id);
                let al = p.deposit_balance.raw - p.reserve_balance.raw - mul_down(
                    p.deposit_balance.raw as int,
                    p.pool_reserve.raw as int,
                ) - p.borrow_balance.raw;
                let priced = prices.contains_key(asset_address);
                let amount_x = mul_down(amount.raw as int, prices.val(asset_address).raw as int);
                let c = collateral_sum(old(self).pool_parameters.pairs@, user, *prices);
                let l = loan_sum(old(self).pool_parameters.pairs@, user, *prices);
                let covered = prices_cover(old(self).pool_parameters.pairs@, user, *prices);
                let mbp_d = mul_down(p.max_borrow_percent.raw as int, p.deposit_balance.raw as int);
                let user_sb = user.spec_borrow(asset_address);
                let bi = pool_borrow_interest(p, now as int);
                let ri = pool_reserve_interest(p, now as int);
                let di = pool_deposit_interest(p, now as int);
                let b1 = p.borrow_balance.raw + bi;
                let sm = spec_s_interest(amount.raw as int, b1, p.sb_balance.raw as int);
                match r {
                    Err(e) => *final(self) == *old(self) && (if !user_known {
                        e == LendingError::UserNotFound
                    } else if !registered {
                        e == LendingError::PoolNotFound
                    } else if p.borrow_locked {
                        e == LendingError::BorrowLocked
                    } else if al < amount.raw {
                        e == LendingError::InsufficientLiquidity(
                            (Decimal { raw: (if al >= 0 { al } else { 0int }) as u128 }),
                        )
                    } else if !priced {
                        e == LendingError::PriceNotFound
                    } else if !covered {
                        e == LendingError::PriceNotFound
                    } else if c < l {
                        e == LendingError::InsufficientCollateral((Decimal { raw: 0 }))
                    } else if c - l < amount_x {
                        e == LendingError::InsufficientCollateral(
                            (Decimal { raw: (c - l) as u128 }),
                        )
                    } else if c - l < mbp_d && amount.raw > c - l {
                        e == LendingError::MaxBorrowExceeded((Decimal { raw: (c - l) as u128 }))
                    } else if c - l >= mbp_d && amount.raw + user_sb > mbp_d {
                        e == LendingError::MaxBorrowExceeded(
                            (Decimal {
                                raw: (if mbp_d >= user_sb {
                                    mbp_d - user_sb
                                } else {
                                    0int
                                }) as u128,
                            }),
                        )
                    } else {
                        false
                    }),
                    Ok(out) => {
                        &&& user_known
                        &&& registered
                        &&& !p.borrow_locked
                        &&& al >= amount.raw
                        &&& priced
                        &&& covered
                        &&& c - l >= amount_x
                        &&& (c - l < mbp_d ==> amount.raw <= c - l)
                        &&& (c - l >= mbp_d ==> amount.raw + user_sb <= mbp_d)
                        &&& out == amount
                        &&& final(self).pool_parameters.contains_key(asset_address)
                        &&& final(self).pool_parameters.val(asset_address) == (PoolParameters {
                            deposit_balance: (Decimal {
                                raw: (p.deposit_balance.raw + di) as u128,
                            }),
                            sd_balance: p.sd_balance,
                            borrow_balance: (Decimal { raw: (b1 + amount.raw) as u128 }),
                            sb_balance: (Decimal { raw: (p.sb_balance.raw + sm) as u128 }),
                            reserve_balance: (Decimal {
                                raw: (p.reserve_balance.raw + ri) as u128,
                            }),
                            balances_updated_at: now,
                            ..p
                        })
                        &&& forall|a: u64|
                            a != asset_address ==> #[trigger] final(self).pool_parameters
                                .contains_key(a) == old(self).pool_parameters.contains_key(a)
                        &&& forall|a: u64|
                            a != asset_address && old(self).pool_parameters.contains_key(a)
                                ==> #[trigger] final(self).pool_parameters.val(a) == old(self).pool_parameters.val(a)
                        &&& final(self).users.contains_key(user_id)
                        &&& final(self).users.val(user_id).spec_borrow(asset_address) == user_sb
                            + sm
                        &&& borrow_share_sum(final(self).users.pairs@, asset_address)
                            == borrow_share_sum(old(self).users.pairs@, asset_address) + sm
                        &&& forall|a: u64|
                            a != asset_address ==> #[trigger] borrow_share_sum(
                                final(self).users.pairs@,
                                a,
                            ) == borrow_share_sum(old(self).users.pairs@, a)
                        &&& forall|a: u64|
                            #[trigger] deposit_share_sum(final(self).users.pairs@, a)
                                == deposit_share_sum(old(self).users.pairs@, a)
                        &&& forall|a: u64|
                            a != asset_address ==> #[trigger] final(self).users.val(
                                user_id,
                            ).spec_borrow(a) == user.spec_borrow(a)
                        &&& final(self).users.val(user_id).deposits == user.deposits
                        &&& final(self).users.val(user_id).updated_at == now
                        &&& final(self).users.val(user_id).minted_at == user.minted_at
                        &&& forall|u: u64|
                            u != user_id ==> #[trigger] final(self).users.contains_key(u) == old(self).users.contains_key(u)
                        &&& forall|u: u64|
                            u != user_id && old(self).users.contains_key(u) ==> #[trigger] final(self).users.val(u) == old(self).users.val(u)
                        &&& (share_books_balanced(*old(self), asset_address) ==> share_books_balanced(
                            *final(self),
                            asset_address,
                        ))
                        &&& final(self).admin_signature_check == old(self).admin_signature_check
                        &&& final(self).admin_blacklist == old(self).admin_blacklist
                        &&& final(self).admin_badge_id_counter == old(self).admin_badge_id_counter
                    },
                }
            }),
    {
        match self.users.find(user_id) {
            Some(_) => (),
            None => {
                return Err(LendingError::UserNotFound);
            },
        }
        let parameters: PoolParameters;
        match self.pool_parameters.get(asset_address) {
            Some(p) => {
                parameters = p;
            },
            None => {
                return Err(LendingError::PoolNotFound);
            },
        }
        if parameters.borrow_locked {
            return Err(LendingError::BorrowLocked);
        }
        match self.available_liquidity(
            parameters.deposit_balance,
            parameters.borrow_balance,
            parameters.reserve_balance,
            parameters.pool_reserve,
        ) {
            Some(available_liquidity) => {
                if available_liquidity.lt(&amount) {
                    return Err(LendingError::InsufficientLiquidity(available_liquidity));
                }
            },
            None => {
                return Err(LendingError::InsufficientLiquidity(Decimal::zero()));
            },
        }
        let cost_of_asset_in_terms_of_xrd: Decimal;
        match prices.get(asset_address) {
            Some(c) => {
                cost_of_asset_in_terms_of_xrd = c;
            },
            None => {
                return Err(LendingError::PriceNotFound);
            },
        }
        let borrow_amount_in_terms_of_xrd = amount.mul(&cost_of_asset_in_terms_of_xrd);
        proof {
            let j = old(self).users.index_of_key(user_id);
            assert(old(self).users.pairs@[j].1.wf());
        }
        let sb_interest: Decimal;
        let interests: (Decimal, Decimal, Decimal);
        match self.users.borrow_val(user_id) {
            None => {
                proof {
                    assert(false);
                }
                return Err(LendingError::UserNotFound);
            },
            Some(user_ref) => {
                let collateral_and_loan: (Decimal, Decimal);
                match user_ref.calculate_total_collateral_and_loan(&self.pool_parameters, prices) {
                    Ok(cl) => {
                        collateral_and_loan = cl;
                    },
                    Err(e) => {
                        return Err(e);
                    },
                }
                if collateral_and_loan.0.lt(&collateral_and_loan.1) {
                    return Err(LendingError::InsufficientCollateral(Decimal::zero()));
                }
                let user_available_collateral = collateral_and_loan.0.sub(&collateral_and_loan.1);
                if user_available_collateral.lt(&borrow_amount_in_terms_of_xrd) {
                    return Err(LendingError::InsufficientCollateral(user_available_collateral));
                }
                let pool_cap = parameters.max_borrow_percent.mul(&parameters.deposit_balance);
                if user_available_collateral.lt(&pool_cap) {
                    if amount.gt(&user_available_collateral) {
                        return Err(LendingError::MaxBorrowExceeded(user_available_collateral));
                    }
                } else {
                    let user_borrow = user_ref.get_borrow(asset_address);
                    if amount.raw + user_borrow.raw > pool_cap.raw {
                        let max_borrow = if pool_cap.ge(&user_borrow) {
                            pool_cap.sub(&user_borrow)
                        } else {
                            Decimal::zero()
                        };
                        return Err(LendingError::MaxBorrowExceeded(max_borrow));
                    }
                }
                interests = accrue(&parameters, now);
                let asset_total_borrow_balance = parameters.borrow_balance.add(&interests.0);
                sb_interest = calculate_s_interest(
                    amount,
                    asset_total_borrow_balance,
                    parameters.sb_balance,
                );
            },
        }
        let mut user: UserData;
        match self.users.remove(user_id) {
            Some(u) => {
                user = u;
            },
            None => {
                proof {
                    assert(false);
                }
                return Err(LendingError::UserNotFound);
            },
        }
        let ghost mid_users = self.users;
        let ghost user0 = user;
        user.on_borrow(asset_address, sb_interest);
        let ghost user1 = user;
        user.updated_at = now;
        self.users.insert(user_id, user);
        proof {
            assert forall|i: int| 0 <= i < self.users.pairs@.len() implies (
            #[trigger] self.users.pairs@[i]).1.wf() by {
                if i < self.users.pairs@.len() - 1 {
                    let j = old(self).users.index_of_key(user_id);
                    if i < j {
                        assert(mid_users.pairs@[i] == old(self).users.pairs@[i]);
                    } else {
                        assert(mid_users.pairs@[i] == old(self).users.pairs@[i + 1]);
                    }
                }
            }
            assert forall|a: u64| a != asset_address implies #[trigger] self.users.val(
                user_id,
            ).spec_borrow(a) == old(self).users.val(user_id).spec_borrow(a) by {
                assert(user1.spec_borrow(a) == user0.spec_borrow(a));
                assert(self.users.val(user_id) == user);
                assert(user.borrows == user1.borrows);
            }
            // both share books move in lock-step with the pool totals
            let j = old(self).users.index_of_key(user_id);
            assert(old(self).users.pairs@[j].1 == user0);
            assert forall|a: u64| #[trigger] borrow_share_sum(self.users.pairs@, a)
                == borrow_share_sum(old(self).users.pairs@, a) + (if a == asset_address {
                sb_interest.raw as int
            } else {
                0int
            }) by {
                lemma_share_sum_remove(old(self).users.pairs@, j, a);
                lemma_share_sum_push(mid_users.pairs@, (user_id, user), a);
                assert(user.spec_borrow(a) == user1.spec_borrow(a));
            }
            assert forall|a: u64| #[trigger] deposit_share_sum(self.users.pairs@, a)
                == deposit_share_sum(old(self).users.pairs@, a) by {
                lemma_share_sum_remove(old(self).users.pairs@, j, a);
                lemma_share_sum_push(mid_users.pairs@, (user_id, user), a);
                assert(user.spec_deposit(a) == user0.spec_deposit(a)) by {
                    assert(user.deposits == user0.deposits);
                }
            }
        }
        let asset_total_borrow_balance = parameters.borrow_balance.add(&interests.0);
        let asset_total_reserve_balance = parameters.reserve_balance.add(&interests.1);
        let asset_total_deposit_balance = parameters.deposit_balance.add(&interests.2);
        let new_total_borrow = asset_total_borrow_balance.add(&amount);
        let new_sb_balance = parameters.sb_balance.add(&sb_interest);
        self.update_pool_balances(
            asset_address,
            asset_total_deposit_balance,
            parameters.sd_balance,
            new_total_borrow,
            new_sb_balance,
            asset_total_reserve_balance,
            now,
        );
        Ok(amount)
    }
}

/// The whole repayment computation stays within the machine word, the
/// share conversion is defined, and the position's shares do not exceed
/// the pool's total.
pub open spec fn repay_fits(
    s: LendingProtocol,
    asset: u64,
    amount: Decimal,
    user_id: u64,
    now: u64,
) -> bool {
    s.pool_parameters.contains_key(asset) ==> {
        let p = s.pool_parameters.val(asset);
        &&& p.borrow_balance.raw * SCALE <= u128::MAX
        &&& (s.users.contains_key(user_id) ==> {
            let user = s.users.val(user_id);
            let user_sb = user.spec_borrow(asset);
            let sbp0 = spec_token_price(p.borrow_balance.raw as int, p.sb_balance.raw as int);
            let max_repay = mul_down(user_sb, sbp0);
            let repaid = if amount.raw > max_repay {
                max_repay
            } else {
                amount.raw as int
            };
            let b1 = p.borrow_balance.raw + pool_borrow_interest(p, now as int);
            &&& user_sb * sbp0 <= u128::MAX
            &&& user_sb <= p.sb_balance.raw
            &&& accrual_fits(p, now as int)
            &&& s_interest_fits(repaid, b1, p.sb_balance.raw as int)
        })
    }
}

impl LendingProtocol {
    /// Repays up to the caller's outstanding debt in the repaid asset:
    /// rolls interest forward, caps the repayment at the debt's current
    /// value, burns the matching borrow shares and commits the recomputed
    /// balances.  Returns the change the host must hand back when more was
    /// offered than was owed.
    pub fn repay(
        &mut self,
        asset_address: u64,
        amount: Decimal,
        user_id: u64,
        now: u64,
    ) -> (r: Result<Decimal, LendingError>)
        requires
            old(self).wf(),
            repay_fits(*old(self), asset_address, amount, user_id, now),
        ensures
            final(self).wf(),
            ({
                let user_known = old(self).users.contains_key(user_id);
                let registered = old(self).pool_parameters.contains_key(asset_address);
                let p = old(self).pool_parameters.val(asset_address);
                let user = old(self).users.val(user_id);
                let user_sb = user.spec_borrow(asset_address);
                let sbp0 = spec_token_price(p.borrow_balance.raw as int, p.sb_balance.raw as int);
                let max_repay = mul_down(user_sb, sbp0);
                let repaid = if amount.raw > max_repay {
                    max_repay
                } else {
                    amount.raw as int
                };
                let to_return = if amount.raw > max_repay {
                    amount.raw - max_repay
                } else {
                    0int
                };
                let bi = pool_borrow_interest(p, now as int);
                let ri = pool_reserve_interest(p, now as int);
                let di = pool_deposit_interest(p, now as int);
                let b1 = p.borrow_balance.raw + bi;
                let sm = spec_s_interest(repaid, b1, p.sb_balance.raw as int);
                match r {
                    Err(e) => *final(self) == *old(self) && (if !user_known {
                        e == LendingError::UserNotFound
                    } else if !registered {
                        e == LendingError::PoolNotFound
                    } else if p.repay_locked {
                        e == LendingError::RepayLocked
                    } else {
                        false
                    }),
                    Ok(out) => {
                        &&& user_known
                        &&& registered
                        &&& !p.repay_locked
                        &&& out.raw == to_return
                        &&& sm <= user_sb
                        &&& repaid <= b1
                        &&& final(self).pool_parameters.contains_key(asset_address)
                        &&& final(self).pool_parameters.val(asset_address) == (PoolParameters {
                            deposit_balance: (Decimal {
                                raw: (p.deposit_balance.raw + di) as u128,
                            }),
                            sd_balance: p.sd_balance,
                            borrow_balance: (Decimal { raw: (b1 - repaid) as u128 }),
                            sb_balance: (Decimal { raw: (p.sb_balance.raw - sm) as u128 }),
                            reserve_balance: (Decimal {
                                raw: (p.reserve_balance.raw + ri) as u128,
                            }),
                            balances_updated_at: now,
                            ..p
                        })
                        &&& forall|a: u64|
                            a != asset_address ==> #[trigger] final(self).pool_parameters
                                .contains_key(a) == old(self).pool_parameters.contains_key(a)
                        &&& forall|a: u64|
                            a != asset_address && old(self).pool_parameters.contains_key(a)
                                ==> #[trigger] final(self).pool_parameters.val(a) == old(self).pool_parameters.val(a)
                        &&& final(self).users.contains_key(user_id)
                        &&& final(self).users.val(user_id).spec_borrow(asset_address) == user_sb
                            - sm
                        &&& borrow_share_sum(final(self).users.pairs@, asset_address)
                            == borrow_share_sum(old(self).users.pairs@, asset_address) - sm
                        &&& forall|a: u64|
                            a != asset_address ==> #[trigger] borrow_share_sum(
                                final(self).users.pairs@,
                                a,
                            ) == borrow_share_sum(old(self).users.pairs@, a)
                        &&& forall|a: u64|
                            #[trigger] deposit_share_sum(final(self).users.pairs@, a)
                                == deposit_share_sum(old(self).users.pairs@, a)
                        &&& forall|a: u64|
                            a != asset_address ==> #[trigger] final(self).users.val(
                                user_id,
                            ).spec_borrow(a) == user.spec_borrow(a)
                        &&& final(self).users.val(user_id).deposits == user.deposits
                        &&& final(self).users.val(user_id).updated_at == now
                        &&& final(self).users.val(user_id).minted_at == user.minted_at
                        &&& forall|u: u64|
                            u != user_id ==> #[trigger] final(self).users.contains_key(u) == old(self).users.contains_key(u)
                        &&& forall|u: u64|
                            u != user_id && old(self).users.contains_key(u) ==> #[trigger] final(self).users.val(u) == old(self).users.val(u)
                        &&& (share_books_balanced(*old(self), asset_address) ==> share_books_balanced(
                            *final(self),
                            asset_address,
                        ))
                        &&& final(self).admin_signature_check == old(self).admin_signature_check
                        &&& final(self).admin_blacklist == old(self).admin_blacklist
                        &&& final(self).admin_badge_id_counter == old(self).admin_badge_id_counter
                    },
                }
            }),
    {
        match self.users.find(user_id) {
            Some(_) => (),
            None => {
                return Err(LendingError::UserNotFound);
            },
        }
        let parameters: PoolParameters;
        match self.pool_parameters.get(asset_address) {
            Some(p) => {
                parameters = p;
            },
            None => {
                return Err(LendingError::PoolNotFound);
            },
        }
        if parameters.repay_locked {
            return Err(LendingError::RepayLocked);
        }
        let interests = accrue(&parameters, now);
        let sb_price = calculate_token_price(parameters.borrow_balance, parameters.sb_balance);
        let asset_total_borrow_balance = parameters.borrow_balance.add(&interests.0);
        proof {
            let j = old(self).users.index_of_key(user_id);
            assert(old(self).users.pairs@[j].1.wf());
        }
        let mut user: UserData;
        match self.users.remove(user_id) {
            Some(u) => {
                user = u;
            },
            None => {
                proof {
                    assert(false);
                }
                return Err(LendingError::UserNotFound);
            },
        }
        let ghost mid_users = self.users;
        let ghost user0 = user;
        let user_borrow = user.get_borrow(asset_address);
        let max_repay_amount = user_borrow.mul(&sb_price);
        let mut repaid_amount = amount;
        let mut to_return = Decimal::zero();
        if repaid_amount.gt(&max_repay_amount) {
            to_return = repaid_amount.sub(&max_repay_amount);
            repaid_amount = max_repay_amount;
        }
        let sb_interest = calculate_s_interest(
            repaid_amount,
            asset_total_borrow_balance,
            parameters.sb_balance,
        );
        proof {
            // the burned shares fit under the position's and the pool's
            // totals, and the repayment fits under the accrued loan book
            let s = SCALE as int;
            let bb = parameters.borrow_balance.raw as int;
            let sbb = parameters.sb_balance.raw as int;
            let usb = user_borrow.raw as int;
            let b1 = asset_total_borrow_balance.raw as int;
            let p0 = sb_price.raw as int;
            let rp = repaid_amount.raw as int;
            let smg = sb_interest.raw as int;
            lemma_interest_nonneg(parameters, now as int);
            if b1 == 0 {
                assert(smg == rp);
                if sbb == 0 {
                    assert(usb == 0);
                    assert(p0 == s);
                    lemma_div_mul_le(usb * s, s);
                    lemma_div_multiples_vanish(usb, s);
                    lemma_mul_is_commutative(usb, s);
                    assert(max_repay_amount.raw == usb);
                } else {
                    assert(bb == 0);
                    assert(p0 == 0) by {
                        assert(bb * s == 0) by (nonlinear_arith)
                            requires bb == 0,
                        ;
                    }
                    assert(usb * 0 == 0) by (nonlinear_arith);
                }
            } else {
                let p1 = div_down(b1, sbb);
                assert(sbb != 0);
                assert(smg == (rp * s) / p1);
                lemma_div_mul_le(usb * p0, s);
                assert(bb * s <= b1 * s) by {
                    lemma_mul_inequality(bb, b1, s);
                }
                lemma_div_is_ordered(bb * s, b1 * s, sbb);
                assert(p0 <= p1);
                assert(usb * p0 <= usb * p1) by {
                    lemma_mul_inequality(p0, p1, usb);
                    lemma_mul_is_commutative(p0, usb);
                    lemma_mul_is_commutative(p1, usb);
                }
                assert(rp * s <= max_repay_amount.raw * s) by {
                    lemma_mul_inequality(rp, max_repay_amount.raw as int, s);
                }
                assert(rp * s <= usb * p1);
                lemma_div_is_ordered(rp * s, usb * p1, p1);
                lemma_div_multiples_vanish(usb, p1);
                lemma_mul_is_commutative(usb, p1);
                assert(smg <= usb);
                // and the repayment never exceeds the accrued loan book
                assert(usb * p0 <= sbb * p0) by {
                    lemma_mul_inequality(usb, sbb, p0);
                    assert(0 <= p0) by {
                        if sbb != 0 {
                            vstd::arithmetic::mul::lemma_mul_nonnegative(bb, s);
                            vstd::arithmetic::div_mod::lemma_div_pos_is_pos(bb * s, sbb);
                        }
                    }
                }
                lemma_div_mul_le(bb * s, sbb);
                lemma_mul_is_commutative(bb * s / sbb, sbb);
                assert(sbb * p0 <= bb * s) by {
                    lemma_mul_is_commutative(sbb, p0);
                }
                lemma_div_is_ordered(usb * p0, bb * s, s);
                lemma_div_multiples_vanish(bb, s);
                lemma_mul_is_commutative(bb, s);
                assert(max_repay_amount.raw <= bb);
            }
        }
        user.on_repay(asset_address, sb_interest);
        let ghost user1 = user;
        user.updated_at = now;
        self.users.insert(user_id, user);
        proof {
            assert forall|i: int| 0 <= i < self.users.pairs@.len() implies (
            #[trigger] self.users.pairs@[i]).1.wf() by {
                if i < self.users.pairs@.len() - 1 {
                    let j = old(self).users.index_of_key(user_id);
                    if i < j {
                        assert(mid_users.pairs@[i] == old(self).users.pairs@[i]);
                    } else {
                        assert(mid_users.pairs@[i] == old(self).users.pairs@[i + 1]);
                    }
                }
            }
            assert forall|a: u64| a != asset_address implies #[trigger] self.users.val(
                user_id,
            ).spec_borrow(a) == old(self).users.val(user_id).spec_borrow(a) by {
                assert(user1.spec_borrow(a) == user0.spec_borrow(a));
                assert(self.users.val(user_id) == user);
                assert(user.borrows == user1.borrows);
            }
            // both share books move in lock-step with the pool totals
            let j = old(self).users.index_of_key(user_id);
            assert(old(self).users.pairs@[j].1 == user0);
            assert forall|a: u64| #[trigger] borrow_share_sum(self.users.pairs@, a)
                == borrow_share_sum(old(self).users.pairs@, a) - (if a == asset_address {
                sb_interest.raw as int
            } else {
                0int
            }) by {
                lemma_share_sum_remove(old(self).users.pairs@, j, a);
                lemma_share_sum_push(mid_users.pairs@, (user_id, user), a);
                assert(user.spec_borrow(a) == user1.spec_borrow(a));
            }
            assert forall|a: u64| #[trigger] deposit_share_sum(self.users.pairs@, a)
                == deposit_share_sum(old(self).users.pairs@, a) by {
                lemma_share_sum_remove(old(self).users.pairs@, j, a);
                lemma_share_sum_push(mid_users.pairs@, (user_id, user), a);
                assert(user.spec_deposit(a) == user0.spec_deposit(a)) by {
                    assert(user.deposits == user0.deposits);
                }
            }
        }
        let asset_total_reserve_balance = parameters.reserve_balance.add(&interests.1);
        let asset_total_deposit_balance = parameters.deposit_balance.add(&interests.2);
        let new_sb_balance = parameters.sb_balance.sub(&sb_interest);
        let new_total_borrow = asset_total_borrow_balance.sub(&repaid_amount);
        self.update_pool_balances(
            asset_address,
            asset_total_deposit_balance,
            parameters.sd_balance,
            new_total_borrow,
            new_sb_balance,
            asset_total_reserve_balance,
            now,
        );
        Ok(to_return)
    }
}

impl LendingProtocol {
    /// Pays part of a pool's reserve out to the protocol; needs the quorum
    /// and spends it.  Returns the amount the host must take from custody.
    pub fn collect_reserve_balance(
        &mut self,
        resource_address: u64,
        amount: Decimal,
        now: u64,
    ) -> (r: Result<Decimal, LendingError>)
        requires
            old(self).wf(),
        ensures
            final(self).wf(),
            ({
                let p = old(self).pool_parameters.val(resource_address);
                match r {
                    Err(e) => *final(self) == *old(self) && (if !old(self).spec_approved() {
                        e == LendingError::NotApprovedByAdmins
                    } else if !old(self).pool_parameters.contains_key(resource_address) {
                        e == LendingError::PoolNotFound
                    } else if amount.raw > p.reserve_balance.raw {
                        e == LendingError::InsufficientReserve(p.reserve_balance)
                    } else {
                        false
                    }),
                    Ok(out) => {
                        &&& old(self).spec_approved()
                        &&& old(self).pool_parameters.contains_key(resource_address)
                        &&& amount.raw <= p.reserve_balance.raw
                        &&& out == amount
                        &&& final(self).pool_parameters.contains_key(resource_address)
                        &&& final(self).pool_parameters.val(resource_address) == (PoolParameters {
                            reserve_balance: (Decimal {
                                raw: (p.reserve_balance.raw - amount.raw) as u128,
                            }),
                            balances_updated_at: now,
                            ..p
                        })
                        &&& forall|a: u64|
                            a != resource_address ==> #[trigger] final(self).pool_parameters
                                .contains_key(a) == old(self).pool_parameters.contains_key(a)
                        &&& forall|a: u64|
                            a != resource_address && old(self).pool_parameters.contains_key(a)
                                ==> #[trigger] final(self).pool_parameters.val(a) == old(self).pool_parameters.val(a)
                        &&& final(self).users == old(self).users
                        &&& final(self).admin_blacklist == old(self).admin_blacklist
                        &&& final(self).admin_badge_id_counter == old(self).admin_badge_id_counter
                        &&& final(self).admin_signature_check.count() == 0
                    },
                }
            }),
    {
        if !self.is_approved_by_admins() {
            return Err(LendingError::NotApprovedByAdmins);
        }
        let parameters: PoolParameters;
        match self.pool_parameters.get(resource_address) {
            Some(p) => {
                parameters = p;
            },
            None => {
                return Err(LendingError::PoolNotFound);
            },
        }
        if amount.gt(&parameters.reserve_balance) {
            return Err(LendingError::InsufficientReserve(parameters.reserve_balance));
        }
        let reserve_balance = parameters.reserve_balance.sub(&amount);
        self.update_pool_balances(
            resource_address,
            parameters.deposit_balance,
            parameters.sd_balance,
            parameters.borrow_balance,
            parameters.sb_balance,
            reserve_balance,
            now,
        );
        self.admin_signature_check.clear();
        Ok(amount)
    }
}

/// Everything the liquidation settlement computes stays within the machine
/// word; the touched share prices are defined; and the position's shares
/// do not exceed the pools' totals.
pub open spec fn liquidate_fits(
    s: LendingProtocol,
    user_id: u64,
    repaid_asset: u64,
    amount: Decimal,
    deposited_asset: u64,
    prices: Table<Decimal>,
    now: u64,
) -> bool {
    &&& (s.users.contains_key(user_id) && s.pool_parameters.contains_key(repaid_asset) ==> {
        let user = s.users.val(user_id);
        let c = collateral_sum(s.pool_parameters.pairs@, user, prices);
        let l = loan_sum(s.pool_parameters.pairs@, user, prices);
        &&& valuation_fits(s.pool_parameters.pairs@, user, prices)
        &&& (prices_cover(s.pool_parameters.pairs@, user, prices) && l != 0 ==> c > 0 && l * SCALE
            <= u128::MAX)
        &&& xrd_balance_fits(user, s.pool_parameters, prices)
    })
    &&& (s.users.contains_key(user_id) && s.pool_parameters.contains_key(repaid_asset)
        && s.pool_parameters.contains_key(deposited_asset) ==> {
        let user = s.users.val(user_id);
        let pr = s.pool_parameters.val(repaid_asset);
        let pd = s.pool_parameters.val(deposited_asset);
        let b_xrd = borrow_value_sum(user.borrows.pairs@, s.pool_parameters, prices);
        let d_xrd = deposit_value_sum(user.deposits.pairs@, s.pool_parameters, prices);
        let al = pd.deposit_balance.raw - pd.reserve_balance.raw - mul_down(
            pd.deposit_balance.raw as int,
            pd.pool_reserve.raw as int,
        ) - pd.borrow_balance.raw;
        let sbp = spec_token_price(pr.borrow_balance.raw as int, pr.sb_balance.raw as int);
        let sdp = spec_token_price(pd.deposit_balance.raw as int, pd.sd_balance.raw as int);
        &&& user.spec_deposit(deposited_asset) <= pd.sd_balance.raw
        &&& user.spec_borrow(repaid_asset) <= pr.sb_balance.raw
        &&& pd.deposit_balance.raw * pd.pool_reserve.raw <= u128::MAX
        &&& pd.reserve_balance.raw + mul_down(
            pd.deposit_balance.raw as int,
            pd.pool_reserve.raw as int,
        ) + pd.borrow_balance.raw <= u128::MAX
        &&& pr.borrow_balance.raw * SCALE <= u128::MAX
        &&& pd.deposit_balance.raw * SCALE <= u128::MAX
        &&& (prices.contains_key(deposited_asset) && prices.contains_key(repaid_asset) && al >= 0
            ==> liq_fits(
            amount.raw as int,
            b_xrd,
            d_xrd,
            pr.max_liquidation_percent.raw as int,
            pr.liquidation_bonus.raw as int,
            pr.liquidation_reserve_factor.raw as int,
            user.spec_deposit(deposited_asset),
            al,
            sbp,
            sdp,
            prices.val(deposited_asset).raw as int,
            prices.val(repaid_asset).raw as int,
            user.spec_borrow(repaid_asset),
        ))
    })
}

impl LendingProtocol {
    /// Liquidates an unhealthy position: repays part of its debt in the
    /// repaid asset and seizes deposit shares of the chosen collateral
    /// asset, paying the liquidator a bonus and crediting the reserve's
    /// cut.  Any bound violation aborts with no state change.  Returns the
    /// collateral amount the host must pay the liquidator out of custody.
    pub fn liquidate(
        &mut self,
        user_id: u64,
        repaid_asset: u64,
        amount: Decimal,
        deposited_asset: u64,
        prices: &Table<Decimal>,
        now: u64,
    ) -> (r: Result<Decimal, LendingError>)
        requires
            old(self).wf(),
            prices.wf(),
            liquidate_fits(*old(self), user_id, repaid_asset, amount, deposited_asset, *prices,
                now),
        ensures
            final(self).wf(),
            ({
                let user = old(self).users.val(user_id);
                let pr = old(self).pool_parameters.val(repaid_asset);
                let pd = old(self).pool_parameters.val(deposited_asset);
                let ldb = user.spec_deposit(deposited_asset);
                let sb = user.spec_borrow(repaid_asset);
                let c = collateral_sum(old(self).pool_parameters.pairs@, user, *prices);
                let l = loan_sum(old(self).pool_parameters.pairs@, user, *prices);
                let covered = prices_cover(old(self).pool_parameters.pairs@, user, *prices);
                let llu = if l == 0 {
                    0int
                } else {
                    div_down(l, c)
                };
                let b_xrd = borrow_value_sum(user.borrows.pairs@, old(self).pool_parameters,
                    *prices);
                let d_xrd = deposit_value_sum(user.deposits.pairs@, old(self).pool_parameters,
                    *prices);
                let priced_maps = balances_priced(user.deposits.pairs@, *prices)
                    && balances_priced(user.borrows.pairs@, *prices);
                let al = pd.deposit_balance.raw - pd.reserve_balance.raw - mul_down(
                    pd.deposit_balance.raw as int,
                    pd.pool_reserve.raw as int,
                ) - pd.borrow_balance.raw;
                let sbp = spec_token_price(pr.borrow_balance.raw as int, pr.sb_balance.raw as int);
                let sdp = spec_token_price(pd.deposit_balance.raw as int, pd.sd_balance.raw as int);
                let bonus = pr.liquidation_bonus.raw as int;
                let rf = pr.liquidation_reserve_factor.raw as int;
                let both_priced = prices.contains_key(deposited_asset) && prices.contains_key(
                    repaid_asset,
                );
                let cost_d = prices.val(deposited_asset).raw as int;
                let cost_r = prices.val(repaid_asset).raw as int;
                let al_x = mul_down(al, cost_d);
                let mlp = liq_effective_max_percent(b_xrd, d_xrd,
                    pr.max_liquidation_percent.raw as int, bonus);
                let max_repayment = mul_down(mlp, b_xrd);
                let amount_x = mul_down(amount.raw as int, cost_r);
                let ldb_x = mul_down(ldb, mul_down(cost_d, sdp));
                let max_liq = div_down(ldb_x, liq_denominator(bonus, rf));
                let bx = liq_borrow_in_xrd(sb, sbp, cost_r);
                let reward_u = div_down(liq_reward(amount_x, bonus, rf), cost_d);
                let bonus_u = div_down(liq_platform_bonus(amount_x, bonus, rf), cost_d);
                let ldb_u = div_down(ldb_x, cost_d);
                let new_sd = div_down(ldb_u - reward_u - bonus_u, sdp);
                let new_sb = liq_new_borrow_shares(sb, sbp, cost_r, amount_x);
                let decreased_u = div_down(amount_x, cost_r);
                match r {
                    Err(e) => {
                        &&& final(self).pool_parameters == old(self).pool_parameters
                        &&& final(self).admin_signature_check == old(self).admin_signature_check
                        &&& final(self).admin_blacklist == old(self).admin_blacklist
                        &&& final(self).admin_badge_id_counter == old(self).admin_badge_id_counter
                        &&& forall|u: u64|
                            #[trigger] final(self).users.contains_key(u) == old(self).users.contains_key(u)
                        &&& forall|u: u64|
                            old(self).users.contains_key(u) ==> #[trigger] final(self).users.val(u)
                                == old(self).users.val(u)
                        &&& (if !old(self).users.contains_key(user_id) {
                            e == LendingError::UserNotFound
                        } else if ldb == 0 {
                            e == LendingError::NoDepositToSeize
                        } else if !old(self).pool_parameters.contains_key(repaid_asset) {
                            e == LendingError::PoolNotFound
                        } else if !covered {
                            e == LendingError::PriceNotFound
                        } else if llu == 0 {
                            e == LendingError::NoLoanOutstanding
                        } else if !old(self).pool_parameters.contains_key(deposited_asset) {
                            e == LendingError::PoolNotFound
                        } else if llu <= pd.min_collateral_ratio.raw {
                            e == LendingError::LiquidationNotAllowed(pd.min_collateral_ratio)
                        } else if !priced_maps {
                            e == LendingError::PriceNotFound
                        } else if al < 0 {
                            e == LendingError::InsufficientLiquidity((Decimal { raw: 0 }))
                        } else if !both_priced {
                            e == LendingError::PriceNotFound
                        } else if amount_x * (SCALE + bonus) > al_x * SCALE {
                            e == LendingError::InsufficientLiquidity((Decimal { raw: al as u128 }))
                        } else if amount_x > max_repayment {
                            e == LendingError::MaxRepaymentExceeded(
                                (Decimal { raw: max_repayment as u128 }),
                            )
                        } else if amount_x > max_liq {
                            e == LendingError::MaxLiquidationExceeded(
                                (Decimal { raw: max_liq as u128 }),
                            )
                        } else if bx < amount_x {
                            e == LendingError::RepayExceedsDebt((Decimal { raw: bx as u128 }))
                        } else {
                            false
                        })
                    },
                    Ok(out) => {
                        &&& old(self).users.contains_key(user_id)
                        &&& ldb != 0
                        &&& covered
                        &&& llu > pd.min_collateral_ratio.raw
                        &&& al >= 0
                        &&& both_priced
                        &&& amount_x <= max_repayment
                        &&& amount_x <= max_liq
                        &&& amount_x <= bx
                        &&& out.raw == reward_u
                        &&& final(self).users.contains_key(user_id)
                        &&& final(self).users.val(user_id).spec_deposit(deposited_asset) == new_sd
                        &&& final(self).users.val(user_id).spec_borrow(repaid_asset) == new_sb
                        &&& forall|a: u64|
                            a != deposited_asset ==> #[trigger] final(self).users.val(
                                user_id,
                            ).spec_deposit(a) == user.spec_deposit(a)
                        &&& forall|a: u64|
                            a != repaid_asset ==> #[trigger] final(self).users.val(
                                user_id,
                            ).spec_borrow(a) == user.spec_borrow(a)
                        &&& final(self).users.val(user_id).updated_at == now
                        &&& forall|u: u64|
                            u != user_id ==> #[trigger] final(self).users.contains_key(u) == old(self).users.contains_key(u)
                        &&& forall|u: u64|
                            u != user_id && old(self).users.contains_key(u) ==> #[trigger] final(self).users.val(u) == old(self).users.val(u)
                        &&& deposit_share_sum(final(self).users.pairs@, deposited_asset)
                            == deposit_share_sum(old(self).users.pairs@, deposited_asset) - (ldb
                            - new_sd)
                        &&& forall|a: u64|
                            a != deposited_asset ==> #[trigger] deposit_share_sum(
                                final(self).users.pairs@,
                                a,
                            ) == deposit_share_sum(old(self).users.pairs@, a)
                        &&& forall|a: u64|
                            a != repaid_asset ==> #[trigger] borrow_share_sum(
                                final(self).users.pairs@,
                                a,
                            ) == borrow_share_sum(old(self).users.pairs@, a)
                        &&& borrow_share_sum(final(self).users.pairs@, repaid_asset)
                            == borrow_share_sum(old(self).users.pairs@, repaid_asset) - (sb
                            - new_sb)
                        &&& (repaid_asset == deposited_asset ==> final(self).pool_parameters.val(
                            deposited_asset,
                        ) == (PoolParameters {
                            deposit_balance: (Decimal {
                                raw: (pd.deposit_balance.raw - reward_u - bonus_u) as u128,
                            }),
                            sd_balance: (Decimal {
                                raw: (pd.sd_balance.raw - (ldb - new_sd)) as u128,
                            }),
                            borrow_balance: (Decimal {
                                raw: (pd.borrow_balance.raw - decreased_u) as u128,
                            }),
                            sb_balance: (Decimal {
                                raw: (pd.sb_balance.raw - (sb - new_sb)) as u128,
                            }),
                            reserve_balance: (Decimal {
                                raw: (pd.reserve_balance.raw + bonus_u) as u128,
                            }),
                            balances_updated_at: now,
                            ..pd
                        }))
                        &&& (repaid_asset != deposited_asset ==> {
                            &&& final(self).pool_parameters.val(deposited_asset)
                                == (PoolParameters {
                                deposit_balance: (Decimal {
                                    raw: (pd.deposit_balance.raw - reward_u - bonus_u) as u128,
                                }),
                                sd_balance: (Decimal {
                                    raw: (pd.sd_balance.raw - (ldb - new_sd)) as u128,
                                }),
                                reserve_balance: (Decimal {
                                    raw: (pd.reserve_balance.raw + bonus_u) as u128,
                                }),
                                balances_updated_at: now,
                                ..pd
                            })
                            &&& final(self).pool_parameters.val(repaid_asset) == (PoolParameters {
                                borrow_balance: (Decimal {
                                    raw: (pr.borrow_balance.raw - decreased_u) as u128,
                                }),
                                sb_balance: (Decimal {
                                    raw: (pr.sb_balance.raw - (sb - new_sb)) as u128,
                                }),
                                balances_updated_at: now,
                                ..pr
                            })
                        })
                        &&& forall|a: u64|
                            a != deposited_asset && a != repaid_asset ==> #[trigger] final(self).pool_parameters.contains_key(a) == old(self).pool_parameters.contains_key(a)
                        &&& forall|a: u64|
                            a != deposited_asset && a != repaid_asset && old(self).pool_parameters.contains_key(a) ==> #[trigger] final(self).pool_parameters.val(a) == old(self).pool_parameters.val(a)
                        &&& final(self).pool_parameters.contains_key(deposited_asset)
                        &&& final(self).pool_parameters.contains_key(repaid_asset)
                        &&& (share_books_balanced(*old(self), deposited_asset) ==> share_books_balanced(
                            *final(self),
                            deposited_asset,
                        ))
                        &&& (share_books_balanced(*old(self), repaid_asset) ==> share_books_balanced(
                            *final(self),
                            repaid_asset,
                        ))
                        &&& final(self).admin_signature_check == old(self).admin_signature_check
                        &&& final(self).admin_blacklist == old(self).admin_blacklist
                        &&& final(self).admin_badge_id_counter == old(self).admin_badge_id_counter
                    },
                }
            }),
    {
        match self.users.find(user_id) {
            Some(_) => (),
            None => {
                return Err(LendingError::UserNotFound);
            },
        }
        proof {
            let j = old(self).users.index_of_key(user_id);
            assert(old(self).users.pairs@[j].1.wf());
        }
        let mut user: UserData;
        match self.users.remove(user_id) {
            Some(u) => {
                user = u;
            },
            None => {
                proof {
                    assert(false);
                }
                return Err(LendingError::UserNotFound);
            },
        }
        let ghost mid_users = self.users;
        let ghost user0 = user;
        let liquidated_user_deposit_balance = user.get_deposit(deposited_asset);
        if liquidated_user_deposit_balance.is_zero() {
            self.users.insert(user_id, user);
            proof {
                lemma_liquidate_restore(*old(self), *self, user_id, user0);
            }
            return Err(LendingError::NoDepositToSeize);
        }
        let repaid_pool_parameters: PoolParameters;
        match self.pool_parameters.get(repaid_asset) {
            Some(p) => {
                repaid_pool_parameters = p;
            },
            None => {
                self.users.insert(user_id, user);
                proof {
                    lemma_liquidate_restore(*old(self), *self, user_id, user0);
                }
                return Err(LendingError::PoolNotFound);
            },
        }
        let loan_limit_used: Decimal;
        match user.get_loan_limit_used(&self.pool_parameters, prices) {
            Ok(v) => {
                loan_limit_used = v;
            },
            Err(e) => {
                self.users.insert(user_id, user);
                proof {
                    lemma_liquidate_restore(*old(self), *self, user_id, user0);
                }
                return Err(e);
            },
        }
        if loan_limit_used.is_zero() {
            self.users.insert(user_id, user);
            proof {
                lemma_liquidate_restore(*old(self), *self, user_id, user0);
            }
            return Err(LendingError::NoLoanOutstanding);
        }
        let lending_parameters: PoolParameters;
        match self.pool_parameters.get(deposited_asset) {
            Some(p) => {
                lending_parameters = p;
            },
            None => {
                self.users.insert(user_id, user);
                proof {
                    lemma_liquidate_restore(*old(self), *self, user_id, user0);
                }
                return Err(LendingError::PoolNotFound);
            },
        }
        if !loan_limit_used.gt(&lending_parameters.min_collateral_ratio) {
            self.users.insert(user_id, user);
            proof {
                lemma_liquidate_restore(*old(self), *self, user_id, user0);
            }
            return Err(LendingError::LiquidationNotAllowed(
                lending_parameters.min_collateral_ratio,
            ));
        }
        let deposit_and_borrow_in_xrd: (Decimal, Decimal);
        match user.get_deposit_and_borrow_balance_in_xrd(&self.pool_parameters, prices) {
            Ok(db) => {
                deposit_and_borrow_in_xrd = db;
            },
            Err(e) => {
                self.users.insert(user_id, user);
                proof {
                    lemma_liquidate_restore(*old(self), *self, user_id, user0);
                }
                return Err(e);
            },
        }
        let available_liquidity: Decimal;
        match self.available_liquidity(
            lending_parameters.deposit_balance,
            lending_parameters.borrow_balance,
            lending_parameters.reserve_balance,
            lending_parameters.pool_reserve,
        ) {
            Some(al) => {
                available_liquidity = al;
            },
            None => {
                self.users.insert(user_id, user);
                proof {
                    lemma_liquidate_restore(*old(self), *self, user_id, user0);
                }
                return Err(LendingError::InsufficientLiquidity(Decimal::zero()));
            },
        }
        let sb_price = calculate_token_price(
            repaid_pool_parameters.borrow_balance,
            repaid_pool_parameters.sb_balance,
        );
        let sd_price = calculate_token_price(
            lending_parameters.deposit_balance,
            lending_parameters.sd_balance,
        );
        let user_borrow_before = user.get_borrow(repaid_asset);
        let to_return_amounts: (Decimal, Decimal, Decimal);
        match user.on_liquidate(
            amount,
            repaid_asset,
            deposit_and_borrow_in_xrd.1,
            deposit_and_borrow_in_xrd.0,
            repaid_pool_parameters.max_liquidation_percent,
            repaid_pool_parameters.liquidation_bonus,
            repaid_pool_parameters.liquidation_reserve_factor,
            liquidated_user_deposit_balance,
            deposited_asset,
            prices,
            available_liquidity,
            sb_price,
            sd_price,
        ) {
            Ok(out) => {
                to_return_amounts = out;
            },
            Err(e) => {
                self.users.insert(user_id, user);
                proof {
                    lemma_liquidate_restore(*old(self), *self, user_id, user0);
                }
                return Err(e);
            },
        }
        let reward = to_return_amounts.0;
        let platform_bonus = to_return_amounts.1;
        let decreased_amount = to_return_amounts.2;
        let new_user_sd = user.get_deposit(deposited_asset);
        let new_user_sb = user.get_borrow(repaid_asset);
        let ghost user1 = user;
        user.updated_at = now;
        self.users.insert(user_id, user);
        proof {
            assert forall|i: int| 0 <= i < self.users.pairs@.len() implies (
            #[trigger] self.users.pairs@[i]).1.wf() by {
                if i < self.users.pairs@.len() - 1 {
                    let j = old(self).users.index_of_key(user_id);
                    if i < j {
                        assert(mid_users.pairs@[i] == old(self).users.pairs@[i]);
                    } else {
                        assert(mid_users.pairs@[i] == old(self).users.pairs@[i + 1]);
                    }
                }
            }
            assert forall|a: u64| a != deposited_asset implies #[trigger] self.users.val(
                user_id,
            ).spec_deposit(a) == old(self).users.val(user_id).spec_deposit(a) by {
                assert(user1.spec_deposit(a) == user0.spec_deposit(a));
                assert(self.users.val(user_id) == user);
                assert(user.deposits == user1.deposits);
            }
            assert forall|a: u64| a != repaid_asset implies #[trigger] self.users.val(
                user_id,
            ).spec_borrow(a) == old(self).users.val(user_id).spec_borrow(a) by {
                assert(user1.spec_borrow(a) == user0.spec_borrow(a));
                assert(self.users.val(user_id) == user);
                assert(user.borrows == user1.borrows);
            }
            // both share books move in lock-step with the pool totals
            let j = old(self).users.index_of_key(user_id);
            assert(old(self).users.pairs@[j].1 == user0);
            assert forall|a: u64| #[trigger] deposit_share_sum(self.users.pairs@, a)
                == deposit_share_sum(old(self).users.pairs@, a) - (if a == deposited_asset {
                user0.spec_deposit(a) - user1.spec_deposit(a)
            } else {
                0int
            }) by {
                lemma_share_sum_remove(old(self).users.pairs@, j, a);
                lemma_share_sum_push(mid_users.pairs@, (user_id, user), a);
                assert(user.spec_deposit(a) == user1.spec_deposit(a));
                if a != deposited_asset {
                    assert(user1.spec_deposit(a) == user0.spec_deposit(a));
                }
            }
            assert forall|a: u64| #[trigger] borrow_share_sum(self.users.pairs@, a)
                == borrow_share_sum(old(self).users.pairs@, a) - (if a == repaid_asset {
                user0.spec_borrow(a) - user1.spec_borrow(a)
            } else {
                0int
            }) by {
                lemma_share_sum_remove(old(self).users.pairs@, j, a);
                lemma_share_sum_push(mid_users.pairs@, (user_id, user), a);
                assert(user.spec_borrow(a) == user1.spec_borrow(a));
                if a != repaid_asset {
                    assert(user1.spec_borrow(a) == user0.spec_borrow(a));
                }
            }
            lemma_liquidate_pool_bounds(
                user0.spec_deposit(deposited_asset),
                user0.spec_borrow(repaid_asset),
                lending_parameters,
                repaid_pool_parameters,
                prices.val(deposited_asset).raw as int,
                prices.val(repaid_asset).raw as int,
                sd_price.raw as int,
                sb_price.raw as int,
                mul_down(amount.raw as int, prices.val(repaid_asset).raw as int),
                repaid_pool_parameters.liquidation_bonus.raw as int,
                repaid_pool_parameters.liquidation_reserve_factor.raw as int,
            );
        }
        let user_sd_delta = liquidated_user_deposit_balance.sub(&new_user_sd);
        let user_sb_delta = user_borrow_before.sub(&new_user_sb);
        let new_total_deposit = lending_parameters.deposit_balance.sub(&reward).sub(
            &platform_bonus,
        );
        let new_total_sd_balance = lending_parameters.sd_balance.sub(&user_sd_delta);
        let new_reserve_balance = lending_parameters.reserve_balance.add(&platform_bonus);
        if repaid_asset == deposited_asset {
            let new_total_borrow = lending_parameters.borrow_balance.sub(&decreased_amount);
            let new_total_sb_balance = lending_parameters.sb_balance.sub(&user_sb_delta);
            self.update_pool_balances(
                deposited_asset,
                new_total_deposit,
                new_total_sd_balance,
                new_total_borrow,
                new_total_sb_balance,
                new_reserve_balance,
                now,
            );
        } else {
            self.update_pool_balances(
                deposited_asset,
                new_total_deposit,
                new_total_sd_balance,
                lending_parameters.borrow_balance,
                lending_parameters.sb_balance,
                new_reserve_balance,
                now,
            );
            let new_repaid_total_borrow = repaid_pool_parameters.borrow_balance.sub(
                &decreased_amount,
            );
            let new_repaid_sb_balance = repaid_pool_parameters.sb_balance.sub(&user_sb_delta);
            self.update_pool_balances(
                repaid_asset,
                repaid_pool_parameters.deposit_balance,
                repaid_pool_parameters.sd_balance,
                new_repaid_total_borrow,
                new_repaid_sb_balance,
                repaid_pool_parameters.reserve_balance,
                now,
            );
        }
        Ok(reward)
    }
}

/// Reinserting the unchanged position leaves every user observably where
/// it was.
proof fn lemma_liquidate_restore(
    pre: LendingProtocol,
    post: LendingProtocol,
    user_id: u64,
    user: UserData,
)
    requires
        pre.wf(),
        pre.users.contains_key(user_id),
        user == pre.users.val(user_id),
        post.users.wf(),
        post.users.contains_key(user_id),
        post.users.val(user_id) == user,
        forall|u: u64|
            u != user_id ==> #[trigger] post.users.contains_key(u) == pre.users.contains_key(u)
                && (pre.users.contains_key(u) ==> post.users.val(u) == pre.users.val(u)),
    ensures
        forall|u: u64| #[trigger] post.users.contains_key(u) == pre.users.contains_key(u),
        forall|u: u64|
            pre.users.contains_key(u) ==> #[trigger] post.users.val(u) == pre.users.val(u),
{
    assert forall|u: u64| pre.users.contains_key(u) implies #[trigger] post.users.val(u)
        == pre.users.val(u) by {
        if u != user_id {
            assert(post.users.contains_key(u) == pre.users.contains_key(u));
        }
    }
}

/// The settlement's debits fit under the pools' recorded totals.
proof fn lemma_liquidate_pool_bounds(
    ldb: int,
    sb: int,
    pd: PoolParameters,
    pr: PoolParameters,
    cost_d: int,
    cost_r: int,
    sdp: int,
    sbp: int,
    amount_x: int,
    bonus: int,
    rf: int,
)
    requires
        0 <= ldb <= pd.sd_balance.raw,
        0 <= sb <= pr.sb_balance.raw,
        cost_d > 0,
        cost_r > 0,
        sdp == spec_token_price(pd.deposit_balance.raw as int, pd.sd_balance.raw as int),
        sbp == spec_token_price(pr.borrow_balance.raw as int, pr.sb_balance.raw as int),
        pd.deposit_balance.raw * SCALE <= u128::MAX,
        pr.borrow_balance.raw * SCALE <= u128::MAX,
        0 <= amount_x,
        amount_x <= liq_borrow_in_xrd(sb, sbp, cost_r),
    ensures
        0 <= div_down(mul_down(ldb, mul_down(cost_d, sdp)), cost_d),
        div_down(mul_down(ldb, mul_down(cost_d, sdp)), cost_d) <= pd.deposit_balance.raw,
        div_down(amount_x, cost_r) <= pr.borrow_balance.raw,
{
    let s = SCALE as int;
    let dd = pd.deposit_balance.raw as int;
    let sdd = pd.sd_balance.raw as int;
    let bb = pr.borrow_balance.raw as int;
    let sbb = pr.sb_balance.raw as int;
    let t = mul_down(cost_d, sdp);
    let ldb_x = mul_down(ldb, t);
    let ldb_u = div_down(ldb_x, cost_d);
    // deposit side: the seized value is at most the pool's deposits
    assert(0 <= t) by {
        vstd::arithmetic::mul::lemma_mul_nonnegative(cost_d, sdp);
        vstd::arithmetic::div_mod::lemma_div_pos_is_pos(cost_d * sdp, s);
        assert(0 <= sdp) by {
            if sdd != 0 {
                vstd::arithmetic::mul::lemma_mul_nonnegative(dd, s);
                vstd::arithmetic::div_mod::lemma_div_pos_is_pos(dd * s, sdd);
            }
        }
    }
    assert(0 <= ldb_x) by {
        vstd::arithmetic::mul::lemma_mul_nonnegative(ldb, t);
        vstd::arithmetic::div_mod::lemma_div_pos_is_pos(ldb * t, s);
    }
    assert(0 <= ldb_u) by {
        vstd::arithmetic::mul::lemma_mul_nonnegative(ldb_x, s);
        vstd::arithmetic::div_mod::lemma_div_pos_is_pos(ldb_x * s, cost_d);
    }
    lemma_div_mul_le(ldb_x * s, cost_d);
    lemma_div_mul_le(ldb * t, s);
    lemma_div_mul_le(cost_d * sdp, s);
    assert(ldb_u * s <= ldb * sdp) by (nonlinear_arith)
        requires
            ldb_u * cost_d <= ldb_x * s,
            ldb_x * s <= ldb * t,
            t * s <= cost_d * sdp,
            cost_d > 0,
            s > 0,
            ldb >= 0,
            ldb_u >= 0,
            t >= 0,
            ldb_x >= 0,
    ;
    if sdd == 0 {
        assert(ldb == 0);
        assert(ldb * t == 0) by (nonlinear_arith)
            requires ldb == 0,
        ;
        assert(ldb_x == 0);
        assert(ldb_u * s <= 0);
        assert(ldb_u <= dd) by (nonlinear_arith)
            requires ldb_u * s <= 0, ldb_u >= 0, s > 0, dd >= 0,
        ;
    } else {
        assert(sdp == (dd * s) / sdd);
        lemma_div_mul_le(dd * s, sdd);
        assert(ldb * sdp <= sdd * sdp) by {
            lemma_mul_inequality(ldb, sdd, sdp);
            assert(0 <= sdp) by {
                vstd::arithmetic::mul::lemma_mul_nonnegative(dd, s);
                vstd::arithmetic::div_mod::lemma_div_pos_is_pos(dd * s, sdd);
            }
            lemma_mul_is_commutative(ldb, sdp);
            lemma_mul_is_commutative(sdd, sdp);
        }
        assert(sdd * sdp <= dd * s) by {
            lemma_mul_is_commutative(sdd, sdp);
            lemma_mul_is_commutative(dd * s / sdd, sdd);
        }
        assert(ldb_u * s <= dd * s);
        assert(ldb_u <= dd) by {
            vstd::arithmetic::mul::lemma_mul_inequality_converse(ldb_u, dd, s);
        }
    }
    // borrow side: the repaid value is at most the pool's loan book
    let b1 = mul_down(sb, sbp);
    let bx = liq_borrow_in_xrd(sb, sbp, cost_r);
    let dec_u = div_down(amount_x, cost_r);
    lemma_div_mul_le(b1 * cost_r, s);
    assert(amount_x * s <= bx * s) by {
        lemma_mul_inequality(amount_x, bx, s);
    }
    assert(bx * s <= b1 * cost_r);
    lemma_div_is_ordered(amount_x * s, b1 * cost_r, cost_r);
    lemma_div_multiples_vanish(b1, cost_r);
    lemma_mul_is_commutative(b1, cost_r);
    assert(dec_u <= b1);
    if sbb == 0 {
        assert(sb == 0);
        assert(sbp == s);
        assert(sb * sbp == 0) by (nonlinear_arith)
            requires sb == 0,
        ;
        assert(b1 == 0);
    } else {
        assert(sbp == (bb * s) / sbb);
        lemma_div_mul_le(sb * sbp, s);
        assert(sb * sbp <= sbb * sbp) by {
            lemma_mul_inequality(sb, sbb, sbp);
            assert(0 <= sbp) by {
                vstd::arithmetic::mul::lemma_mul_nonnegative(bb, s);
                vstd::arithmetic::div_mod::lemma_div_pos_is_pos(bb * s, sbb);
            }
            lemma_mul_is_commutative(sb, sbp);
            lemma_mul_is_commutative(sbb, sbp);
        }
        lemma_div_mul_le(bb * s, sbb);
        assert(sbb * sbp <= bb * s) by {
            lemma_mul_is_commutative(sbb, sbp);
            lemma_mul_is_commutative(bb * s / sbb, sbb);
        }
        assert(b1 * s <= sb * sbp) by {
            lemma_div_mul_le(sb * sbp, s);
        }
        assert(b1 * s <= bb * s);
        assert(b1 <= bb) by {
            vstd::arithmetic::mul::lemma_mul_inequality_converse(b1, bb, s);
        }
    }
    assert(b1 <= bb || b1 == 0);
    assert(dec_u <= bb);
}

} // verus!
