//! The custody pool's balance mirror.
//!
//! The custody collaborator holds one vault of underlying per asset and a
//! passive mirror of the five pool totals; the protocol always supplies the
//! fully recomputed post-operation totals.  The vault's funds themselves
//! live with the host; here the vault is tracked as its amount.

use vstd::prelude::*;
use crate::decimal::Decimal;

verus! {

/// One asset's custody pool: the vault amount and the mirrored totals.
pub struct Pool {
    /// Underlying currently held in the liquidity vault.
    pub liquidity_pool: Decimal,
    /// Mirrored total deposits.
    pub deposit: Decimal,
    /// Mirrored total deposit shares.
    pub sd_balance: Decimal,
    /// Mirrored total loans.
    pub borrow: Decimal,
    /// Mirrored total borrow shares.
    pub sb_balance: Decimal,
    /// Mirrored reserve balance.
    pub reserve: Decimal,
    /// Clock value of the last mirror update.
    pub updated_at: u64,
}

impl Pool {
    /// A fresh, empty custody pool.
    pub fn instantiate() -> (r: Pool)
        ensures
            r.liquidity_pool.raw == 0,
            r.deposit.raw == 0,
            r.sd_balance.raw == 0,
            r.borrow.raw == 0,
            r.sb_balance.raw == 0,
            r.reserve.raw == 0,
            r.updated_at == 0,
    {
        Pool {
            liquidity_pool: Decimal::zero(),
            deposit: Decimal::zero(),
            sd_balance: Decimal::zero(),
            borrow: Decimal::zero(),
            sb_balance: Decimal::zero(),
            reserve: Decimal::zero(),
            updated_at: 0,
        }
    }

    /// Takes `amount` out of the vault and records the recomputed totals.
    /// Returns the amount handed out.
    pub fn take(
        &mut self,
        amount: Decimal,
        deposit: Decimal,
        sd_balance: Decimal,
        borrow: Decimal,
        sb_balance: Decimal,
        reserve: Decimal,
        now: u64,
    ) -> (r: Decimal)
        requires
            amount.raw <= old(self).liquidity_pool.raw,
        ensures
            r == amount,
            final(self).liquidity_pool.raw == old(self).liquidity_pool.raw - amount.raw,
            final(self).deposit == deposit,
            final(self).sd_balance == sd_balance,
            final(self).borrow == borrow,
            final(self).sb_balance == sb_balance,
            final(self).reserve == reserve,
            final(self).updated_at == now,
    {
        self.borrow = borrow;
        self.deposit = deposit;
        self.sd_balance = sd_balance;
        self.sb_balance = sb_balance;
        self.reserve = reserve;
        self.updated_at = now;
        self.liquidity_pool = self.liquidity_pool.sub(&amount);
        amount
    }

    /// Puts `amount` into the vault and records the recomputed totals.
    pub fn put(
        &mut self,
        amount: Decimal,
        deposit: Decimal,
        sd_balance: Decimal,
        borrow: Decimal,
        sb_balance: Decimal,
        reserve: Decimal,
        now: u64,
    )
        requires
            old(self).liquidity_pool.raw + amount.raw <= u128::MAX,
        ensures
            final(self).liquidity_pool.raw == old(self).liquidity_pool.raw + amount.raw,
            final(self).deposit == deposit,
            final(self).sd_balance == sd_balance,
            final(self).borrow == borrow,
            final(self).sb_balance == sb_balance,
            final(self).reserve == reserve,
            final(self).updated_at == now,
    {
        self.borrow = borrow;
        self.deposit = deposit;
        self.sd_balance = sd_balance;
        self.sb_balance = sb_balance;
        self.reserve = reserve;
        self.updated_at = now;
        self.liquidity_pool = self.liquidity_pool.add(&amount);
    }

    /// The five mirrored totals.
    pub fn get_pool_balances(&self) -> (r: (Decimal, Decimal, Decimal, Decimal, Decimal))
        ensures
            r == (self.deposit, self.sd_balance, self.borrow, self.sb_balance, self.reserve),
    {
        (self.deposit, self.sd_balance, self.borrow, self.sb_balance, self.reserve)
    }
}

} // verus!
