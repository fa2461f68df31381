//! A user's position: per-asset deposit-share and borrow-share balances,
//! the share-level bookkeeping of every operation that touches them, the
//! cross-asset valuation of the position and the liquidation settlement.

use vstd::prelude::*;
use vstd::arithmetic::div_mod::lemma_div_pos_is_pos;
use vstd::arithmetic::mul::lemma_mul_nonnegative;
use crate::decimal::{
    Decimal, SCALE, mul_down, div_down, lemma_div_mul_le, lemma_div_plus_le,
};
use vstd::arithmetic::div_mod::{lemma_div_is_ordered, lemma_div_multiples_vanish};
use vstd::arithmetic::mul::{lemma_mul_inequality, lemma_mul_inequality_converse};
use crate::errors::LendingError;
use crate::pool_parameters::PoolParameters;
use crate::table::Table;

verus! {

/// Data describing one identity's positions.
pub struct UserData {
    /// Image to display on the badge the host mints for the identity.
    pub key_image_url: String,
    /// Display name of the badge.
    pub name: String,
    /// Clock value at creation.
    pub minted_at: u64,
    /// Clock value of the last operation touching the position.
    pub updated_at: u64,
    /// Deposit-share balance per asset.
    pub deposits: Table<Decimal>,
    /// Borrow-share balance per asset.
    pub borrows: Table<Decimal>,
}

impl UserData {
    /// Both balance maps have unique keys.
    pub open spec fn wf(self) -> bool {
        self.deposits.wf() && self.borrows.wf()
    }

    /// Deposit-share balance recorded for `asset`; zero when absent.
    pub open spec fn spec_deposit(self, asset: u64) -> int {
        if self.deposits.contains_key(asset) {
            self.deposits.val(asset).raw as int
        } else {
            0
        }
    }

    /// Borrow-share balance recorded for `asset`; zero when absent.
    pub open spec fn spec_borrow(self, asset: u64) -> int {
        if self.borrows.contains_key(asset) {
            self.borrows.val(asset).raw as int
        } else {
            0
        }
    }

    /// A fresh position with empty balance maps.
    pub fn new(name: String, key_image_url: String, now: u64) -> (r: UserData)
        ensures
            r.wf(),
            r.name == name,
            r.key_image_url == key_image_url,
            r.minted_at == now,
            r.updated_at == now,
            r.deposits.pairs@.len() == 0,
            r.borrows.pairs@.len() == 0,
            forall|a: u64| r.spec_deposit(a) == 0 && r.spec_borrow(a) == 0,
    {
        UserData {
            name,
            key_image_url,
            minted_at: now,
            updated_at: now,
            deposits: Table::new(),
            borrows: Table::new(),
        }
    }

    pub fn get_deposit(&self, resource_address: u64) -> (r: Decimal)
        requires
            self.deposits.wf(),
        ensures
            r.raw == self.spec_deposit(resource_address),
    {
        match self.deposits.get(resource_address) {
            Some(v) => v,
            None => Decimal::zero(),
        }
    }

    pub fn get_borrow(&self, resource_address: u64) -> (r: Decimal)
        requires
            self.borrows.wf(),
        ensures
            r.raw == self.spec_borrow(resource_address),
    {
        match self.borrows.get(resource_address) {
            Some(v) => v,
            None => Decimal::zero(),
        }
    }

    /// Sets the recorded deposit-share balance for one asset.
    pub fn update_deposit(&mut self, res_address: u64, value: Decimal)
        requires
            old(self).wf(),
        ensures
            final(self).wf(),
            final(self).spec_deposit(res_address) == value.raw,
            final(self).deposits.contains_key(res_address),
            forall|a: u64|
                a != res_address ==> #[trigger] final(self).spec_deposit(a) == old(
                    self,
                ).spec_deposit(a),
            forall|a: u64|
                a != res_address ==> #[trigger] final(self).deposits.contains_key(a) == old(
                    self,
                ).deposits.contains_key(a),
            final(self).borrows == old(self).borrows,
            final(self).name == old(self).name,
            final(self).key_image_url == old(self).key_image_url,
            final(self).minted_at == old(self).minted_at,
            final(self).updated_at == old(self).updated_at,
    {
        self.deposits.insert(res_address, value);
    }

    /// Sets the recorded borrow-share balance for one asset.
    pub fn update_borrow(&mut self, res_address: u64, value: Decimal)
        requires
            old(self).wf(),
        ensures
            final(self).wf(),
            final(self).spec_borrow(res_address) == value.raw,
            final(self).borrows.contains_key(res_address),
            forall|a: u64|
                a != res_address ==> #[trigger] final(self).spec_borrow(a) == old(
                    self,
                ).spec_borrow(a),
            forall|a: u64|
                a != res_address ==> #[trigger] final(self).borrows.contains_key(a) == old(
                    self,
                ).borrows.contains_key(a),
            final(self).deposits == old(self).deposits,
            final(self).name == old(self).name,
            final(self).key_image_url == old(self).key_image_url,
            final(self).minted_at == old(self).minted_at,
            final(self).updated_at == old(self).updated_at,
    {
        self.borrows.insert(res_address, value);
    }

    /// Credits freshly minted deposit shares to the position.
    pub fn on_deposit(&mut self, resource_address: u64, sd_balance_increase: Decimal)
        requires
            old(self).wf(),
            old(self).spec_deposit(resource_address) + sd_balance_increase.raw <= u128::MAX,
        ensures
            final(self).wf(),
            final(self).spec_deposit(resource_address) == old(self).spec_deposit(resource_address)
                + sd_balance_increase.raw,
            forall|a: u64|
                a != resource_address ==> #[trigger] final(self).spec_deposit(a) == old(
                    self,
                ).spec_deposit(a),
            final(self).borrows == old(self).borrows,
            final(self).name == old(self).name,
            final(self).key_image_url == old(self).key_image_url,
            final(self).minted_at == old(self).minted_at,
            final(self).updated_at == old(self).updated_at,
    {
        let mut sd_balance = self.get_deposit(resource_address);
        sd_balance = sd_balance.add(&sd_balance_increase);
        self.update_deposit(resource_address, sd_balance);
    }

    /// Debits burned deposit shares; the burn may not exceed the balance.
    pub fn on_withdraw(&mut self, resource_address: u64, sd_balance_decrease: Decimal)
        requires
            old(self).wf(),
            sd_balance_decrease.raw <= old(self).spec_deposit(resource_address),
        ensures
            final(self).wf(),
            final(self).spec_deposit(resource_address) == old(self).spec_deposit(resource_address)
                - sd_balance_decrease.raw,
            forall|a: u64|
                a != resource_address ==> #[trigger] final(self).spec_deposit(a) == old(
                    self,
                ).spec_deposit(a),
            final(self).borrows == old(self).borrows,
            final(self).name == old(self).name,
            final(self).key_image_url == old(self).key_image_url,
            final(self).minted_at == old(self).minted_at,
            final(self).updated_at == old(self).updated_at,
    {
        let mut sd_balance = self.get_deposit(resource_address);
        sd_balance = sd_balance.sub(&sd_balance_decrease);
        self.update_deposit(resource_address, sd_balance);
    }

    /// Credits freshly minted borrow shares to the position.
    pub fn on_borrow(&mut self, resource_address: u64, sb_balance_increase: Decimal)
        requires
            old(self).wf(),
            old(self).spec_borrow(resource_address) + sb_balance_increase.raw <= u128::MAX,
        ensures
            final(self).wf(),
            final(self).spec_borrow(resource_address) == old(self).spec_borrow(resource_address)
                + sb_balance_increase.raw,
            forall|a: u64|
                a != resource_address ==> #[trigger] final(self).spec_borrow(a) == old(
                    self,
                ).spec_borrow(a),
            final(self).deposits == old(self).deposits,
            final(self).name == old(self).name,
            final(self).key_image_url == old(self).key_image_url,
            final(self).minted_at == old(self).minted_at,
            final(self).updated_at == old(self).updated_at,
    {
        let mut sb_balance = self.get_borrow(resource_address);
        sb_balance = sb_balance.add(&sb_balance_increase);
        self.update_borrow(resource_address, sb_balance);
    }

    /// Debits repaid borrow shares, clamping at zero.
    pub fn on_repay(&mut self, resource_address: u64, sb_balance_decrease: Decimal)
        requires
            old(self).wf(),
        ensures
            final(self).wf(),
            final(self).spec_borrow(resource_address) == (
                if sb_balance_decrease.raw <= old(self).spec_borrow(resource_address) {
                    old(self).spec_borrow(resource_address) - sb_balance_decrease.raw
                } else {
                    0
                }),
            forall|a: u64|
                a != resource_address ==> #[trigger] final(self).spec_borrow(a) == old(
                    self,
                ).spec_borrow(a),
            final(self).deposits == old(self).deposits,
            final(self).name == old(self).name,
            final(self).key_image_url == old(self).key_image_url,
            final(self).minted_at == old(self).minted_at,
            final(self).updated_at == old(self).updated_at,
    {
        let sb_balance = self.get_borrow(resource_address);
        let new_balance = if sb_balance_decrease.le(&sb_balance) {
            sb_balance.sub(&sb_balance_decrease)
        } else {
            Decimal::zero()
        };
        self.update_borrow(resource_address, new_balance);
    }
}

/// Price of one deposit share of the pool, by raw division.
pub open spec fn sd_price_of(p: PoolParameters) -> int {
    div_down(p.deposit_balance.raw as int, p.sd_balance.raw as int)
}

/// Price of one borrow share of the pool, by raw division.
pub open spec fn sb_price_of(p: PoolParameters) -> int {
    div_down(p.borrow_balance.raw as int, p.sb_balance.raw as int)
}

/// The position holds something of `asset`.
pub open spec fn holds_asset(user: UserData, asset: u64) -> bool {
    user.spec_deposit(asset) != 0 || user.spec_borrow(asset) != 0
}

/// The snapshot prices every registered asset the position holds.
pub open spec fn prices_cover(
    pairs: Seq<(u64, PoolParameters)>,
    user: UserData,
    prices: Table<Decimal>,
) -> bool {
    forall|i: int|
        0 <= i < pairs.len() && holds_asset(user, (#[trigger] pairs[i]).0) ==> prices.contains_key(
            pairs[i].0,
        )
}

/// LTV-weighted value, in the common unit, of the position's deposit in one
/// pool.
pub open spec fn collateral_term(
    user: UserData,
    asset: u64,
    p: PoolParameters,
    prices: Table<Decimal>,
) -> int {
    if user.spec_deposit(asset) != 0 {
        mul_down(
            mul_down(
                mul_down(user.spec_deposit(asset), sd_price_of(p)),
                prices.val(asset).raw as int,
            ),
            p.ltv_ratio.raw as int,
        )
    } else {
        0
    }
}

/// Face value, in the common unit, of the position's debt in one pool.
pub open spec fn loan_term(
    user: UserData,
    asset: u64,
    p: PoolParameters,
    prices: Table<Decimal>,
) -> int {
    if user.spec_borrow(asset) != 0 {
        mul_down(
            mul_down(user.spec_borrow(asset), sb_price_of(p)),
            prices.val(asset).raw as int,
        )
    } else {
        0
    }
}

/// LTV-weighted collateral of the position over a run of registry entries.
pub open spec fn collateral_sum(
    pairs: Seq<(u64, PoolParameters)>,
    user: UserData,
    prices: Table<Decimal>,
) -> int
    decreases pairs.len(),
{
    if pairs.len() == 0 {
        0
    } else {
        collateral_sum(pairs.drop_last(), user, prices) + collateral_term(
            user,
            pairs.last().0,
            pairs.last().1,
            prices,
        )
    }
}

/// Debt of the position over a run of registry entries.
pub open spec fn loan_sum(
    pairs: Seq<(u64, PoolParameters)>,
    user: UserData,
    prices: Table<Decimal>,
) -> int
    decreases pairs.len(),
{
    if pairs.len() == 0 {
        0
    } else {
        loan_sum(pairs.drop_last(), user, prices) + loan_term(
            user,
            pairs.last().0,
            pairs.last().1,
            prices,
        )
    }
}

/// Every pool whose shares the position holds has shares outstanding, so the
/// share prices are defined.
pub open spec fn valuation_guards(pairs: Seq<(u64, PoolParameters)>, user: UserData) -> bool {
    forall|i: int|
        0 <= i < pairs.len() ==> {
            let a = (#[trigger] pairs[i]).0;
            let p = pairs[i].1;
            &&& (user.spec_deposit(a) != 0 ==> p.sd_balance.raw != 0 && p.deposit_balance.raw
                * SCALE <= u128::MAX)
            &&& (user.spec_borrow(a) != 0 ==> p.sb_balance.raw != 0 && p.borrow_balance.raw * SCALE
                <= u128::MAX)
        }
}

/// Every product of the valuation stays within the machine word.
pub open spec fn valuation_fits(
    pairs: Seq<(u64, PoolParameters)>,
    user: UserData,
    prices: Table<Decimal>,
) -> bool {
    &&& valuation_guards(pairs, user)
    &&& forall|i: int|
        0 <= i < pairs.len() ==> {
            let a = (#[trigger] pairs[i]).0;
            let p = pairs[i].1;
            &&& (user.spec_deposit(a) != 0 && prices.contains_key(a) ==> {
                &&& user.spec_deposit(a) * sd_price_of(p) <= u128::MAX
                &&& mul_down(user.spec_deposit(a), sd_price_of(p)) * (prices.val(a).raw as int)
                    <= u128::MAX
                &&& mul_down(
                    mul_down(user.spec_deposit(a), sd_price_of(p)),
                    prices.val(a).raw as int,
                ) * (p.ltv_ratio.raw as int) <= u128::MAX
            })
            &&& (user.spec_borrow(a) != 0 && prices.contains_key(a) ==> {
                &&& user.spec_borrow(a) * sb_price_of(p) <= u128::MAX
                &&& mul_down(user.spec_borrow(a), sb_price_of(p)) * (prices.val(a).raw as int)
                    <= u128::MAX
            })
        }
    &&& collateral_sum(pairs, user, prices) <= u128::MAX
    &&& loan_sum(pairs, user, prices) <= u128::MAX
}

/// Both per-pool valuation terms are non-negative.
proof fn lemma_terms_nonneg(user: UserData, asset: u64, p: PoolParameters, prices: Table<Decimal>)
    requires
        user.spec_deposit(asset) != 0 ==> p.sd_balance.raw != 0,
        user.spec_borrow(asset) != 0 ==> p.sb_balance.raw != 0,
    ensures
        0 <= collateral_term(user, asset, p, prices),
        0 <= loan_term(user, asset, p, prices),
{
    if user.spec_deposit(asset) != 0 {
        lemma_mul_nonnegative(p.deposit_balance.raw as int, SCALE as int);
        lemma_div_pos_is_pos(
            p.deposit_balance.raw * (SCALE as int),
            p.sd_balance.raw as int,
        );
        lemma_mul_nonnegative(user.spec_deposit(asset), sd_price_of(p));
        lemma_div_pos_is_pos(user.spec_deposit(asset) * sd_price_of(p), SCALE as int);
        lemma_mul_nonnegative(
            mul_down(user.spec_deposit(asset), sd_price_of(p)),
            prices.val(asset).raw as int,
        );
        lemma_div_pos_is_pos(
            mul_down(user.spec_deposit(asset), sd_price_of(p)) * (prices.val(asset).raw as int),
            SCALE as int,
        );
        lemma_mul_nonnegative(
            mul_down(
                mul_down(user.spec_deposit(asset), sd_price_of(p)),
                prices.val(asset).raw as int,
            ),
            p.ltv_ratio.raw as int,
        );
        lemma_div_pos_is_pos(
            mul_down(
                mul_down(user.spec_deposit(asset), sd_price_of(p)),
                prices.val(asset).raw as int,
            ) * (p.ltv_ratio.raw as int),
            SCALE as int,
        );
    }
    if user.spec_borrow(asset) != 0 {
        lemma_mul_nonnegative(p.borrow_balance.raw as int, SCALE as int);
        lemma_div_pos_is_pos(
            p.borrow_balance.raw * (SCALE as int),
            p.sb_balance.raw as int,
        );
        lemma_mul_nonnegative(user.spec_borrow(asset), sb_price_of(p));
        lemma_div_pos_is_pos(user.spec_borrow(asset) * sb_price_of(p), SCALE as int);
        lemma_mul_nonnegative(
            mul_down(user.spec_borrow(asset), sb_price_of(p)),
            prices.val(asset).raw as int,
        );
        lemma_div_pos_is_pos(
            mul_down(user.spec_borrow(asset), sb_price_of(p)) * (prices.val(asset).raw as int),
            SCALE as int,
        );
    }
}

/// A prefix of the valuation never exceeds the whole, and both are
/// non-negative.
proof fn lemma_sum_prefix(
    pairs: Seq<(u64, PoolParameters)>,
    user: UserData,
    prices: Table<Decimal>,
    i: int,
)
    requires
        valuation_guards(pairs, user),
        0 <= i <= pairs.len(),
    ensures
        0 <= collateral_sum(pairs.take(i), user, prices) <= collateral_sum(pairs, user, prices),
        0 <= loan_sum(pairs.take(i), user, prices) <= loan_sum(pairs, user, prices),
    decreases pairs.len() - i,
{
    if i == 0 {
        assert(pairs.take(0).len() == 0);
    }
    assert forall|j: int| 0 <= j < pairs.take(i).len() implies {
        let a = (#[trigger] pairs.take(i)[j]).0;
        let p = pairs.take(i)[j].1;
        &&& (user.spec_deposit(a) != 0 ==> p.sd_balance.raw != 0 && p.deposit_balance.raw * SCALE
            <= u128::MAX)
        &&& (user.spec_borrow(a) != 0 ==> p.sb_balance.raw != 0 && p.borrow_balance.raw * SCALE
            <= u128::MAX)
    } by {
        assert(pairs.take(i)[j] == pairs[j]);
    }
    lemma_sum_nonneg(pairs.take(i), user, prices);
    if i < pairs.len() {
        lemma_sum_prefix(pairs, user, prices, i + 1);
        assert(pairs.take(i + 1).drop_last() =~= pairs.take(i));
        assert(pairs.take(i + 1).last() == pairs[i]);
        lemma_terms_nonneg(user, pairs[i].0, pairs[i].1, prices);
    } else {
        assert(pairs.take(i) =~= pairs);
    }
}

/// The whole valuation is non-negative.
proof fn lemma_sum_nonneg(pairs: Seq<(u64, PoolParameters)>, user: UserData, prices: Table<Decimal>)
    requires
        valuation_guards(pairs, user),
    ensures
        0 <= collateral_sum(pairs, user, prices),
        0 <= loan_sum(pairs, user, prices),
    decreases pairs.len(),
{
    if pairs.len() > 0 {
        assert(pairs.drop_last() =~= pairs.take(pairs.len() - 1));
        lemma_sum_nonneg(pairs.drop_last(), user, prices);
        lemma_terms_nonneg(user, pairs.last().0, pairs.last().1, prices);
    }
}

impl UserData {
    /// Values the position across every registered pool against one price
    /// snapshot: the LTV-weighted worth of its deposits and the face value
    /// of its debts, both in the common unit.  An asset the position holds
    /// that the snapshot does not price is an error, never skipped.
    pub fn calculate_total_collateral_and_loan(
        &self,
        pool_parameters: &Table<PoolParameters>,
        prices: &Table<Decimal>,
    ) -> (r: Result<(Decimal, Decimal), LendingError>)
        requires
            self.wf(),
            prices.wf(),
            valuation_fits(pool_parameters.pairs@, *self, *prices),
        ensures
            match r {
                Ok(cl) => {
                    &&& prices_cover(pool_parameters.pairs@, *self, *prices)
                    &&& cl.0.raw == collateral_sum(pool_parameters.pairs@, *self, *prices)
                    &&& cl.1.raw == loan_sum(pool_parameters.pairs@, *self, *prices)
                },
                Err(e) => e == LendingError::PriceNotFound && !prices_cover(
                    pool_parameters.pairs@,
                    *self,
                    *prices,
                ),
            },
    {
        let ghost pairs = pool_parameters.pairs@;
        let mut user_collateral_sum = Decimal::zero();
        let mut user_loan_sum = Decimal::zero();
        let n = pool_parameters.pairs.len();
        let mut i: usize = 0;
        while i < n
            invariant
                self.wf(),
                prices.wf(),
                valuation_fits(pairs, *self, *prices),
                pairs == pool_parameters.pairs@,
                n == pairs.len(),
                i <= n,
                user_collateral_sum.raw == collateral_sum(pairs.take(i as int), *self, *prices),
                user_loan_sum.raw == loan_sum(pairs.take(i as int), *self, *prices),
                forall|j: int|
                    0 <= j < i && holds_asset(*self, (#[trigger] pairs[j]).0) ==> prices
                        .contains_key(pairs[j].0),
            decreases n - i,
        {
            let entry = pool_parameters.pairs[i];
            let asset = entry.0;
            let parameters = entry.1;
            let sd_balance = self.get_deposit(asset);
            let sb_balance = self.get_borrow(asset);
            proof {
                lemma_sum_prefix(pairs, *self, *prices, i as int + 1);
                assert(pairs.take(i as int + 1).drop_last() =~= pairs.take(i as int));
                assert(pairs.take(i as int + 1).last() == pairs[i as int]);
            }
            if !sd_balance.is_zero() || !sb_balance.is_zero() {
                let cost: Decimal;
                match prices.get(asset) {
                    Some(c) => {
                        cost = c;
                    },
                    None => {
                        proof {
                            assert(holds_asset(*self, pairs[i as int].0));
                        }
                        return Err(LendingError::PriceNotFound);
                    },
                }
                if !sd_balance.is_zero() {
                    let sd_price = parameters.deposit_balance.div(&parameters.sd_balance);
                    let asset_value_in_xrd = sd_balance.mul(&sd_price).mul(&cost).mul(
                        &parameters.ltv_ratio,
                    );
                    user_collateral_sum = user_collateral_sum.add(&asset_value_in_xrd);
                }
                if !sb_balance.is_zero() {
                    let sb_price = parameters.borrow_balance.div(&parameters.sb_balance);
                    let asset_loan = sb_balance.mul(&sb_price).mul(&cost);
                    user_loan_sum = user_loan_sum.add(&asset_loan);
                }
            }
            i = i + 1;
        }
        proof {
            assert(pairs.take(n as int) =~= pairs);
        }
        Ok((user_collateral_sum, user_loan_sum))
    }

    /// Ratio of the position's debt to its LTV-weighted collateral, the
    /// liquidation trigger signal; zero while the position owes nothing.
    pub fn get_loan_limit_used(
        &self,
        pool_parameters: &Table<PoolParameters>,
        prices: &Table<Decimal>,
    ) -> (r: Result<Decimal, LendingError>)
        requires
            self.wf(),
            prices.wf(),
            valuation_fits(pool_parameters.pairs@, *self, *prices),
            prices_cover(pool_parameters.pairs@, *self, *prices) && loan_sum(
                pool_parameters.pairs@,
                *self,
                *prices,
            ) != 0 ==> collateral_sum(pool_parameters.pairs@, *self, *prices) > 0 && loan_sum(
                pool_parameters.pairs@,
                *self,
                *prices,
            ) * SCALE <= u128::MAX,
        ensures
            match r {
                Ok(v) => {
                    &&& prices_cover(pool_parameters.pairs@, *self, *prices)
                    &&& v.raw == (if loan_sum(pool_parameters.pairs@, *self, *prices) == 0 {
                        0int
                    } else {
                        div_down(
                            loan_sum(pool_parameters.pairs@, *self, *prices),
                            collateral_sum(pool_parameters.pairs@, *self, *prices),
                        )
                    })
                },
                Err(e) => e == LendingError::PriceNotFound && !prices_cover(
                    pool_parameters.pairs@,
                    *self,
                    *prices,
                ),
            },
    {
        match self.calculate_total_collateral_and_loan(pool_parameters, prices) {
            Err(e) => Err(e),
            Ok(collateral_and_loan) => {
                let deposit = collateral_and_loan.0;
                let loan = collateral_and_loan.1;
                if loan.is_zero() {
                    Ok(Decimal::zero())
                } else {
                    Ok(loan.div(&deposit))
                }
            },
        }
    }
}

/// Every non-zero balance entry has a price in the snapshot.
pub open spec fn balances_priced(pairs: Seq<(u64, Decimal)>, prices: Table<Decimal>) -> bool {
    forall|i: int|
        0 <= i < pairs.len() && (#[trigger] pairs[i]).1.raw != 0 ==> prices.contains_key(
            pairs[i].0,
        )
}

/// Value in the common unit of one recorded deposit-share balance.
pub open spec fn deposit_value_term(
    a: u64,
    v: Decimal,
    registry: Table<PoolParameters>,
    prices: Table<Decimal>,
) -> int {
    if v.raw != 0 {
        mul_down(
            mul_down(v.raw as int, sd_price_of(registry.val(a))),
            prices.val(a).raw as int,
        )
    } else {
        0
    }
}

/// Value in the common unit of one recorded borrow-share balance.
pub open spec fn borrow_value_term(
    a: u64,
    v: Decimal,
    registry: Table<PoolParameters>,
    prices: Table<Decimal>,
) -> int {
    if v.raw != 0 {
        mul_down(
            mul_down(v.raw as int, sb_price_of(registry.val(a))),
            prices.val(a).raw as int,
        )
    } else {
        0
    }
}

/// Value of a run of deposit-share entries in the common unit.
pub open spec fn deposit_value_sum(
    pairs: Seq<(u64, Decimal)>,
    registry: Table<PoolParameters>,
    prices: Table<Decimal>,
) -> int
    decreases pairs.len(),
{
    if pairs.len() == 0 {
        0
    } else {
        deposit_value_sum(pairs.drop_last(), registry, prices) + deposit_value_term(
            pairs.last().0,
            pairs.last().1,
            registry,
            prices,
        )
    }
}

/// Value of a run of borrow-share entries in the common unit.
pub open spec fn borrow_value_sum(
    pairs: Seq<(u64, Decimal)>,
    registry: Table<PoolParameters>,
    prices: Table<Decimal>,
) -> int
    decreases pairs.len(),
{
    if pairs.len() == 0 {
        0
    } else {
        borrow_value_sum(pairs.drop_last(), registry, prices) + borrow_value_term(
            pairs.last().0,
            pairs.last().1,
            registry,
            prices,
        )
    }
}

/// Every asset with a non-zero deposit-share entry is registered with
/// deposit shares outstanding.
pub open spec fn deposit_balance_guards(
    pairs: Seq<(u64, Decimal)>,
    registry: Table<PoolParameters>,
) -> bool {
    forall|i: int|
        0 <= i < pairs.len() && (#[trigger] pairs[i]).1.raw != 0 ==> {
            &&& registry.contains_key(pairs[i].0)
            &&& registry.val(pairs[i].0).sd_balance.raw != 0
            &&& registry.val(pairs[i].0).deposit_balance.raw * SCALE <= u128::MAX
        }
}

/// Every asset with a non-zero borrow-share entry is registered with borrow
/// shares outstanding.
pub open spec fn borrow_balance_guards(
    pairs: Seq<(u64, Decimal)>,
    registry: Table<PoolParameters>,
) -> bool {
    forall|i: int|
        0 <= i < pairs.len() && (#[trigger] pairs[i]).1.raw != 0 ==> {
            &&& registry.contains_key(pairs[i].0)
            &&& registry.val(pairs[i].0).sb_balance.raw != 0
            &&& registry.val(pairs[i].0).borrow_balance.raw * SCALE <= u128::MAX
        }
}

/// Every product of the position-value computation stays within the machine
/// word.
pub open spec fn xrd_balance_fits(
    user: UserData,
    registry: Table<PoolParameters>,
    prices: Table<Decimal>,
) -> bool {
    &&& deposit_balance_guards(user.deposits.pairs@, registry)
    &&& borrow_balance_guards(user.borrows.pairs@, registry)
    &&& forall|i: int|
        0 <= i < user.deposits.pairs@.len() && (#[trigger] user.deposits.pairs@[i]).1.raw != 0
            && prices.contains_key(user.deposits.pairs@[i].0) ==> {
            let a = user.deposits.pairs@[i].0;
            let v = user.deposits.pairs@[i].1;
            &&& v.raw * sd_price_of(registry.val(a)) <= u128::MAX
            &&& mul_down(v.raw as int, sd_price_of(registry.val(a))) * (prices.val(a).raw as int)
                <= u128::MAX
        }
    &&& forall|i: int|
        0 <= i < user.borrows.pairs@.len() && (#[trigger] user.borrows.pairs@[i]).1.raw != 0
            && prices.contains_key(user.borrows.pairs@[i].0) ==> {
            let a = user.borrows.pairs@[i].0;
            let v = user.borrows.pairs@[i].1;
            &&& v.raw * sb_price_of(registry.val(a)) <= u128::MAX
            &&& mul_down(v.raw as int, sb_price_of(registry.val(a))) * (prices.val(a).raw as int)
                <= u128::MAX
        }
    &&& deposit_value_sum(user.deposits.pairs@, registry, prices) <= u128::MAX
    &&& borrow_value_sum(user.borrows.pairs@, registry, prices) <= u128::MAX
}

/// A deposit-share entry's value is non-negative.
proof fn lemma_deposit_term_nonneg(
    a: u64,
    v: Decimal,
    registry: Table<PoolParameters>,
    prices: Table<Decimal>,
)
    requires
        v.raw != 0 ==> registry.val(a).sd_balance.raw != 0,
    ensures
        0 <= deposit_value_term(a, v, registry, prices),
{
    if v.raw != 0 {
        let p = registry.val(a);
        lemma_mul_nonnegative(p.deposit_balance.raw as int, SCALE as int);
        lemma_div_pos_is_pos(p.deposit_balance.raw * (SCALE as int), p.sd_balance.raw as int);
        lemma_mul_nonnegative(v.raw as int, sd_price_of(p));
        lemma_div_pos_is_pos(v.raw * sd_price_of(p), SCALE as int);
        lemma_mul_nonnegative(mul_down(v.raw as int, sd_price_of(p)), prices.val(a).raw as int);
        lemma_div_pos_is_pos(
            mul_down(v.raw as int, sd_price_of(p)) * (prices.val(a).raw as int),
            SCALE as int,
        );
    }
}

/// A borrow-share entry's value is non-negative.
proof fn lemma_borrow_term_nonneg(
    a: u64,
    v: Decimal,
    registry: Table<PoolParameters>,
    prices: Table<Decimal>,
)
    requires
        v.raw != 0 ==> registry.val(a).sb_balance.raw != 0,
    ensures
        0 <= borrow_value_term(a, v, registry, prices),
{
    if v.raw != 0 {
        let p = registry.val(a);
        lemma_mul_nonnegative(p.borrow_balance.raw as int, SCALE as int);
        lemma_div_pos_is_pos(p.borrow_balance.raw * (SCALE as int), p.sb_balance.raw as int);
        lemma_mul_nonnegative(v.raw as int, sb_price_of(p));
        lemma_div_pos_is_pos(v.raw * sb_price_of(p), SCALE as int);
        lemma_mul_nonnegative(mul_down(v.raw as int, sb_price_of(p)), prices.val(a).raw as int);
        lemma_div_pos_is_pos(
            mul_down(v.raw as int, sb_price_of(p)) * (prices.val(a).raw as int),
            SCALE as int,
        );
    }
}

/// The value of a run of deposit-share entries is non-negative.
proof fn lemma_deposit_value_nonneg(
    pairs: Seq<(u64, Decimal)>,
    registry: Table<PoolParameters>,
    prices: Table<Decimal>,
)
    requires
        forall|i: int|
            0 <= i < pairs.len() && (#[trigger] pairs[i]).1.raw != 0 ==> registry.val(
                pairs[i].0,
            ).sd_balance.raw != 0,
    ensures
        0 <= deposit_value_sum(pairs, registry, prices),
    decreases pairs.len(),
{
    if pairs.len() > 0 {
        assert(pairs.drop_last() =~= pairs.take(pairs.len() - 1));
        lemma_deposit_value_nonneg(pairs.drop_last(), registry, prices);
        lemma_deposit_term_nonneg(pairs.last().0, pairs.last().1, registry, prices);
    }
}

/// The value of a run of borrow-share entries is non-negative.
proof fn lemma_borrow_value_nonneg(
    pairs: Seq<(u64, Decimal)>,
    registry: Table<PoolParameters>,
    prices: Table<Decimal>,
)
    requires
        forall|i: int|
            0 <= i < pairs.len() && (#[trigger] pairs[i]).1.raw != 0 ==> registry.val(
                pairs[i].0,
            ).sb_balance.raw != 0,
    ensures
        0 <= borrow_value_sum(pairs, registry, prices),
    decreases pairs.len(),
{
    if pairs.len() > 0 {
        assert(pairs.drop_last() =~= pairs.take(pairs.len() - 1));
        lemma_borrow_value_nonneg(pairs.drop_last(), registry, prices);
        lemma_borrow_term_nonneg(pairs.last().0, pairs.last().1, registry, prices);
    }
}

/// A prefix of the deposit-side valuation never exceeds the whole.
proof fn lemma_deposit_value_prefix(
    pairs: Seq<(u64, Decimal)>,
    registry: Table<PoolParameters>,
    prices: Table<Decimal>,
    i: int,
)
    requires
        forall|j: int|
            0 <= j < pairs.len() && (#[trigger] pairs[j]).1.raw != 0 ==> registry.val(
                pairs[j].0,
            ).sd_balance.raw != 0,
        0 <= i <= pairs.len(),
    ensures
        0 <= deposit_value_sum(pairs.take(i), registry, prices) <= deposit_value_sum(
            pairs,
            registry,
            prices,
        ),
    decreases pairs.len() - i,
{
    assert forall|j: int|
        0 <= j < pairs.take(i).len() && (#[trigger] pairs.take(i)[j]).1.raw != 0 implies registry
        .val(pairs.take(i)[j].0).sd_balance.raw != 0 by {
        assert(pairs.take(i)[j] == pairs[j]);
    }
    lemma_deposit_value_nonneg(pairs.take(i), registry, prices);
    if i < pairs.len() {
        lemma_deposit_value_prefix(pairs, registry, prices, i + 1);
        assert(pairs.take(i + 1).drop_last() =~= pairs.take(i));
        assert(pairs.take(i + 1).last() == pairs[i]);
        lemma_deposit_term_nonneg(pairs[i].0, pairs[i].1, registry, prices);
    } else {
        assert(pairs.take(i) =~= pairs);
    }
}

/// A prefix of the borrow-side valuation never exceeds the whole.
proof fn lemma_borrow_value_prefix(
    pairs: Seq<(u64, Decimal)>,
    registry: Table<PoolParameters>,
    prices: Table<Decimal>,
    i: int,
)
    requires
        forall|j: int|
            0 <= j < pairs.len() && (#[trigger] pairs[j]).1.raw != 0 ==> registry.val(
                pairs[j].0,
            ).sb_balance.raw != 0,
        0 <= i <= pairs.len(),
    ensures
        0 <= borrow_value_sum(pairs.take(i), registry, prices) <= borrow_value_sum(
            pairs,
            registry,
            prices,
        ),
    decreases pairs.len() - i,
{
    assert forall|j: int|
        0 <= j < pairs.take(i).len() && (#[trigger] pairs.take(i)[j]).1.raw != 0 implies registry
        .val(pairs.take(i)[j].0).sb_balance.raw != 0 by {
        assert(pairs.take(i)[j] == pairs[j]);
    }
    lemma_borrow_value_nonneg(pairs.take(i), registry, prices);
    if i < pairs.len() {
        lemma_borrow_value_prefix(pairs, registry, prices, i + 1);
        assert(pairs.take(i + 1).drop_last() =~= pairs.take(i));
        assert(pairs.take(i + 1).last() == pairs[i]);
        lemma_borrow_term_nonneg(pairs[i].0, pairs[i].1, registry, prices);
    } else {
        assert(pairs.take(i) =~= pairs);
    }
}

impl UserData {
    /// Total worth of the position's deposits and debts in the common unit,
    /// without the LTV weighting, against one price snapshot.
    pub fn get_deposit_and_borrow_balance_in_xrd(
        &self,
        pool_parameters: &Table<PoolParameters>,
        prices: &Table<Decimal>,
    ) -> (r: Result<(Decimal, Decimal), LendingError>)
        requires
            self.wf(),
            pool_parameters.wf(),
            prices.wf(),
            xrd_balance_fits(*self, *pool_parameters, *prices),
        ensures
            match r {
                Ok(db) => {
                    &&& balances_priced(self.deposits.pairs@, *prices)
                    &&& balances_priced(self.borrows.pairs@, *prices)
                    &&& db.0.raw == deposit_value_sum(
                        self.deposits.pairs@,
                        *pool_parameters,
                        *prices,
                    )
                    &&& db.1.raw == borrow_value_sum(
                        self.borrows.pairs@,
                        *pool_parameters,
                        *prices,
                    )
                },
                Err(e) => e == LendingError::PriceNotFound && !(balances_priced(
                    self.deposits.pairs@,
                    *prices,
                ) && balances_priced(self.borrows.pairs@, *prices)),
            },
    {
        let ghost dpairs = self.deposits.pairs@;
        let ghost bpairs = self.borrows.pairs@;
        let mut deposit = Decimal::zero();
        let mut borrow = Decimal::zero();
        let nd = self.deposits.pairs.len();
        let mut i: usize = 0;
        while i < nd
            invariant
                self.wf(),
                pool_parameters.wf(),
                prices.wf(),
                xrd_balance_fits(*self, *pool_parameters, *prices),
                dpairs == self.deposits.pairs@,
                nd == dpairs.len(),
                i <= nd,
                deposit.raw == deposit_value_sum(dpairs.take(i as int), *pool_parameters, *prices),
                forall|j: int|
                    0 <= j < i && (#[trigger] dpairs[j]).1.raw != 0 ==> prices.contains_key(
                        dpairs[j].0,
                    ),
            decreases nd - i,
        {
            let entry = self.deposits.pairs[i];
            let key = entry.0;
            let value = entry.1;
            proof {
                lemma_deposit_value_prefix(dpairs, *pool_parameters, *prices, i as int + 1);
                assert(dpairs.take(i as int + 1).drop_last() =~= dpairs.take(i as int));
                assert(dpairs.take(i as int + 1).last() == dpairs[i as int]);
            }
            if !value.is_zero() {
                let cost: Decimal;
                match prices.get(key) {
                    Some(c) => {
                        cost = c;
                    },
                    None => {
                        return Err(LendingError::PriceNotFound);
                    },
                }
                let parameters: crate::pool_parameters::PoolParameters;
                match pool_parameters.get(key) {
                    Some(p) => {
                        parameters = p;
                    },
                    None => {
                        proof {
                            assert(false);
                        }
                        return Err(LendingError::PoolNotFound);
                    },
                }
                let sd_price = parameters.deposit_balance.div(&parameters.sd_balance);
                let balance = value.mul(&sd_price);
                deposit = deposit.add(&balance.mul(&cost));
            }
            i = i + 1;
        }
        proof {
            assert(dpairs.take(nd as int) =~= dpairs);
        }
        let nb = self.borrows.pairs.len();
        let mut j: usize = 0;
        while j < nb
            invariant
                self.wf(),
                pool_parameters.wf(),
                prices.wf(),
                xrd_balance_fits(*self, *pool_parameters, *prices),
                bpairs == self.borrows.pairs@,
                nb == bpairs.len(),
                j <= nb,
                deposit.raw == deposit_value_sum(
                    self.deposits.pairs@,
                    *pool_parameters,
                    *prices,
                ),
                balances_priced(self.deposits.pairs@, *prices),
                borrow.raw == borrow_value_sum(bpairs.take(j as int), *pool_parameters, *prices),
                forall|k2: int|
                    0 <= k2 < j && (#[trigger] bpairs[k2]).1.raw != 0 ==> prices.contains_key(
                        bpairs[k2].0,
                    ),
            decreases nb - j,
        {
            let entry = self.borrows.pairs[j];
            let key = entry.0;
            let value = entry.1;
            proof {
                lemma_borrow_value_prefix(bpairs, *pool_parameters, *prices, j as int + 1);
                assert(bpairs.take(j as int + 1).drop_last() =~= bpairs.take(j as int));
                assert(bpairs.take(j as int + 1).last() == bpairs[j as int]);
            }
            if !value.is_zero() {
                let cost: Decimal;
                match prices.get(key) {
                    Some(c) => {
                        cost = c;
                    },
                    None => {
                        return Err(LendingError::PriceNotFound);
                    },
                }
                let parameters: crate::pool_parameters::PoolParameters;
                match pool_parameters.get(key) {
                    Some(p) => {
                        parameters = p;
                    },
                    None => {
                        proof {
                            assert(false);
                        }
                        return Err(LendingError::PoolNotFound);
                    },
                }
                let sb_price = parameters.borrow_balance.div(&parameters.sb_balance);
                let balance = value.mul(&sb_price);
                borrow = borrow.add(&balance.mul(&cost));
            }
            j = j + 1;
        }
        proof {
            assert(bpairs.take(nb as int) =~= bpairs);
        }
        Ok((deposit, borrow))
    }
}

/// Liquidation percent actually applied: forced to 100% when the position
/// is insolvent (debt plus bonus exceeds its whole deposit value).
pub open spec fn liq_effective_max_percent(
    borrow_amount: int,
    deposit_amount: int,
    max_liquidation_percent: int,
    bonus: int,
) -> int {
    if mul_down(borrow_amount, SCALE + bonus) > deposit_amount {
        SCALE as int
    } else {
        max_liquidation_percent
    }
}

/// Reward multiplier `1 + bonus * (1 - reserve_factor)`.
pub open spec fn liq_reward_multiplier(bonus: int, rf: int) -> int {
    SCALE + mul_down(bonus, SCALE - rf)
}

/// Denominator `bonus * rf + 1 + bonus * (1 - rf)` of the seizure bound.
pub open spec fn liq_denominator(bonus: int, rf: int) -> int {
    mul_down(bonus, rf) + liq_reward_multiplier(bonus, rf)
}

/// Platform's cut `amount * bonus * rf` of a liquidation, in the common
/// unit.
pub open spec fn liq_platform_bonus(amount_x: int, bonus: int, rf: int) -> int {
    mul_down(mul_down(amount_x, bonus), rf)
}

/// Liquidator's payout `amount * (1 + bonus * (1 - rf))`, in the common
/// unit.
pub open spec fn liq_reward(amount_x: int, bonus: int, rf: int) -> int {
    mul_down(amount_x, liq_reward_multiplier(bonus, rf))
}

/// Debt of the position in the repaid asset, in the common unit.
pub open spec fn liq_borrow_in_xrd(sb: int, sb_price: int, cost: int) -> int {
    mul_down(mul_down(sb, sb_price), cost)
}

/// Borrow-share balance left after repaying `amount` (in the common unit)
/// of that debt.
pub open spec fn liq_new_borrow_shares(sb: int, sb_price: int, cost: int, amount: int) -> int {
    div_down(div_down(liq_borrow_in_xrd(sb, sb_price, cost) - amount, cost), sb_price)
}

/// The liquidation repayment stays within the machine word.
pub open spec fn liq_repay_fits(sb: int, sb_price: int, cost: int, amount: int) -> bool {
    &&& cost > 0
    &&& sb_price > 0
    &&& 0 <= amount
    &&& sb * sb_price <= u128::MAX
    &&& mul_down(sb, sb_price) * cost <= u128::MAX
    &&& (amount <= liq_borrow_in_xrd(sb, sb_price, cost) ==> div_down(
        liq_borrow_in_xrd(sb, sb_price, cost) - amount,
        cost,
    ) * SCALE <= u128::MAX)
}

/// The whole liquidation settlement stays within the machine word, and the
/// bonus fractions are exact at the scale.
pub open spec fn liq_fits(
    amount: int,
    borrow_amount: int,
    deposit_amount: int,
    max_liquidation_percent: int,
    bonus: int,
    rf: int,
    ldb: int,
    al: int,
    sbp: int,
    sdp: int,
    cost_d: int,
    cost_r: int,
    sb: int,
) -> bool {
    let amount_x = mul_down(amount, cost_r);
    let t = mul_down(cost_d, sdp);
    let ldb_x = mul_down(ldb, t);
    let al_x = mul_down(al, cost_d);
    &&& cost_d > 0
    &&& cost_r > 0
    &&& sdp > 0
    &&& sbp > 0
    &&& 0 <= rf <= SCALE
    &&& SCALE + bonus <= u128::MAX
    &&& (bonus * rf) % (SCALE as int) == 0
    &&& (bonus * (SCALE - rf)) % (SCALE as int) == 0
    &&& bonus * rf <= u128::MAX
    &&& bonus * (SCALE - rf) <= u128::MAX
    &&& SCALE + mul_down(bonus, SCALE - rf) <= u128::MAX
    &&& liq_denominator(bonus, rf) <= u128::MAX
    &&& borrow_amount * (SCALE + bonus) <= u128::MAX
    &&& SCALE * borrow_amount <= u128::MAX
    &&& max_liquidation_percent * borrow_amount <= u128::MAX
    &&& amount * cost_r <= u128::MAX
    &&& al * cost_d <= u128::MAX
    &&& amount_x * (SCALE + bonus) <= u128::MAX
    &&& al_x * SCALE <= u128::MAX
    &&& cost_d * sdp <= u128::MAX
    &&& ldb * t <= u128::MAX
    &&& ldb_x * SCALE <= u128::MAX
    &&& liq_repay_fits(sb, sbp, cost_r, amount_x)
    &&& amount_x * bonus <= u128::MAX
    &&& mul_down(amount_x, bonus) * rf <= u128::MAX
    &&& amount_x * liq_reward_multiplier(bonus, rf) <= u128::MAX
    &&& liq_reward(amount_x, bonus, rf) * SCALE <= u128::MAX
    &&& liq_platform_bonus(amount_x, bonus, rf) * SCALE <= u128::MAX
    &&& div_down(ldb_x, cost_d) * SCALE <= u128::MAX
    &&& amount_x * SCALE <= u128::MAX
}

/// The seizure bound is the algebraic guarantee of the settlement: while
/// the bonus fractions are exact at the scale, a repayment within the bound
/// pays out, as reward plus platform bonus, at most the seized deposit's
/// value.
pub proof fn lemma_liquidation_payout_bounded(amount_x: int, bonus: int, rf: int, ldb_x: int)
    requires
        0 <= amount_x,
        0 <= bonus,
        0 <= rf <= SCALE,
        0 <= ldb_x,
        (bonus * rf) % (SCALE as int) == 0,
        (bonus * (SCALE - rf)) % (SCALE as int) == 0,
        amount_x <= div_down(ldb_x, liq_denominator(bonus, rf)),
    ensures
        0 <= liq_platform_bonus(amount_x, bonus, rf),
        0 <= liq_reward(amount_x, bonus, rf),
        liq_reward(amount_x, bonus, rf) + liq_platform_bonus(amount_x, bonus, rf) <= ldb_x,
{
    let s = SCALE as int;
    let x1 = mul_down(bonus, rf);
    let x2 = liq_reward_multiplier(bonus, rf);
    let denom = liq_denominator(bonus, rf);
    assert(x1 * s == bonus * rf) by {
        lemma_div_mul_le(bonus * rf, s);
        vstd::arithmetic::div_mod::lemma_fundamental_div_mod(bonus * rf, s);
        vstd::arithmetic::mul::lemma_mul_is_commutative(s, (bonus * rf) / s);
    }
    assert(0 <= x1) by (nonlinear_arith)
        requires x1 * s == bonus * rf, 0 <= bonus, 0 <= rf, s > 0,
    ;
    assert(0 <= mul_down(bonus, s - rf)) by {
        vstd::arithmetic::mul::lemma_mul_nonnegative(bonus, s - rf);
        vstd::arithmetic::div_mod::lemma_div_pos_is_pos(bonus * (s - rf), s);
    }
    assert(x2 >= s);
    assert(denom >= s);
    // the bound gives amount_x * denom <= ldb_x * s
    lemma_div_mul_le(ldb_x * s, denom);
    lemma_mul_inequality(amount_x, (ldb_x * s) / denom, denom);
    assert(amount_x * denom <= ldb_x * s);
    // the platform's doubly floored cut is at most the singly floored one
    let m = mul_down(amount_x, bonus);
    lemma_div_mul_le(amount_x * bonus, s);
    assert(m * s <= amount_x * bonus);
    assert((m * rf) * s <= (amount_x * x1) * s) by (nonlinear_arith)
        requires m * s <= amount_x * bonus, x1 * s == bonus * rf, 0 <= rf, s > 0,
    ;
    if s > 0 {
        lemma_mul_inequality_converse(m * rf, amount_x * x1, s);
    }
    lemma_div_is_ordered(m * rf, amount_x * x1, s);
    assert(liq_platform_bonus(amount_x, bonus, rf) <= mul_down(amount_x, x1));
    // split the floored sum
    lemma_div_plus_le(amount_x * x1, amount_x * x2, s);
    assert(amount_x * x1 + amount_x * x2 == amount_x * denom) by (nonlinear_arith)
        requires denom == x1 + x2,
    ;
    lemma_div_is_ordered(amount_x * denom, ldb_x * s, s);
    lemma_div_multiples_vanish(ldb_x, s);
    assert((ldb_x * s) / s == ldb_x) by {
        vstd::arithmetic::mul::lemma_mul_is_commutative(ldb_x, s);
    }
    assert(0 <= liq_platform_bonus(amount_x, bonus, rf)) by {
        vstd::arithmetic::mul::lemma_mul_nonnegative(amount_x, bonus);
        vstd::arithmetic::div_mod::lemma_div_pos_is_pos(amount_x * bonus, s);
        vstd::arithmetic::mul::lemma_mul_nonnegative(m, rf);
        vstd::arithmetic::div_mod::lemma_div_pos_is_pos(m * rf, s);
    }
    assert(0 <= liq_reward(amount_x, bonus, rf)) by {
        vstd::arithmetic::mul::lemma_mul_nonnegative(amount_x, x2);
        vstd::arithmetic::div_mod::lemma_div_pos_is_pos(amount_x * x2, s);
    }
}

impl UserData {
    /// Applies a repayment, already converted to the common unit, against
    /// the position's debt in the repaid asset.  Interest captured by the
    /// settlement is returned; the engine tracks none at present, so it is
    /// zero.
    pub fn on_liquidate_repay(
        &mut self,
        amount: Decimal,
        resource_address: u64,
        cost_of_asset_in_terms_of_xrd: Decimal,
        sb_price: Decimal,
    ) -> (r: Result<Decimal, LendingError>)
        requires
            old(self).wf(),
            liq_repay_fits(
                old(self).spec_borrow(resource_address),
                sb_price.raw as int,
                cost_of_asset_in_terms_of_xrd.raw as int,
                amount.raw as int,
            ),
        ensures
            final(self).wf(),
            ({
                let sb = old(self).spec_borrow(resource_address);
                let p = sb_price.raw as int;
                let c = cost_of_asset_in_terms_of_xrd.raw as int;
                let bx = liq_borrow_in_xrd(sb, p, c);
                match r {
                    Err(e) => {
                        &&& *final(self) == *old(self)
                        &&& bx < amount.raw
                        &&& e == LendingError::RepayExceedsDebt((Decimal { raw: bx as u128 }))
                    },
                    Ok(interest) => {
                        &&& amount.raw <= bx
                        &&& interest.raw == 0
                        &&& final(self).spec_borrow(resource_address) == liq_new_borrow_shares(
                            sb,
                            p,
                            c,
                            amount.raw as int,
                        )
                        &&& liq_new_borrow_shares(sb, p, c, amount.raw as int) <= sb
                        &&& forall|a: u64|
                            a != resource_address ==> #[trigger] final(self).spec_borrow(a) == old(
                                self,
                            ).spec_borrow(a)
                        &&& final(self).deposits == old(self).deposits
                        &&& final(self).name == old(self).name
                        &&& final(self).key_image_url == old(self).key_image_url
                        &&& final(self).minted_at == old(self).minted_at
                        &&& final(self).updated_at == old(self).updated_at
                    },
                }
            }),
    {
        let ghost sb_g = old(self).spec_borrow(resource_address) as int;
        let ghost p = sb_price.raw as int;
        let ghost c = cost_of_asset_in_terms_of_xrd.raw as int;
        let sb_balance = self.get_borrow(resource_address);
        let mut borrow_balance = sb_balance.mul(&sb_price);
        let interest = Decimal::zero();
        let ghost b1 = borrow_balance.raw as int;
        borrow_balance = borrow_balance.mul(&cost_of_asset_in_terms_of_xrd);
        let ghost b2 = borrow_balance.raw as int;
        if borrow_balance.lt(&amount) {
            Err(LendingError::RepayExceedsDebt(borrow_balance))
        } else {
            proof {
                lemma_div_mul_le(b1 * c, SCALE as int);
                lemma_mul_inequality(b2 - amount.raw, b2, SCALE as int);
            }
            let mut remaining = borrow_balance.sub(&amount);
            let ghost b3 = remaining.raw as int;
            remaining = remaining.div(&cost_of_asset_in_terms_of_xrd);
            let ghost b4 = remaining.raw as int;
            let new_shares = remaining.div(&sb_price);
            proof {
                // the rewritten share balance never exceeds the old one
                lemma_div_mul_le(sb_g * p, SCALE as int);
                assert(b1 * SCALE <= sb_g * p);
                assert(b3 * SCALE <= b1 * c);
                lemma_div_is_ordered(b3 * SCALE, b1 * c, c);
                lemma_div_multiples_vanish(b1, c);
                assert((b1 * c) / c == b1) by {
                    vstd::arithmetic::mul::lemma_mul_is_commutative(b1, c);
                }
                assert(b4 <= b1);
                lemma_mul_inequality(b4, b1, SCALE as int);
                lemma_div_is_ordered(b4 * SCALE, sb_g * p, p);
                lemma_div_multiples_vanish(sb_g, p);
                assert((sb_g * p) / p == sb_g) by {
                    vstd::arithmetic::mul::lemma_mul_is_commutative(sb_g, p);
                }
                assert(new_shares.raw <= sb_g);
            }
            self.update_borrow(resource_address, new_shares);
            Ok(interest)
        }
    }
}

impl UserData {
    /// Settles a liquidation against the position: checks the liquidity,
    /// repayment and seizure bounds, repays debt in the repaid asset and
    /// debits seized deposit shares, returning the liquidator's reward, the
    /// platform's bonus and the repaid underlying amount, all in underlying
    /// units of their respective assets.  Any bound violation aborts with
    /// no change to the position.
    pub fn on_liquidate(
        &mut self,
        amount: Decimal,
        repaid_asset_address: u64,
        borrow_amount: Decimal,
        deposit_amount: Decimal,
        max_liquidation_percent: Decimal,
        liquidation_bonus: Decimal,
        liquidation_reserve_factor: Decimal,
        liquidated_user_deposit_balance: Decimal,
        deposit_asset_address: u64,
        prices: &Table<Decimal>,
        available_liquidity: Decimal,
        sb_price: Decimal,
        sd_price: Decimal,
    ) -> (r: Result<(Decimal, Decimal, Decimal), LendingError>)
        requires
            old(self).wf(),
            prices.wf(),
            liquidated_user_deposit_balance.raw == old(self).spec_deposit(deposit_asset_address),
            prices.contains_key(deposit_asset_address) && prices.contains_key(
                repaid_asset_address,
            ) ==> liq_fits(
                amount.raw as int,
                borrow_amount.raw as int,
                deposit_amount.raw as int,
                max_liquidation_percent.raw as int,
                liquidation_bonus.raw as int,
                liquidation_reserve_factor.raw as int,
                liquidated_user_deposit_balance.raw as int,
                available_liquidity.raw as int,
                sb_price.raw as int,
                sd_price.raw as int,
                prices.val(deposit_asset_address).raw as int,
                prices.val(repaid_asset_address).raw as int,
                old(self).spec_borrow(repaid_asset_address),
            ),
        ensures
            final(self).wf(),
            ({
                let bonus = liquidation_bonus.raw as int;
                let rf = liquidation_reserve_factor.raw as int;
                let sdp = sd_price.raw as int;
                let sbp = sb_price.raw as int;
                let ldb = liquidated_user_deposit_balance.raw as int;
                let sb = old(self).spec_borrow(repaid_asset_address);
                let priced = prices.contains_key(deposit_asset_address) && prices.contains_key(
                    repaid_asset_address,
                );
                let cost_d = prices.val(deposit_asset_address).raw as int;
                let cost_r = prices.val(repaid_asset_address).raw as int;
                let al_x = mul_down(available_liquidity.raw as int, cost_d);
                let mlp = liq_effective_max_percent(
                    borrow_amount.raw as int,
                    deposit_amount.raw as int,
                    max_liquidation_percent.raw as int,
                    bonus,
                );
                let max_repayment = mul_down(mlp, borrow_amount.raw as int);
                let amount_x = mul_down(amount.raw as int, cost_r);
                let ldb_x = mul_down(ldb, mul_down(cost_d, sdp));
                let max_liq = div_down(ldb_x, liq_denominator(bonus, rf));
                let bx = liq_borrow_in_xrd(sb, sbp, cost_r);
                let reward_u = div_down(liq_reward(amount_x, bonus, rf), cost_d);
                let bonus_u = div_down(liq_platform_bonus(amount_x, bonus, rf), cost_d);
                let ldb_u = div_down(ldb_x, cost_d);
                let users_new = ldb_u - reward_u - bonus_u;
                match r {
                    Err(e) => *final(self) == *old(self) && (if !priced {
                        e == LendingError::PriceNotFound
                    } else if amount_x * (SCALE + bonus) > al_x * SCALE {
                        e == LendingError::InsufficientLiquidity(available_liquidity)
                    } else if amount_x > max_repayment {
                        e == LendingError::MaxRepaymentExceeded(
                            (Decimal { raw: max_repayment as u128 }),
                        )
                    } else if amount_x > max_liq {
                        e == LendingError::MaxLiquidationExceeded(
                            (Decimal { raw: max_liq as u128 }),
                        )
                    } else if bx < amount_x {
                        e == LendingError::RepayExceedsDebt((Decimal { raw: bx as u128 }))
                    } else {
                        false
                    }),
                    Ok(out) => {
                        &&& priced
                        &&& amount_x * (SCALE + bonus) <= al_x * SCALE
                        &&& amount_x <= max_repayment
                        &&& amount_x <= max_liq
                        &&& amount_x <= bx
                        &&& out.0.raw == reward_u
                        &&& out.1.raw == bonus_u
                        &&& out.2.raw == div_down(amount_x, cost_r)
                        &&& reward_u + bonus_u <= ldb_u
                        &&& 0 <= users_new
                        &&& final(self).spec_deposit(deposit_asset_address) == div_down(
                            users_new,
                            sdp,
                        )
                        &&& div_down(users_new, sdp) <= ldb
                        &&& final(self).spec_borrow(repaid_asset_address)
                            == liq_new_borrow_shares(sb, sbp, cost_r, amount_x)
                        &&& liq_new_borrow_shares(sb, sbp, cost_r, amount_x) <= sb
                        &&& forall|a: u64|
                            a != deposit_asset_address ==> #[trigger] final(self).spec_deposit(a)
                                == old(self).spec_deposit(a)
                        &&& forall|a: u64|
                            a != repaid_asset_address ==> #[trigger] final(self).spec_borrow(a)
                                == old(self).spec_borrow(a)
                        &&& final(self).name == old(self).name
                        &&& final(self).key_image_url == old(self).key_image_url
                        &&& final(self).minted_at == old(self).minted_at
                        &&& final(self).updated_at == old(self).updated_at
                    },
                }
            }),
    {
        let cost_of_deposit_asset_in_terms_of_xrd: Decimal;
        match prices.get(deposit_asset_address) {
            Some(c) => {
                cost_of_deposit_asset_in_terms_of_xrd = c;
            },
            None => {
                return Err(LendingError::PriceNotFound);
            },
        }
        let cost_of_repaid_asset_in_terms_of_xrd: Decimal;
        match prices.get(repaid_asset_address) {
            Some(c) => {
                cost_of_repaid_asset_in_terms_of_xrd = c;
            },
            None => {
                return Err(LendingError::PriceNotFound);
            },
        }
        let ghost bonus_g = liquidation_bonus.raw as int;
        let ghost rf_g = liquidation_reserve_factor.raw as int;
        let ghost cost_d_g = cost_of_deposit_asset_in_terms_of_xrd.raw as int;
        let ghost cost_r_g = cost_of_repaid_asset_in_terms_of_xrd.raw as int;
        let ghost sdp_g = sd_price.raw as int;
        let ghost ldb_g = liquidated_user_deposit_balance.raw as int;

        let available_liquidity_in_terms_of_xrd = available_liquidity.mul(
            &cost_of_deposit_asset_in_terms_of_xrd,
        );
        let one_plus_bonus = Decimal::one().add(&liquidation_bonus);
        // for insolvent positions the whole debt becomes liquidatable
        let mut max_liquidation_percent_applied = max_liquidation_percent;
        if borrow_amount.mul(&one_plus_bonus).gt(&deposit_amount) {
            max_liquidation_percent_applied = Decimal::one();
        }
        let max_repayment = max_liquidation_percent_applied.mul(&borrow_amount);
        let amount_in_xrd = amount.mul(&cost_of_repaid_asset_in_terms_of_xrd);
        // a liquidation can never draw more reward than the pool can disburse
        if amount_in_xrd.raw * one_plus_bonus.raw
            > available_liquidity_in_terms_of_xrd.raw * SCALE {
            return Err(LendingError::InsufficientLiquidity(available_liquidity));
        }
        let deposit_cost_times_price = cost_of_deposit_asset_in_terms_of_xrd.mul(&sd_price);
        let user_deposit_in_xrd = liquidated_user_deposit_balance.mul(&deposit_cost_times_price);

        if amount_in_xrd.gt(&max_repayment) {
            return Err(LendingError::MaxRepaymentExceeded(max_repayment));
        }
        let one_minus_rf = Decimal::one().sub(&liquidation_reserve_factor);
        let bonus_reserve_part = liquidation_bonus.mul(&liquidation_reserve_factor);
        let reward_multiplier = Decimal::one().add(&liquidation_bonus.mul(&one_minus_rf));
        proof {
            vstd::arithmetic::mul::lemma_mul_nonnegative(bonus_g, rf_g);
            vstd::arithmetic::div_mod::lemma_div_pos_is_pos(bonus_g * rf_g, SCALE as int);
        }
        let denominator = bonus_reserve_part.add(&reward_multiplier);
        let max_liquidating_amount = user_deposit_in_xrd.div(&denominator);

        if amount_in_xrd.gt(&max_liquidating_amount) {
            return Err(LendingError::MaxLiquidationExceeded(max_liquidating_amount));
        }
        let interest: Decimal;
        match self.on_liquidate_repay(
            amount_in_xrd,
            repaid_asset_address,
            cost_of_repaid_asset_in_terms_of_xrd,
            sb_price,
        ) {
            Ok(i) => {
                interest = i;
            },
            Err(e) => {
                return Err(e);
            },
        }
        let ghost mid = *self;
        // the platform keeps the reserve's cut of the bonus
        let mut platform_bonus = amount_in_xrd.mul(&liquidation_bonus).mul(
            &liquidation_reserve_factor,
        );
        // the liquidator gets the rest of the bonus on top of the repayment
        let mut reward = amount_in_xrd.mul(&reward_multiplier);
        proof {
            vstd::arithmetic::mul::lemma_mul_nonnegative(amount.raw as int, cost_r_g);
            vstd::arithmetic::div_mod::lemma_div_pos_is_pos(amount.raw * cost_r_g, SCALE as int);
            vstd::arithmetic::mul::lemma_mul_nonnegative(cost_d_g, sdp_g);
            vstd::arithmetic::div_mod::lemma_div_pos_is_pos(cost_d_g * sdp_g, SCALE as int);
            vstd::arithmetic::mul::lemma_mul_nonnegative(
                ldb_g,
                mul_down(cost_d_g, sdp_g),
            );
            vstd::arithmetic::div_mod::lemma_div_pos_is_pos(
                ldb_g * mul_down(cost_d_g, sdp_g),
                SCALE as int,
            );
            lemma_liquidation_payout_bounded(
                amount_in_xrd.raw as int,
                bonus_g,
                rf_g,
                user_deposit_in_xrd.raw as int,
            );
        }
        reward = reward.div(&cost_of_deposit_asset_in_terms_of_xrd);
        platform_bonus = platform_bonus.div(&cost_of_deposit_asset_in_terms_of_xrd);
        let liquidated_user_deposit_in_units = user_deposit_in_xrd.div(
            &cost_of_deposit_asset_in_terms_of_xrd,
        );
        proof {
            // dividing the parts cannot beat dividing the whole
            let rx = liq_reward(amount_in_xrd.raw as int, bonus_g, rf_g);
            let bx2 = liq_platform_bonus(amount_in_xrd.raw as int, bonus_g, rf_g);
            let lx = user_deposit_in_xrd.raw as int;
            lemma_div_plus_le(rx * (SCALE as int), bx2 * (SCALE as int), cost_d_g);
            assert(rx * (SCALE as int) + bx2 * (SCALE as int) == (rx + bx2) * (SCALE as int))
                by (nonlinear_arith);
            lemma_mul_inequality(rx + bx2, lx, SCALE as int);
            lemma_div_is_ordered((rx + bx2) * (SCALE as int), lx * (SCALE as int), cost_d_g);
        }
        let users_new_deposit_balance = liquidated_user_deposit_in_units.sub(&reward).sub(
            &platform_bonus,
        );
        proof {
            let s = SCALE as int;
            let lu = liquidated_user_deposit_in_units.raw as int;
            let un = users_new_deposit_balance.raw as int;
            let lx = user_deposit_in_xrd.raw as int;
            let t = mul_down(cost_d_g, sdp_g);
            // the rewritten deposit-share balance never exceeds the old one
            lemma_div_mul_le(lx * s, cost_d_g);
            lemma_div_mul_le(ldb_g * t, s);
            lemma_div_mul_le(cost_d_g * sdp_g, s);
            assert(lu * s <= ldb_g * sdp_g) by (nonlinear_arith)
                requires
                    lu * cost_d_g <= lx * s,
                    lx * s <= ldb_g * t,
                    t * s <= cost_d_g * sdp_g,
                    cost_d_g > 0,
                    s > 0,
                    ldb_g >= 0,
                    sdp_g > 0,
                    lu >= 0,
                    t >= 0,
                    lx >= 0,
            ;
            lemma_mul_inequality(un, lu, s);
            lemma_div_is_ordered(un * s, ldb_g * sdp_g, sdp_g);
            lemma_div_multiples_vanish(ldb_g, sdp_g);
            assert((ldb_g * sdp_g) / sdp_g == ldb_g) by {
                vstd::arithmetic::mul::lemma_mul_is_commutative(ldb_g, sdp_g);
            }
        }
        let new_share_balance = users_new_deposit_balance.div(&sd_price);
        self.update_deposit(deposit_asset_address, new_share_balance);
        proof {
            assert forall|a: u64| a != repaid_asset_address implies #[trigger] self.spec_borrow(a)
                == old(self).spec_borrow(a) by {
                assert(mid.spec_borrow(a) == old(self).spec_borrow(a));
                assert(self.borrows == mid.borrows);
            }
            assert(self.spec_borrow(repaid_asset_address) == mid.spec_borrow(
                repaid_asset_address,
            ));
        }
        let mut decreased_amount = amount_in_xrd.sub(&interest);
        decreased_amount = decreased_amount.div(&cost_of_repaid_asset_in_terms_of_xrd);
        Ok((reward, platform_bonus, decreased_amount))
    }
}

/// Sum of every position's deposit-share balance for one asset.
pub open spec fn deposit_share_sum(pairs: Seq<(u64, UserData)>, asset: u64) -> int
    decreases pairs.len(),
{
    if pairs.len() == 0 {
        0
    } else {
        deposit_share_sum(pairs.drop_last(), asset) + pairs.last().1.spec_deposit(asset)
    }
}

/// Sum of every position's borrow-share balance for one asset.
pub open spec fn borrow_share_sum(pairs: Seq<(u64, UserData)>, asset: u64) -> int
    decreases pairs.len(),
{
    if pairs.len() == 0 {
        0
    } else {
        borrow_share_sum(pairs.drop_last(), asset) + pairs.last().1.spec_borrow(asset)
    }
}

/// Removing one position takes exactly its contribution out of both sums.
pub proof fn lemma_share_sum_remove(pairs: Seq<(u64, UserData)>, j: int, asset: u64)
    requires
        0 <= j < pairs.len(),
    ensures
        deposit_share_sum(pairs.remove(j), asset) == deposit_share_sum(pairs, asset)
            - pairs[j].1.spec_deposit(asset),
        borrow_share_sum(pairs.remove(j), asset) == borrow_share_sum(pairs, asset)
            - pairs[j].1.spec_borrow(asset),
    decreases pairs.len(),
{
    if j == pairs.len() - 1 {
        assert(pairs.remove(j) =~= pairs.drop_last());
    } else {
        assert(pairs.remove(j).drop_last() =~= pairs.drop_last().remove(j));
        assert(pairs.remove(j).last() == pairs.last());
        lemma_share_sum_remove(pairs.drop_last(), j, asset);
        assert(pairs.drop_last()[j] == pairs[j]);
    }
}

/// Appending one position adds exactly its contribution to both sums.
pub proof fn lemma_share_sum_push(pairs: Seq<(u64, UserData)>, entry: (u64, UserData), asset: u64)
    ensures
        deposit_share_sum(pairs.push(entry), asset) == deposit_share_sum(pairs, asset)
            + entry.1.spec_deposit(asset),
        borrow_share_sum(pairs.push(entry), asset) == borrow_share_sum(pairs, asset)
            + entry.1.spec_borrow(asset),
{
    assert(pairs.push(entry).drop_last() =~= pairs);
    assert(pairs.push(entry).last() == entry);
}

} // verus!
