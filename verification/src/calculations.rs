//! Pure rate-curve and share-ledger arithmetic.
//!
//! These functions are the leaves of the engine: the utilization-based
//! two-segment interest-rate curve, the per-period interest split, and the
//! conversion between underlying amounts and proportional claim shares.

use vstd::prelude::*;
use vstd::arithmetic::div_mod::{
    lemma_fundamental_div_mod, lemma_mod_bound, lemma_div_is_ordered, lemma_div_multiples_vanish,
};
use vstd::arithmetic::mul::{lemma_mul_inequality, lemma_mul_is_commutative};
use crate::decimal::{Decimal, SCALE, mul_down, div_down, lemma_div_mul_le};

verus! {

/// Discrete clock units per year: five-minute epochs.
pub const UNITS_PER_YEAR: u64 = 365 * 24 * 60 / 5;

/// Ratio of borrowed to deposited underlying, 0 when nothing is deposited.
pub open spec fn spec_utilisation(deposit: int, borrow: int) -> int {
    if deposit == 0 {
        0
    } else {
        div_down(borrow, deposit)
    }
}

/// The two-segment rate curve: gentle slope below the kink, steep above it.
pub open spec fn spec_borrow_rate(
    multiplier: int,
    base_multiplier: int,
    base: int,
    kink: int,
    utilisation: int,
) -> int {
    if utilisation <= 0 {
        0
    } else if utilisation < kink {
        base + mul_down(base_multiplier, utilisation)
    } else {
        base + mul_down(base_multiplier, kink) + mul_down(multiplier, utilisation - kink)
    }
}

/// Simple (non-compounding) interest rate for `elapsed` clock units.
pub open spec fn spec_borrow_apr(rate: int, elapsed: int) -> int {
    rate * elapsed / (UNITS_PER_YEAR as int)
}

/// Interest on the whole loan book for one accrual period.
pub open spec fn spec_borrow_interest(total_borrow: int, apr: int) -> int {
    mul_down(total_borrow, apr)
}

/// Portion of the period interest kept by the protocol reserve.
pub open spec fn spec_reserve_interest(borrow_interest: int, reserve_factor: int) -> int {
    mul_down(borrow_interest, reserve_factor)
}

/// Price of one share: 1 while no share exists, else underlying per share.
pub open spec fn spec_token_price(total: int, total_s: int) -> int {
    if total_s == 0 {
        SCALE as int
    } else {
        div_down(total, total_s)
    }
}

/// Shares minted or burned for `amount` of underlying: 1:1 while the pool is
/// empty, else the amount divided by the share price.
pub open spec fn spec_s_interest(amount: int, total: int, total_s: int) -> int {
    if total == 0 {
        amount
    } else {
        div_down(amount, div_down(total, total_s))
    }
}

/// Fraction of the pool currently lent out, via a full-width intermediate
/// product before narrowing.  Zero when the pool holds no deposits.
pub fn get_utilisation(deposit_balance: Decimal, borrow_balance: Decimal) -> (r: Decimal)
    requires
        borrow_balance.raw * SCALE <= u128::MAX,
    ensures
        r.raw == spec_utilisation(deposit_balance.raw as int, borrow_balance.raw as int),
        borrow_balance.raw == 0 ==> r.raw == 0,
        deposit_balance.raw == 0 ==> r.raw == 0,
{
    if deposit_balance.is_zero() {
        Decimal::zero()
    } else {
        borrow_balance.div(&deposit_balance)
    }
}

/// Every intermediate product of the rate curve fits the machine word.
pub open spec fn borrow_rate_fits(
    multiplier: int,
    base_multiplier: int,
    base: int,
    kink: int,
    utilisation: int,
) -> bool {
    &&& base_multiplier * utilisation <= u128::MAX
    &&& base_multiplier * kink <= u128::MAX
    &&& (utilisation >= kink ==> multiplier * (utilisation - kink) <= u128::MAX)
    &&& base + mul_down(base_multiplier, utilisation) <= u128::MAX
    &&& base + mul_down(base_multiplier, kink) + (
        if utilisation >= kink {
            mul_down(multiplier, utilisation - kink)
        } else {
            0
        }) <= u128::MAX
}

/// Borrow rate for the given curve parameters at the given utilisation.
pub fn calculate_borrow_rate(
    multiplier: Decimal,
    base_multiplier: Decimal,
    base: Decimal,
    kink: Decimal,
    utilisation: Decimal,
) -> (r: Decimal)
    requires
        borrow_rate_fits(
            multiplier.raw as int,
            base_multiplier.raw as int,
            base.raw as int,
            kink.raw as int,
            utilisation.raw as int,
        ),
    ensures
        r.raw == spec_borrow_rate(
            multiplier.raw as int,
            base_multiplier.raw as int,
            base.raw as int,
            kink.raw as int,
            utilisation.raw as int,
        ),
{
    if utilisation.gt(&Decimal::zero()) {
        if utilisation.lt(&kink) {
            base.add(&base_multiplier.mul(&utilisation))
        } else {
            base.add(&base_multiplier.mul(&kink)).add(&multiplier.mul(&utilisation.sub(&kink)))
        }
    } else {
        Decimal::zero()
    }
}

/// Interest rate for the time since `updated_at`, measured on the host's
/// discrete clock, as a fraction of the yearly rate.
pub fn calculate_borrow_apr(borrow_rate: Decimal, updated_at: u64, now: u64) -> (r: Decimal)
    requires
        updated_at <= now,
        borrow_rate.raw * (now - updated_at) <= u128::MAX,
    ensures
        r.raw == spec_borrow_apr(borrow_rate.raw as int, now - updated_at),
{
    borrow_rate.mul_u64(now - updated_at).div_u64(UNITS_PER_YEAR)
}

/// The period interest computation stays within the machine word.
pub open spec fn interests_fit(total_borrow: int, borrow_apr: int, reserve_factor: int) -> bool {
    &&& total_borrow * borrow_apr <= u128::MAX
    &&& spec_borrow_interest(total_borrow, borrow_apr) * reserve_factor <= u128::MAX
}

/// Splits one period's interest into the borrower charge, the reserve's cut
/// and the depositors' earnings.  The split is exact: the reserve and deposit
/// parts always sum back to the borrower charge.
pub fn calculate_interests(
    total_borrow: Decimal,
    borrow_apr: Decimal,
    reserve_factor: Decimal,
) -> (r: (Decimal, Decimal, Decimal))
    requires
        reserve_factor.raw <= SCALE,
        interests_fit(total_borrow.raw as int, borrow_apr.raw as int, reserve_factor.raw as int),
    ensures
        r.0.raw == spec_borrow_interest(total_borrow.raw as int, borrow_apr.raw as int),
        r.1.raw == spec_reserve_interest(r.0.raw as int, reserve_factor.raw as int),
        r.1.raw <= r.0.raw,
        r.2.raw == r.0.raw - r.1.raw,
        r.1.raw + r.2.raw == r.0.raw,
{
    let borrow_interest = total_borrow.mul(&borrow_apr);
    let reserve_interest = borrow_interest.mul(&reserve_factor);
    proof {
        lemma_fraction_at_most(borrow_interest.raw as int, reserve_factor.raw as int);
    }
    let deposit_interest = borrow_interest.sub(&reserve_interest);
    (borrow_interest, reserve_interest, deposit_interest)
}

/// Price of one share in underlying units; 1 while no share exists.
pub fn calculate_token_price(total: Decimal, total_s: Decimal) -> (r: Decimal)
    requires
        total.raw * SCALE <= u128::MAX,
    ensures
        r.raw == spec_token_price(total.raw as int, total_s.raw as int),
        total_s.raw == 0 ==> r.raw == SCALE,
{
    let mut token_price = Decimal::one();
    if !total_s.is_zero() {
        token_price = total.div(&total_s);
    }
    token_price
}

/// The share conversion neither divides by zero nor overflows.
pub open spec fn s_interest_fits(amount: int, total: int, total_s: int) -> bool {
    total != 0 ==> {
        &&& total_s != 0
        &&& total * SCALE <= u128::MAX
        &&& amount * SCALE <= u128::MAX
        &&& div_down(total, total_s) > 0
    }
}

/// Shares corresponding to `amount` of underlying at the pool's current share
/// price; the first depositor or borrower seeds shares 1:1.
pub fn calculate_s_interest(amount: Decimal, total: Decimal, total_s: Decimal) -> (r: Decimal)
    requires
        s_interest_fits(amount.raw as int, total.raw as int, total_s.raw as int),
    ensures
        r.raw == spec_s_interest(amount.raw as int, total.raw as int, total_s.raw as int),
        total.raw == 0 ==> r.raw == amount.raw,
{
    let s_interest: Decimal;
    if total.is_zero() {
        s_interest = amount;
    } else {
        let s_price = total.div(&total_s);
        s_interest = amount.div(&s_price);
    }
    s_interest
}

/// A `reserve_factor`-sized cut of a quantity never exceeds the quantity
/// itself while the factor is at most 1.
pub proof fn lemma_fraction_at_most(quantity: int, factor: int)
    requires
        0 <= quantity,
        0 <= factor <= SCALE,
    ensures
        0 <= mul_down(quantity, factor) <= quantity,
{
    assert(0 <= quantity * factor <= quantity * SCALE) by (nonlinear_arith)
        requires
            0 <= quantity,
            0 <= factor <= SCALE,
    ;
    assert(0 <= (quantity * factor) / (SCALE as int) <= (quantity * (SCALE as int)) / (
    SCALE as int)) by (nonlinear_arith)
        requires
            0 <= quantity * factor <= quantity * (SCALE as int),
    ;
    assert((quantity * (SCALE as int)) / (SCALE as int) == quantity) by (nonlinear_arith);
}

/// The rate curve is continuous at the kink: approaching the kink from below,
/// the first segment's formula agrees with the curve's value at the kink.
pub proof fn lemma_borrow_rate_continuous_at_kink(
    multiplier: int,
    base_multiplier: int,
    base: int,
    kink: int,
)
    requires
        kink > 0,
    ensures
        spec_borrow_rate(multiplier, base_multiplier, base, kink, kink) == base + mul_down(
            base_multiplier,
            kink,
        ),
{
    assert(mul_down(multiplier, 0) == 0);
}

/// Below the kink the curve grows with utilisation.
proof fn lemma_rate_segment_monotone(factor: int, u1: int, u2: int)
    requires
        0 <= factor,
        0 <= u1 <= u2,
    ensures
        mul_down(factor, u1) <= mul_down(factor, u2),
{
    assert(factor * u1 <= factor * u2) by (nonlinear_arith)
        requires
            0 <= factor,
            u1 <= u2,
    ;
    assert(factor * u1 / (SCALE as int) <= factor * u2 / (SCALE as int)) by (nonlinear_arith)
        requires
            factor * u1 <= factor * u2,
    ;
}

/// The borrow-rate curve is non-decreasing in utilisation.
pub proof fn lemma_borrow_rate_monotone(
    multiplier: int,
    base_multiplier: int,
    base: int,
    kink: int,
    u1: int,
    u2: int,
)
    requires
        0 <= base,
        0 <= base_multiplier,
        0 < multiplier,
        0 <= kink,
        0 <= u1 <= u2,
    ensures
        spec_borrow_rate(multiplier, base_multiplier, base, kink, u1) <= spec_borrow_rate(
            multiplier,
            base_multiplier,
            base,
            kink,
            u2,
        ),
{
    lemma_rate_segment_monotone(base_multiplier, u1, u2);
    if u1 < kink && u2 >= kink {
        // left value at u1 is at most the left value at the kink, which the
        // curve meets from above once the second slope is added
        lemma_rate_segment_monotone(base_multiplier, u1, kink);
        lemma_rate_segment_monotone(multiplier, 0, u2 - kink);
        assert(mul_down(multiplier, 0) == 0);
    }
    if u1 >= kink {
        lemma_rate_segment_monotone(multiplier, u1 - kink, u2 - kink);
    }
}

/// Depositing and immediately withdrawing round-trips without creating
/// value: while the pool's share price is exact at the scale (in
/// particular on a fresh pool), minting shares for `a` and cashing their
/// full recorded value `v` right back returns at most `a`, and the
/// shortfall is below the value of one share plus one raw unit per
/// rounding step: `(a - v) * (sd + s) < d + SCALE + sd + s`.
pub proof fn lemma_deposit_withdraw_round_trip(a: int, d: int, sd: int)
    requires
        0 < a,
        0 <= d,
        0 <= sd,
        sd == 0 ==> d == 0,
        sd != 0 ==> (d * SCALE) % sd == 0 && div_down(d, sd) > 0,
    ensures
        ({
            let s = spec_s_interest(a, d, sd);
            let v = div_down(mul_down(s, d + a), sd + s);
            &&& v <= a
            &&& (a - v) * (sd + s) < d + SCALE + sd + s
        }),
{
    let sc = SCALE as int;
    let s = spec_s_interest(a, d, sd);
    let inner = mul_down(s, d + a);
    let v = div_down(inner, sd + s);
    // the minted shares claim no more underlying than was put in:
    // s * d <= a * sd
    if d == 0 {
        assert(s == a);
        assert(sd == 0) by {
            if sd != 0 {
                assert(div_down(0, sd) == 0) by {
                    assert(0int * sc == 0) by (nonlinear_arith);
                    assert(0int / sd == 0) by {
                        lemma_div_multiples_vanish(0, sd);
                        assert(sd * 0 == 0) by (nonlinear_arith);
                    }
                }
            }
        }
        assert(s * d == 0 && a * sd == 0) by (nonlinear_arith)
            requires d == 0, sd == 0,
        ;
    } else {
        let p = div_down(d, sd);
        assert(sd != 0);
        assert(s == (a * sc) / p);
        // exactness: the share price times the shares is the underlying
        lemma_fundamental_div_mod(d * sc, sd);
        assert(p * sd == d * sc) by (nonlinear_arith)
            requires
                d * sc == sd * ((d * sc) / sd) + (d * sc) % sd,
                (d * sc) % sd == 0,
                p == (d * sc) / sd,
        ;
        lemma_fundamental_div_mod(a * sc, p);
        let r = (a * sc) % p;
        lemma_mod_bound(a * sc, p);
        assert((a * sd - s * d) * sc == r * sd) by (nonlinear_arith)
            requires
                a * sc == p * s + r,
                p * sd == d * sc,
                sc > 0,
        ;
        assert(r * sd <= (p - 1) * sd) by {
            lemma_mul_inequality(r, p - 1, sd);
        }
        assert((p - 1) * sd < d * sc) by (nonlinear_arith)
            requires p * sd == d * sc, sd > 0,
        ;
        assert(a * sd - s * d < d) by (nonlinear_arith)
            requires (a * sd - s * d) * sc == r * sd, r * sd < d * sc, sc > 0,
        ;
        assert(0 <= a * sd - s * d) by (nonlinear_arith)
            requires (a * sd - s * d) * sc == r * sd, r >= 0, sd > 0, sc > 0,
        ;
    }
    assert(s * d <= a * sd);
    assert(a * sd - s * d <= d);
    // no value creation: v <= a
    assert(s * (d + a) <= a * (sd + s)) by (nonlinear_arith)
        requires s * d <= a * sd,
    ;
    lemma_div_mul_le(s * (d + a), sc);
    assert(inner * sc <= a * (sd + s));
    lemma_div_is_ordered(inner * sc, a * (sd + s), sd + s);
    lemma_div_multiples_vanish(a, sd + s);
    lemma_mul_is_commutative(a, sd + s);
    assert(v <= a);
    // bounded shortfall: each floor loses less than one divisor's worth
    lemma_fundamental_div_mod(s * (d + a), sc);
    lemma_mod_bound(s * (d + a), sc);
    assert(inner * sc > s * (d + a) - sc) by (nonlinear_arith)
        requires
            s * (d + a) == sc * inner + (s * (d + a)) % sc,
            (s * (d + a)) % sc < sc,
    ;
    lemma_fundamental_div_mod(inner * sc, sd + s);
    lemma_mod_bound(inner * sc, sd + s);
    assert(v * (sd + s) > inner * sc - (sd + s)) by (nonlinear_arith)
        requires
            inner * sc == (sd + s) * v + (inner * sc) % (sd + s),
            (inner * sc) % (sd + s) < sd + s,
    ;
    assert((a - v) * (sd + s) < d + sc + sd + s) by (nonlinear_arith)
        requires
            v * (sd + s) > s * (d + a) - sc - (sd + s),
            a * sd - s * d <= d,
    ;
}

} // verus!
