use vstd::arithmetic::div_mod::{lemma_div_denominator, lemma_div_is_ordered, lemma_div_multiples_vanish};
use vstd::arithmetic::mul::lemma_mul_inequality;
use vstd::prelude::*;

verus! {

/// One asset with 6 decimals.
pub const ONE_6_DECIMALS: u128 = 1_000_000;

/// 1_000_000 of assets with 6 decimals.
pub const MILLION_6_DECIMALS: u128 = 1_000_000_000_000;

/// One asset with 18 decimals.
pub const ONE_18_DECIMALS: u128 = 1_000_000_000_000_000_000;

/// 1_000_000 of assets with 18 decimals.
pub const MILLION_18_DECIMALS: u128 = 1_000_000_000_000_000_000_000_000;

/// A decimal is held as an integer count of 10^-18 parts ("atomics").
pub const DECIMAL_FRACTIONAL: u128 = 1_000_000_000_000_000_000;

pub const NANOS_PER_MIN: u128 = 60_000_000_000;

pub const MINS_PER_DAY: u128 = 1440;

/// The square of `DECIMAL_FRACTIONAL`: the scale of a product of two decimals.
const DECIMAL_FRACTIONAL_SQUARED: u128 = 1_000_000_000_000_000_000_000_000_000_000_000_000;

/// Elapsed minutes as a decimal with 18 fractional digits, floored.
pub open spec fn elapsed_minutes_atomics(elapsed_nanos: int) -> int {
    elapsed_nanos * DECIMAL_FRACTIONAL / (NANOS_PER_MIN as int)
}

/// Reward accrued over `elapsed_nanos` at `daily_rewards` (a decimal, in
/// atomics) per day: the elapsed minutes times the daily rate over the
/// minutes of a day, floored to a whole base unit at the very end.
pub open spec fn accrued_reward(elapsed_nanos: int, daily_rewards: int) -> int {
    elapsed_minutes_atomics(elapsed_nanos) * daily_rewards / (MINS_PER_DAY as int
        * DECIMAL_FRACTIONAL as int * DECIMAL_FRACTIONAL as int)
}

/// Time elapsed between the last claim and `now`, and none when `now` is
/// earlier: the ledger's operations refuse such a `now` before they settle.
pub open spec fn elapsed_since(now: u64, last_claim: u64) -> int {
    if now >= last_claim {
        now - last_claim
    } else {
        0
    }
}

/// Reward of one staked item whose last claim was at `last_claim`.
pub open spec fn item_reward(now: u64, last_claim: u64, daily_rewards: u128) -> int {
    accrued_reward(elapsed_since(now, last_claim), daily_rewards as int)
}

pub proof fn lemma_item_reward_nonneg(now: u64, last_claim: u64, daily_rewards: u128)
    ensures
        item_reward(now, last_claim, daily_rewards) >= 0,
{
    let e = elapsed_since(now, last_claim);
    let m = elapsed_minutes_atomics(e);
    assert(m >= 0) by (nonlinear_arith)
        requires
            e >= 0,
            m == e * DECIMAL_FRACTIONAL / (NANOS_PER_MIN as int),
    ;
    let d = daily_rewards as int;
    let k = MINS_PER_DAY as int * DECIMAL_FRACTIONAL as int * DECIMAL_FRACTIONAL as int;
    assert(m * d / k >= 0) by (nonlinear_arith)
        requires
            m >= 0,
            d >= 0,
            k > 0,
    ;
}

/// Relies on cosmwasm_std::Uint128::checked_multiply_ratio: `value * numerator /
/// denominator`, floored, computed without intermediate overflow; an error
/// when the quotient does not fit in 128 bits.
#[verifier::external_body]
fn multiply_ratio(value: u128, numerator: u128, denominator: u128) -> (r: Option<u128>)
    requires
        denominator > 0,
    ensures
        r is Some <==> value * numerator / (denominator as int) <= u128::MAX,
        r matches Some(q) ==> q == value * numerator / (denominator as int),
{
    cosmwasm_std::Uint128::new(value).checked_multiply_ratio(numerator, denominator).ok().map(
        |q| q.u128(),
    )
}

/// `floor(value * weight)` for a decimal `weight` given in atomics.
pub fn mul_floor(value: u128, weight_atomics: u128) -> (r: u128)
    requires
        weight_atomics <= DECIMAL_FRACTIONAL,
    ensures
        r == value * weight_atomics / (DECIMAL_FRACTIONAL as int),
        r <= value,
{
    proof {
        lemma_mul_inequality(weight_atomics as int, DECIMAL_FRACTIONAL as int, value as int);
        lemma_div_is_ordered(
            value * weight_atomics,
            value * DECIMAL_FRACTIONAL,
            DECIMAL_FRACTIONAL as int,
        );
        lemma_div_multiples_vanish(value as int, DECIMAL_FRACTIONAL as int);
        assert(value * weight_atomics == weight_atomics * value) by (nonlinear_arith);
        assert(value * DECIMAL_FRACTIONAL == DECIMAL_FRACTIONAL * value) by (nonlinear_arith);
    }
    multiply_ratio(value, weight_atomics, DECIMAL_FRACTIONAL).unwrap()
}

/// Reward accrued by one item between `last_claim` and `now` at a daily rate
/// of `daily_rewards` atomics.
pub fn staking_reward(now: u64, last_claim: u64, daily_rewards: u128) -> (r: u128)
    ensures
        r == item_reward(now, last_claim, daily_rewards),
{
    let elapsed: u128 = if now >= last_claim {
        (now - last_claim) as u128
    } else {
        0
    };
    let minutes: u128 = elapsed * 100_000_000 / 6;
    proof {
        let e = elapsed as int;
        lemma_div_denominator(e * DECIMAL_FRACTIONAL, 10_000_000_000, 6);
        assert(e * DECIMAL_FRACTIONAL == (e * 100_000_000) * 10_000_000_000) by (nonlinear_arith);
        lemma_div_multiples_vanish(e * 100_000_000, 10_000_000_000);
        assert((e * 100_000_000) * 10_000_000_000 == 10_000_000_000 * (e * 100_000_000))
            by (nonlinear_arith);
        assert(minutes == elapsed_minutes_atomics(e));
        assert(minutes <= 310_000_000_000_000_000_000_000_000);
        let x = minutes * daily_rewards;
        assert(x <= 310_000_000_000_000_000_000_000_000 * u128::MAX) by (nonlinear_arith)
            requires
                minutes <= 310_000_000_000_000_000_000_000_000,
                daily_rewards <= u128::MAX,
                x == minutes * daily_rewards,
                minutes >= 0,
                daily_rewards >= 0,
        ;
        lemma_div_is_ordered(
            x,
            310_000_000_000_000_000_000_000_000 * u128::MAX,
            DECIMAL_FRACTIONAL_SQUARED as int,
        );
        assert(310_000_000_000_000_000_000_000_000 * u128::MAX / (
        DECIMAL_FRACTIONAL_SQUARED as int) <= u128::MAX);
        lemma_div_denominator(x, DECIMAL_FRACTIONAL_SQUARED as int, MINS_PER_DAY as int);
        assert(MINS_PER_DAY as int * DECIMAL_FRACTIONAL as int * DECIMAL_FRACTIONAL as int
            == DECIMAL_FRACTIONAL_SQUARED as int * MINS_PER_DAY as int);
    }
    let scaled = multiply_ratio(minutes, daily_rewards, DECIMAL_FRACTIONAL_SQUARED).unwrap();
    scaled / MINS_PER_DAY
}

} // verus!
