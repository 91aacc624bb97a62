use crate::math::{
    accrued_reward, elapsed_minutes_atomics, elapsed_since, item_reward, DECIMAL_FRACTIONAL,
    MINS_PER_DAY, NANOS_PER_MIN,
};
use crate::msg::{key_of, key_total, merges, payout_instructions, Payout};
use crate::platform::{
    lemma_shares_bound, shares_sum, weight_sum, weights_in_range, StakeRecord, StakingPlatform,
};
use crate::proposals::settled;
use crate::staking::{claimed, collection_payouts, demand};
use crate::types::{Collection, StakedCollectionInfo};
use vstd::arithmetic::div_mod::lemma_div_is_ordered;
use vstd::arithmetic::mul::lemma_mul_inequality;
use vstd::prelude::*;

verus! {

/// Accrual monotonicity: with a fixed rate and no claim in between, the
/// reward of an item never decreases as time passes, and it is zero at the
/// instant of the last claim.
pub proof fn reward_grows_with_time(last_claim: u64, t1: u64, t2: u64, daily_rewards: u128)
    requires
        t1 <= t2,
    ensures
        item_reward(t1, last_claim, daily_rewards) <= item_reward(t2, last_claim, daily_rewards),
        item_reward(last_claim, last_claim, daily_rewards) == 0,
{
    let e1 = elapsed_since(t1, last_claim);
    let e2 = elapsed_since(t2, last_claim);
    assert(0 <= e1 <= e2);
    lemma_mul_inequality(e1, e2, DECIMAL_FRACTIONAL as int);
    lemma_div_is_ordered(e1 * DECIMAL_FRACTIONAL, e2 * DECIMAL_FRACTIONAL, NANOS_PER_MIN as int);
    let m1 = elapsed_minutes_atomics(e1);
    let m2 = elapsed_minutes_atomics(e2);
    let d = daily_rewards as int;
    lemma_mul_inequality(m1, m2, d);
    let k = MINS_PER_DAY as int * DECIMAL_FRACTIONAL as int * DECIMAL_FRACTIONAL as int;
    lemma_div_is_ordered(m1 * d, m2 * d, k);
    assert(elapsed_minutes_atomics(0) == 0);
    assert(0 * d / k == 0) by (nonlinear_arith)
        requires
            k > 0,
    ;
    assert(accrued_reward(0, d) == 0);
}

proof fn lemma_no_demand_after_claim(
    stakes: Seq<StakeRecord>,
    staker: Seq<char>,
    coll: Seq<char>,
    reqs: Seq<StakedCollectionInfo>,
    now: u64,
    daily_rewards: u128,
)
    requires
        forall|k: int| 0 <= k < stakes.len() && (#[trigger] stakes[k]).staker@ == staker
            ==> stakes[k].last_claim_date == now,
    ensures
        demand(stakes, staker, coll, reqs, true, now, daily_rewards) == 0,
    decreases stakes.len(),
{
    if stakes.len() > 0 {
        let n = stakes.len() - 1;
        assert forall|k: int| 0 <= k < stakes.drop_last().len() && (
        #[trigger] stakes.drop_last()[k]).staker@ == staker implies stakes.drop_last()[k].last_claim_date
            == now by {
            assert(stakes.drop_last()[k] == stakes[k]);
        }
        lemma_no_demand_after_claim(stakes.drop_last(), staker, coll, reqs, now, daily_rewards);
        reward_grows_with_time(now, now, now, daily_rewards);
    }
}

proof fn lemma_zero_totals(ps: Seq<Payout>, k: (Seq<char>, crate::assets::TokenView, crate::types::EmissionType))
    requires
        forall|i: int| 0 <= i < ps.len() ==> (#[trigger] ps[i]).amount == 0,
    ensures
        key_total(ps, k) == 0,
    decreases ps.len(),
{
    if ps.len() > 0 {
        assert forall|i: int| 0 <= i < ps.drop_last().len() implies (
        #[trigger] ps.drop_last()[i]).amount == 0 by {
            assert(ps.drop_last()[i] == ps[i]);
        }
        lemma_zero_totals(ps.drop_last(), k);
    }
}

proof fn lemma_nothing_to_pay(m: Seq<Payout>, minter: Option<String>)
    requires
        forall|i: int| 0 <= i < m.len() ==> (#[trigger] m[i]).amount == 0,
    ensures
        payout_instructions(m, minter).len() == 0,
    decreases m.len(),
{
    if m.len() > 0 {
        assert forall|i: int| 0 <= i < m.drop_last().len() implies (
        #[trigger] m.drop_last()[i]).amount == 0 by {
            assert(m.drop_last()[i] == m[i]);
        }
        lemma_nothing_to_pay(m.drop_last(), minter);
    }
}

/// Idempotent claim: once `sender` has claimed at `now`, a second claim at
/// the same instant pays nothing. `second` is any state whose ledger is
/// the first claim's result; `m` is the merged payout list the second claim
/// pays out.
pub proof fn second_claim_pays_nothing(
    first: StakingPlatform,
    second: StakingPlatform,
    sender: String,
    now: u64,
    m: Seq<Payout>,
)
    requires
        second.stakes@ == claimed(first.stakes@, sender@, now),
        merges(
            m,
            collection_payouts(second, sender, sender@, Seq::<StakedCollectionInfo>::empty(), true, now, true),
        ),
    ensures
        payout_instructions(m, second.config.minter).len() == 0,
{
    let none = Seq::<StakedCollectionInfo>::empty();
    let ps = collection_payouts(second, sender, sender@, none, true, now, true);
    assert forall|k: int| 0 <= k < second.stakes@.len() && (#[trigger] second.stakes@[k]).staker@
        == sender@ implies second.stakes@[k].last_claim_date == now by {}
    assert forall|i: int| 0 <= i < ps.len() implies (#[trigger] ps[i]).amount == 0 by {
        let e = second.collections@[i];
        lemma_no_demand_after_claim(second.stakes@, sender@, e.0@, none, now, e.1.daily_rewards);
    }
    assert forall|j: int| 0 <= j < m.len() implies (#[trigger] m[j]).amount == 0 by {
        lemma_zero_totals(ps, key_of(m[j]));
    }
    lemma_nothing_to_pay(m, second.config.minter);
}

/// Settlement before mutation: settling collection `coll` at `now` moves the
/// last claim of every one of its items to `now`, so no later reward of
/// those items reaches back before the new terms; other items keep theirs.
pub proof fn settlement_restarts_accrual(stakes: Seq<StakeRecord>, coll: Seq<char>, now: u64, later: u64, daily_rewards: u128)
    ensures
        settled(stakes, coll, now).len() == stakes.len(),
        forall|k: int|
            0 <= k < stakes.len() && (#[trigger] stakes[k]).collection_address@ == coll ==> settled(
                stakes,
                coll,
                now,
            )[k].last_claim_date == now && item_reward(
                later,
                settled(stakes, coll, now)[k].last_claim_date,
                daily_rewards,
            ) == accrued_reward(elapsed_since(later, now), daily_rewards as int),
        forall|k: int|
            0 <= k < stakes.len() && (#[trigger] stakes[k]).collection_address@ != coll ==> settled(
                stakes,
                coll,
                now,
            )[k] == stakes[k],
{
}

/// Uniqueness: registering a collection whose address and name no live
/// collection holds keeps every address unique, and keeps every name unique
/// where names were unique before.
pub proof fn added_collection_is_unique(
    before: StakingPlatform,
    after: StakingPlatform,
    address: String,
    collection: Collection,
)
    requires
        before.wf(),
        !before.collides(address@, collection.name@),
        after.collections@ == before.collections@.push((address, collection)),
    ensures
        forall|i: int, j: int|
            0 <= i < j < after.collections@.len() ==> (#[trigger] after.collections@[i]).0@ != (
            #[trigger] after.collections@[j]).0@,
        (forall|i: int, j: int|
            0 <= i < j < before.collections@.len() ==> (#[trigger] before.collections@[i]).1.name@
                != (#[trigger] before.collections@[j]).1.name@) ==> forall|i: int, j: int|
            0 <= i < j < after.collections@.len() ==> (#[trigger] after.collections@[i]).1.name@ != (
            #[trigger] after.collections@[j]).1.name@,
{
    let n = before.collections@.len() as int;
    assert forall|i: int, j: int| 0 <= i < j < after.collections@.len() implies (
    #[trigger] after.collections@[i]).0@ != (#[trigger] after.collections@[j]).0@ by {
        assert(after.collections@[i] == before.collections@[i]);
        if j < n {
            assert(after.collections@[j] == before.collections@[j]);
        }
    }
    if forall|i: int, j: int|
        0 <= i < j < before.collections@.len() ==> (#[trigger] before.collections@[i]).1.name@ != (
        #[trigger] before.collections@[j]).1.name@ {
        assert forall|i: int, j: int| 0 <= i < j < after.collections@.len() implies (
        #[trigger] after.collections@[i]).1.name@ != (#[trigger] after.collections@[j]).1.name@ by {
            assert(after.collections@[i] == before.collections@[i]);
            if j < n {
                assert(after.collections@[j] == before.collections@[j]);
            }
        }
    }
}

/// Non-negativity: every collection balance and every fee ledger line is
/// at least zero in every state.
pub proof fn amounts_are_non_negative(p: StakingPlatform)
    ensures
        forall|id: Seq<char>| #[trigger] p.balance_of(id) >= 0,
        forall|k: int| 0 <= k < p.funds@.len() ==> (#[trigger] p.funds@[k]).amount >= 0,
{
}

/// Distribution conservation: with weights in `[0, 1]` that sum to exactly
/// one, the floored shares of a balance never add up to more than the
/// balance.
pub proof fn distribution_conserves(amount: u128, ws: Seq<(String, u128)>)
    requires
        weights_in_range(ws),
        weight_sum(ws) == DECIMAL_FRACTIONAL,
    ensures
        0 <= shares_sum(amount as int, ws) <= amount,
{
    lemma_shares_bound(amount as int, ws);
    let s = shares_sum(amount as int, ws);
    assert(s <= amount) by (nonlinear_arith)
        requires
            s * DECIMAL_FRACTIONAL <= amount * DECIMAL_FRACTIONAL,
    ;
}

} // verus!
