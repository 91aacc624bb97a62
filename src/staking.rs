use crate::error::ContractError;
use crate::math::{item_reward, staking_reward};
use crate::msg::{
    lemma_merges_mints, merge_payouts, merges, mints, payout_instructions, to_instructions,
    totals_overflow, Instruction, Payout,
};
use crate::platform::{StakeRecord, StakingPlatform};
use crate::types::{Collection, EmissionType, StakedCollectionInfo, StakedTokenInfo};
use vstd::prelude::*;

verus! {

/// Some entry of `reqs` for collection `coll` lists item `token_id`.
pub open spec fn requested(reqs: Seq<StakedCollectionInfo>, coll: Seq<char>, token_id: u128) -> bool {
    exists|j: int, k: int|
        0 <= j < reqs.len() && 0 <= k < reqs[j].staked_token_info_list@.len() && (
        #[trigger] reqs[j]).collection_address@ == coll && (
        #[trigger] reqs[j].staked_token_info_list@[k]).token_id == token_id
}

/// Record `r` belongs to `staker` in collection `coll` and, unless `all`,
/// is one of the items `reqs` asks for.
pub open spec fn picks(
    r: StakeRecord,
    staker: Seq<char>,
    coll: Seq<char>,
    reqs: Seq<StakedCollectionInfo>,
    all: bool,
) -> bool {
    r.staker@ == staker && r.collection_address@ == coll && (all || requested(
        reqs,
        coll,
        r.token_id,
    ))
}

/// The rewards accrued by `now` on the records that `picks` selects.
pub open spec fn demand(
    stakes: Seq<StakeRecord>,
    staker: Seq<char>,
    coll: Seq<char>,
    reqs: Seq<StakedCollectionInfo>,
    all: bool,
    now: u64,
    daily_rewards: u128,
) -> int
    decreases stakes.len(),
{
    if stakes.len() == 0 {
        0
    } else {
        demand(stakes.drop_last(), staker, coll, reqs, all, now, daily_rewards) + if picks(
            stakes.last(),
            staker,
            coll,
            reqs,
            all,
        ) {
            item_reward(now, stakes.last().last_claim_date, daily_rewards)
        } else {
            0
        }
    }
}

/// What a collection actually pays against a demand: a spending collection
/// pays no more than its balance, the shortfall is forgone.
pub open spec fn paid(c: Collection, balance: int, demand: int) -> int {
    if c.emission_type == EmissionType::Spending && balance < demand {
        balance
    } else {
        demand
    }
}

fn is_requested(reqs: &Vec<StakedCollectionInfo>, coll: &String, token_id: u128) -> (r: bool)
    ensures
        r == requested(reqs@, coll@, token_id),
{
    let mut j: usize = 0;
    while j < reqs.len()
        invariant
            j <= reqs@.len(),
            forall|a: int, k: int|
                0 <= a < j && 0 <= k < reqs@[a].staked_token_info_list@.len() ==> !((
                #[trigger] reqs@[a]).collection_address@ == coll@ && (
                #[trigger] reqs@[a].staked_token_info_list@[k]).token_id == token_id),
        decreases reqs@.len() - j,
    {
        if reqs[j].collection_address == *coll {
            let list = &reqs[j].staked_token_info_list;
            let mut k: usize = 0;
            while k < list.len()
                invariant
                    k <= list@.len(),
                    j < reqs@.len(),
                    reqs@[j as int].collection_address@ == coll@,
                    list == reqs@[j as int].staked_token_info_list,
                    forall|t: int| 0 <= t < k ==> (#[trigger] list@[t]).token_id != token_id,
                decreases list@.len() - k,
            {
                if list[k].token_id == token_id {
                    assert(reqs@[j as int].staked_token_info_list@[k as int].token_id == token_id);
                    return true;
                }
                k = k + 1;
            }
        }
        j = j + 1;
    }
    false
}

fn is_picked(
    r: &StakeRecord,
    staker: &String,
    coll: &String,
    reqs: &Vec<StakedCollectionInfo>,
    all: bool,
) -> (b: bool)
    ensures
        b == picks(*r, staker@, coll@, reqs@, all),
{
    r.staker == *staker && r.collection_address == *coll && (all || is_requested(
        reqs,
        coll,
        r.token_id,
    ))
}

/// The demand of `staker` on collection `coll`; `None` when it does not fit
/// in 128 bits.
pub(crate) fn sum_rewards(
    stakes: &Vec<StakeRecord>,
    staker: &String,
    coll: &String,
    reqs: &Vec<StakedCollectionInfo>,
    all: bool,
    now: u64,
    daily_rewards: u128,
) -> (r: Option<u128>)
    ensures
        r matches Some(v) ==> v == demand(stakes@, staker@, coll@, reqs@, all, now, daily_rewards),
        r is None <==> demand(stakes@, staker@, coll@, reqs@, all, now, daily_rewards) > u128::MAX,
{
    let mut total: u128 = 0;
    let mut i: usize = 0;
    assert(stakes@.subrange(0, 0) == Seq::<StakeRecord>::empty());
    while i < stakes.len()
        invariant
            i <= stakes@.len(),
            total == demand(stakes@.subrange(0, i as int), staker@, coll@, reqs@, all, now, daily_rewards),
        decreases stakes@.len() - i,
    {
        let ghost next = stakes@.subrange(0, i + 1 as int);
        assert(next.drop_last() == stakes@.subrange(0, i as int));
        if is_picked(&stakes[i], staker, coll, reqs, all) {
            let reward = staking_reward(now, stakes[i].last_claim_date, daily_rewards);
            match total.checked_add(reward) {
                Some(t) => {
                    total = t;
                },
                None => {
                    proof {
                        lemma_demand_prefix(stakes@, i + 1, staker@, coll@, reqs@, all, now, daily_rewards);
                    }
                    return None;
                },
            }
        }
        i = i + 1;
    }
    assert(stakes@.subrange(0, stakes@.len() as int) == stakes@);
    Some(total)
}

pub proof fn lemma_demand_nonneg(
    stakes: Seq<StakeRecord>,
    staker: Seq<char>,
    coll: Seq<char>,
    reqs: Seq<StakedCollectionInfo>,
    all: bool,
    now: u64,
    daily_rewards: u128,
)
    ensures
        demand(stakes, staker, coll, reqs, all, now, daily_rewards) >= 0,
    decreases stakes.len(),
{
    if stakes.len() > 0 {
        lemma_demand_nonneg(stakes.drop_last(), staker, coll, reqs, all, now, daily_rewards);
        crate::math::lemma_item_reward_nonneg(now, stakes.last().last_claim_date, daily_rewards);
    }
}

proof fn lemma_demand_prefix(
    stakes: Seq<StakeRecord>,
    n: int,
    staker: Seq<char>,
    coll: Seq<char>,
    reqs: Seq<StakedCollectionInfo>,
    all: bool,
    now: u64,
    daily_rewards: u128,
)
    requires
        0 <= n <= stakes.len(),
    ensures
        demand(stakes.subrange(0, n), staker, coll, reqs, all, now, daily_rewards) <= demand(
            stakes,
            staker,
            coll,
            reqs,
            all,
            now,
            daily_rewards,
        ),
    decreases stakes.len() - n,
{
    if n < stakes.len() {
        lemma_demand_prefix(stakes, n + 1, staker, coll, reqs, all, now, daily_rewards);
        assert(stakes.subrange(0, n + 1).drop_last() == stakes.subrange(0, n));
        crate::math::lemma_item_reward_nonneg(now, stakes[n].last_claim_date, daily_rewards);
    } else {
        assert(stakes.subrange(0, n) == stakes);
    }
}


/// One payout per live collection, in registry order: what `recipient` is
/// owed for the records `picks` selects, clamped to the balance of a
/// spending collection when `clamp` holds.
pub open spec fn collection_payouts(
    p: StakingPlatform,
    recipient: String,
    staker: Seq<char>,
    reqs: Seq<StakedCollectionInfo>,
    all: bool,
    now: u64,
    clamp: bool,
) -> Seq<Payout> {
    p.collections@.map_values(
        |e: (String, Collection)|
            Payout {
                recipient,
                currency: e.1.staking_currency,
                emission_type: e.1.emission_type,
                amount: if clamp {
                    paid(
                        e.1,
                        p.balance_of(e.0@),
                        demand(p.stakes@, staker, e.0@, reqs, all, now, e.1.daily_rewards),
                    ) as u128
                } else {
                    demand(p.stakes@, staker, e.0@, reqs, all, now, e.1.daily_rewards) as u128
                },
            },
    )
}

/// Some collection's demand does not fit in 128 bits.
pub open spec fn demand_overflows(
    p: StakingPlatform,
    staker: Seq<char>,
    reqs: Seq<StakedCollectionInfo>,
    all: bool,
    now: u64,
) -> bool {
    exists|i: int|
        0 <= i < p.collections@.len() && demand(
            p.stakes@,
            staker,
            (#[trigger] p.collections@[i]).0@,
            reqs,
            all,
            now,
            p.collections@[i].1.daily_rewards,
        ) > u128::MAX
}

/// `after` has paid the payouts `ps` out of the balances of `before`'s
/// spending collections, and touched no other balance.
pub open spec fn debited(before: StakingPlatform, after: StakingPlatform, ps: Seq<Payout>) -> bool {
    &&& forall|i: int|
        0 <= i < before.collections@.len() ==> after.balance_of(
            (#[trigger] before.collections@[i]).0@,
        ) == if before.collections@[i].1.emission_type == EmissionType::Spending {
            before.balance_of(before.collections@[i].0@) - ps[i].amount
        } else {
            before.balance_of(before.collections@[i].0@)
        }
    &&& forall|id: Seq<char>|
        !before.has_collection(id) ==> #[trigger] after.balance_of(id) == before.balance_of(id)
}

impl StakingPlatform {
    pub(crate) fn compute_payouts(
        &self,
        recipient: &String,
        staker: &String,
        reqs: &Vec<StakedCollectionInfo>,
        all: bool,
        now: u64,
        clamp: bool,
    ) -> (r: Result<Vec<Payout>, ContractError>)
        requires
            self.wf(),
        ensures
            r is Err <==> demand_overflows(*self, staker@, reqs@, all, now),
            r is Err ==> r == Err::<Vec<Payout>, _>(ContractError::AmountOverflow),
            r matches Ok(v) ==> v@ == collection_payouts(*self, *recipient, staker@, reqs@, all, now, clamp),
    {
        let mut out: Vec<Payout> = Vec::new();
        let mut i: usize = 0;
        while i < self.collections.len()
            invariant
                i <= self.collections@.len(),
                self.wf(),
                out@ == collection_payouts(*self, *recipient, staker@, reqs@, all, now, clamp).subrange(
                    0,
                    i as int,
                ),
                forall|t: int|
                    0 <= t < i ==> demand(
                        self.stakes@,
                        staker@,
                        (#[trigger] self.collections@[t]).0@,
                        reqs@,
                        all,
                        now,
                        self.collections@[t].1.daily_rewards,
                    ) <= u128::MAX,
            decreases self.collections@.len() - i,
        {
            let id = &self.collections[i].0;
            let c = &self.collections[i].1;
            let d = match sum_rewards(&self.stakes, staker, id, reqs, all, now, c.daily_rewards) {
                Some(d) => d,
                None => {
                    return Err(ContractError::AmountOverflow);
                },
            };
            let balance: u128 = match self.find_balance(id) {
                Some(j) => {
                    proof {
                        self.lemma_balance_at(j as int);
                    }
                    self.collections_balances[j].1.amount
                },
                None => 0,
            };
            let amount = if clamp && c.emission_type == EmissionType::Spending && balance < d {
                balance
            } else {
                d
            };
            out.push(
                Payout {
                    recipient: recipient.clone(),
                    currency: c.staking_currency.clone(),
                    emission_type: c.emission_type,
                    amount,
                },
            );
            proof {
                let full = collection_payouts(*self, *recipient, staker@, reqs@, all, now, clamp);
                assert(full.subrange(0, i + 1 as int) == full.subrange(0, i as int).push(full[i as int]));
            }
            i = i + 1;
        }
        proof {
            let full = collection_payouts(*self, *recipient, staker@, reqs@, all, now, clamp);
            assert(full.subrange(0, full.len() as int) == full);
        }
        Ok(out)
    }

    /// Takes the payouts out of the balances of the spending collections.
    fn pay_from_balances(&mut self, ps: &Vec<Payout>)
        requires
            old(self).wf(),
            ps@.len() == old(self).collections@.len(),
            forall|i: int|
                0 <= i < ps@.len() ==> (#[trigger] old(self).collections@[i]).1.emission_type
                    == EmissionType::Spending ==> ps@[i].amount <= old(self).balance_of(
                    old(self).collections@[i].0@,
                ),
        ensures
            final(self).wf(),
            debited(*old(self), *final(self), ps@),
            final(self).config == old(self).config,
            final(self).collections == old(self).collections,
            final(self).proposals == old(self).proposals,
            final(self).funds == old(self).funds,
            final(self).stakes == old(self).stakes,
            final(self).stakers == old(self).stakers,
    {
        let ghost before = *self;
        let mut i: usize = 0;
        while i < ps.len()
            invariant
                i <= ps@.len(),
                ps@.len() == before.collections@.len(),
                self.wf(),
                before.wf(),
                self.collections == before.collections,
                self.config == before.config,
                self.proposals == before.proposals,
                self.funds == before.funds,
                self.stakes == before.stakes,
                self.stakers == before.stakers,
                forall|t: int|
                    0 <= t < ps@.len() ==> (#[trigger] before.collections@[t]).1.emission_type
                        == EmissionType::Spending ==> ps@[t].amount <= before.balance_of(
                        before.collections@[t].0@,
                    ),
                forall|t: int|
                    0 <= t < i ==> self.balance_of((#[trigger] before.collections@[t]).0@) == if before.collections@[t].1.emission_type
                        == EmissionType::Spending {
                        before.balance_of(before.collections@[t].0@) - ps@[t].amount
                    } else {
                        before.balance_of(before.collections@[t].0@)
                    },
                forall|t: int|
                    i <= t < before.collections@.len() ==> self.balance_of(
                        (#[trigger] before.collections@[t]).0@,
                    ) == before.balance_of(before.collections@[t].0@),
                forall|id: Seq<char>|
                    !before.has_collection(id) ==> #[trigger] self.balance_of(id)
                        == before.balance_of(id),
            decreases ps@.len() - i,
        {
            let c = &self.collections[i].1;
            if c.emission_type == EmissionType::Spending && ps[i].amount > 0 {
                let id = self.collections[i].0.clone();
                let currency = c.staking_currency.clone();
                let current: u128 = match self.find_balance(&id) {
                    Some(j) => {
                        proof {
                            self.lemma_balance_at(j as int);
                        }
                        self.collections_balances[j].1.amount
                    },
                    None => 0,
                };
                let ghost mid = *self;
                self.set_balance(&id, current - ps[i].amount, &currency);
                proof {
                    assert forall|t: int| 0 <= t < before.collections@.len() && t != i implies (
                    #[trigger] before.collections@[t]).0@ != id@ by {
                        if t < i {
                            assert(before.collections@[t].0@ != before.collections@[i as int].0@);
                        } else {
                            assert(before.collections@[i as int].0@ != before.collections@[t].0@);
                        }
                    }
                    assert forall|x: Seq<char>| !before.has_collection(x) implies x != id@ by {
                        assert(before.collections@[i as int].0@ == id@);
                    }
                }
            }
            i = i + 1;
        }
    }
}

/// Some item of `staker` sits in a collection that is no longer registered.
pub open spec fn orphaned(p: StakingPlatform, staker: Seq<char>) -> bool {
    exists|k: int|
        0 <= k < p.stakes@.len() && (#[trigger] p.stakes@[k]).staker@ == staker
            && !p.has_collection(p.stakes@[k].collection_address@)
}

/// The ledger after every item of `staker` has had its rewards taken at `now`.
pub open spec fn claimed(stakes: Seq<StakeRecord>, staker: Seq<char>, now: u64) -> Seq<StakeRecord> {
    stakes.map_values(
        |r: StakeRecord|
            if r.staker@ == staker {
                StakeRecord { last_claim_date: now, ..r }
            } else {
                r
            },
    )
}

pub fn clone_record(r: &StakeRecord) -> (c: StakeRecord)
    ensures
        c == *r,
{
    StakeRecord {
        staker: r.staker.clone(),
        collection_address: r.collection_address.clone(),
        token_id: r.token_id,
        staking_start_date: r.staking_start_date,
        last_claim_date: r.last_claim_date,
    }
}

proof fn lemma_paid_within_balance(p: StakingPlatform, ps: Seq<Payout>, recipient: String, staker: Seq<char>, reqs: Seq<StakedCollectionInfo>, all: bool, now: u64)
    requires
        ps == collection_payouts(p, recipient, staker, reqs, all, now, true),
        !demand_overflows(p, staker, reqs, all, now),
    ensures
        ps.len() == p.collections@.len(),
        forall|i: int|
            0 <= i < ps.len() ==> (#[trigger] p.collections@[i]).1.emission_type
                == EmissionType::Spending ==> ps[i].amount <= p.balance_of(p.collections@[i].0@),
{
    assert forall|i: int| 0 <= i < ps.len() implies (#[trigger] p.collections@[i]).1.emission_type
        == EmissionType::Spending ==> ps[i].amount <= p.balance_of(p.collections@[i].0@) by {
        let e = p.collections@[i];
        let d = demand(p.stakes@, staker, e.0@, reqs, all, now, e.1.daily_rewards);
        assert(d <= u128::MAX);
        lemma_demand_nonneg(p.stakes@, staker, e.0@, reqs, all, now, e.1.daily_rewards);
    }
}

/// Minted payouts are always in a native currency.
proof fn lemma_payouts_native(p: StakingPlatform, ps: Seq<Payout>, recipient: String, staker: Seq<char>, reqs: Seq<StakedCollectionInfo>, all: bool, now: u64, clamp: bool)
    requires
        p.wf(),
        ps == collection_payouts(p, recipient, staker, reqs, all, now, clamp),
    ensures
        !crate::msg::mints_contract_token(ps),
{
    if crate::msg::mints_contract_token(ps) {
        let i = choose|i: int|
            0 <= i < ps.len() && (#[trigger] ps[i]).amount > 0 && ps[i].emission_type
                == EmissionType::Minting && ps[i].currency.token@ is Cw20;
        assert(p.collections@[i].1.valid_emission());
    }
}

/// Some item of `staker` was last claimed after `now`.
pub open spec fn claimed_after(p: StakingPlatform, staker: Seq<char>, now: u64) -> bool {
    exists|k: int|
        0 <= k < p.stakes@.len() && (#[trigger] p.stakes@[k]).staker@ == staker
            && p.stakes@[k].last_claim_date > now
}

/// Some item an unstake request names was last claimed after `now`.
pub open spec fn leaving_claimed_after(
    p: StakingPlatform,
    staker: Seq<char>,
    reqs: Seq<StakedCollectionInfo>,
    now: u64,
) -> bool {
    exists|k: int|
        0 <= k < p.stakes@.len() && leaves(#[trigger] p.stakes@[k], staker, reqs)
            && p.stakes@[k].last_claim_date > now
}

impl StakingPlatform {
    pub(crate) fn find_claimed_after(
        &self,
        staker: &String,
        reqs: &Vec<StakedCollectionInfo>,
        all: bool,
        now: u64,
    ) -> (r: bool)
        ensures
            all ==> r == claimed_after(*self, staker@, now),
            !all ==> r == leaving_claimed_after(*self, staker@, reqs@, now),
    {
        let mut k: usize = 0;
        while k < self.stakes.len()
            invariant
                k <= self.stakes@.len(),
                all ==> forall|t: int|
                    0 <= t < k ==> !((#[trigger] self.stakes@[t]).staker@ == staker@
                        && self.stakes@[t].last_claim_date > now),
                !all ==> forall|t: int|
                    0 <= t < k ==> !(leaves(#[trigger] self.stakes@[t], staker@, reqs@)
                        && self.stakes@[t].last_claim_date > now),
            decreases self.stakes@.len() - k,
        {
            let r = &self.stakes[k];
            if r.staker == *staker && r.last_claim_date > now && (all || is_requested(
                reqs,
                &r.collection_address,
                r.token_id,
            )) {
                return true;
            }
            k = k + 1;
        }
        false
    }
}

impl StakingPlatform {
    pub(crate) fn find_orphan(&self, staker: &String) -> (r: bool)
        ensures
            r == orphaned(*self, staker@),
    {
        let mut k: usize = 0;
        while k < self.stakes.len()
            invariant
                k <= self.stakes@.len(),
                forall|t: int|
                    0 <= t < k ==> !((#[trigger] self.stakes@[t]).staker@ == staker@
                        && !self.has_collection(self.stakes@[t].collection_address@)),
            decreases self.stakes@.len() - k,
        {
            if self.stakes[k].staker == *staker
                && self.find_collection(&self.stakes[k].collection_address).is_none() {
                return true;
            }
            k = k + 1;
        }
        false
    }

    fn reset_claims(&mut self, staker: &String, now: u64)
        requires
            old(self).wf(),
        ensures
            final(self).wf(),
            final(self).stakes@ == claimed(old(self).stakes@, staker@, now),
            final(self).config == old(self).config,
            final(self).collections == old(self).collections,
            final(self).collections_balances == old(self).collections_balances,
            final(self).proposals == old(self).proposals,
            final(self).funds == old(self).funds,
            final(self).stakers == old(self).stakers,
    {
        let ghost before = *self;
        let mut k: usize = 0;
        while k < self.stakes.len()
            invariant
                k <= self.stakes@.len(),
                self.stakes@.len() == before.stakes@.len(),
                forall|t: int| 0 <= t < k ==> #[trigger] self.stakes@[t] == claimed(before.stakes@, staker@, now)[t],
                forall|t: int| k <= t < self.stakes@.len() ==> #[trigger] self.stakes@[t] == before.stakes@[t],
                self.config == before.config,
                self.collections == before.collections,
                self.collections_balances == before.collections_balances,
                self.proposals == before.proposals,
                self.funds == before.funds,
                self.stakers == before.stakers,
                before.wf(),
            decreases self.stakes@.len() - k,
        {
            if self.stakes[k].staker == *staker {
                let mut r = clone_record(&self.stakes[k]);
                r.last_claim_date = now;
                self.stakes.set(k, r);
            }
            k = k + 1;
        }
        assert(self.stakes@ =~= claimed(before.stakes@, staker@, now));
    }

    /// Pays `sender` what every item of theirs has accrued by `now`, summed
    /// per currency; a spending collection pays no more than its balance
    /// and the shortfall is forgone. Every item's last claim becomes `now`.
    pub fn try_claim_staking_rewards(&mut self, sender: &String, now: u64) -> (r: Result<
        Vec<Instruction>,
        ContractError,
    >)
        requires
            old(self).wf(),
        ensures
            final(self).wf(),
            r is Err ==> *final(self) == *old(self),
            ({
                let none = Seq::<StakedCollectionInfo>::empty();
                let ps = collection_payouts(*old(self), *sender, sender@, none, true, now, true);
                let orphan = orphaned(*old(self), sender@);
                let late = claimed_after(*old(self), sender@, now);
                let overflow = demand_overflows(*old(self), sender@, none, true, now) || totals_overflow(ps);
                &&& orphan ==> r == Err::<Vec<Instruction>, _>(ContractError::CollectionIsNotFound)
                &&& !orphan && late ==> r == Err::<Vec<Instruction>, _>(
                    ContractError::TimestampBeforeLastClaim,
                )
                &&& !orphan && !late && overflow ==> r == Err::<Vec<Instruction>, _>(
                    ContractError::AmountOverflow,
                )
                &&& !orphan && !late && !overflow && old(self).config.minter is None && mints(ps) ==> (r matches Err(
                    ContractError::ParameterIsNotFound { .. },
                ))
                &&& r is Ok <==> !orphan && !late && !overflow && (old(self).config.minter is Some || !mints(ps))
                &&& r matches Ok(msgs) ==> final(self).stakes@ == claimed(old(self).stakes@, sender@, now)
                    && debited(*old(self), *final(self), ps) && exists|m: Seq<Payout>|
                    merges(m, ps) && msgs@ == payout_instructions(m, old(self).config.minter)
            }),
            r is Ok ==> final(self).config == old(self).config && final(self).collections == old(self).collections
                && final(self).proposals == old(self).proposals && final(self).funds == old(self).funds
                && final(self).stakers == old(self).stakers,
    {
        if self.find_orphan(sender) {
            return Err(ContractError::CollectionIsNotFound);
        }
        let none: Vec<StakedCollectionInfo> = Vec::new();
        if self.find_claimed_after(sender, &none, true, now) {
            return Err(ContractError::TimestampBeforeLastClaim);
        }
        let ps = self.compute_payouts(sender, sender, &none, true, now, true)?;
        let merged = merge_payouts(&ps)?;
        proof {
            lemma_merges_mints(merged@, ps@);
            lemma_payouts_native(*self, ps@, *sender, sender@, none@, true, now, true);
            lemma_paid_within_balance(*self, ps@, *sender, sender@, none@, true, now);
        }
        let msgs = to_instructions(&merged, &self.config.minter)?;
        let ghost before = *self;
        self.pay_from_balances(&ps);
        let ghost mid = *self;
        self.reset_claims(sender, now);
        proof {
            assert forall|id: Seq<char>| #[trigger] self.balance_of(id) == mid.balance_of(id) by {
                assert(self.has_balance(id) == mid.has_balance(id));
            }
        }
        Ok(msgs)
    }
}

/// The records a stake request opens, collection by collection, item by item.
pub open spec fn staked_records(sender: String, reqs: Seq<StakedCollectionInfo>, now: u64) -> Seq<
    StakeRecord,
>
    decreases reqs.len(),
{
    if reqs.len() == 0 {
        Seq::empty()
    } else {
        staked_records(sender, reqs.drop_last(), now) + reqs.last().staked_token_info_list@.map_values(
            |t: StakedTokenInfo|
                StakeRecord {
                    staker: sender,
                    collection_address: reqs.last().collection_address,
                    token_id: t.token_id,
                    staking_start_date: now,
                    last_claim_date: now,
                },
        )
    }
}

/// The custody transfers a stake request asks for, in the same order.
pub open spec fn custody_requests(sender: String, reqs: Seq<StakedCollectionInfo>) -> Seq<Instruction>
    decreases reqs.len(),
{
    if reqs.len() == 0 {
        Seq::empty()
    } else {
        custody_requests(sender, reqs.drop_last()) + reqs.last().staked_token_info_list@.map_values(
            |t: StakedTokenInfo|
                Instruction::ReceiveNft {
                    collection_address: reqs.last().collection_address,
                    token_id: t.token_id,
                    sender,
                },
        )
    }
}

pub open spec fn is_staker(p: StakingPlatform, who: Seq<char>) -> bool {
    exists|i: int| 0 <= i < p.stakers@.len() && (#[trigger] p.stakers@[i])@ == who
}

/// `staker` holds at least one item of collection `coll`.
pub open spec fn staked_in(p: StakingPlatform, staker: Seq<char>, coll: Seq<char>) -> bool {
    exists|k: int|
        0 <= k < p.stakes@.len() && (#[trigger] p.stakes@[k]).staker@ == staker
            && p.stakes@[k].collection_address@ == coll
}

/// `staker` holds item `token_id` of collection `coll`.
pub open spec fn holds(p: StakingPlatform, staker: Seq<char>, coll: Seq<char>, token_id: u128) -> bool {
    exists|k: int|
        0 <= k < p.stakes@.len() && (#[trigger] p.stakes@[k]).staker@ == staker
            && p.stakes@[k].collection_address@ == coll && p.stakes@[k].token_id == token_id
}

/// An unstake request names a collection the staker holds nothing in, or
/// one that is no longer registered.
pub open spec fn names_unknown_collection(
    p: StakingPlatform,
    staker: Seq<char>,
    reqs: Seq<StakedCollectionInfo>,
) -> bool {
    exists|j: int|
        0 <= j < reqs.len() && !(staked_in(p, staker, (#[trigger] reqs[j]).collection_address@)
            && p.has_collection(reqs[j].collection_address@))
}

/// An unstake request names an item the staker does not hold.
pub open spec fn names_unknown_item(
    p: StakingPlatform,
    staker: Seq<char>,
    reqs: Seq<StakedCollectionInfo>,
) -> bool {
    exists|j: int, t: int|
        0 <= j < reqs.len() && 0 <= t < reqs[j].staked_token_info_list@.len() && !holds(
            p,
            staker,
            (#[trigger] reqs[j]).collection_address@,
            (#[trigger] reqs[j].staked_token_info_list@[t]).token_id,
        )
}

pub open spec fn leaves(r: StakeRecord, staker: Seq<char>, reqs: Seq<StakedCollectionInfo>) -> bool {
    r.staker@ == staker && requested(reqs, r.collection_address@, r.token_id)
}

/// The records an unstake request leaves in place, in order.
pub open spec fn remaining(stakes: Seq<StakeRecord>, staker: Seq<char>, reqs: Seq<StakedCollectionInfo>) -> Seq<StakeRecord>
    decreases stakes.len(),
{
    if stakes.len() == 0 {
        Seq::empty()
    } else {
        let rest = remaining(stakes.drop_last(), staker, reqs);
        if leaves(stakes.last(), staker, reqs) {
            rest
        } else {
            rest.push(stakes.last())
        }
    }
}

/// The items an unstake request hands back to `recipient`, in ledger order.
pub open spec fn releases(stakes: Seq<StakeRecord>, recipient: String, reqs: Seq<StakedCollectionInfo>) -> Seq<Instruction>
    decreases stakes.len(),
{
    if stakes.len() == 0 {
        Seq::empty()
    } else {
        let rest = releases(stakes.drop_last(), recipient, reqs);
        if leaves(stakes.last(), recipient@, reqs) {
            rest.push(
                Instruction::ReleaseNft {
                    collection_address: stakes.last().collection_address,
                    token_id: stakes.last().token_id,
                    recipient,
                },
            )
        } else {
            rest
        }
    }
}

impl StakingPlatform {
    pub(crate) fn find_staked_in(&self, staker: &String, coll: &String) -> (r: bool)
        ensures
            r == staked_in(*self, staker@, coll@),
    {
        let mut k: usize = 0;
        while k < self.stakes.len()
            invariant
                k <= self.stakes@.len(),
                forall|t: int|
                    0 <= t < k ==> !((#[trigger] self.stakes@[t]).staker@ == staker@
                        && self.stakes@[t].collection_address@ == coll@),
            decreases self.stakes@.len() - k,
        {
            if self.stakes[k].staker == *staker && self.stakes[k].collection_address == *coll {
                return true;
            }
            k = k + 1;
        }
        false
    }

    fn find_held(&self, staker: &String, coll: &String, token_id: u128) -> (r: bool)
        ensures
            r == holds(*self, staker@, coll@, token_id),
    {
        let mut k: usize = 0;
        while k < self.stakes.len()
            invariant
                k <= self.stakes@.len(),
                forall|t: int|
                    0 <= t < k ==> !((#[trigger] self.stakes@[t]).staker@ == staker@
                        && self.stakes@[t].collection_address@ == coll@ && self.stakes@[t].token_id
                        == token_id),
            decreases self.stakes@.len() - k,
        {
            if self.stakes[k].staker == *staker && self.stakes[k].collection_address == *coll
                && self.stakes[k].token_id == token_id {
                return true;
            }
            k = k + 1;
        }
        false
    }

    fn find_staker(&self, who: &String) -> (r: bool)
        ensures
            r == is_staker(*self, who@),
    {
        let mut i: usize = 0;
        while i < self.stakers.len()
            invariant
                i <= self.stakers@.len(),
                forall|t: int| 0 <= t < i ==> (#[trigger] self.stakers@[t])@ != who@,
            decreases self.stakers@.len() - i,
        {
            if self.stakers[i] == *who {
                return true;
            }
            i = i + 1;
        }
        false
    }

    /// Stakes the listed items of `sender` at `now`: each becomes a record
    /// whose staking start and last claim are `now`, and is taken into
    /// custody. Every listed collection must be registered.
    pub fn try_stake(
        &mut self,
        sender: &String,
        now: u64,
        collections_to_stake: &Vec<StakedCollectionInfo>,
    ) -> (r: Result<Vec<Instruction>, ContractError>)
        requires
            old(self).wf(),
        ensures
            final(self).wf(),
            r is Err ==> *final(self) == *old(self),
            r is Err <==> exists|j: int|
                0 <= j < collections_to_stake@.len() && !old(self).has_collection(
                    (#[trigger] collections_to_stake@[j]).collection_address@,
                ),
            r is Err ==> r == Err::<Vec<Instruction>, _>(ContractError::CollectionIsNotFound),
            r matches Ok(msgs) ==> msgs@ == custody_requests(*sender, collections_to_stake@)
                && final(self).stakes@ == old(self).stakes@ + staked_records(
                *sender,
                collections_to_stake@,
                now,
            ) && final(self).stakers@ == if is_staker(*old(self), sender@) {
                old(self).stakers@
            } else {
                old(self).stakers@.push(*sender)
            },
            r is Ok ==> final(self).config == old(self).config && final(self).collections == old(self).collections
                && final(self).collections_balances == old(self).collections_balances
                && final(self).proposals == old(self).proposals && final(self).funds == old(self).funds,
    {
        let reqs = collections_to_stake;
        let mut j: usize = 0;
        while j < reqs.len()
            invariant
                j <= reqs@.len(),
                forall|t: int| 0 <= t < j ==> old(self).has_collection((#[trigger] reqs@[t]).collection_address@),
                *self == *old(self),
                self.wf(),
                reqs@ == collections_to_stake@,
            decreases reqs@.len() - j,
        {
            if self.find_collection(&reqs[j].collection_address).is_none() {
                assert(!old(self).has_collection(collections_to_stake@[j as int].collection_address@));
                return Err(ContractError::CollectionIsNotFound);
            }
            j = j + 1;
        }
        let ghost before = *self;
        let mut msgs: Vec<Instruction> = Vec::new();
        let mut j: usize = 0;
        while j < reqs.len()
            invariant
                j <= reqs@.len(),
                reqs@ == collections_to_stake@,
                self.stakes@ == before.stakes@ + staked_records(*sender, reqs@.subrange(0, j as int), now),
                msgs@ == custody_requests(*sender, reqs@.subrange(0, j as int)),
                self.config == before.config,
                self.collections == before.collections,
                self.collections_balances == before.collections_balances,
                self.proposals == before.proposals,
                self.funds == before.funds,
                self.stakers == before.stakers,
            decreases reqs@.len() - j,
        {
            let entry = &reqs[j];
            let ghost stakes_before = self.stakes@;
            let ghost msgs_before = msgs@;
            let list = &entry.staked_token_info_list;
            let mut k: usize = 0;
            while k < list.len()
                invariant
                    k <= list@.len(),
                    self.stakes@ == stakes_before + list@.subrange(0, k as int).map_values(
                        |t: StakedTokenInfo|
                            StakeRecord {
                                staker: *sender,
                                collection_address: entry.collection_address,
                                token_id: t.token_id,
                                staking_start_date: now,
                                last_claim_date: now,
                            },
                    ),
                    msgs@ == msgs_before + list@.subrange(0, k as int).map_values(
                        |t: StakedTokenInfo|
                            Instruction::ReceiveNft {
                                collection_address: entry.collection_address,
                                token_id: t.token_id,
                                sender: *sender,
                            },
                    ),
                    self.config == before.config,
                    self.collections == before.collections,
                    self.collections_balances == before.collections_balances,
                    self.proposals == before.proposals,
                    self.funds == before.funds,
                    self.stakers == before.stakers,
                decreases list@.len() - k,
            {
                let token_id = list[k].token_id;
                self.stakes.push(
                    StakeRecord {
                        staker: sender.clone(),
                        collection_address: entry.collection_address.clone(),
                        token_id,
                        staking_start_date: now,
                        last_claim_date: now,
                    },
                );
                msgs.push(
                    Instruction::ReceiveNft {
                        collection_address: entry.collection_address.clone(),
                        token_id,
                        sender: sender.clone(),
                    },
                );
                proof {
                    let sub = list@.subrange(0, k + 1 as int);
                    assert(sub.drop_last() == list@.subrange(0, k as int));
                    assert(sub.map_values(
                        |t: StakedTokenInfo|
                            StakeRecord {
                                staker: *sender,
                                collection_address: entry.collection_address,
                                token_id: t.token_id,
                                staking_start_date: now,
                                last_claim_date: now,
                            },
                    ) =~= list@.subrange(0, k as int).map_values(
                        |t: StakedTokenInfo|
                            StakeRecord {
                                staker: *sender,
                                collection_address: entry.collection_address,
                                token_id: t.token_id,
                                staking_start_date: now,
                                last_claim_date: now,
                            },
                    ).push(StakeRecord {
                                staker: *sender,
                                collection_address: entry.collection_address,
                                token_id,
                                staking_start_date: now,
                                last_claim_date: now,
                            }));
                    assert(sub.map_values(
                        |t: StakedTokenInfo|
                            Instruction::ReceiveNft {
                                collection_address: entry.collection_address,
                                token_id: t.token_id,
                                sender: *sender,
                            },
                    ) =~= list@.subrange(0, k as int).map_values(
                        |t: StakedTokenInfo|
                            Instruction::ReceiveNft {
                                collection_address: entry.collection_address,
                                token_id: t.token_id,
                                sender: *sender,
                            },
                    ).push(Instruction::ReceiveNft {
                                collection_address: entry.collection_address,
                                token_id,
                                sender: *sender,
                            }));
                }
                k = k + 1;
            }
            proof {
                let sub = reqs@.subrange(0, j + 1 as int);
                assert(sub.drop_last() == reqs@.subrange(0, j as int));
                assert(sub.last() == *entry);
                assert(list@.subrange(0, list@.len() as int) == list@);
            }
            j = j + 1;
        }
        proof {
            assert(reqs@.subrange(0, reqs@.len() as int) == reqs@);
        }
        if !self.find_staker(sender) {
            self.stakers.push(sender.clone());
            proof {
                assert forall|t: int, u: int|
                    0 <= t < u < self.stakers@.len() implies (#[trigger] self.stakers@[t])@ != (
                    #[trigger] self.stakers@[u])@ by {
                    if u == self.stakers@.len() - 1 {
                        assert(self.stakers@[t] == before.stakers@[t]);
                    } else {
                        assert(self.stakers@[t] == before.stakers@[t]);
                        assert(self.stakers@[u] == before.stakers@[u]);
                    }
                }
            }
        }
        Ok(msgs)
    }
}

impl StakingPlatform {
    /// Unstakes the listed items of `sender`: each leaves the ledger and is
    /// released from custody, and what the items accrued by `now` is paid,
    /// summed per currency and clamped to the balance of a spending
    /// collection. Every listed collection must hold items of `sender` and be
    /// registered; every listed item must be staked by `sender`.
    pub fn try_unstake(
        &mut self,
        sender: &String,
        now: u64,
        collections_to_unstake: &Vec<StakedCollectionInfo>,
    ) -> (r: Result<Vec<Instruction>, ContractError>)
        requires
            old(self).wf(),
        ensures
            final(self).wf(),
            r is Err ==> *final(self) == *old(self),
            ({
                let reqs = collections_to_unstake@;
                let ps = collection_payouts(*old(self), *sender, sender@, reqs, false, now, true);
                let bad_collection = names_unknown_collection(*old(self), sender@, reqs);
                let bad_item = names_unknown_item(*old(self), sender@, reqs);
                let late = leaving_claimed_after(*old(self), sender@, reqs, now);
                let overflow = demand_overflows(*old(self), sender@, reqs, false, now) || totals_overflow(ps);
                &&& bad_collection ==> r == Err::<Vec<Instruction>, _>(ContractError::CollectionIsNotFound)
                &&& !bad_collection && bad_item ==> r == Err::<Vec<Instruction>, _>(ContractError::AssetIsNotFound)
                &&& !bad_collection && !bad_item && late ==> r == Err::<Vec<Instruction>, _>(
                    ContractError::TimestampBeforeLastClaim,
                )
                &&& !bad_collection && !bad_item && !late && overflow ==> r == Err::<Vec<Instruction>, _>(
                    ContractError::AmountOverflow,
                )
                &&& !bad_collection && !bad_item && !late && !overflow && old(self).config.minter is None && mints(ps) ==> (r matches Err(
                    ContractError::ParameterIsNotFound { .. },
                ))
                &&& r is Ok <==> !bad_collection && !bad_item && !late && !overflow && (old(self).config.minter is Some
                    || !mints(ps))
                &&& r matches Ok(msgs) ==> final(self).stakes@ == remaining(old(self).stakes@, sender@, reqs)
                    && debited(*old(self), *final(self), ps) && exists|m: Seq<Payout>|
                    merges(m, ps) && msgs@ == releases(old(self).stakes@, *sender, reqs) + payout_instructions(
                        m,
                        old(self).config.minter,
                    )
            }),
            r is Ok ==> final(self).config == old(self).config && final(self).collections == old(self).collections
                && final(self).proposals == old(self).proposals && final(self).funds == old(self).funds
                && final(self).stakers == old(self).stakers,
    {
        let reqs = collections_to_unstake;
        let mut j: usize = 0;
        while j < reqs.len()
            invariant
                j <= reqs@.len(),
                reqs@ == collections_to_unstake@,
                *self == *old(self),
                self.wf(),
                forall|t: int|
                    0 <= t < j ==> staked_in(*self, sender@, (#[trigger] reqs@[t]).collection_address@)
                        && self.has_collection(reqs@[t].collection_address@),
            decreases reqs@.len() - j,
        {
            if !(self.find_staked_in(sender, &reqs[j].collection_address) && self.find_collection(
                &reqs[j].collection_address,
            ).is_some()) {
                assert(!(staked_in(*self, sender@, collections_to_unstake@[j as int].collection_address@)
                    && self.has_collection(collections_to_unstake@[j as int].collection_address@)));
                return Err(ContractError::CollectionIsNotFound);
            }
            j = j + 1;
        }
        assert(!names_unknown_collection(*old(self), sender@, collections_to_unstake@));
        let mut j: usize = 0;
        while j < reqs.len()
            invariant
                j <= reqs@.len(),
                reqs@ == collections_to_unstake@,
                *self == *old(self),
                self.wf(),
                !names_unknown_collection(*old(self), sender@, collections_to_unstake@),
                forall|a: int, t: int|
                    0 <= a < j && 0 <= t < reqs@[a].staked_token_info_list@.len() ==> holds(
                        *self,
                        sender@,
                        (#[trigger] reqs@[a]).collection_address@,
                        (#[trigger] reqs@[a].staked_token_info_list@[t]).token_id,
                    ),
            decreases reqs@.len() - j,
        {
            let list = &reqs[j].staked_token_info_list;
            let mut t: usize = 0;
            while t < list.len()
                invariant
                    t <= list@.len(),
                    j < reqs@.len(),
                    reqs@ == collections_to_unstake@,
                    *self == *old(self),
                    self.wf(),
                    !names_unknown_collection(*old(self), sender@, collections_to_unstake@),
                    list == reqs@[j as int].staked_token_info_list,
                    forall|u: int|
                        0 <= u < t ==> holds(
                            *self,
                            sender@,
                            reqs@[j as int].collection_address@,
                            (#[trigger] list@[u]).token_id,
                        ),
                decreases list@.len() - t,
            {
                if !self.find_held(sender, &reqs[j].collection_address, list[t].token_id) {
                    assert(!holds(
                        *self,
                        sender@,
                        collections_to_unstake@[j as int].collection_address@,
                        collections_to_unstake@[j as int].staked_token_info_list@[t as int].token_id,
                    ));
                    return Err(ContractError::AssetIsNotFound);
                }
                t = t + 1;
            }
            j = j + 1;
        }
        if self.find_claimed_after(sender, reqs, false, now) {
            return Err(ContractError::TimestampBeforeLastClaim);
        }
        let ps = self.compute_payouts(sender, sender, reqs, false, now, true)?;
        let merged = merge_payouts(&ps)?;
        proof {
            lemma_merges_mints(merged@, ps@);
            lemma_payouts_native(*self, ps@, *sender, sender@, reqs@, false, now, true);
            lemma_paid_within_balance(*self, ps@, *sender, sender@, reqs@, false, now);
        }
        let mut instrs = to_instructions(&merged, &self.config.minter)?;
        let ghost before = *self;
        self.pay_from_balances(&ps);
        let ghost mid = *self;
        let mut kept: Vec<StakeRecord> = Vec::new();
        let mut released: Vec<Instruction> = Vec::new();
        let mut k: usize = 0;
        assert(mid.stakes@.subrange(0, 0) == Seq::<StakeRecord>::empty());
        while k < self.stakes.len()
            invariant
                k <= self.stakes@.len(),
                *self == mid,
                mid.stakes == before.stakes,
                reqs@ == collections_to_unstake@,
                kept@ == remaining(mid.stakes@.subrange(0, k as int), sender@, reqs@),
                released@ == releases(mid.stakes@.subrange(0, k as int), *sender, reqs@),
            decreases self.stakes@.len() - k,
        {
            let rec = &self.stakes[k];
            proof {
                let sub = mid.stakes@.subrange(0, k + 1 as int);
                assert(sub.drop_last() == mid.stakes@.subrange(0, k as int));
                assert(sub.last() == *rec);
            }
            if rec.staker == *sender && is_requested(reqs, &rec.collection_address, rec.token_id) {
                released.push(
                    Instruction::ReleaseNft {
                        collection_address: rec.collection_address.clone(),
                        token_id: rec.token_id,
                        recipient: sender.clone(),
                    },
                );
            } else {
                kept.push(clone_record(rec));
            }
            k = k + 1;
        }
        proof {
            assert(mid.stakes@.subrange(0, mid.stakes@.len() as int) == mid.stakes@);
        }
        self.stakes = kept;
        assert(self.collections_balances == mid.collections_balances);
        proof {
            assert forall|id: Seq<char>| #[trigger] self.balance_of(id) == mid.balance_of(id) by {
                assert(self.has_balance(id) == mid.has_balance(id));
            }
        }
        released.append(&mut instrs);
        Ok(released)
    }
}

} // verus!
