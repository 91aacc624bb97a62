use crate::assets::{Currency, Funds};
use crate::error::ContractError;
use crate::msg::{merge_payouts, merges, totals_overflow, Payout};
use crate::platform::{StakeRecord, StakingPlatform};
use crate::staking::{
    claimed_after, collection_payouts, demand, demand_overflows, orphaned, staked_in, sum_rewards,
};
use crate::types::{
    clone_address, Collection, Config, Proposal, StakedCollectionInfo, StakedTokenInfo,
};
use vstd::prelude::*;

verus! {

impl StakingPlatform {
    pub fn query_config(&self) -> (r: Config)
        ensures
            r == self.config,
    {
        Config {
            admin: self.config.admin.clone(),
            owner: clone_address(&self.config.owner),
            minter: clone_address(&self.config.minter),
        }
    }

    /// The fee ledger.
    pub fn query_funds(&self) -> (r: Vec<Funds>)
        ensures
            r@ == self.funds@,
    {
        let mut out: Vec<Funds> = Vec::new();
        let mut k: usize = 0;
        while k < self.funds.len()
            invariant
                k <= self.funds@.len(),
                out@ == self.funds@.subrange(0, k as int),
            decreases self.funds@.len() - k,
        {
            out.push(self.funds[k].clone());
            proof {
                assert(self.funds@.subrange(0, k + 1 as int) == self.funds@.subrange(0, k as int).push(
                    self.funds@[k as int],
                ));
            }
            k = k + 1;
        }
        proof {
            assert(self.funds@.subrange(0, self.funds@.len() as int) == self.funds@);
        }
        out
    }

    /// What the items of `address` have accrued by `now`: one line per
    /// currency and emission type, before any clamping to a collection's
    /// balance.
    pub fn query_staking_rewards(&self, address: &String, now: u64) -> (r: Result<
        Vec<Payout>,
        ContractError,
    >)
        requires
            self.wf(),
        ensures
            ({
                let none = Seq::<StakedCollectionInfo>::empty();
                let ps = collection_payouts(*self, *address, address@, none, true, now, false);
                let late = claimed_after(*self, address@, now);
                &&& orphaned(*self, address@) ==> r == Err::<Vec<Payout>, _>(
                    ContractError::CollectionIsNotFound,
                )
                &&& !orphaned(*self, address@) && late ==> r == Err::<Vec<Payout>, _>(
                    ContractError::TimestampBeforeLastClaim,
                )
                &&& !orphaned(*self, address@) && !late && (demand_overflows(*self, address@, none, true, now)
                    || totals_overflow(ps)) ==> r == Err::<Vec<Payout>, _>(ContractError::AmountOverflow)
                &&& r is Ok <==> !orphaned(*self, address@) && !late && !demand_overflows(*self, address@, none, true, now)
                    && !totals_overflow(ps)
                &&& r matches Ok(lines) ==> merges(lines@, ps)
            }),
    {
        if self.find_orphan(address) {
            return Err(ContractError::CollectionIsNotFound);
        }
        let none: Vec<StakedCollectionInfo> = Vec::new();
        if self.find_claimed_after(address, &none, true, now) {
            return Err(ContractError::TimestampBeforeLastClaim);
        }
        let ps = self.compute_payouts(address, address, &none, true, now, false)?;
        merge_payouts(&ps)
    }

    /// The last `last_amount` proposals with their ids, oldest first; all of
    /// them when no amount is given.
    pub fn query_proposals(&self, last_amount: Option<u128>) -> (r: Vec<(u128, Proposal)>)
        ensures
            ({
                let len = self.proposals@.len() as int;
                let n = match last_amount {
                    Some(a) => if a < len { a as int } else { len },
                    None => len,
                };
                &&& r@.len() == n
                &&& forall|i: int|
                    0 <= i < n ==> (#[trigger] r@[i]).0 == len - n + i + 1 && r@[i].1
                        == self.proposals@[len - n + i]
            }),
    {
        let len = self.proposals.len();
        let n: usize = match last_amount {
            Some(a) => if a < len as u128 {
                a as usize
            } else {
                len
            },
            None => len,
        };
        let from = len - n;
        let mut out: Vec<(u128, Proposal)> = Vec::new();
        let mut i: usize = from;
        while i < len
            invariant
                from <= i <= len,
                len == self.proposals@.len(),
                out@.len() == i - from,
                forall|t: int|
                    0 <= t < i - from ==> (#[trigger] out@[t]).0 == from + t + 1 && out@[t].1
                        == self.proposals@[from + t],
            decreases len - i,
        {
            out.push(((i as u128) + 1, self.proposals[i].clone()));
            i = i + 1;
        }
        out
    }
}

/// Some item of `staker` in collection `coll` was last claimed after `now`.
pub open spec fn held_claimed_after(p: StakingPlatform, staker: Seq<char>, coll: Seq<char>, now: u64) -> bool {
    exists|k: int|
        0 <= k < p.stakes@.len() && (#[trigger] p.stakes@[k]).staker@ == staker
            && p.stakes@[k].collection_address@ == coll && p.stakes@[k].last_claim_date > now
}

/// `a` is one of the addresses in `list`.
pub open spec fn in_list(list: Seq<String>, a: Seq<char>) -> bool {
    exists|i: int| 0 <= i < list.len() && (#[trigger] list[i])@ == a
}

/// The registry entries whose address `list` names, in registry order.
pub open spec fn listed_collections(entries: Seq<(String, Collection)>, list: Seq<String>) -> Seq<
    (String, Collection),
>
    decreases entries.len(),
{
    if entries.len() == 0 {
        Seq::empty()
    } else {
        let rest = listed_collections(entries.drop_last(), list);
        if in_list(list, entries.last().0@) {
            rest.push(entries.last())
        } else {
            rest
        }
    }
}

/// The balance entries whose address `list` names, in ledger order.
pub open spec fn listed_balances(entries: Seq<(String, Funds)>, list: Seq<String>) -> Seq<(String, Funds)>
    decreases entries.len(),
{
    if entries.len() == 0 {
        Seq::empty()
    } else {
        let rest = listed_balances(entries.drop_last(), list);
        if in_list(list, entries.last().0@) {
            rest.push(entries.last())
        } else {
            rest
        }
    }
}

fn contains_address(list: &Vec<String>, a: &String) -> (r: bool)
    ensures
        r == in_list(list@, a@),
{
    let mut i: usize = 0;
    while i < list.len()
        invariant
            i <= list@.len(),
            forall|t: int| 0 <= t < i ==> (#[trigger] list@[t])@ != a@,
        decreases list@.len() - i,
    {
        if list[i] == *a {
            return true;
        }
        i = i + 1;
    }
    false
}

impl StakingPlatform {
    /// The registered collections, all of them or those at `addresses`.
    pub fn query_collections(&self, addresses: &Option<Vec<String>>) -> (r: Vec<(String, Collection)>)
        ensures
            addresses is None ==> r@ == self.collections@,
            addresses matches Some(list) ==> r@ == listed_collections(self.collections@, list@),
    {
        let mut out: Vec<(String, Collection)> = Vec::new();
        let mut k: usize = 0;
        assert(self.collections@.subrange(0, 0) == Seq::<(String, Collection)>::empty());
        while k < self.collections.len()
            invariant
                k <= self.collections@.len(),
                addresses is None ==> out@ == self.collections@.subrange(0, k as int),
                addresses matches Some(list) ==> out@ == listed_collections(
                    self.collections@.subrange(0, k as int),
                    list@,
                ),
            decreases self.collections@.len() - k,
        {
            let entry = &self.collections[k];
            proof {
                let sub = self.collections@.subrange(0, k + 1 as int);
                assert(sub.drop_last() == self.collections@.subrange(0, k as int));
                assert(sub == self.collections@.subrange(0, k as int).push(*entry));
            }
            let keep = match addresses {
                Some(list) => contains_address(list, &entry.0),
                None => true,
            };
            if keep {
                out.push((entry.0.clone(), entry.1.clone()));
            }
            k = k + 1;
        }
        proof {
            assert(self.collections@.subrange(0, self.collections@.len() as int) == self.collections@);
        }
        out
    }

    /// The collection balances, all of them or those at `addresses`.
    pub fn query_collections_balances(&self, addresses: &Option<Vec<String>>) -> (r: Vec<
        (String, Funds),
    >)
        ensures
            addresses is None ==> r@ == self.collections_balances@,
            addresses matches Some(list) ==> r@ == listed_balances(self.collections_balances@, list@),
    {
        let mut out: Vec<(String, Funds)> = Vec::new();
        let mut k: usize = 0;
        assert(self.collections_balances@.subrange(0, 0) == Seq::<(String, Funds)>::empty());
        while k < self.collections_balances.len()
            invariant
                k <= self.collections_balances@.len(),
                addresses is None ==> out@ == self.collections_balances@.subrange(0, k as int),
                addresses matches Some(list) ==> out@ == listed_balances(
                    self.collections_balances@.subrange(0, k as int),
                    list@,
                ),
            decreases self.collections_balances@.len() - k,
        {
            let entry = &self.collections_balances[k];
            proof {
                let sub = self.collections_balances@.subrange(0, k + 1 as int);
                assert(sub.drop_last() == self.collections_balances@.subrange(0, k as int));
                assert(sub == self.collections_balances@.subrange(0, k as int).push(*entry));
            }
            let keep = match addresses {
                Some(list) => contains_address(list, &entry.0),
                None => true,
            };
            if keep {
                out.push((entry.0.clone(), entry.1.clone()));
            }
            k = k + 1;
        }
        proof {
            assert(self.collections_balances@.subrange(0, self.collections_balances@.len() as int)
                == self.collections_balances@);
        }
        out
    }
}

/// The items of `staker` in collection `coll`, in the order they were staked.
pub open spec fn staked_items(stakes: Seq<StakeRecord>, staker: Seq<char>, coll: Seq<char>) -> Seq<
    StakedTokenInfo,
>
    decreases stakes.len(),
{
    if stakes.len() == 0 {
        Seq::empty()
    } else {
        let rest = staked_items(stakes.drop_last(), staker, coll);
        let r = stakes.last();
        if r.staker@ == staker && r.collection_address@ == coll {
            rest.push(
                StakedTokenInfo {
                    token_id: r.token_id,
                    staking_start_date: Some(r.staking_start_date),
                    last_claim_date: Some(r.last_claim_date),
                },
            )
        } else {
            rest
        }
    }
}

/// `groups` lists each collection `staker` holds items in once, each with
/// exactly those items.
pub open spec fn groups_of(p: StakingPlatform, staker: Seq<char>, groups: Seq<StakedCollectionInfo>) -> bool {
    &&& forall|i: int|
        0 <= i < groups.len() ==> (#[trigger] groups[i]).staked_token_info_list@ == staked_items(
            p.stakes@,
            staker,
            groups[i].collection_address@,
        ) && staked_in(p, staker, groups[i].collection_address@)
    &&& forall|i: int, j: int|
        0 <= i < j < groups.len() ==> (#[trigger] groups[i]).collection_address@ != (
        #[trigger] groups[j]).collection_address@
    &&& forall|k: int|
        0 <= k < p.stakes@.len() && (#[trigger] p.stakes@[k]).staker@ == staker ==> exists|i: int|
            0 <= i < groups.len() && (#[trigger] groups[i]).collection_address@
                == p.stakes@[k].collection_address@
}

/// The stakers `list` names, in order of their first stake.
pub open spec fn listed_stakers(stakers: Seq<String>, list: Seq<String>) -> Seq<String>
    decreases stakers.len(),
{
    if stakers.len() == 0 {
        Seq::empty()
    } else {
        let rest = listed_stakers(stakers.drop_last(), list);
        if in_list(list, stakers.last()@) {
            rest.push(stakers.last())
        } else {
            rest
        }
    }
}

impl StakingPlatform {
    fn items_of(&self, staker: &String, coll: &String) -> (r: Vec<StakedTokenInfo>)
        ensures
            r@ == staked_items(self.stakes@, staker@, coll@),
    {
        let mut out: Vec<StakedTokenInfo> = Vec::new();
        let mut k: usize = 0;
        assert(self.stakes@.subrange(0, 0) == Seq::<StakeRecord>::empty());
        while k < self.stakes.len()
            invariant
                k <= self.stakes@.len(),
                out@ == staked_items(self.stakes@.subrange(0, k as int), staker@, coll@),
            decreases self.stakes@.len() - k,
        {
            let r = &self.stakes[k];
            proof {
                let sub = self.stakes@.subrange(0, k + 1 as int);
                assert(sub.drop_last() == self.stakes@.subrange(0, k as int));
                assert(sub.last() == *r);
            }
            if r.staker == *staker && r.collection_address == *coll {
                out.push(
                    StakedTokenInfo {
                        token_id: r.token_id,
                        staking_start_date: Some(r.staking_start_date),
                        last_claim_date: Some(r.last_claim_date),
                    },
                );
            }
            k = k + 1;
        }
        assert(self.stakes@.subrange(0, self.stakes@.len() as int) == self.stakes@);
        out
    }

    /// The items of `staker`, one group per collection, collections in the
    /// order `staker` first staked in them.
    pub fn staker_collections(&self, staker: &String) -> (r: Vec<StakedCollectionInfo>)
        ensures
            groups_of(*self, staker@, r@),
    {
        let mut addrs: Vec<String> = Vec::new();
        let mut k: usize = 0;
        while k < self.stakes.len()
            invariant
                k <= self.stakes@.len(),
                forall|i: int| 0 <= i < addrs@.len() ==> staked_in(*self, staker@, (#[trigger] addrs@[i])@),
                forall|i: int, j: int| 0 <= i < j < addrs@.len() ==> (#[trigger] addrs@[i])@ != (#[trigger] addrs@[j])@,
                forall|t: int|
                    0 <= t < k && (#[trigger] self.stakes@[t]).staker@ == staker@ ==> exists|i: int|
                        0 <= i < addrs@.len() && (#[trigger] addrs@[i])@ == self.stakes@[t].collection_address@,
            decreases self.stakes@.len() - k,
        {
            let r = &self.stakes[k];
            if r.staker == *staker && !contains_address(&addrs, &r.collection_address) {
                let ghost before = addrs@;
                addrs.push(r.collection_address.clone());
                proof {
                    assert(self.stakes@[k as int].staker@ == staker@);
                    assert forall|t: int| 0 <= t < k && (#[trigger] self.stakes@[t]).staker@ == staker@ implies exists|i: int|
                        0 <= i < addrs@.len() && (#[trigger] addrs@[i])@ == self.stakes@[t].collection_address@ by {
                        let i = choose|i: int| 0 <= i < before.len() && (#[trigger] before[i])@ == self.stakes@[t].collection_address@;
                        assert(addrs@[i] == before[i]);
                    }
                    assert(addrs@[before.len() as int]@ == self.stakes@[k as int].collection_address@);
                }
            } else if r.staker == *staker {
                proof {
                    let i = choose|i: int| 0 <= i < addrs@.len() && (#[trigger] addrs@[i])@ == r.collection_address@;
                    assert(0 <= i < addrs@.len() && addrs@[i]@ == self.stakes@[k as int].collection_address@);
                }
            }
            k = k + 1;
        }
        let mut groups: Vec<StakedCollectionInfo> = Vec::new();
        let mut i: usize = 0;
        while i < addrs.len()
            invariant
                i <= addrs@.len(),
                groups@.len() == i,
                forall|t: int| 0 <= t < i ==> (#[trigger] groups@[t]).collection_address == addrs@[t],
                forall|t: int|
                    0 <= t < i ==> (#[trigger] groups@[t]).staked_token_info_list@ == staked_items(
                        self.stakes@,
                        staker@,
                        groups@[t].collection_address@,
                    ),
            decreases addrs@.len() - i,
        {
            let list = self.items_of(staker, &addrs[i]);
            groups.push(StakedCollectionInfo { collection_address: addrs[i].clone(), staked_token_info_list: list });
            i = i + 1;
        }
        proof {
            assert forall|k: int|
                0 <= k < self.stakes@.len() && (#[trigger] self.stakes@[k]).staker@ == staker@ implies exists|i: int|
                    0 <= i < groups@.len() && (#[trigger] groups@[i]).collection_address@
                        == self.stakes@[k].collection_address@ by {
                let i = choose|i: int| 0 <= i < addrs@.len() && (#[trigger] addrs@[i])@ == self.stakes@[k].collection_address@;
                assert(groups@[i].collection_address == addrs@[i]);
            }
            assert forall|i: int, j: int| 0 <= i < j < groups@.len() implies (#[trigger] groups@[i]).collection_address@ != (
                #[trigger] groups@[j]).collection_address@ by {
                assert(groups@[i].collection_address == addrs@[i]);
                assert(groups@[j].collection_address == addrs@[j]);
            }
            assert forall|i: int| 0 <= i < groups@.len() implies staked_in(*self, staker@, (#[trigger] groups@[i]).collection_address@) by {
                assert(groups@[i].collection_address == addrs@[i]);
            }
        }
        groups
    }

    /// Every staker, or those `addresses` names, with their items grouped by
    /// collection; a staker who has unstaked everything keeps an empty list.
    pub fn query_stakers(&self, addresses: &Option<Vec<String>>) -> (r: Vec<(String, Vec<StakedCollectionInfo>)>)
        ensures
            addresses is None ==> r@.len() == self.stakers@.len() && forall|i: int|
                0 <= i < r@.len() ==> (#[trigger] r@[i]).0 == self.stakers@[i],
            addresses matches Some(list) ==> r@.len() == listed_stakers(self.stakers@, list@).len()
                && forall|i: int| 0 <= i < r@.len() ==> (#[trigger] r@[i]).0 == listed_stakers(self.stakers@, list@)[i],
            forall|i: int| 0 <= i < r@.len() ==> groups_of(*self, (#[trigger] r@[i]).0@, r@[i].1@),
    {
        let mut out: Vec<(String, Vec<StakedCollectionInfo>)> = Vec::new();
        let mut k: usize = 0;
        assert(self.stakers@.subrange(0, 0) == Seq::<String>::empty());
        while k < self.stakers.len()
            invariant
                k <= self.stakers@.len(),
                addresses is None ==> out@.len() == k && forall|i: int|
                    0 <= i < k ==> (#[trigger] out@[i]).0 == self.stakers@[i],
                addresses matches Some(list) ==> out@.len() == listed_stakers(self.stakers@.subrange(0, k as int), list@).len()
                    && forall|i: int| 0 <= i < out@.len() ==> (#[trigger] out@[i]).0 == listed_stakers(
                        self.stakers@.subrange(0, k as int),
                        list@,
                    )[i],
                forall|i: int| 0 <= i < out@.len() ==> groups_of(*self, (#[trigger] out@[i]).0@, out@[i].1@),
            decreases self.stakers@.len() - k,
        {
            let who = &self.stakers[k];
            proof {
                let sub = self.stakers@.subrange(0, k + 1 as int);
                assert(sub.drop_last() == self.stakers@.subrange(0, k as int));
                assert(sub.last() == *who);
            }
            let keep = match addresses {
                Some(list) => contains_address(list, who),
                None => true,
            };
            if keep {
                let groups = self.staker_collections(who);
                out.push((who.clone(), groups));
            }
            k = k + 1;
        }
        assert(self.stakers@.subrange(0, self.stakers@.len() as int) == self.stakers@);
        out
    }
}

impl StakingPlatform {
    /// What the items of `staker` in collection `collection` have accrued by
    /// `now`, before any clamping. `staker` must hold items there and the
    /// collection must be registered.
    pub fn query_staking_rewards_per_collection(
        &self,
        staker: &String,
        collection: &String,
        now: u64,
    ) -> (r: Result<Funds, ContractError>)
        requires
            self.wf(),
        ensures
            !(staked_in(*self, staker@, collection@) && self.has_collection(collection@)) ==> r
                == Err::<Funds, _>(ContractError::CollectionIsNotFound),
            ({
                let c = self.collection(collection@);
                let d = demand(
                    self.stakes@,
                    staker@,
                    collection@,
                    Seq::<StakedCollectionInfo>::empty(),
                    true,
                    now,
                    c.daily_rewards,
                );
                let late = held_claimed_after(*self, staker@, collection@, now);
                &&& staked_in(*self, staker@, collection@) && self.has_collection(collection@) && late
                    ==> r == Err::<Funds, _>(ContractError::TimestampBeforeLastClaim)
                &&& staked_in(*self, staker@, collection@) && self.has_collection(collection@) && !late
                    && d > u128::MAX ==> r == Err::<Funds, _>(ContractError::AmountOverflow)
                &&& r is Ok <==> staked_in(*self, staker@, collection@) && self.has_collection(
                    collection@,
                ) && !late && d <= u128::MAX
                &&& r matches Ok(f) ==> f.amount == d && f.currency == c.staking_currency
            }),
    {
        let i = match self.find_collection(collection) {
            Some(i) => i,
            None => {
                return Err(ContractError::CollectionIsNotFound);
            },
        };
        if !self.find_staked_in(staker, collection) {
            return Err(ContractError::CollectionIsNotFound);
        }
        proof {
            self.lemma_collection_at(i as int);
        }
        let mut k: usize = 0;
        while k < self.stakes.len()
            invariant
                k <= self.stakes@.len(),
                self.wf(),
                i < self.collections@.len(),
                self.collections@[i as int].0@ == collection@,
                self.has_collection(collection@),
                self.collection(collection@) == self.collections@[i as int].1,
                staked_in(*self, staker@, collection@),
                forall|t: int|
                    0 <= t < k ==> !((#[trigger] self.stakes@[t]).staker@ == staker@
                        && self.stakes@[t].collection_address@ == collection@
                        && self.stakes@[t].last_claim_date > now),
            decreases self.stakes@.len() - k,
        {
            let r = &self.stakes[k];
            if r.staker == *staker && r.collection_address == *collection && r.last_claim_date > now {
                return Err(ContractError::TimestampBeforeLastClaim);
            }
            k = k + 1;
        }
        let c = &self.collections[i].1;
        let none: Vec<StakedCollectionInfo> = Vec::new();
        match sum_rewards(&self.stakes, staker, collection, &none, true, now, c.daily_rewards) {
            Some(amount) => Ok(Funds::new(amount, &c.staking_currency)),
            None => Err(ContractError::AmountOverflow),
        }
    }
}

/// `list` holds, once each, exactly the staking currencies of `p`'s
/// collections whose token is native (`native`) or a token contract.
pub open spec fn currencies_of(p: StakingPlatform, list: Seq<Currency>, native: bool) -> bool {
    &&& forall|i: int, j: int| 0 <= i < j < list.len() ==> (#[trigger] list[i])@ != (#[trigger] list[j])@
    &&& forall|i: int|
        0 <= i < list.len() ==> ((#[trigger] list[i]).token@ is Native) == native && exists|k: int|
            0 <= k < p.collections@.len() && (#[trigger] p.collections@[k]).1.staking_currency@
                == list[i]@
    &&& forall|k: int|
        0 <= k < p.collections@.len() && ((#[trigger] p.collections@[k]).1.staking_currency.token@ is Native)
            == native ==> exists|i: int|
            0 <= i < list.len() && (#[trigger] list[i])@ == p.collections@[k].1.staking_currency@
}

fn contains_currency(list: &Vec<Currency>, c: &Currency) -> (r: bool)
    ensures
        r == exists|i: int| 0 <= i < list@.len() && (#[trigger] list@[i])@ == c@,
{
    let mut i: usize = 0;
    while i < list.len()
        invariant
            i <= list@.len(),
            forall|t: int| 0 <= t < i ==> (#[trigger] list@[t])@ != c@,
        decreases list@.len() - i,
    {
        if list[i] == *c {
            return true;
        }
        i = i + 1;
    }
    false
}

impl StakingPlatform {
    /// The distinct staking currencies of the registered collections, those
    /// of native tokens first and those of token contracts second, each in
    /// registry order: the balances a staker's wallet view is made of.
    pub fn associated_currencies(&self) -> (r: (Vec<Currency>, Vec<Currency>))
        ensures
            currencies_of(*self, r.0@, true),
            currencies_of(*self, r.1@, false),
    {
        let mut natives: Vec<Currency> = Vec::new();
        let mut contracts: Vec<Currency> = Vec::new();
        let mut k: usize = 0;
        while k < self.collections.len()
            invariant
                k <= self.collections@.len(),
                forall|i: int, j: int| 0 <= i < j < natives@.len() ==> (#[trigger] natives@[i])@ != (#[trigger] natives@[j])@,
                forall|i: int, j: int| 0 <= i < j < contracts@.len() ==> (#[trigger] contracts@[i])@ != (#[trigger] contracts@[j])@,
                forall|i: int|
                    0 <= i < natives@.len() ==> (#[trigger] natives@[i]).token@ is Native && exists|t: int|
                        0 <= t < self.collections@.len() && (#[trigger] self.collections@[t]).1.staking_currency@
                            == natives@[i]@,
                forall|i: int|
                    0 <= i < contracts@.len() ==> !((#[trigger] contracts@[i]).token@ is Native) && exists|t: int|
                        0 <= t < self.collections@.len() && (#[trigger] self.collections@[t]).1.staking_currency@
                            == contracts@[i]@,
                forall|t: int|
                    0 <= t < k && (#[trigger] self.collections@[t]).1.staking_currency.token@ is Native ==> exists|i: int|
                        0 <= i < natives@.len() && (#[trigger] natives@[i])@ == self.collections@[t].1.staking_currency@,
                forall|t: int|
                    0 <= t < k && !((#[trigger] self.collections@[t]).1.staking_currency.token@ is Native) ==> exists|i: int|
                        0 <= i < contracts@.len() && (#[trigger] contracts@[i])@ == self.collections@[t].1.staking_currency@,
            decreases self.collections@.len() - k,
        {
            let c = &self.collections[k].1.staking_currency;
            let ghost n0 = natives@;
            let ghost c0 = contracts@;
            if c.token.is_native() {
                if !contains_currency(&natives, c) {
                    natives.push(c.clone());
                    proof {
                        assert(natives@[n0.len() as int] == *c);
                        assert forall|t: int|
                            0 <= t < k && (#[trigger] self.collections@[t]).1.staking_currency.token@ is Native implies exists|i: int|
                                0 <= i < natives@.len() && (#[trigger] natives@[i])@ == self.collections@[t].1.staking_currency@ by {
                            let i = choose|i: int| 0 <= i < n0.len() && (#[trigger] n0[i])@ == self.collections@[t].1.staking_currency@;
                            assert(natives@[i] == n0[i]);
                        }
                    }
                }
                proof {
                    let i = choose|i: int| 0 <= i < natives@.len() && (#[trigger] natives@[i])@ == c@;
                    assert(natives@[i]@ == self.collections@[k as int].1.staking_currency@);
                }
            } else {
                if !contains_currency(&contracts, c) {
                    contracts.push(c.clone());
                    proof {
                        assert(contracts@[c0.len() as int] == *c);
                        assert forall|t: int|
                            0 <= t < k && !((#[trigger] self.collections@[t]).1.staking_currency.token@ is Native) implies exists|i: int|
                                0 <= i < contracts@.len() && (#[trigger] contracts@[i])@ == self.collections@[t].1.staking_currency@ by {
                            let i = choose|i: int| 0 <= i < c0.len() && (#[trigger] c0[i])@ == self.collections@[t].1.staking_currency@;
                            assert(contracts@[i] == c0[i]);
                        }
                    }
                }
                proof {
                    let i = choose|i: int| 0 <= i < contracts@.len() && (#[trigger] contracts@[i])@ == c@;
                    assert(contracts@[i]@ == self.collections@[k as int].1.staking_currency@);
                }
            }
            k = k + 1;
        }
        (natives, contracts)
    }
}

} // verus!
