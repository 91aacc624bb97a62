use crate::assets::{Funds, Token};
use crate::error::ContractError;
use crate::math::{item_reward, lemma_item_reward_nonneg, staking_reward};
use crate::msg::{
    lemma_merges_mints, merge_payouts, merges, mints, payout_instructions, to_instructions,
    totals_overflow, Instruction, Payout,
};
use crate::platform::{StakeRecord, StakingPlatform};
use crate::staking::clone_record;
use crate::types::{Collection, EmissionType, Proposal, ProposalStatus, ProposalType};
use vstd::prelude::*;

verus! {

/// New terms that change the daily rate or the currency call for settling
/// the stakers first.
pub open spec fn settles(current: Collection, next: Collection) -> bool {
    current.daily_rewards != next.daily_rewards || current.staking_currency@
        != next.staking_currency@
}

/// The rewards accrued by `now` on every item staked in collection `coll`.
pub open spec fn coll_demand(stakes: Seq<StakeRecord>, coll: Seq<char>, now: u64, daily: u128) -> int
    decreases stakes.len(),
{
    if stakes.len() == 0 {
        0
    } else {
        coll_demand(stakes.drop_last(), coll, now, daily) + if stakes.last().collection_address@
            == coll {
            item_reward(now, stakes.last().last_claim_date, daily)
        } else {
            0
        }
    }
}

/// What is left of `balance` after paying `demand`, never below zero.
pub open spec fn left_after(balance: int, demand: int) -> int {
    if balance > demand {
        balance - demand
    } else {
        0
    }
}

/// What item `k` of the ledger is paid when collection `coll` settles at
/// terms `c`: its accrual, and for a spending collection no more than what
/// the items before it left of `balance`.
pub open spec fn settle_amount(
    stakes: Seq<StakeRecord>,
    k: int,
    coll: Seq<char>,
    c: Collection,
    balance: int,
    now: u64,
) -> int {
    if stakes[k].collection_address@ == coll {
        let due = item_reward(now, stakes[k].last_claim_date, c.daily_rewards);
        if c.emission_type == EmissionType::Spending {
            let left = left_after(
                balance,
                coll_demand(stakes.subrange(0, k), coll, now, c.daily_rewards),
            );
            if due < left {
                due
            } else {
                left
            }
        } else {
            due
        }
    } else {
        0
    }
}

/// One payout per ledger item, to its staker, for settling collection
/// `coll` at terms `c` with `balance` available.
pub open spec fn settlement_payouts(
    stakes: Seq<StakeRecord>,
    coll: Seq<char>,
    c: Collection,
    balance: int,
    now: u64,
) -> Seq<Payout> {
    stakes.map(
        |k: int, r: StakeRecord|
            Payout {
                recipient: r.staker,
                currency: c.staking_currency,
                emission_type: c.emission_type,
                amount: settle_amount(stakes, k, coll, c, balance, now) as u128,
            },
    )
}

/// The ledger after every item of collection `coll` has been settled at `now`.
pub open spec fn settled(stakes: Seq<StakeRecord>, coll: Seq<char>, now: u64) -> Seq<StakeRecord> {
    stakes.map_values(
        |r: StakeRecord|
            if r.collection_address@ == coll {
                StakeRecord { last_claim_date: now, ..r }
            } else {
                r
            },
    )
}

/// What remains of a spending collection's balance after settling.
pub open spec fn settled_balance(p: StakingPlatform, coll: Seq<char>, c: Collection, now: u64) -> int {
    if c.emission_type == EmissionType::Spending {
        left_after(p.balance_of(coll), coll_demand(p.stakes@, coll, now, c.daily_rewards))
    } else {
        p.balance_of(coll)
    }
}

/// Some item of collection `coll` was last claimed after `now`.
pub open spec fn coll_claimed_after(stakes: Seq<StakeRecord>, coll: Seq<char>, now: u64) -> bool {
    exists|k: int|
        0 <= k < stakes.len() && (#[trigger] stakes[k]).collection_address@ == coll
            && stakes[k].last_claim_date > now
}

/// A spending collection whose currency changes hands what is left of its
/// balance back to its owner.
pub open spec fn refunds(current: Collection, next: Collection) -> bool {
    current.emission_type == EmissionType::Spending && current.staking_currency@
        != next.staking_currency@
}

proof fn lemma_coll_demand_step(stakes: Seq<StakeRecord>, k: int, coll: Seq<char>, now: u64, daily: u128)
    requires
        0 <= k < stakes.len(),
    ensures
        coll_demand(stakes.subrange(0, k + 1), coll, now, daily) == coll_demand(
            stakes.subrange(0, k),
            coll,
            now,
            daily,
        ) + if stakes[k].collection_address@ == coll {
            item_reward(now, stakes[k].last_claim_date, daily)
        } else {
            0
        },
{
    assert(stakes.subrange(0, k + 1).drop_last() == stakes.subrange(0, k));
}

/// The fee ledger has a line for `token`.
pub open spec fn has_fee_line(funds: Seq<Funds>, token: crate::assets::TokenView) -> bool {
    exists|k: int| 0 <= k < funds.len() && (#[trigger] funds[k]).currency.token@ == token
}

/// Crediting `price` to the line of its token would overflow.
pub open spec fn fee_overflow(funds: Seq<Funds>, price: Funds) -> bool {
    exists|k: int|
        0 <= k < funds.len() && (#[trigger] funds[k]).currency.token@ == price.currency.token@
            && funds[k].amount + price.amount > u128::MAX
}

/// `after` is the fee ledger `before` with `price` added to the line of its
/// token, or in a new line where there was none.
pub open spec fn credited(before: Seq<Funds>, after: Seq<Funds>, price: Funds) -> bool {
    if has_fee_line(before, price.currency.token@) {
        forall|k: int|
            0 <= k < before.len() && (#[trigger] before[k]).currency.token@ == price.currency.token@
                ==> after == before.update(
                k,
                Funds { amount: (before[k].amount + price.amount) as u128, currency: before[k].currency },
            )
    } else {
        after == before.push(price)
    }
}

impl StakingPlatform {
    fn find_fee_line(&self, token: &Token) -> (r: Option<usize>)
        ensures
            r matches Some(k) ==> k < self.funds@.len() && self.funds@[k as int].currency.token@
                == token@,
            r is None <==> !has_fee_line(self.funds@, token@),
    {
        let mut k: usize = 0;
        while k < self.funds.len()
            invariant
                k <= self.funds@.len(),
                forall|t: int| 0 <= t < k ==> (#[trigger] self.funds@[t]).currency.token@ != token@,
            decreases self.funds@.len() - k,
        {
            if self.funds[k].currency.token == *token {
                return Some(k);
            }
            k = k + 1;
        }
        None
    }

    fn fee_overflows(&self, price: &Funds) -> (r: bool)
        requires
            self.wf(),
        ensures
            r == fee_overflow(self.funds@, *price),
    {
        match self.find_fee_line(&price.currency.token) {
            Some(k) => {
                proof {
                    assert forall|t: int|
                        0 <= t < self.funds@.len() && (#[trigger] self.funds@[t]).currency.token@
                            == price.currency.token@ implies t == k by {
                        if t < k {
                            assert(self.funds@[t].currency.token@ != self.funds@[k as int].currency.token@);
                        } else if t > k {
                            assert(self.funds@[k as int].currency.token@ != self.funds@[t].currency.token@);
                        }
                    }
                }
                self.funds[k].amount.checked_add(price.amount).is_none()
            },
            None => false,
        }
    }

    /// Adds `price` to the fee ledger line of its token.
    fn credit_fees(&mut self, price: &Funds)
        requires
            old(self).wf(),
            !fee_overflow(old(self).funds@, *price),
        ensures
            final(self).wf(),
            credited(old(self).funds@, final(self).funds@, *price),
            final(self).config == old(self).config,
            final(self).collections == old(self).collections,
            final(self).collections_balances == old(self).collections_balances,
            final(self).proposals == old(self).proposals,
            final(self).stakes == old(self).stakes,
            final(self).stakers == old(self).stakers,
    {
        let ghost before = *self;
        match self.find_fee_line(&price.currency.token) {
            Some(k) => {
                proof {
                    assert forall|t: int|
                        0 <= t < before.funds@.len() && (#[trigger] before.funds@[t]).currency.token@
                            == price.currency.token@ implies t == k by {
                        if t < k {
                            assert(before.funds@[t].currency.token@ != before.funds@[k as int].currency.token@);
                        } else if t > k {
                            assert(before.funds@[k as int].currency.token@ != before.funds@[t].currency.token@);
                        }
                    }
                }
                let total = self.funds[k].amount + price.amount;
                let currency = self.funds[k].currency.clone();
                self.funds.set(k, Funds { amount: total, currency });
                proof {
                    let fin = *self;
                    assert forall|t: int, u: int|
                        0 <= t < u < fin.funds@.len() implies (#[trigger] fin.funds@[t]).currency.token@
                            != (#[trigger] fin.funds@[u]).currency.token@ by {
                        assert(fin.funds@[t].currency == before.funds@[t].currency);
                        assert(fin.funds@[u].currency == before.funds@[u].currency);
                    }
                }
            },
            None => {
                self.funds.push(price.clone());
                proof {
                    let fin = *self;
                    assert forall|t: int, u: int|
                        0 <= t < u < fin.funds@.len() implies (#[trigger] fin.funds@[t]).currency.token@
                            != (#[trigger] fin.funds@[u]).currency.token@ by {
                        assert(fin.funds@[t] == before.funds@[t]);
                        if u < before.funds@.len() {
                            assert(fin.funds@[u] == before.funds@[u]);
                        }
                    }
                }
            },
        }
    }

    /// The payouts of settling collection `coll` at terms `c`, and what is
    /// left of its balance afterwards.
    fn settlement(&self, coll: &String, c: &Collection, now: u64) -> (r: (Vec<Payout>, u128))
        requires
            self.wf(),
        ensures
            r.0@ == settlement_payouts(self.stakes@, coll@, *c, self.balance_of(coll@), now),
            c.emission_type == EmissionType::Spending ==> r.1 == left_after(
                self.balance_of(coll@),
                coll_demand(self.stakes@, coll@, now, c.daily_rewards),
            ),
    {
        let balance: u128 = match self.find_balance(coll) {
            Some(j) => {
                proof {
                    self.lemma_balance_at(j as int);
                }
                self.collections_balances[j].1.amount
            },
            None => 0,
        };
        let ghost stakes = self.stakes@;
        let ghost full = settlement_payouts(stakes, coll@, *c, balance as int, now);
        let spending = c.emission_type == EmissionType::Spending;
        let mut left: u128 = balance;
        let mut ps: Vec<Payout> = Vec::new();
        let mut k: usize = 0;
        assert(stakes.subrange(0, 0) == Seq::<StakeRecord>::empty());
        while k < self.stakes.len()
            invariant
                k <= stakes.len(),
                stakes == self.stakes@,
                full == settlement_payouts(stakes, coll@, *c, balance as int, now),
                spending == (c.emission_type == EmissionType::Spending),
                ps@.len() == k,
                forall|t: int| 0 <= t < k ==> #[trigger] ps@[t] == full[t],
                spending ==> left as int == left_after(balance as int, coll_demand(stakes.subrange(0, k as int), coll@, now, c.daily_rewards)),
            decreases stakes.len() - k,
        {
            let rec = &self.stakes[k];
            proof {
                lemma_coll_demand_step(stakes, k as int, coll@, now, c.daily_rewards);
            }
            let amount: u128 = if rec.collection_address == *coll {
                let due = staking_reward(now, rec.last_claim_date, c.daily_rewards);
                proof {
                    lemma_item_reward_nonneg(now, rec.last_claim_date, c.daily_rewards);
                }
                if spending {
                    let a = if due < left {
                        due
                    } else {
                        left
                    };
                    left = left - a;
                    a
                } else {
                    due
                }
            } else {
                0
            };
            ps.push(
                Payout {
                    recipient: rec.staker.clone(),
                    currency: c.staking_currency.clone(),
                    emission_type: c.emission_type,
                    amount,
                },
            );
            proof {
                assert(ps@[k as int] == full[k as int]);
            }
            k = k + 1;
        }
        proof {
            assert(ps@ =~= full);
            assert(stakes.subrange(0, stakes.len() as int) == stakes);
        }
        (ps, left)
    }

    fn find_coll_claimed_after(&self, coll: &String, now: u64) -> (r: bool)
        ensures
            r == coll_claimed_after(self.stakes@, coll@, now),
    {
        let mut k: usize = 0;
        while k < self.stakes.len()
            invariant
                k <= self.stakes@.len(),
                forall|t: int|
                    0 <= t < k ==> !((#[trigger] self.stakes@[t]).collection_address@ == coll@
                        && self.stakes@[t].last_claim_date > now),
            decreases self.stakes@.len() - k,
        {
            if self.stakes[k].collection_address == *coll && self.stakes[k].last_claim_date > now {
                return true;
            }
            k = k + 1;
        }
        false
    }

    fn settle_records(&mut self, coll: &String, now: u64)
        requires
            old(self).wf(),
        ensures
            final(self).wf(),
            final(self).stakes@ == settled(old(self).stakes@, coll@, now),
            final(self).config == old(self).config,
            final(self).collections == old(self).collections,
            final(self).collections_balances == old(self).collections_balances,
            final(self).proposals == old(self).proposals,
            final(self).funds == old(self).funds,
            final(self).stakers == old(self).stakers,
    {
        let ghost before = *self;
        let mut k: usize = 0;
        while k < self.stakes.len()
            invariant
                k <= self.stakes@.len(),
                self.stakes@.len() == before.stakes@.len(),
                forall|t: int| 0 <= t < k ==> #[trigger] self.stakes@[t] == settled(before.stakes@, coll@, now)[t],
                forall|t: int| k <= t < self.stakes@.len() ==> #[trigger] self.stakes@[t] == before.stakes@[t],
                self.config == before.config,
                self.collections == before.collections,
                self.collections_balances == before.collections_balances,
                self.proposals == before.proposals,
                self.funds == before.funds,
                self.stakers == before.stakers,
                before.wf(),
            decreases self.stakes@.len() - k,
        {
            if self.stakes[k].collection_address == *coll {
                let mut r = clone_record(&self.stakes[k]);
                r.last_claim_date = now;
                self.stakes.set(k, r);
            }
            k = k + 1;
        }
        assert(self.stakes@ =~= settled(before.stakes@, coll@, now));
    }
}

/// The instruction, if any, that hands what is left of a spending balance
/// back to the owner when the currency changes.
pub open spec fn refund_instructions(p: StakingPlatform, coll: Seq<char>, current: Collection, next: Collection, now: u64) -> Seq<Instruction> {
    if refunds(current, next) && settled_balance(p, coll, current, now) > 0 {
        seq![
            Instruction::Transfer {
                recipient: current.owner,
                amount: settled_balance(p, coll, current, now) as u128,
                token: current.staking_currency.token,
            },
        ]
    } else {
        Seq::empty()
    }
}

/// The registry after `next` replaces the collection at index `i`, under a
/// new address where one is given.
pub open spec fn replaced(
    cols: Seq<(String, Collection)>,
    i: int,
    new_address: Option<String>,
    next: Collection,
) -> Seq<(String, Collection)> {
    match new_address {
        Some(n) => cols.remove(i).push((n, next)),
        None => cols.update(i, (cols[i].0, next)),
    }
}

/// What accepting proposal `id` with a payment of `amount` in `token` does
/// to `before`, the outcome being `r` and the new state `after`.
pub open spec fn acceptance(
    before: StakingPlatform,
    after: StakingPlatform,
    sender: String,
    now: u64,
    id: int,
    amount: u128,
    token: Token,
    r: Result<Vec<Instruction>, ContractError>,
) -> bool {
    let pr = before.proposals@[id - 1];
    let pays = amount == pr.price.amount && token@ == pr.price.currency.token@;
    let active = pr.proposal_status == Some(ProposalStatus::Active);
    let fee = fee_overflow(before.funds@, pr.price);
    let common = after.proposals@ == before.proposals@.update(
        id - 1,
        Proposal { proposal_status: Some(ProposalStatus::Accepted), ..pr },
    ) && credited(before.funds@, after.funds@, pr.price) && after.config == before.config
        && after.stakers == before.stakers;
    &&& !pays ==> r == Err::<Vec<Instruction>, _>(ContractError::WrongFundsCombination)
    &&& pays && !active ==> r == Err::<Vec<Instruction>, _>(ContractError::WrongProposalStatus)
    &&& pays && active ==> match pr.proposal_type {
        ProposalType::AddCollection { collection_address, collection } => {
            let addr = collection_address@;
            let dup = before.collides(addr, collection.name@);
            let auth = sender@ == collection.owner@;
            &&& dup ==> r == Err::<Vec<Instruction>, _>(ContractError::CollectionDuplication)
            &&& !dup && !auth ==> r == Err::<Vec<Instruction>, _>(ContractError::Unauthorized)
            &&& !dup && auth && fee ==> r == Err::<Vec<Instruction>, _>(ContractError::AmountOverflow)
            &&& r is Ok <==> !dup && auth && !fee
            &&& r matches Ok(msgs) ==> {
                &&& msgs@.len() == 0
                &&& common
                &&& after.collections@ == before.collections@.push((collection_address, collection))
                &&& collection.emission_type == EmissionType::Spending ==> after.has_balance(addr)
                    && after.balance_of(addr) == 0
                &&& collection.emission_type == EmissionType::Minting ==> after.collections_balances
                    == before.collections_balances
                &&& forall|o: Seq<char>| o != addr ==> #[trigger] after.balance_of(o) == before.balance_of(o)
                &&& after.stakes == before.stakes
            }
        },
        ProposalType::UpdateCollection { collection_address, new_collection_address, new_collection } => {
            let addr = collection_address@;
            let missing = !before.has_collection(addr);
            let taken = new_collection_address matches Some(n) && before.has_collection(n@);
            let auth = sender@ == new_collection.owner@;
            let current = before.collection(addr);
            let settle = settles(current, new_collection);
            let sp = settlement_payouts(before.stakes@, addr, current, before.balance_of(addr), now);
            let late = settle && coll_claimed_after(before.stakes@, addr, now);
            let over = fee || (settle && totals_overflow(sp));
            let need_minter = settle && before.config.minter is None && mints(sp);
            &&& missing ==> r == Err::<Vec<Instruction>, _>(ContractError::CollectionIsNotFound)
            &&& !missing && taken ==> r == Err::<Vec<Instruction>, _>(ContractError::CollectionDuplication)
            &&& !missing && !taken && !auth ==> r == Err::<Vec<Instruction>, _>(ContractError::Unauthorized)
            &&& !missing && !taken && auth && late ==> r == Err::<Vec<Instruction>, _>(
                ContractError::TimestampBeforeLastClaim,
            )
            &&& !missing && !taken && auth && !late && over ==> r == Err::<Vec<Instruction>, _>(ContractError::AmountOverflow)
            &&& !missing && !taken && auth && !late && !over && need_minter ==> (r matches Err(
                ContractError::ParameterIsNotFound { .. },
            ))
            &&& r is Ok <==> !missing && !taken && auth && !late && !over && !need_minter
            &&& r matches Ok(msgs) ==> {
                &&& common
                &&& forall|i: int|
                    0 <= i < before.collections@.len() && (#[trigger] before.collections@[i]).0@ == addr
                        ==> after.collections@ == replaced(before.collections@, i, new_collection_address, new_collection)
                &&& forall|o: Seq<char>| o != addr ==> #[trigger] after.balance_of(o) == before.balance_of(o)
                &&& settle ==> {
                    &&& after.stakes@ == settled(before.stakes@, addr, now)
                    &&& after.balance_of(addr) == if refunds(current, new_collection) {
                        0
                    } else {
                        settled_balance(before, addr, current, now)
                    }
                    &&& exists|m: Seq<Payout>|
                        merges(m, sp) && msgs@ == payout_instructions(m, before.config.minter)
                            + refund_instructions(before, addr, current, new_collection, now)
                }
                &&& !settle ==> after.stakes == before.stakes && after.collections_balances
                    == before.collections_balances && msgs@.len() == 0
            }
        },
    }
}

proof fn lemma_settlement_native(p: StakingPlatform, coll: Seq<char>, c: Collection, balance: int, now: u64)
    requires
        c.valid_emission(),
    ensures
        !crate::msg::mints_contract_token(settlement_payouts(p.stakes@, coll, c, balance, now)),
{
    let sp = settlement_payouts(p.stakes@, coll, c, balance, now);
    if crate::msg::mints_contract_token(sp) {
        let i = choose|i: int|
            0 <= i < sp.len() && (#[trigger] sp[i]).amount > 0 && sp[i].emission_type
                == EmissionType::Minting && sp[i].currency.token@ is Cw20;
        assert(sp[i].currency == c.staking_currency);
    }
}

impl StakingPlatform {
    /// Accepts an active proposal against a payment equal to its price. For
    /// a new collection, its address and name must be free; for new terms,
    /// the collection must exist and a new address must be free. Only the
    /// owner the terms name may accept. New terms that change the rate or
    /// the currency first settle every item of the collection at the old
    /// terms; a spending collection changing currency then hands what is
    /// left of its balance to its owner. The payment goes to the fee ledger.
    pub fn try_accept_proposal(
        &mut self,
        sender: &String,
        now: u64,
        id: u128,
        amount: u128,
        token: &Token,
    ) -> (r: Result<Vec<Instruction>, ContractError>)
        requires
            old(self).wf(),
        ensures
            final(self).wf(),
            r is Err ==> *final(self) == *old(self),
            !(1 <= id <= old(self).proposals@.len()) ==> (r matches Err(
                ContractError::ParameterIsNotFound { .. },
            )),
            1 <= id <= old(self).proposals@.len() ==> acceptance(*old(self), *final(self), *sender, now, id as int, amount, *token, r),
    {
        if id == 0 || id > self.proposals.len() as u128 {
            return Err(ContractError::ParameterIsNotFound { value: "proposal".to_string() });
        }
        let index = (id - 1) as usize;
        let proposal = self.proposals[index].clone();
        if amount != proposal.price.amount || *token != proposal.price.currency.token {
            return Err(ContractError::WrongFundsCombination);
        }
        if proposal.proposal_status != Some(ProposalStatus::Active) {
            return Err(ContractError::WrongProposalStatus);
        }
        let ghost before = *self;
        assert(before.proposals@[index as int].proposal_type.terms().valid_emission());
        let mut accepted = proposal.clone();
        accepted.proposal_status = Some(ProposalStatus::Accepted);
        match &proposal.proposal_type {
            ProposalType::AddCollection { collection_address, collection } => {
                if self.find_collision(collection_address, &collection.name) {
                    return Err(ContractError::CollectionDuplication);
                }
                if *sender != collection.owner {
                    return Err(ContractError::Unauthorized);
                }
                if self.fee_overflows(&proposal.price) {
                    return Err(ContractError::AmountOverflow);
                }
                self.credit_fees(&proposal.price);
                self.collections.push((collection_address.clone(), collection.clone()));
                proof {
                    let fin = *self;
                    let n = before.collections@.len() as int;
                    assert forall|t: int, u: int|
                        0 <= t < u < fin.collections@.len() implies (#[trigger] fin.collections@[t]).0@
                            != (#[trigger] fin.collections@[u]).0@ by {
                        assert(fin.collections@[t] == before.collections@[t]);
                        if u < n {
                            assert(fin.collections@[u] == before.collections@[u]);
                        }
                    }
                    assert forall|t: int| 0 <= t < fin.collections@.len() implies (
                    #[trigger] fin.collections@[t]).1.valid_emission() by {
                        if t < n {
                            assert(fin.collections@[t] == before.collections@[t]);
                        }
                    }
                }
                let ghost pushed = *self;
                proof {
                    assert(pushed.collections_balances == before.collections_balances);
                    assert forall|o: Seq<char>| #[trigger] pushed.balance_of(o) == before.balance_of(o) by {
                        assert(pushed.has_balance(o) == before.has_balance(o));
                    }
                }
                if collection.emission_type == EmissionType::Spending {
                    self.set_balance(collection_address, 0, &collection.staking_currency);
                }
                let ghost mid = *self;
                self.proposals.set(index, accepted);
                proof {
                    let fin = *self;
                    assert forall|t: int| 0 <= t < fin.proposals@.len() implies (
                    #[trigger] fin.proposals@[t]).proposal_type.terms().valid_emission() by {
                        assert(fin.proposals@[t].proposal_type == before.proposals@[t].proposal_type);
                    }
                    assert forall|o: Seq<char>| #[trigger] fin.balance_of(o) == mid.balance_of(o) && fin.has_balance(o) == mid.has_balance(o) by {
                        assert(fin.has_balance(o) == mid.has_balance(o));
                    }
                    assert(before.proposals@[index as int].proposal_type == proposal.proposal_type);
                }
                Ok(Vec::new())
            },
            ProposalType::UpdateCollection {
                collection_address,
                new_collection_address,
                new_collection,
            } => {
                let i = match self.find_collection(collection_address) {
                    Some(i) => i,
                    None => {
                        return Err(ContractError::CollectionIsNotFound);
                    },
                };
                if let Some(n) = new_collection_address {
                    if self.find_collection(n).is_some() {
                        return Err(ContractError::CollectionDuplication);
                    }
                }
                if *sender != new_collection.owner {
                    return Err(ContractError::Unauthorized);
                }
                proof {
                    self.lemma_collection_at(i as int);
                }
                let current = self.collections[i].1.clone();
                let settle = current.daily_rewards != new_collection.daily_rewards
                    || current.staking_currency != new_collection.staking_currency;
                let mut msgs: Vec<Instruction> = Vec::new();
                let mut left: u128 = 0;
                let ghost mut merged_lines: Seq<Payout> = Seq::empty();
                if settle {
                    if self.find_coll_claimed_after(collection_address, now) {
                        return Err(ContractError::TimestampBeforeLastClaim);
                    }
                    let (ps, l) = self.settlement(collection_address, &current, now);
                    let merged = merge_payouts(&ps)?;
                    proof {
                        merged_lines = merged@;
                    }
                    if self.fee_overflows(&proposal.price) {
                        return Err(ContractError::AmountOverflow);
                    }
                    proof {
                        lemma_merges_mints(merged@, ps@);
                        lemma_settlement_native(*self, collection_address@, current, self.balance_of(collection_address@), now);
                    }
                    msgs = to_instructions(&merged, &self.config.minter)?;
                    left = l;
                } else {
                    if self.fee_overflows(&proposal.price) {
                        return Err(ContractError::AmountOverflow);
                    }
                }
                let ghost msgs0 = msgs@;
                self.credit_fees(&proposal.price);
                if settle {
                    self.settle_records(collection_address, now);
                    if current.emission_type == EmissionType::Spending {
                        let refund = current.staking_currency != new_collection.staking_currency;
                        let remaining = if refund {
                            0
                        } else {
                            left
                        };
                        if refund {
                            self.set_balance(collection_address, remaining, &new_collection.staking_currency);
                        } else {
                            self.set_balance(collection_address, remaining, &current.staking_currency);
                        }
                        if refund && left > 0 {
                            msgs.push(
                                Instruction::Transfer {
                                    recipient: current.owner.clone(),
                                    amount: left,
                                    token: current.staking_currency.token.clone(),
                                },
                            );
                        }
                    }
                }
                let ghost mid = *self;
                match new_collection_address {
                    Some(n) => {
                        self.collections.remove(i);
                        self.collections.push((n.clone(), new_collection.clone()));
                    },
                    None => {
                        let key = self.collections[i].0.clone();
                        self.collections.set(i, (key, new_collection.clone()));
                    },
                }
                self.proposals.set(index, accepted);
                proof {
                    let fin = *self;
                    assert forall|t: int| 0 <= t < fin.proposals@.len() implies (
                    #[trigger] fin.proposals@[t]).proposal_type.terms().valid_emission() by {
                        assert(fin.proposals@[t].proposal_type == before.proposals@[t].proposal_type);
                    }
                    if settle {
                        let addr = collection_address@;
                        let sp = settlement_payouts(before.stakes@, addr, current, before.balance_of(addr), now);
                        assert(merges(merged_lines, sp));
                        assert(msgs@ == payout_instructions(merged_lines, before.config.minter)
                            + refund_instructions(before, addr, current, *new_collection, now));
                        assert(exists|m: Seq<Payout>|
                            merges(m, sp) && msgs@ == payout_instructions(m, before.config.minter)
                                + refund_instructions(before, addr, current, *new_collection, now));
                        assert(fin.stakes@ == settled(before.stakes@, addr, now));
                        assert(fin.balance_of(addr) == if refunds(current, *new_collection) {
                            0
                        } else {
                            settled_balance(before, addr, current, now)
                        });
                    }
                    assert(credited(before.funds@, fin.funds@, before.proposals@[index as int].price));
                    assert forall|o: Seq<char>| o != collection_address@ implies #[trigger] fin.balance_of(o) == before.balance_of(o) by {
                        assert(fin.collections_balances == mid.collections_balances);
                        assert(fin.has_balance(o) == mid.has_balance(o));
                    }
                    assert forall|t: int|
                        0 <= t < before.collections@.len() && (#[trigger] before.collections@[t]).0@ == collection_address@
                            implies fin.collections@ == replaced(before.collections@, t, *new_collection_address, *new_collection) by {
                        if t < i {
                            assert(before.collections@[t].0@ != before.collections@[i as int].0@);
                        } else if t > i {
                            assert(before.collections@[i as int].0@ != before.collections@[t].0@);
                        }
                    }
                    assert(before.proposals@[index as int].proposal_type == proposal.proposal_type);
                    assert(fin.proposals@ == before.proposals@.update(
                        index as int,
                        Proposal { proposal_status: Some(ProposalStatus::Accepted), ..before.proposals@[index as int] },
                    ));
                    assert(current == before.collection(collection_address@));
                    assert(settle == settles(current, *new_collection));
                    assert(fin.config == before.config && fin.stakers == before.stakers);
                }
                Ok(msgs)
            },
        }
    }
}

} // verus!
