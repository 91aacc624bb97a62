use crate::assets::{Currency, Funds, Token};
use crate::math::{mul_floor, DECIMAL_FRACTIONAL};
use crate::auth::{authorized, check_authorization, AuthType};
use crate::error::ContractError;
use crate::msg::Instruction;
use crate::types::{
    Collection, Config, EmissionType, Proposal, ProposalStatus, ProposalType,
};
use vstd::prelude::*;

verus! {

/// One staked item: who staked it, where, and when rewards were last taken.
#[derive(Debug)]
pub struct StakeRecord {
    pub staker: String,
    pub collection_address: String,
    pub token_id: u128,
    /// Nanoseconds since the epoch.
    pub staking_start_date: u64,
    /// Nanoseconds since the epoch.
    pub last_claim_date: u64,
}

/// The whole state of the staking platform.
#[derive(Debug)]
pub struct StakingPlatform {
    pub config: Config,
    /// The collection registry, keyed by collection address.
    pub collections: Vec<(String, Collection)>,
    /// Pre-funded reward balances, keyed by collection address.
    pub collections_balances: Vec<(String, Funds)>,
    /// Proposal `id` is stored at index `id - 1`; ids are never reused.
    pub proposals: Vec<Proposal>,
    /// The fee ledger: proposal payments awaiting distribution, one line per token.
    pub funds: Vec<Funds>,
    /// Every staked item, in the order it was staked.
    pub stakes: Vec<StakeRecord>,
    /// Everyone who has ever staked, in order of their first stake.
    pub stakers: Vec<String>,
}


/// The sum of the weights in `ws`, in atomics.
pub open spec fn weight_sum(ws: Seq<(String, u128)>) -> int
    decreases ws.len(),
{
    if ws.len() == 0 {
        0
    } else {
        weight_sum(ws.drop_last()) + ws.last().1
    }
}

/// `floor(amount * weight)` for a weight in atomics.
pub open spec fn share(amount: int, weight: int) -> int {
    amount * weight / (DECIMAL_FRACTIONAL as int)
}

/// What the recipients of `ws` receive together out of `amount`.
pub open spec fn shares_sum(amount: int, ws: Seq<(String, u128)>) -> int
    decreases ws.len(),
{
    if ws.len() == 0 {
        0
    } else {
        shares_sum(amount, ws.drop_last()) + share(amount, ws.last().1 as int)
    }
}

/// The transfers that split one fee ledger line among `ws`.
pub open spec fn split_line(line: Funds, ws: Seq<(String, u128)>) -> Seq<Instruction> {
    ws.map_values(
        |w: (String, u128)|
            Instruction::Transfer {
                recipient: w.0,
                amount: share(line.amount as int, w.1 as int) as u128,
                token: line.currency.token,
            },
    )
}

/// The transfers of a distribution: every line of the ledger, each split
/// among all recipients.
pub open spec fn distribution(funds: Seq<Funds>, ws: Seq<(String, u128)>) -> Seq<Instruction>
    decreases funds.len(),
{
    if funds.len() == 0 {
        Seq::empty()
    } else {
        distribution(funds.drop_last(), ws) + split_line(funds.last(), ws)
    }
}

/// Every weight lies in `[0, 1]`.
pub open spec fn weights_in_range(ws: Seq<(String, u128)>) -> bool {
    forall|i: int| 0 <= i < ws.len() ==> (#[trigger] ws[i]).1 <= DECIMAL_FRACTIONAL
}

pub proof fn lemma_weight_sum_prefix(ws: Seq<(String, u128)>, n: int)
    requires
        0 <= n <= ws.len(),
    ensures
        0 <= weight_sum(ws.subrange(0, n)) <= weight_sum(ws),
    decreases ws.len() - n,
{
    if n < ws.len() {
        lemma_weight_sum_prefix(ws, n + 1);
        assert(ws.subrange(0, n + 1).drop_last() == ws.subrange(0, n));
        lemma_weight_sum_nonneg(ws.subrange(0, n));
    } else {
        assert(ws.subrange(0, n) == ws);
        lemma_weight_sum_nonneg(ws);
    }
}

proof fn lemma_weight_sum_nonneg(ws: Seq<(String, u128)>)
    ensures
        weight_sum(ws) >= 0,
    decreases ws.len(),
{
    if ws.len() > 0 {
        lemma_weight_sum_nonneg(ws.drop_last());
    }
}

/// Flooring each share never pays more than the exact split:
/// `shares_sum(amount, ws) * 10^18 <= amount * weight_sum(ws)`.
pub proof fn lemma_shares_bound(amount: int, ws: Seq<(String, u128)>)
    requires
        amount >= 0,
    ensures
        0 <= shares_sum(amount, ws),
        shares_sum(amount, ws) * DECIMAL_FRACTIONAL <= amount * weight_sum(ws),
    decreases ws.len(),
{
    if ws.len() > 0 {
        lemma_shares_bound(amount, ws.drop_last());
        let w = ws.last().1 as int;
        let f = DECIMAL_FRACTIONAL as int;
        let q = amount * w / f;
        assert(q * f <= amount * w && q >= 0) by (nonlinear_arith)
            requires
                q == amount * w / f,
                f > 0,
                amount >= 0,
                w >= 0,
        ;
        assert(amount * weight_sum(ws) == amount * weight_sum(ws.drop_last()) + amount * w)
            by (nonlinear_arith)
            requires
                weight_sum(ws) == weight_sum(ws.drop_last()) + w,
        ;
        assert(shares_sum(amount, ws) * f == shares_sum(amount, ws.drop_last()) * f + q * f)
            by (nonlinear_arith)
            requires
                shares_sum(amount, ws) == shares_sum(amount, ws.drop_last()) + q,
        ;
    }
}

/// Every weight must lie in `[0, 1]`, and together they must make exactly one.
fn check_weights(ws: &Vec<(String, u128)>) -> (r: Result<(), ContractError>)
    ensures
        !weights_in_range(ws@) ==> r == Err::<(), _>(ContractError::WeightIsOutOfRange),
        weights_in_range(ws@) && weight_sum(ws@) != DECIMAL_FRACTIONAL ==> r == Err::<(), _>(
            ContractError::WeightsAreUnbalanced,
        ),
        r is Ok <==> weights_in_range(ws@) && weight_sum(ws@) == DECIMAL_FRACTIONAL,
{
        let mut i: usize = 0;
        while i < ws.len()
            invariant
                i <= ws@.len(),
                forall|t: int| 0 <= t < i ==> (#[trigger] ws@[t]).1 <= DECIMAL_FRACTIONAL,
            decreases ws@.len() - i,
        {
            if ws[i].1 > DECIMAL_FRACTIONAL {
                return Err(ContractError::WeightIsOutOfRange);
            }
            i = i + 1;
        }
        let mut sum: u128 = 0;
        let mut i: usize = 0;
        assert(ws@.subrange(0, 0) == Seq::<(String, u128)>::empty());
        while i < ws.len()
            invariant
                i <= ws@.len(),
                weights_in_range(ws@),
                sum == weight_sum(ws@.subrange(0, i as int)),
                sum <= DECIMAL_FRACTIONAL,
            decreases ws@.len() - i,
        {
            assert(ws@.subrange(0, i + 1 as int).drop_last() == ws@.subrange(0, i as int));
            sum = sum + ws[i].1;
            if sum > DECIMAL_FRACTIONAL {
                proof {
                    lemma_weight_sum_prefix(ws@, i + 1);
                }
                return Err(ContractError::WeightsAreUnbalanced);
            }
            i = i + 1;
        }
        assert(ws@.subrange(0, ws@.len() as int) == ws@);
        if sum != DECIMAL_FRACTIONAL {
            return Err(ContractError::WeightsAreUnbalanced);
        }
        Ok(())
}

impl StakingPlatform {
    /// The invariant every operation keeps.
    pub open spec fn wf(&self) -> bool {
        &&& forall|i: int, j: int|
            0 <= i < j < self.collections@.len() ==> (#[trigger] self.collections@[i]).0@ != (
            #[trigger] self.collections@[j]).0@
        &&& forall|i: int, j: int|
            0 <= i < j < self.collections_balances@.len() ==> (
            #[trigger] self.collections_balances@[i]).0@ != (
            #[trigger] self.collections_balances@[j]).0@
        &&& forall|i: int, j: int|
            0 <= i < j < self.funds@.len() ==> (#[trigger] self.funds@[i]).currency.token@ != (
            #[trigger] self.funds@[j]).currency.token@
        &&& forall|i: int, j: int|
            0 <= i < j < self.stakers@.len() ==> (#[trigger] self.stakers@[i])@ != (
            #[trigger] self.stakers@[j])@
        &&& forall|i: int|
            0 <= i < self.collections@.len() ==> (#[trigger] self.collections@[i]).1.valid_emission()
        &&& forall|i: int|
            0 <= i < self.proposals@.len() ==> (
            #[trigger] self.proposals@[i]).proposal_type.terms().valid_emission()
    }

    pub open spec fn has_collection(&self, id: Seq<char>) -> bool {
        exists|i: int| 0 <= i < self.collections@.len() && (#[trigger] self.collections@[i]).0@ == id
    }

    /// The live collection at `id`.
    pub open spec fn collection(&self, id: Seq<char>) -> Collection {
        self.collections@[choose|i: int|
            0 <= i < self.collections@.len() && (#[trigger] self.collections@[i]).0@ == id].1
    }

    pub open spec fn has_balance(&self, id: Seq<char>) -> bool {
        exists|i: int|
            0 <= i < self.collections_balances@.len() && (
            #[trigger] self.collections_balances@[i]).0@ == id
    }

    /// The pre-funded balance of collection `id`; zero where it has none.
    pub open spec fn balance_of(&self, id: Seq<char>) -> int {
        if self.has_balance(id) {
            self.collections_balances@[choose|i: int|
                0 <= i < self.collections_balances@.len() && (
                #[trigger] self.collections_balances@[i]).0@ == id].1.amount as int
        } else {
            0
        }
    }

    /// A live collection already holds address `id` or name `name`.
    pub open spec fn collides(&self, id: Seq<char>, name: Seq<char>) -> bool {
        exists|i: int|
            0 <= i < self.collections@.len() && ((#[trigger] self.collections@[i]).0@ == id
                || self.collections@[i].1.name@ == name)
    }

    pub open spec fn is_admin_or_owner(&self, sender: Seq<char>) -> bool {
        authorized(AuthType::AdminOrOwner, self.config.admin@, self.config.owner, sender)
    }

    /// An empty platform administered by `admin`.
    pub fn new(admin: &str, owner: &Option<String>, minter: &Option<String>) -> (r: StakingPlatform)
        ensures
            r.wf(),
            r.config.admin@ == admin@,
            r.config.owner == *owner,
            r.config.minter == *minter,
            r.collections@.len() == 0,
            r.collections_balances@.len() == 0,
            r.proposals@.len() == 0,
            r.funds@.len() == 0,
            r.stakes@.len() == 0,
            r.stakers@.len() == 0,
    {
        StakingPlatform {
            config: Config::new(admin, owner, minter),
            collections: Vec::new(),
            collections_balances: Vec::new(),
            proposals: Vec::new(),
            funds: Vec::new(),
            stakes: Vec::new(),
            stakers: Vec::new(),
        }
    }

    /// The id the next proposal will get.
    pub fn proposal_counter(&self) -> (r: u128)
        ensures
            r == self.proposals@.len() + 1,
    {
        self.proposals.len() as u128 + 1
    }

    fn auth_admin_or_owner(&self, sender: &String) -> (r: Result<(), ContractError>)
        ensures
            r is Ok <==> self.is_admin_or_owner(sender@),
            r is Err ==> r == Err::<(), _>(ContractError::Unauthorized),
    {
        check_authorization(&self.config.admin, &self.config.owner, sender, &AuthType::AdminOrOwner)
    }

    pub fn find_collection(&self, id: &String) -> (r: Option<usize>)
        ensures
            r matches Some(i) ==> i < self.collections@.len() && self.collections@[i as int].0@
                == id@,
            r is None <==> !self.has_collection(id@),
    {
        let mut i: usize = 0;
        while i < self.collections.len()
            invariant
                i <= self.collections@.len(),
                forall|t: int| 0 <= t < i ==> (#[trigger] self.collections@[t]).0@ != id@,
            decreases self.collections@.len() - i,
        {
            if self.collections[i].0 == *id {
                return Some(i);
            }
            i = i + 1;
        }
        None
    }

    pub fn find_balance(&self, id: &String) -> (r: Option<usize>)
        ensures
            r matches Some(i) ==> i < self.collections_balances@.len()
                && self.collections_balances@[i as int].0@ == id@,
            r is None <==> !self.has_balance(id@),
    {
        let mut i: usize = 0;
        while i < self.collections_balances.len()
            invariant
                i <= self.collections_balances@.len(),
                forall|t: int| 0 <= t < i ==> (#[trigger] self.collections_balances@[t]).0@ != id@,
            decreases self.collections_balances@.len() - i,
        {
            if self.collections_balances[i].0 == *id {
                return Some(i);
            }
            i = i + 1;
        }
        None
    }

    pub(crate) fn find_collision(&self, id: &String, name: &String) -> (r: bool)
        ensures
            r == self.collides(id@, name@),
    {
        let mut i: usize = 0;
        while i < self.collections.len()
            invariant
                i <= self.collections@.len(),
                forall|t: int|
                    0 <= t < i ==> !((#[trigger] self.collections@[t]).0@ == id@
                        || self.collections@[t].1.name@ == name@),
            decreases self.collections@.len() - i,
        {
            if self.collections[i].0 == *id || self.collections[i].1.name == *name {
                return true;
            }
            i = i + 1;
        }
        false
    }

    /// Replaces the owner and the minter; only the admin may.
    pub fn try_update_config(
        &mut self,
        sender: &String,
        owner: Option<String>,
        minter: Option<String>,
    ) -> (r: Result<(), ContractError>)
        requires
            old(self).wf(),
        ensures
            final(self).wf(),
            r is Ok <==> sender@ == old(self).config.admin@,
            r is Err ==> r == Err::<(), _>(ContractError::Unauthorized) && *final(self) == *old(self),
            r is Ok ==> final(self).config.admin == old(self).config.admin && final(self).config.owner == owner && final(self).config.minter == minter && final(self).collections == old(self).collections && final(self).collections_balances == old(self).collections_balances && final(self).proposals == old(self).proposals && final(self).funds == old(self).funds && final(self).stakes == old(self).stakes && final(self).stakers == old(self).stakers,
    {
        check_authorization(&self.config.admin, &self.config.owner, sender, &AuthType::Admin)?;
        self.config.owner = owner;
        self.config.minter = minter;
        Ok(())
    }

    /// Queues a proposal and returns its id. Only the admin or the owner may;
    /// minted rewards must be native, and the address and the name must be
    /// free among live collections.
    pub fn try_create_proposal(&mut self, sender: &String, proposal: Proposal) -> (r: Result<
        u128,
        ContractError,
    >)
        requires
            old(self).wf(),
        ensures
            final(self).wf(),
            r is Ok <==> old(self).is_admin_or_owner(sender@)
                && proposal.proposal_type.terms().valid_emission() && !old(self).collides(
                proposal.proposal_type.address(),
                proposal.proposal_type.terms().name@,
            ),
            !old(self).is_admin_or_owner(sender@) ==> r == Err::<u128, _>(
                ContractError::Unauthorized,
            ),
            old(self).is_admin_or_owner(sender@) && !proposal.proposal_type.terms().valid_emission()
                ==> r == Err::<u128, _>(ContractError::WrongMinterTokenType),
            old(self).is_admin_or_owner(sender@) && proposal.proposal_type.terms().valid_emission()
                && old(self).collides(
                proposal.proposal_type.address(),
                proposal.proposal_type.terms().name@,
            ) ==> r == Err::<u128, _>(ContractError::CollectionDuplication),
            r is Err ==> *final(self) == *old(self),
            r matches Ok(id) ==> id == old(self).proposals@.len() + 1 && final(self).proposals@
                == old(self).proposals@.push(
                Proposal {
                    proposal_status: Some(ProposalStatus::Active),
                    proposal_type: proposal.proposal_type,
                    price: proposal.price,
                },
            ) && final(self).config == old(self).config && final(self).collections == old(self).collections && final(self).collections_balances == old(self).collections_balances
                && final(self).funds == old(self).funds && final(self).stakes == old(self).stakes
                && final(self).stakers == old(self).stakers,
    {
        self.auth_admin_or_owner(sender)?;
        let (address, terms) = match &proposal.proposal_type {
            ProposalType::AddCollection { collection_address, collection } => (
                collection_address,
                collection,
            ),
            ProposalType::UpdateCollection { collection_address, new_collection, .. } => (
                collection_address,
                new_collection,
            ),
        };
        if terms.emission_type == EmissionType::Minting && !terms.staking_currency.token.is_native() {
            return Err(ContractError::WrongMinterTokenType);
        }
        if self.find_collision(address, &terms.name) {
            return Err(ContractError::CollectionDuplication);
        }
        let id = self.proposals.len() as u128 + 1;
        self.proposals.push(
            Proposal {
                proposal_status: Some(ProposalStatus::Active),
                proposal_type: proposal.proposal_type,
                price: proposal.price,
            },
        );
        Ok(id)
    }

    /// Rejects an active proposal. Only the admin or the owner may.
    pub fn try_reject_proposal(&mut self, sender: &String, id: u128) -> (r: Result<
        (),
        ContractError,
    >)
        requires
            old(self).wf(),
        ensures
            final(self).wf(),
            r is Ok <==> old(self).is_admin_or_owner(sender@) && 1 <= id <= old(self).proposals@.len() && old(self).proposals@[id - 1].proposal_status == Some(
                ProposalStatus::Active,
            ),
            !old(self).is_admin_or_owner(sender@) ==> r == Err::<(), _>(
                ContractError::Unauthorized,
            ),
            old(self).is_admin_or_owner(sender@) && !(1 <= id <= old(self).proposals@.len())
                ==> r matches Err(ContractError::ParameterIsNotFound { .. }),
            old(self).is_admin_or_owner(sender@) && 1 <= id <= old(self).proposals@.len() && old(self).proposals@[id - 1].proposal_status != Some(ProposalStatus::Active) ==> r == Err::<
                (),
                _,
            >(ContractError::WrongProposalStatus),
            r is Err ==> *final(self) == *old(self),
            r is Ok ==> final(self).proposals@ == old(self).proposals@.update(
                id - 1,
                Proposal {
                    proposal_status: Some(ProposalStatus::Rejected),
                    ..old(self).proposals@[id - 1]
                },
            ) && final(self).config == old(self).config && final(self).collections == old(self).collections && final(self).collections_balances == old(self).collections_balances
                && final(self).funds == old(self).funds && final(self).stakes == old(self).stakes
                && final(self).stakers == old(self).stakers,
    {
        self.auth_admin_or_owner(sender)?;
        if id == 0 || id > self.proposals.len() as u128 {
            return Err(ContractError::ParameterIsNotFound { value: "proposal".to_string() });
        }
        let index = (id - 1) as usize;
        if self.proposals[index].proposal_status != Some(ProposalStatus::Active) {
            return Err(ContractError::WrongProposalStatus);
        }
        let mut proposal = self.proposals[index].clone();
        proposal.proposal_status = Some(ProposalStatus::Rejected);
        self.proposals.set(index, proposal);
        Ok(())
    }

    /// Deletes collection `address` with its balance entry. Only the admin or
    /// the owner may; an address that holds no collection is left as it is.
    pub fn try_remove_collection(&mut self, sender: &String, address: &String) -> (r: Result<
        (),
        ContractError,
    >)
        requires
            old(self).wf(),
        ensures
            final(self).wf(),
            r is Ok <==> old(self).is_admin_or_owner(sender@),
            r is Err ==> r == Err::<(), _>(ContractError::Unauthorized) && *final(self) == *old(self),
            r is Ok ==> !final(self).has_collection(address@) && !final(self).has_balance(
                address@,
            ),
            r is Ok ==> forall|id: Seq<char>|
                id != address@ ==> (final(self).has_collection(id) == old(self).has_collection(id)
                    && (old(self).has_collection(id) ==> final(self).collection(id) == old(self).collection(id)) && final(self).balance_of(id) == old(self).balance_of(id)),
            r is Ok ==> final(self).config == old(self).config && final(self).proposals == old(self).proposals && final(self).funds == old(self).funds && final(self).stakes == old(self).stakes && final(self).stakers == old(self).stakers,
    {
        self.auth_admin_or_owner(sender)?;
        let ghost before = *self;
        if let Some(i) = self.find_collection(address) {
            self.collections.remove(i);
            proof {
                let ghost mid = *self;
                assert forall|t: int, u: int|
                    0 <= t < u < mid.collections@.len() implies (
                    #[trigger] mid.collections@[t]).0@ != (#[trigger] mid.collections@[u]).0@ by {
                    let ot = if t < i { t } else { t + 1 };
                    let ou = if u < i { u } else { u + 1 };
                    assert(mid.collections@[t] == before.collections@[ot]);
                    assert(mid.collections@[u] == before.collections@[ou]);
                }
                assert forall|t: int| 0 <= t < mid.collections@.len() implies (
                #[trigger] mid.collections@[t]).0@ != address@ by {
                    let ot = if t < i { t } else { t + 1 };
                    assert(mid.collections@[t] == before.collections@[ot]);
                }
                assert forall|id: Seq<char>| id != address@ implies mid.has_collection(id)
                    == before.has_collection(id) && (before.has_collection(id)
                    ==> mid.collection(id) == before.collection(id)) by {
                    if before.has_collection(id) {
                        let k = choose|k: int|
                            0 <= k < before.collections@.len() && (
                            #[trigger] before.collections@[k]).0@ == id;
                        before.lemma_collection_at(k);
                        let k2 = if k < i { k } else { k - 1 };
                        assert(mid.collections@[k2] == before.collections@[k]);
                        mid.lemma_collection_at(k2);
                    }
                    if mid.has_collection(id) {
                        let k2 = choose|k: int|
                            0 <= k < mid.collections@.len() && (#[trigger] mid.collections@[k]).0@
                                == id;
                        let k = if k2 < i { k2 } else { k2 + 1 };
                        assert(mid.collections@[k2] == before.collections@[k]);
                    }
                }
            }
        }
        let ghost mid = *self;
        if let Some(i) = self.find_balance(address) {
            self.collections_balances.remove(i);
            proof {
                let ghost fin = *self;
                assert forall|t: int, u: int|
                    0 <= t < u < fin.collections_balances@.len() implies (
                    #[trigger] fin.collections_balances@[t]).0@ != (
                    #[trigger] fin.collections_balances@[u]).0@ by {
                    let ot = if t < i { t } else { t + 1 };
                    let ou = if u < i { u } else { u + 1 };
                    assert(fin.collections_balances@[t] == mid.collections_balances@[ot]);
                    assert(fin.collections_balances@[u] == mid.collections_balances@[ou]);
                }
                assert forall|t: int| 0 <= t < fin.collections_balances@.len() implies (
                #[trigger] fin.collections_balances@[t]).0@ != address@ by {
                    let ot = if t < i { t } else { t + 1 };
                    assert(fin.collections_balances@[t] == mid.collections_balances@[ot]);
                }
                assert forall|id: Seq<char>| id != address@ implies fin.balance_of(id)
                    == mid.balance_of(id) by {
                    if mid.has_balance(id) {
                        let k = choose|k: int|
                            0 <= k < mid.collections_balances@.len() && (
                            #[trigger] mid.collections_balances@[k]).0@ == id;
                        mid.lemma_balance_at(k);
                        let k2 = if k < i { k } else { k - 1 };
                        assert(fin.collections_balances@[k2] == mid.collections_balances@[k]);
                        fin.lemma_balance_at(k2);
                    }
                    if fin.has_balance(id) {
                        let k2 = choose|k: int|
                            0 <= k < fin.collections_balances@.len() && (
                            #[trigger] fin.collections_balances@[k]).0@ == id;
                        let k = if k2 < i { k2 } else { k2 + 1 };
                        assert(fin.collections_balances@[k2] == mid.collections_balances@[k]);
                    }
                }
            }
        }
        Ok(())
    }

    /// With unique addresses, `collection` finds the entry at any index that
    /// holds the address.
    pub proof fn lemma_collection_at(&self, k: int)
        requires
            forall|i: int, j: int|
                0 <= i < j < self.collections@.len() ==> (#[trigger] self.collections@[i]).0@ != (
                #[trigger] self.collections@[j]).0@,
            0 <= k < self.collections@.len(),
        ensures
            self.has_collection(self.collections@[k].0@),
            self.collection(self.collections@[k].0@) == self.collections@[k].1,
    {
        let id = self.collections@[k].0@;
        assert(self.collections@[k].0@ == id);
        let c = choose|i: int|
            0 <= i < self.collections@.len() && (#[trigger] self.collections@[i]).0@ == id;
        if c != k {
            if c < k {
                assert(self.collections@[c].0@ != self.collections@[k].0@);
            } else {
                assert(self.collections@[k].0@ != self.collections@[c].0@);
            }
        }
    }

    /// With unique addresses, `balance_of` reads the entry at any index that
    /// holds the address.
    pub proof fn lemma_balance_at(&self, k: int)
        requires
            forall|i: int, j: int|
                0 <= i < j < self.collections_balances@.len() ==> (
                #[trigger] self.collections_balances@[i]).0@ != (
                #[trigger] self.collections_balances@[j]).0@,
            0 <= k < self.collections_balances@.len(),
        ensures
            self.has_balance(self.collections_balances@[k].0@),
            self.balance_of(self.collections_balances@[k].0@)
                == self.collections_balances@[k].1.amount,
    {
        let id = self.collections_balances@[k].0@;
        assert(self.collections_balances@[k].0@ == id);
        let c = choose|i: int|
            0 <= i < self.collections_balances@.len() && (
            #[trigger] self.collections_balances@[i]).0@ == id;
        if c != k {
            if c < k {
                assert(self.collections_balances@[c].0@ != self.collections_balances@[k].0@);
            } else {
                assert(self.collections_balances@[k].0@ != self.collections_balances@[c].0@);
            }
        }
    }

    /// Sets the balance of collection `id` to `amount` of `currency`.
    pub(crate) fn set_balance(&mut self, id: &String, amount: u128, currency: &Currency)
        requires
            old(self).wf(),
        ensures
            final(self).wf(),
            final(self).has_balance(id@),
            final(self).balance_of(id@) == amount,
            forall|o: Seq<char>|
                o != id@ ==> final(self).has_balance(o) == old(self).has_balance(o) && final(self).balance_of(o) == old(self).balance_of(o),
            final(self).config == old(self).config,
            final(self).collections == old(self).collections,
            final(self).proposals == old(self).proposals,
            final(self).funds == old(self).funds,
            final(self).stakes == old(self).stakes,
            final(self).stakers == old(self).stakers,
    {
        let ghost before = *self;
        match self.find_balance(id) {
            Some(j) => {
                let line = Funds::new(amount, currency);
                let key = self.collections_balances[j].0.clone();
                self.collections_balances.set(j, (key, line));
                proof {
                    let fin = *self;
                    assert forall|t: int, u: int|
                        0 <= t < u < fin.collections_balances@.len() implies (
                        #[trigger] fin.collections_balances@[t]).0@ != (
                        #[trigger] fin.collections_balances@[u]).0@ by {
                        assert(fin.collections_balances@[t].0 == before.collections_balances@[t].0);
                        assert(fin.collections_balances@[u].0 == before.collections_balances@[u].0);
                    }
                    fin.lemma_balance_at(j as int);
                    assert forall|o: Seq<char>| o != id@ implies fin.has_balance(o)
                        == before.has_balance(o) && fin.balance_of(o) == before.balance_of(o) by {
                        if before.has_balance(o) {
                            let k = choose|k: int|
                                0 <= k < before.collections_balances@.len() && (
                                #[trigger] before.collections_balances@[k]).0@ == o;
                            before.lemma_balance_at(k);
                            assert(fin.collections_balances@[k] == before.collections_balances@[k]);
                            fin.lemma_balance_at(k);
                        }
                        if fin.has_balance(o) {
                            let k = choose|k: int|
                                0 <= k < fin.collections_balances@.len() && (
                                #[trigger] fin.collections_balances@[k]).0@ == o;
                            assert(fin.collections_balances@[k] == before.collections_balances@[k]);
                        }
                    }
                }
            },
            None => {
                self.collections_balances.push((id.clone(), Funds::new(amount, currency)));
                proof {
                    let fin = *self;
                    let n = before.collections_balances@.len() as int;
                    assert forall|t: int, u: int|
                        0 <= t < u < fin.collections_balances@.len() implies (
                        #[trigger] fin.collections_balances@[t]).0@ != (
                        #[trigger] fin.collections_balances@[u]).0@ by {
                        assert(fin.collections_balances@[t] == before.collections_balances@[t]);
                        if u < n {
                            assert(fin.collections_balances@[u] == before.collections_balances@[u]);
                        }
                    }
                    fin.lemma_balance_at(n);
                    assert forall|o: Seq<char>| o != id@ implies fin.has_balance(o)
                        == before.has_balance(o) && fin.balance_of(o) == before.balance_of(o) by {
                        if before.has_balance(o) {
                            let k = choose|k: int|
                                0 <= k < before.collections_balances@.len() && (
                                #[trigger] before.collections_balances@[k]).0@ == o;
                            before.lemma_balance_at(k);
                            assert(fin.collections_balances@[k] == before.collections_balances@[k]);
                            fin.lemma_balance_at(k);
                        }
                        if fin.has_balance(o) {
                            let k = choose|k: int|
                                0 <= k < fin.collections_balances@.len() && (
                                #[trigger] fin.collections_balances@[k]).0@ == o;
                            assert(fin.collections_balances@[k] == before.collections_balances@[k]);
                        }
                    }
                }
            },
        }
    }

    /// Adds `amount` of `token` to the balance of collection
    /// `collection_address`. Only the collection owner may, only for a
    /// spending collection, and only in the collection's currency.
    pub fn try_deposit_tokens(
        &mut self,
        sender: &String,
        collection_address: &String,
        amount: u128,
        token: &Token,
    ) -> (r: Result<(), ContractError>)
        requires
            old(self).wf(),
        ensures
            final(self).wf(),
            ({
                let id = collection_address@;
                let c = old(self).collection(id);
                &&& !old(self).has_collection(id) ==> r == Err::<(), _>(
                    ContractError::CollectionIsNotFound,
                )
                &&& old(self).has_collection(id) && token@ != c.staking_currency.token@ ==> r
                    == Err::<(), _>(ContractError::AssetIsNotFound)
                &&& old(self).has_collection(id) && token@ == c.staking_currency.token@
                    && sender@ != c.owner@ ==> r == Err::<(), _>(ContractError::Unauthorized)
                &&& old(self).has_collection(id) && token@ == c.staking_currency.token@
                    && sender@ == c.owner@ && c.emission_type != EmissionType::Spending ==> r
                    == Err::<(), _>(ContractError::ActionByEmissionType)
                &&& r is Ok <==> old(self).has_collection(id) && token@
                    == c.staking_currency.token@ && sender@ == c.owner@ && c.emission_type
                    == EmissionType::Spending && old(self).balance_of(id) + amount <= u128::MAX
                &&& r is Ok ==> final(self).balance_of(id) == old(self).balance_of(id) + amount
            }),
            r is Err ==> *final(self) == *old(self),
            r is Ok ==> forall|o: Seq<char>|
                o != collection_address@ ==> final(self).balance_of(o) == old(self).balance_of(o),
            r is Ok ==> final(self).config == old(self).config && final(self).collections == old(self).collections
                && final(self).proposals == old(self).proposals && final(self).funds == old(self).funds
                && final(self).stakes == old(self).stakes && final(self).stakers == old(self).stakers,
    {
        let i = match self.find_collection(collection_address) {
            Some(i) => i,
            None => {
                return Err(ContractError::CollectionIsNotFound);
            },
        };
        proof {
            self.lemma_collection_at(i as int);
        }
        let collection = &self.collections[i].1;
        if *token != collection.staking_currency.token {
            return Err(ContractError::AssetIsNotFound);
        }
        if *sender != collection.owner {
            return Err(ContractError::Unauthorized);
        }
        if collection.emission_type != EmissionType::Spending {
            return Err(ContractError::ActionByEmissionType);
        }
        let current = match self.find_balance(collection_address) {
            Some(j) => {
                proof {
                    self.lemma_balance_at(j as int);
                }
                self.collections_balances[j].1.amount
            },
            None => 0,
        };
        let total = match current.checked_add(amount) {
            Some(t) => t,
            None => {
                return Err(ContractError::AmountOverflow);
            },
        };
        let currency = collection.staking_currency.clone();
        self.set_balance(collection_address, total, &currency);
        Ok(())
    }

    /// Takes `amount` out of the balance of collection `collection_address`
    /// and sends it to the collection owner, who alone may ask. Only for a
    /// spending collection, and never more than the balance holds.
    pub fn try_withdraw_tokens(
        &mut self,
        sender: &String,
        collection_address: &String,
        amount: u128,
    ) -> (r: Result<Vec<Instruction>, ContractError>)
        requires
            old(self).wf(),
        ensures
            final(self).wf(),
            ({
                let id = collection_address@;
                let c = old(self).collection(id);
                &&& !old(self).has_collection(id) ==> r == Err::<Vec<Instruction>, _>(
                    ContractError::CollectionIsNotFound,
                )
                &&& old(self).has_collection(id) && sender@ != c.owner@ ==> r == Err::<
                    Vec<Instruction>,
                    _,
                >(ContractError::Unauthorized)
                &&& old(self).has_collection(id) && sender@ == c.owner@ && c.emission_type
                    != EmissionType::Spending ==> r == Err::<Vec<Instruction>, _>(
                    ContractError::ActionByEmissionType,
                )
                &&& old(self).has_collection(id) && sender@ == c.owner@ && c.emission_type
                    == EmissionType::Spending && !old(self).has_balance(id) ==> r == Err::<
                    Vec<Instruction>,
                    _,
                >(ContractError::AssetIsNotFound)
                &&& old(self).has_collection(id) && sender@ == c.owner@ && c.emission_type
                    == EmissionType::Spending && old(self).has_balance(id) && amount > old(self).balance_of(id) ==> r == Err::<Vec<Instruction>, _>(
                    ContractError::InsufficientBalance,
                )
                &&& r is Ok <==> old(self).has_collection(id) && sender@ == c.owner@
                    && c.emission_type == EmissionType::Spending && old(self).has_balance(id)
                    && amount <= old(self).balance_of(id)
                &&& r matches Ok(msgs) ==> final(self).balance_of(id) == old(self).balance_of(id)
                    - amount && msgs@ == seq![
                    Instruction::Transfer {
                        recipient: *sender,
                        amount,
                        token: c.staking_currency.token,
                    },
                ]
            }),
            r is Err ==> *final(self) == *old(self),
            r is Ok ==> forall|o: Seq<char>|
                o != collection_address@ ==> final(self).balance_of(o) == old(self).balance_of(o),
            r is Ok ==> final(self).config == old(self).config && final(self).collections == old(self).collections
                && final(self).proposals == old(self).proposals && final(self).funds == old(self).funds
                && final(self).stakes == old(self).stakes && final(self).stakers == old(self).stakers,
    {
        let i = match self.find_collection(collection_address) {
            Some(i) => i,
            None => {
                return Err(ContractError::CollectionIsNotFound);
            },
        };
        proof {
            self.lemma_collection_at(i as int);
        }
        let collection = &self.collections[i].1;
        if *sender != collection.owner {
            return Err(ContractError::Unauthorized);
        }
        if collection.emission_type != EmissionType::Spending {
            return Err(ContractError::ActionByEmissionType);
        }
        let j = match self.find_balance(collection_address) {
            Some(j) => j,
            None => {
                return Err(ContractError::AssetIsNotFound);
            },
        };
        proof {
            self.lemma_balance_at(j as int);
        }
        let current = self.collections_balances[j].1.amount;
        if amount > current {
            return Err(ContractError::InsufficientBalance);
        }
        let token = collection.staking_currency.token.clone();
        let currency = collection.staking_currency.clone();
        self.set_balance(collection_address, current - amount, &currency);
        let mut msgs: Vec<Instruction> = Vec::new();
        msgs.push(Instruction::Transfer { recipient: sender.clone(), amount, token });
        Ok(msgs)
    }

    /// Splits every line of the fee ledger among the recipients by weight:
    /// each receives `floor(line * weight)`, and what the flooring leaves
    /// stays in the ledger. Only the admin or the owner may; every weight
    /// must lie in `[0, 1]` and together they must make exactly one.
    pub fn try_distribute_funds(
        &mut self,
        sender: &String,
        address_and_weight_list: &Vec<(String, u128)>,
    ) -> (r: Result<Vec<Instruction>, ContractError>)
        requires
            old(self).wf(),
        ensures
            final(self).wf(),
            ({
                let ws = address_and_weight_list@;
                &&& !old(self).is_admin_or_owner(sender@) ==> r == Err::<Vec<Instruction>, _>(
                    ContractError::Unauthorized,
                )
                &&& old(self).is_admin_or_owner(sender@) && !weights_in_range(ws) ==> r == Err::<
                    Vec<Instruction>,
                    _,
                >(ContractError::WeightIsOutOfRange)
                &&& old(self).is_admin_or_owner(sender@) && weights_in_range(ws) && weight_sum(ws)
                    != DECIMAL_FRACTIONAL ==> r == Err::<Vec<Instruction>, _>(
                    ContractError::WeightsAreUnbalanced,
                )
                &&& r is Ok <==> old(self).is_admin_or_owner(sender@) && weights_in_range(ws)
                    && weight_sum(ws) == DECIMAL_FRACTIONAL
                &&& r matches Ok(msgs) ==> msgs@ == distribution(old(self).funds@, ws)
                    && final(self).funds@.len() == old(self).funds@.len() && forall|k: int|
                    0 <= k < old(self).funds@.len() ==> (#[trigger] final(self).funds@[k]).amount
                        == old(self).funds@[k].amount - shares_sum(old(self).funds@[k].amount as int, ws)
                        && final(self).funds@[k].currency == old(self).funds@[k].currency
            }),
            r is Err ==> *final(self) == *old(self),
            r is Ok ==> final(self).config == old(self).config && final(self).collections == old(self).collections
                && final(self).collections_balances == old(self).collections_balances
                && final(self).proposals == old(self).proposals && final(self).stakes == old(self).stakes
                && final(self).stakers == old(self).stakers,
    {
        self.auth_admin_or_owner(sender)?;
        let ws = address_and_weight_list;
        check_weights(ws)?;
        let ghost before = *self;
        let mut msgs: Vec<Instruction> = Vec::new();
        let mut k: usize = 0;
        while k < self.funds.len()
            invariant
                k <= self.funds@.len(),
                self.funds@.len() == before.funds@.len(),
                weights_in_range(ws@),
                weight_sum(ws@) == DECIMAL_FRACTIONAL,
                msgs@ == distribution(before.funds@.subrange(0, k as int), ws@),
                forall|t: int| k <= t < self.funds@.len() ==> #[trigger] self.funds@[t] == before.funds@[t],
                forall|t: int|
                    0 <= t < k ==> (#[trigger] self.funds@[t]).amount == before.funds@[t].amount
                        - shares_sum(before.funds@[t].amount as int, ws@) && self.funds@[t].currency
                        == before.funds@[t].currency,
                self.config == before.config,
                self.collections == before.collections,
                self.collections_balances == before.collections_balances,
                self.proposals == before.proposals,
                self.stakes == before.stakes,
                self.stakers == before.stakers,
            decreases self.funds@.len() - k,
        {
            let line = self.funds[k].clone();
            let ghost prefix_msgs = msgs@;
            let mut paid: u128 = 0;
            let mut i: usize = 0;
            assert(ws@.subrange(0, 0) == Seq::<(String, u128)>::empty());
            while i < ws.len()
                invariant
                    i <= ws@.len(),
                    weights_in_range(ws@),
                    weight_sum(ws@) == DECIMAL_FRACTIONAL,
                    paid == shares_sum(line.amount as int, ws@.subrange(0, i as int)),
                    paid <= line.amount,
                    msgs@ == prefix_msgs + split_line(line, ws@.subrange(0, i as int)),
                decreases ws@.len() - i,
            {
                let amount = mul_floor(line.amount, ws[i].1);
                proof {
                    let next = ws@.subrange(0, i + 1 as int);
                    assert(next.drop_last() == ws@.subrange(0, i as int));
                    lemma_weight_sum_prefix(ws@, i + 1);
                    lemma_shares_bound(line.amount as int, next);
                    let s = shares_sum(line.amount as int, next);
                    let wsum = weight_sum(next);
                    assert(s <= line.amount) by (nonlinear_arith)
                        requires
                            s * DECIMAL_FRACTIONAL <= line.amount * wsum,
                            wsum <= DECIMAL_FRACTIONAL,
                            line.amount >= 0,
                    ;
                    assert(split_line(line, next) == split_line(line, ws@.subrange(0, i as int)).push(
                        Instruction::Transfer {
                            recipient: ws@[i as int].0,
                            amount,
                            token: line.currency.token,
                        },
                    ));
                }
                msgs.push(
                    Instruction::Transfer {
                        recipient: ws[i].0.clone(),
                        amount,
                        token: line.currency.token.clone(),
                    },
                );
                paid = paid + amount;
                i = i + 1;
            }
            proof {
                assert(ws@.subrange(0, ws@.len() as int) == ws@);
                let next = before.funds@.subrange(0, k + 1 as int);
                assert(next.drop_last() == before.funds@.subrange(0, k as int));
                assert(next.last() == line);
            }
            self.funds.set(k, Funds { amount: line.amount - paid, currency: line.currency });
            k = k + 1;
        }
        proof {
            assert(before.funds@.subrange(0, before.funds@.len() as int) == before.funds@);
            let fin = *self;
            assert forall|t: int, u: int| 0 <= t < u < fin.funds@.len() implies (
            #[trigger] fin.funds@[t]).currency.token@ != (#[trigger] fin.funds@[u]).currency.token@ by {
                assert(before.funds@[t].currency.token@ != before.funds@[u].currency.token@);
            }
        }
        Ok(msgs)
    }
}

} // verus!
