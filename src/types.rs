use crate::assets::{Currency, Funds};
use vstd::prelude::*;

verus! {

/// Where the rewards of a collection come from.
#[derive(Debug, Clone, Copy, PartialEq, Eq, Structural)]
pub enum EmissionType {
    /// Paid out of the collection's pre-funded balance.
    Spending,
    /// Issued on demand by the minter.
    Minting,
}

impl EmissionType {
    pub fn is_spending(&self) -> (r: bool)
        ensures
            r == (*self == EmissionType::Spending),
    {
        match self {
            EmissionType::Spending => true,
            EmissionType::Minting => false,
        }
    }
}

/// The terms under which the items of a collection are staked.
#[derive(Debug)]
pub struct Collection {
    pub name: String,
    /// Must be a native token when rewards are minted.
    pub staking_currency: Currency,
    /// Reward per staked item per 24 hours, a decimal given in atomics
    /// (units of 10^-18).
    pub daily_rewards: u128,
    pub emission_type: EmissionType,
    /// The only address that may accept a proposal for the collection and
    /// manage its balance.
    pub owner: String,
}

impl Clone for Collection {
    fn clone(&self) -> (r: Self)
        ensures
            r == *self,
    {
        Collection {
            name: self.name.clone(),
            staking_currency: self.staking_currency.clone(),
            daily_rewards: self.daily_rewards,
            emission_type: self.emission_type,
            owner: self.owner.clone(),
        }
    }
}

impl Collection {
    /// Minted rewards can only be of a native denomination.
    pub open spec fn valid_emission(&self) -> bool {
        self.emission_type == EmissionType::Minting ==> self.staking_currency.token@ is Native
    }
}

#[derive(Debug, Clone, Copy, PartialEq, Eq, Structural)]
pub enum ProposalStatus {
    Active,
    Accepted,
    Rejected,
}

/// What a proposal changes once accepted.
#[derive(Debug)]
pub enum ProposalType {
    AddCollection { collection_address: String, collection: Collection },
    /// Replaces the terms of a collection, under a new address when one is given.
    UpdateCollection {
        collection_address: String,
        new_collection_address: Option<String>,
        new_collection: Collection,
    },
}

impl Clone for ProposalType {
    fn clone(&self) -> (r: Self)
        ensures
            r == *self,
    {
        match self {
            ProposalType::AddCollection { collection_address, collection } => {
                ProposalType::AddCollection {
                    collection_address: collection_address.clone(),
                    collection: collection.clone(),
                }
            },
            ProposalType::UpdateCollection {
                collection_address,
                new_collection_address,
                new_collection,
            } => {
                let new_address = match new_collection_address {
                    Some(a) => Some(a.clone()),
                    None => None,
                };
                ProposalType::UpdateCollection {
                    collection_address: collection_address.clone(),
                    new_collection_address: new_address,
                    new_collection: new_collection.clone(),
                }
            },
        }
    }
}

impl ProposalType {
    /// The address the proposal is about.
    pub open spec fn address(&self) -> Seq<char> {
        match self {
            ProposalType::AddCollection { collection_address, .. } => collection_address@,
            ProposalType::UpdateCollection { collection_address, .. } => collection_address@,
        }
    }

    /// The terms the proposal would put in place.
    pub open spec fn terms(&self) -> Collection {
        match self {
            ProposalType::AddCollection { collection, .. } => *collection,
            ProposalType::UpdateCollection { new_collection, .. } => *new_collection,
        }
    }
}

/// A priced request to add or replace the terms of a collection.
#[derive(Debug)]
pub struct Proposal {
    pub proposal_status: Option<ProposalStatus>,
    pub proposal_type: ProposalType,
    /// What the collection owner pays on acceptance.
    pub price: Funds,
}

impl Clone for Proposal {
    fn clone(&self) -> (r: Self)
        ensures
            r == *self,
    {
        Proposal {
            proposal_status: self.proposal_status,
            proposal_type: self.proposal_type.clone(),
            price: self.price.clone(),
        }
    }
}

/// One staked item as a staker reports it: the dates are set by the ledger.
#[derive(Debug, Clone, Copy, PartialEq, Eq, Structural)]
pub struct StakedTokenInfo {
    pub token_id: u128,
    /// Nanoseconds since the epoch.
    pub staking_start_date: Option<u64>,
    /// Nanoseconds since the epoch.
    pub last_claim_date: Option<u64>,
}

/// The items of one collection that a staker stakes or unstakes.
#[derive(Debug)]
pub struct StakedCollectionInfo {
    pub collection_address: String,
    pub staked_token_info_list: Vec<StakedTokenInfo>,
}

/// The platform's settings: `admin` is fixed at creation and may appoint
/// an `owner`; `minter` issues the rewards of minting collections.
#[derive(Debug)]
pub struct Config {
    pub admin: String,
    pub owner: Option<String>,
    pub minter: Option<String>,
}

impl Config {
    pub fn new(admin: &str, owner: &Option<String>, minter: &Option<String>) -> (r: Config)
        ensures
            r.admin@ == admin@,
            r.owner == *owner,
            r.minter == *minter,
    {
        Config { admin: admin.to_owned(), owner: clone_address(owner), minter: clone_address(minter) }
    }
}

/// The settings a platform starts with.
#[derive(Debug)]
pub struct InstantiateMsg {
    pub owner: Option<String>,
    pub minter: Option<String>,
}

/// A migration carries nothing.
#[derive(Debug)]
pub enum MigrateMsg {
    Migrate,
}

pub fn clone_address(a: &Option<String>) -> (r: Option<String>)
    ensures
        r == *a,
{
    match a {
        Some(s) => Some(s.clone()),
        None => None,
    }
}

} // verus!
