use vstd::prelude::*;

verus! {

/// The chain family whose token factory a minter drives.
#[derive(Debug, Clone, Copy, PartialEq, Eq, Structural)]
pub enum FactoryType {
    Osmosis,
    Injective,
}

/// One unit of a denomination's metadata.
#[derive(Debug)]
pub struct DenomUnit {
    pub denom: String,
    pub exponent: u32,
    pub aliases: Vec<String>,
}

/// Display metadata of a denomination.
#[derive(Debug)]
pub struct Metadata {
    pub description: String,
    pub denom_units: Vec<DenomUnit>,
    pub base: String,
    pub display: String,
    pub name: String,
    pub symbol: String,
    pub uri: Option<String>,
    pub uri_hash: Option<String>,
}

/// The denominations a creator owns.
#[derive(Debug)]
pub struct QueryDenomsFromCreatorResponse {
    pub denoms: Vec<String>,
}

/// The settings a minter starts with.
#[derive(Debug)]
pub struct InstantiateMsg {
    pub owner: Option<String>,
    pub staking_platform: Option<String>,
}

/// A minter migration names the version it migrates to.
#[derive(Debug)]
pub struct MigrateMsg {
    pub version: String,
}

/// A minter's settings: its admin, the staking platform allowed to mint,
/// and the token factory it drives.
#[derive(Debug)]
pub struct Config {
    pub admin: String,
    pub staking_platform: Option<String>,
    pub factory_type: Option<FactoryType>,
}

impl Config {
    pub fn new(
        admin: &str,
        staking_platform: &Option<String>,
        factory_type: &Option<FactoryType>,
    ) -> (r: Config)
        ensures
            r.admin@ == admin@,
            r.staking_platform == *staking_platform,
            r.factory_type == *factory_type,
    {
        Config {
            admin: admin.to_owned(),
            staking_platform: crate::types::clone_address(staking_platform),
            factory_type: *factory_type,
        }
    }
}

} // verus!
