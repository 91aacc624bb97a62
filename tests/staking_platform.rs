use std::str::FromStr;

use gopstake::assets::{Currency, Funds, Token};
use gopstake::error::ContractError;
use gopstake::msg::Instruction;
use gopstake::platform::StakingPlatform;
use gopstake::types::{
    Collection, EmissionType, Proposal, ProposalStatus, ProposalType, StakedCollectionInfo,
    StakedTokenInfo,
};

const MINS_PER_DAY: u64 = 1440;
const NANOS_PER_MIN: u64 = 60_000_000_000;
const GENESIS: u64 = 1_571_797_419_879_305_533;

fn s(v: &str) -> String {
    v.to_string()
}

/// A decimal written as text, in atomics.
fn dec(v: &str) -> u128 {
    cosmwasm_std::Decimal::from_str(v).unwrap().atomics().u128()
}

fn native(denom: &str) -> Token {
    Token::new_native(denom)
}

fn cw20(address: &str) -> Token {
    Token::new_cw20(address)
}

fn currency(token: Token, decimals: u8) -> Currency {
    Currency::new(&token, decimals)
}

fn collection(name: &str, staking: Currency, daily: &str, emission: EmissionType) -> Collection {
    Collection {
        name: s(name),
        staking_currency: staking,
        daily_rewards: dec(daily),
        emission_type: emission,
        owner: s("owner"),
    }
}

fn add(address: &str, price: Funds, terms: Collection) -> Proposal {
    Proposal {
        proposal_status: None,
        price,
        proposal_type: ProposalType::AddCollection { collection_address: s(address), collection: terms },
    }
}

fn update(address: &str, new_address: Option<&str>, price: Funds, terms: Collection) -> Proposal {
    Proposal {
        proposal_status: None,
        price,
        proposal_type: ProposalType::UpdateCollection {
            collection_address: s(address),
            new_collection_address: new_address.map(s),
            new_collection: terms,
        },
    }
}

fn price_denom() -> Funds {
    Funds::new(100, &currency(native("denom"), 6))
}

fn price_inj() -> Funds {
    Funds::new(222, &currency(cw20("inj"), 18))
}

fn items(address: &str, ids: &[u128]) -> StakedCollectionInfo {
    StakedCollectionInfo {
        collection_address: s(address),
        staked_token_info_list: ids
            .iter()
            .map(|id| StakedTokenInfo { token_id: *id, staking_start_date: None, last_claim_date: None })
            .collect(),
    }
}

/// A platform whose owner is unset and whose minter is configured.
fn project() -> StakingPlatform {
    StakingPlatform::new("admin", &None, &Some(s("minter")))
}

fn transferred(msgs: &[Instruction], recipient: &str, token: &Token) -> u128 {
    msgs.iter()
        .map(|m| match m {
            Instruction::Transfer { recipient: r, amount, token: t } if r == recipient && t == token => *amount,
            _ => 0,
        })
        .sum()
}

fn minted(msgs: &[Instruction], recipient: &str, denom: &str) -> u128 {
    msgs.iter()
        .map(|m| match m {
            Instruction::Mint { recipient: r, denom: d, amount, .. } if r == recipient && d == denom => *amount,
            _ => 0,
        })
        .sum()
}

fn accrued(p: &StakingPlatform, staker: &str, now: u64, token: &Token) -> u128 {
    p.query_staking_rewards(&s(staker), now)
        .unwrap()
        .iter()
        .filter(|line| line.currency.token == *token)
        .map(|line| line.amount)
        .sum()
}

fn balance(p: &StakingPlatform, address: &str) -> u128 {
    p.collections_balances.iter().find(|(a, _)| a == address).map(|(_, f)| f.amount).unwrap_or(0)
}

fn debug<T: std::fmt::Debug>(v: &T) -> String {
    format!("{:?}", v)
}

#[test]
fn create_proposal_default_and_query_last_proposals() {
    let mut p = project();
    assert!(p.query_proposals(None).is_empty());
    let proposal = add(
        "gopniks",
        price_denom(),
        collection("gopniks", currency(cw20("atom"), 6), "86400000000000", EmissionType::Spending),
    );
    let mut expected = add(
        "gopniks",
        price_denom(),
        collection("gopniks", currency(cw20("atom"), 6), "86400000000000", EmissionType::Spending),
    );
    expected.proposal_status = Some(ProposalStatus::Active);
    assert_eq!(p.try_create_proposal(&s("admin"), proposal), Ok(1));

    let all = p.query_proposals(None);
    assert_eq!(all.len(), 1);
    assert_eq!(all[0].0, 1);
    assert_eq!(debug(&all[0].1), debug(&expected));
    assert_eq!(debug(&p.query_proposals(Some(2))), debug(&all));
    assert_eq!(debug(&p.query_proposals(Some(1))), debug(&all));
    assert!(p.query_proposals(Some(0)).is_empty());
}

#[test]
fn create_proposal_add_same_collection_twice() {
    let mut p = project();
    let a = add("gopniks", price_denom(), collection("gopniks", currency(cw20("atom"), 6), "86400000000000", EmissionType::Spending));
    let b = add("gopniks", price_denom(), collection("pinjeons", currency(cw20("atom"), 6), "86400000000000", EmissionType::Spending));
    let c = add("pinjeons", price_denom(), collection("gopniks", currency(cw20("atom"), 6), "86400000000000", EmissionType::Spending));
    p.try_create_proposal(&s("admin"), a).unwrap();
    p.try_accept_proposal(&s("owner"), GENESIS, 1, 100, &native("denom")).unwrap();
    assert_eq!(p.try_create_proposal(&s("admin"), b), Err(ContractError::CollectionDuplication));
    assert_eq!(p.try_create_proposal(&s("admin"), c), Err(ContractError::CollectionDuplication));
}

#[test]
fn create_proposal_update_collection_to_replace_it() {
    let mut p = project();
    let a = add("gopniks", price_denom(), collection("gopniks", currency(native("noria"), 6), "86400000000000", EmissionType::Spending));
    let b = add("pinjeons", price_denom(), collection("pinjeons", currency(native("noria"), 6), "86400", EmissionType::Spending));
    let c = update("gopniks", Some("pinjeons"), price_denom(), collection("pinjeons", currency(native("noria"), 6), "86400", EmissionType::Spending));
    p.try_create_proposal(&s("admin"), a).unwrap();
    p.try_accept_proposal(&s("owner"), GENESIS, 1, 100, &native("denom")).unwrap();
    p.try_create_proposal(&s("admin"), b).unwrap();
    p.try_accept_proposal(&s("owner"), GENESIS, 2, 100, &native("denom")).unwrap();
    assert_eq!(p.try_create_proposal(&s("admin"), c), Err(ContractError::CollectionDuplication));
}

#[test]
fn create_proposal_authorization() {
    let mut p = project();
    let proposal = || add("gopniks", price_denom(), collection("gopniks", currency(cw20("atom"), 6), "86400000000000", EmissionType::Spending));
    assert_eq!(p.try_create_proposal(&s("alice"), proposal()), Err(ContractError::Unauthorized));
    assert_eq!(p.try_update_config(&s("alice"), Some(s("alice")), None), Err(ContractError::Unauthorized));
    p.try_update_config(&s("admin"), Some(s("alice")), None).unwrap();
    assert_eq!(p.try_create_proposal(&s("alice"), proposal()), Ok(1));
    let mut expected = proposal();
    expected.proposal_status = Some(ProposalStatus::Active);
    let all = p.query_proposals(None);
    assert_eq!(all.len(), 1);
    assert_eq!(debug(&all[0].1), debug(&expected));
}

#[test]
fn reject_proposal_unauth_default_twice() {
    let mut p = project();
    let proposal = || add("gopniks", price_denom(), collection("gopniks", currency(cw20("atom"), 6), "86400000000000", EmissionType::Spending));
    p.try_create_proposal(&s("admin"), proposal()).unwrap();
    assert_eq!(p.try_reject_proposal(&s("owner"), 1), Err(ContractError::Unauthorized));
    p.try_reject_proposal(&s("admin"), 1).unwrap();
    assert_eq!(p.try_reject_proposal(&s("admin"), 1), Err(ContractError::WrongProposalStatus));
    let mut expected = proposal();
    expected.proposal_status = Some(ProposalStatus::Rejected);
    assert_eq!(debug(&p.query_proposals(None)[0].1), debug(&expected));
}

#[test]
fn accept_proposal_unauth_underfunded_default_twice() {
    let mut p = project();
    let terms = || collection("gopniks", currency(cw20("atom"), 6), "86400000000000", EmissionType::Spending);
    p.try_create_proposal(&s("admin"), add("gopniks", price_denom(), terms())).unwrap();
    assert_eq!(p.try_accept_proposal(&s("admin"), GENESIS, 1, 100, &native("denom")), Err(ContractError::Unauthorized));
    assert_eq!(p.try_accept_proposal(&s("owner"), GENESIS, 1, 50, &native("denom")), Err(ContractError::WrongFundsCombination));
    p.try_accept_proposal(&s("owner"), GENESIS, 1, 100, &native("denom")).unwrap();
    assert_eq!(p.try_accept_proposal(&s("owner"), GENESIS, 1, 100, &native("denom")), Err(ContractError::WrongProposalStatus));

    let mut expected = add("gopniks", price_denom(), terms());
    expected.proposal_status = Some(ProposalStatus::Accepted);
    assert_eq!(debug(&p.query_proposals(None)[0].1), debug(&expected));
    assert_eq!(p.query_funds(), vec![Funds::new(100, &currency(native("denom"), 6))]);
    assert_eq!(p.collections.len(), 1);
    assert_eq!(p.collections[0].0, "gopniks");
    assert_eq!(debug(&p.collections[0].1), debug(&terms()));
}

#[test]
fn accept_proposal_add_same_collection_twice() {
    let mut p = project();
    let a = add("gopniks", price_denom(), collection("gopniks", currency(cw20("atom"), 6), "86400000000000", EmissionType::Spending));
    let b = add("gopniks", price_denom(), collection("pinjeons", currency(cw20("atom"), 6), "86400000000000", EmissionType::Spending));
    let c = add("pinjeons", price_denom(), collection("gopniks", currency(cw20("atom"), 6), "86400000000000", EmissionType::Spending));
    p.try_create_proposal(&s("admin"), a).unwrap();
    p.try_create_proposal(&s("admin"), b).unwrap();
    p.try_create_proposal(&s("admin"), c).unwrap();
    p.try_accept_proposal(&s("owner"), GENESIS, 1, 100, &native("denom")).unwrap();
    assert_eq!(p.try_accept_proposal(&s("owner"), GENESIS, 2, 100, &native("denom")), Err(ContractError::CollectionDuplication));
    assert_eq!(p.try_accept_proposal(&s("owner"), GENESIS, 3, 100, &native("denom")), Err(ContractError::CollectionDuplication));
}

#[test]
fn accept_proposal_update_collection_to_replace_it() {
    let mut p = project();
    let a = add("gopniks", price_denom(), collection("gopniks", currency(native("noria"), 6), "86400000000000", EmissionType::Spending));
    let b = add("pinjeons", price_denom(), collection("pinjeons", currency(native("noria"), 6), "86400", EmissionType::Spending));
    let c = update("gopniks", Some("pinjeons"), price_denom(), collection("pinjeons", currency(native("noria"), 6), "86400", EmissionType::Spending));
    p.try_create_proposal(&s("admin"), c).unwrap();
    p.try_create_proposal(&s("admin"), a).unwrap();
    p.try_create_proposal(&s("admin"), b).unwrap();
    p.try_accept_proposal(&s("owner"), GENESIS, 3, 100, &native("denom")).unwrap();
    assert_eq!(p.try_accept_proposal(&s("owner"), GENESIS, 1, 100, &native("denom")), Err(ContractError::CollectionIsNotFound));
    p.try_accept_proposal(&s("owner"), GENESIS, 2, 100, &native("denom")).unwrap();
    assert_eq!(p.try_accept_proposal(&s("owner"), GENESIS, 1, 100, &native("denom")), Err(ContractError::CollectionDuplication));
}

#[test]
fn accept_proposal_and_pay_with_cw20_tokens() {
    let mut p = project();
    let terms = || collection("gopniks", currency(cw20("atom"), 6), "86400000000000", EmissionType::Spending);
    let luna_price = || Funds::new(100, &currency(cw20("luna"), 6));
    p.try_create_proposal(&s("admin"), add("gopniks", luna_price(), terms())).unwrap();
    p.try_accept_proposal(&s("owner"), GENESIS, 1, 100, &cw20("luna")).unwrap();
    let mut expected = add("gopniks", luna_price(), terms());
    expected.proposal_status = Some(ProposalStatus::Accepted);
    assert_eq!(debug(&p.query_proposals(None)[0].1), debug(&expected));
    assert_eq!(p.query_funds(), vec![luna_price()]);
    assert_eq!(debug(&p.collections[0].1), debug(&terms()));
}

#[test]
fn distribute_funds_unauth_weights_default() {
    let mut p = project();
    p.try_create_proposal(&s("admin"), add("gopniks", price_denom(), collection("gopniks", currency(cw20("atom"), 6), "86400000000000", EmissionType::Spending))).unwrap();
    p.try_create_proposal(&s("admin"), add("pinjeons", price_inj(), collection("pinjeons", currency(native("noria"), 6), "86400000000000", EmissionType::Spending))).unwrap();
    p.try_accept_proposal(&s("owner"), GENESIS, 1, 100, &native("denom")).unwrap();
    p.try_accept_proposal(&s("owner"), GENESIS, 2, 222, &cw20("inj")).unwrap();

    let weights = |a: &str, b: &str| vec![(s("alice"), dec(a)), (s("bob"), dec(b))];
    assert_eq!(p.try_distribute_funds(&s("alice"), &weights("0.5", "0.5")), Err(ContractError::Unauthorized));
    assert_eq!(p.try_distribute_funds(&s("admin"), &weights("1.5", "0.5")), Err(ContractError::WeightIsOutOfRange));
    assert_eq!(p.try_distribute_funds(&s("admin"), &weights("0.4", "0.5")), Err(ContractError::WeightsAreUnbalanced));
    let msgs = p.try_distribute_funds(&s("admin"), &weights("0.33", "0.67")).unwrap();

    // every account starts with 1_000_000 of a 6-decimal coin and 10^18 of an 18-decimal token
    assert_eq!(1_000_000 + transferred(&msgs, "alice", &native("denom")), 1000033);
    assert_eq!(1_000_000_000_000_000_000 + transferred(&msgs, "alice", &cw20("inj")), 1000000000000000073);
    assert_eq!(1_000_000 + transferred(&msgs, "bob", &native("denom")), 1000067);
    assert_eq!(1_000_000_000_000_000_000 + transferred(&msgs, "bob", &cw20("inj")), 1000000000000000148);
    // the flooring remainder stays in the ledger
    assert_eq!(p.funds[0].amount, 0);
    assert_eq!(p.funds[1].amount, 1);
}

#[test]
fn remove_collection_unauth_default() {
    let mut p = project();
    p.try_create_proposal(&s("admin"), add("gopniks", price_denom(), collection("gopniks", currency(cw20("atom"), 6), "86400000000000", EmissionType::Spending))).unwrap();
    p.try_accept_proposal(&s("owner"), GENESIS, 1, 100, &native("denom")).unwrap();
    assert_eq!(p.try_remove_collection(&s("alice"), &s("gopniks")), Err(ContractError::Unauthorized));
    p.try_remove_collection(&s("admin"), &s("gopniks")).unwrap();
    assert!(p.collections.is_empty());
    assert!(p.collections_balances.is_empty());
}

#[test]
fn deposit_tokens_unauth_default() {
    let mut p = project();
    p.try_create_proposal(&s("admin"), add("gopniks", price_denom(), collection("gopniks", currency(cw20("atom"), 6), "86400000000000", EmissionType::Spending))).unwrap();
    p.try_accept_proposal(&s("owner"), GENESIS, 1, 100, &native("denom")).unwrap();
    assert!(p.try_deposit_tokens(&s("admin"), &s("gopniks"), 1_000, &cw20("atom")).is_err());
    p.try_deposit_tokens(&s("owner"), &s("gopniks"), 1_000, &cw20("atom")).unwrap();
    assert_eq!(p.collections_balances.len(), 1);
    assert_eq!(p.collections_balances[0].0, "gopniks");
    assert_eq!(p.collections_balances[0].1, Funds::new(1_000, &currency(cw20("atom"), 6)));
}

#[test]
fn deposit_tokens_improper_emission_type() {
    let mut p = project();
    p.try_create_proposal(&s("admin"), add("gopniks", price_denom(), collection("gopniks", currency(native("noria"), 6), "86400000000000", EmissionType::Minting))).unwrap();
    p.try_accept_proposal(&s("owner"), GENESIS, 1, 100, &native("denom")).unwrap();
    assert_eq!(p.try_deposit_tokens(&s("owner"), &s("gopniks"), 1_000, &native("noria")), Err(ContractError::ActionByEmissionType));
}

#[test]
fn withdraw_tokens_unauth_default() {
    let mut p = project();
    p.try_create_proposal(&s("admin"), add("gopniks", price_denom(), collection("gopniks", currency(cw20("atom"), 6), "86400000000000", EmissionType::Spending))).unwrap();
    p.try_accept_proposal(&s("owner"), GENESIS, 1, 100, &native("denom")).unwrap();
    p.try_deposit_tokens(&s("owner"), &s("gopniks"), 1_000, &cw20("atom")).unwrap();
    assert_eq!(p.try_withdraw_tokens(&s("admin"), &s("gopniks"), 500), Err(ContractError::Unauthorized));
    let msgs = p.try_withdraw_tokens(&s("owner"), &s("gopniks"), 111).unwrap();
    assert_eq!(p.collections_balances[0].1, Funds::new(889, &currency(cw20("atom"), 6)));
    // the owner paid 1_000 in and takes 111 back out of 1_000_000
    assert_eq!(1_000_000 - 1_000 + transferred(&msgs, "owner", &cw20("atom")), 999111);
}

fn two_collections(p: &mut StakingPlatform, second_emission: EmissionType, first_deposit: u128) {
    let second_currency = currency(native("noria"), 6);
    p.try_create_proposal(&s("admin"), add("gopniks", price_denom(), collection("gopniks", currency(cw20("atom"), 6), "1000000", EmissionType::Spending))).unwrap();
    p.try_create_proposal(&s("admin"), add("pinjeons", price_inj(), collection("pinjeons", second_currency, "500000", second_emission))).unwrap();
    p.try_accept_proposal(&s("owner"), GENESIS, 1, 100, &native("denom")).unwrap();
    p.try_accept_proposal(&s("owner"), GENESIS, 2, 222, &cw20("inj")).unwrap();
    p.try_deposit_tokens(&s("owner"), &s("gopniks"), first_deposit, &cw20("atom")).unwrap();
}

#[test]
fn stake_2_users_2_collections() {
    let mut p = project();
    two_collections(&mut p, EmissionType::Spending, 1_000_000);
    p.try_deposit_tokens(&s("owner"), &s("pinjeons"), 500_000, &native("noria")).unwrap();
    let delay = 10 * MINS_PER_DAY * NANOS_PER_MIN;
    let mut now = GENESIS;
    p.try_stake(&s("alice"), now, &vec![items("gopniks", &[1])]).unwrap();
    now += delay;
    p.try_stake(&s("bob"), now, &vec![items("gopniks", &[4]), items("gopniks", &[5])]).unwrap();
    now += delay;
    p.try_stake(&s("alice"), now, &vec![items("pinjeons", &[1, 2])]).unwrap();
    now += delay;
    p.try_stake(&s("bob"), now, &vec![items("pinjeons", &[4, 5, 6])]).unwrap();
    now += delay;
    // 1 nft * 1 atom * 40 days
    assert_eq!(accrued(&p, "alice", now, &cw20("atom")), 40_000_000);
    // 2 nft * 0.5 noria * 20 days
    assert_eq!(accrued(&p, "alice", now, &native("noria")), 20_000_000);
    // 2 nft * 1 atom * 30 days
    assert_eq!(accrued(&p, "bob", now, &cw20("atom")), 60_000_000);
    // 3 nft * 0.5 noria * 10 days
    assert_eq!(accrued(&p, "bob", now, &native("noria")), 15_000_000);
}

#[test]
fn stake_unallowed_unfunded_delayed() {
    let mut p = project();
    p.try_create_proposal(&s("admin"), add("gopniks", price_denom(), collection("gopniks", currency(cw20("atom"), 6), "1000000", EmissionType::Spending))).unwrap();
    p.try_accept_proposal(&s("owner"), GENESIS, 1, 100, &native("denom")).unwrap();
    assert!(p.try_stake(&s("alice"), GENESIS, &vec![items("pinjeons", &[1])]).is_err());
    let delay = 10 * MINS_PER_DAY * NANOS_PER_MIN;
    // dates a staker proposes are ignored: the ledger stamps its own clock
    let request = vec![StakedCollectionInfo {
        collection_address: s("gopniks"),
        staked_token_info_list: vec![StakedTokenInfo {
            token_id: 1,
            staking_start_date: Some(GENESIS + delay),
            last_claim_date: Some(GENESIS + delay),
        }],
    }];
    p.try_stake(&s("alice"), GENESIS, &request).unwrap();
    p.try_deposit_tokens(&s("owner"), &s("gopniks"), 1_000_000, &cw20("atom")).unwrap();
    // 1 nft * 1 atom * 10 days
    assert_eq!(accrued(&p, "alice", GENESIS + delay, &cw20("atom")), 10_000_000);
}

#[test]
fn claim_staking_rewards_default() {
    let mut p = project();
    p.try_create_proposal(&s("admin"), add("gopniks", price_denom(), collection("gopniks", currency(cw20("atom"), 6), "1000000", EmissionType::Spending))).unwrap();
    p.try_accept_proposal(&s("owner"), GENESIS, 1, 100, &native("denom")).unwrap();
    p.try_deposit_tokens(&s("owner"), &s("gopniks"), 500_000, &cw20("atom")).unwrap();
    p.try_stake(&s("alice"), GENESIS, &vec![items("gopniks", &[1])]).unwrap();
    let now = GENESIS + 12 * 60 * NANOS_PER_MIN;
    let msgs = p.try_claim_staking_rewards(&s("alice"), now).unwrap();
    assert_eq!(accrued(&p, "alice", now, &cw20("atom")), 0);
    p.try_deposit_tokens(&s("owner"), &s("gopniks"), 200_000, &cw20("atom")).unwrap();
    assert_eq!(balance(&p, "gopniks"), 200_000);
    assert_eq!(1_000_000 + transferred(&msgs, "alice", &cw20("atom")), 1_500_000);
}

#[test]
fn unstake_improper_collection_and_id_default() {
    let mut p = project();
    p.try_create_proposal(&s("admin"), add("gopniks", price_denom(), collection("gopniks", currency(cw20("atom"), 6), "1000000", EmissionType::Spending))).unwrap();
    p.try_accept_proposal(&s("owner"), GENESIS, 1, 100, &native("denom")).unwrap();
    p.try_deposit_tokens(&s("owner"), &s("gopniks"), 1_000_000, &cw20("atom")).unwrap();
    p.try_stake(&s("alice"), GENESIS, &vec![items("gopniks", &[1, 2])]).unwrap();
    let now = GENESIS + 6 * 60 * NANOS_PER_MIN;
    assert_eq!(p.try_unstake(&s("alice"), now, &vec![items("pinjeons", &[1])]), Err(ContractError::CollectionIsNotFound));
    assert_eq!(p.try_unstake(&s("alice"), now, &vec![items("gopniks", &[3])]), Err(ContractError::AssetIsNotFound));
    let msgs = p.try_unstake(&s("alice"), now, &vec![items("gopniks", &[1])]).unwrap();
    // 1 nft * 1 atom * 0.25 days
    assert_eq!(accrued(&p, "alice", now, &cw20("atom")), 250_000);
    assert_eq!(balance(&p, "gopniks"), 750_000);
    assert_eq!(1_000_000 + transferred(&msgs, "alice", &cw20("atom")), 1_250_000);
    assert!(msgs.iter().any(|m| matches!(m, Instruction::ReleaseNft { token_id: 1, .. })));
}

#[test]
fn claim_staking_rewards_with_minter_default() {
    let mut p = project();
    p.try_create_proposal(&s("admin"), add("gopniks", price_denom(), collection("gopniks", currency(native("noria"), 6), "1000000", EmissionType::Minting))).unwrap();
    p.try_accept_proposal(&s("owner"), GENESIS, 1, 100, &native("denom")).unwrap();
    p.try_stake(&s("alice"), GENESIS, &vec![items("gopniks", &[1])]).unwrap();
    let msgs = p.try_claim_staking_rewards(&s("alice"), GENESIS + MINS_PER_DAY * NANOS_PER_MIN).unwrap();
    assert_eq!(1_000_000 + minted(&msgs, "alice", "noria"), 2_000_000);
}

#[test]
fn claim_staking_rewards_with_minter_and_empty_spender() {
    let mut p = project();
    two_collections(&mut p, EmissionType::Minting, 100_000);
    p.try_stake(&s("alice"), GENESIS, &vec![items("gopniks", &[1]), items("pinjeons", &[1, 2])]).unwrap();
    let now = GENESIS + 12 * 60 * NANOS_PER_MIN;
    // 1 nft * 1 atom * 0.5 days
    assert_eq!(accrued(&p, "alice", now, &cw20("atom")), 500_000);
    // 2 nft * 0.5 noria * 0.5 days
    assert_eq!(accrued(&p, "alice", now, &native("noria")), 500_000);
    let msgs = p.try_claim_staking_rewards(&s("alice"), now).unwrap();
    // the spending collection pays what its balance holds and the rest is forgone
    assert_eq!(1_000_000 + transferred(&msgs, "alice", &cw20("atom")), 1_100_000);
    assert_eq!(1_000_000 + minted(&msgs, "alice", "noria"), 1_500_000);
    assert_eq!(balance(&p, "gopniks"), 0);
    assert!(p.stakes.iter().all(|r| r.last_claim_date == now));
}

#[test]
fn unstake_with_minter_and_empty_spender() {
    let mut p = project();
    two_collections(&mut p, EmissionType::Minting, 100_000);
    p.try_stake(&s("alice"), GENESIS, &vec![items("gopniks", &[1]), items("pinjeons", &[1, 2])]).unwrap();
    let now = GENESIS + 12 * 60 * NANOS_PER_MIN;
    assert_eq!(accrued(&p, "alice", now, &cw20("atom")), 500_000);
    assert_eq!(accrued(&p, "alice", now, &native("noria")), 500_000);
    let msgs = p.try_unstake(&s("alice"), now, &vec![items("gopniks", &[1])]).unwrap();
    assert_eq!(1_000_000 + transferred(&msgs, "alice", &cw20("atom")), 1_100_000);
}

#[test]
fn claim_staking_rewards_and_unstake_all() {
    let mut p = project();
    two_collections(&mut p, EmissionType::Minting, 100_000);
    p.try_stake(&s("alice"), GENESIS, &vec![items("gopniks", &[1]), items("pinjeons", &[1, 2])]).unwrap();
    let now = GENESIS + 12 * 60 * NANOS_PER_MIN;
    assert_eq!(accrued(&p, "alice", now, &cw20("atom")), 500_000);
    assert_eq!(accrued(&p, "alice", now, &native("noria")), 500_000);
    let claimed = p.try_claim_staking_rewards(&s("alice"), now).unwrap();
    let unstaked = p
        .try_unstake(&s("alice"), now, &vec![items("gopniks", &[1]), items("pinjeons", &[1, 2])])
        .unwrap();
    let atom = transferred(&claimed, "alice", &cw20("atom")) + transferred(&unstaked, "alice", &cw20("atom"));
    let noria = minted(&claimed, "alice", "noria") + minted(&unstaked, "alice", "noria");
    assert_eq!(1_000_000 + atom, 1_100_000);
    assert_eq!(1_000_000 + noria, 1_500_000);
    assert_eq!(p.stakers, vec![s("alice")]);
    assert!(p.stakes.is_empty());
}

#[test]
fn accept_proposal_update_collection_change_daily_rewards() {
    let mut p = project();
    let a = add("gopniks", price_denom(), collection("gopniks", currency(native("noria"), 6), "1000000", EmissionType::Spending));
    // increase daily rewards 2x
    let b = update("gopniks", None, price_denom(), collection("gopniks", currency(native("noria"), 6), "2000000", EmissionType::Spending));
    p.try_create_proposal(&s("admin"), a).unwrap();
    p.try_create_proposal(&s("admin"), b).unwrap();
    p.try_accept_proposal(&s("owner"), GENESIS, 1, 100, &native("denom")).unwrap();
    p.try_deposit_tokens(&s("owner"), &s("gopniks"), 400_000, &native("noria")).unwrap();
    p.try_stake(&s("alice"), GENESIS, &vec![items("gopniks", &[1])]).unwrap();
    let delay = 3 * 60 * NANOS_PER_MIN;
    let settled = p.try_accept_proposal(&s("owner"), GENESIS + delay, 2, 100, &native("denom")).unwrap();
    let claimed = p.try_claim_staking_rewards(&s("alice"), GENESIS + 2 * delay).unwrap();
    let alice = transferred(&settled, "alice", &native("noria")) + transferred(&claimed, "alice", &native("noria"));
    // 125 + 250
    assert_eq!(1_000_000 + alice, 1_375_000);
    // 1000 - 400
    assert_eq!(1_000_000 - 400_000 + transferred(&settled, "owner", &native("noria")), 600_000);
}

#[test]
fn accept_proposal_update_collection_change_staking_currency() {
    let mut p = project();
    let a1 = add("gopniks", price_denom(), collection("gopniks", currency(native("noria"), 6), "1000000", EmissionType::Minting));
    let a2 = update("gopniks", None, price_denom(), collection("gopniks", currency(native("denom"), 6), "1000000", EmissionType::Minting));
    let b1 = add("pinjeons", price_denom(), collection("pinjeons", currency(cw20("inj"), 6), "1000000", EmissionType::Spending));
    let b2 = update("pinjeons", None, price_denom(), collection("pinjeons", currency(cw20("atom"), 6), "1000000", EmissionType::Spending));
    p.try_create_proposal(&s("admin"), a1).unwrap();
    p.try_create_proposal(&s("admin"), b1).unwrap();
    p.try_create_proposal(&s("admin"), a2).unwrap();
    p.try_create_proposal(&s("admin"), b2).unwrap();
    p.try_accept_proposal(&s("owner"), GENESIS, 1, 100, &native("denom")).unwrap();
    p.try_accept_proposal(&s("owner"), GENESIS, 2, 100, &native("denom")).unwrap();
    p.try_deposit_tokens(&s("owner"), &s("pinjeons"), 400_000, &cw20("inj")).unwrap();
    p.try_stake(&s("alice"), GENESIS, &vec![items("gopniks", &[1]), items("pinjeons", &[1])]).unwrap();
    let delay = 6 * 60 * NANOS_PER_MIN;
    let mut out: Vec<Instruction> = Vec::new();
    out.extend(p.try_accept_proposal(&s("owner"), GENESIS + delay, 3, 100, &native("denom")).unwrap());
    out.extend(p.try_accept_proposal(&s("owner"), GENESIS + delay, 4, 100, &native("denom")).unwrap());
    p.try_deposit_tokens(&s("owner"), &s("pinjeons"), 400_000, &cw20("atom")).unwrap();
    out.extend(p.try_claim_staking_rewards(&s("alice"), GENESIS + 2 * delay).unwrap());

    // 250 of each
    assert_eq!(1_000_000 + minted(&out, "alice", "denom"), 1_250_000);
    assert_eq!(1_000_000 + minted(&out, "alice", "noria"), 1_250_000);
    assert_eq!(1_000_000_000_000_000_000 + transferred(&out, "alice", &cw20("inj")), 1_000_000_000_000_250_000);
    assert_eq!(1_000_000 + transferred(&out, "alice", &cw20("atom")), 1_250_000);

    // four prices of 100 denom reach the fee ledger
    assert_eq!(p.funds[0].amount, 400);
    // 1e18 - 400_000 + 150_000 handed back when the currency changed
    assert_eq!(1_000_000_000_000_000_000 - 400_000 + transferred(&out, "owner", &cw20("inj")), 999_999_999_999_750_000);
    // 1000 - 400
    assert_eq!(1_000_000 - 400_000 + transferred(&out, "owner", &cw20("atom")), 600_000);
    assert_eq!(balance(&p, "pinjeons"), 400_000 - 250_000);
}
