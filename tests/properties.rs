use gopstake::assets::{Currency, Funds, Token, TokenUnverified};
use gopstake::auth::{check_authorization, AuthType};
use gopstake::error::ContractError;
use gopstake::math::{mul_floor, staking_reward, DECIMAL_FRACTIONAL, ONE_18_DECIMALS};
use gopstake::msg::Instruction;
use gopstake::platform::StakingPlatform;
use gopstake::types::{
    Collection, EmissionType, Proposal, ProposalType, StakedCollectionInfo, StakedTokenInfo,
};
use gopstake::utils::{route_funds, unwrap_field, Attrs, FundsRoute};

const T0: u64 = 1_600_000_000_000_000_000;
const HOUR: u64 = 3_600_000_000_000;

fn s(v: &str) -> String {
    v.to_string()
}

fn native(denom: &str) -> Currency {
    Currency::new(&Token::new_native(denom), 6)
}

fn terms(name: &str, currency: Currency, daily: u128, emission: EmissionType) -> Collection {
    Collection { name: s(name), staking_currency: currency, daily_rewards: daily, emission_type: emission, owner: s("owner") }
}

fn add(address: &str, c: Collection) -> Proposal {
    Proposal {
        proposal_status: None,
        price: Funds::new(10, &native("fee")),
        proposal_type: ProposalType::AddCollection { collection_address: s(address), collection: c },
    }
}

fn one(address: &str, id: u128) -> Vec<StakedCollectionInfo> {
    vec![StakedCollectionInfo {
        collection_address: s(address),
        staked_token_info_list: vec![StakedTokenInfo { token_id: id, staking_start_date: None, last_claim_date: None }],
    }]
}

fn live(address: &str, c: Collection) -> StakingPlatform {
    let mut p = StakingPlatform::new("admin", &None, &Some(s("minter")));
    p.try_create_proposal(&s("admin"), add(address, c)).unwrap();
    p.try_accept_proposal(&s("owner"), T0, 1, 10, &Token::new_native("fee")).unwrap();
    p
}

#[test]
fn rewards_never_shrink_as_time_passes() {
    let daily = 7_777 * ONE_18_DECIMALS + 123;
    let mut previous = 0;
    for step in 0..50u64 {
        let now = T0 + step * 997 * HOUR / 100;
        let r = staking_reward(now, T0, daily);
        assert!(r >= previous);
        previous = r;
    }
    assert_eq!(staking_reward(T0, T0, daily), 0);
}

#[test]
fn reward_is_floored_at_the_end_only() {
    // one minute at one unit per day is 1/1440 of a unit: nothing yet
    assert_eq!(staking_reward(60_000_000_000, 0, ONE_18_DECIMALS), 0);
    // 1440 minutes make exactly one unit
    assert_eq!(staking_reward(86_400_000_000_000, 0, ONE_18_DECIMALS), 1);
    // a fractional rate of 2.5 per day over 3 days
    assert_eq!(staking_reward(3 * 86_400_000_000_000, 0, 2 * ONE_18_DECIMALS + ONE_18_DECIMALS / 2), 7);
    // the widest elapsed time and rate stay exact
    assert_eq!(staking_reward(u64::MAX, 0, u128::MAX), 72_651_640_455_864_360_688_605_405);
}

#[test]
fn shares_are_floored() {
    assert_eq!(mul_floor(100, DECIMAL_FRACTIONAL / 2), 50);
    assert_eq!(mul_floor(222, 330_000_000_000_000_000), 73);
    assert_eq!(mul_floor(u128::MAX, DECIMAL_FRACTIONAL), u128::MAX);
}

#[test]
fn even_split_empties_the_ledger() {
    let mut p = live("gopniks", terms("gopniks", native("noria"), ONE_18_DECIMALS, EmissionType::Spending));
    p.funds[0].amount = 100;
    let half = DECIMAL_FRACTIONAL / 2;
    let msgs = p.try_distribute_funds(&s("admin"), &vec![(s("alice"), half), (s("bob"), half)]).unwrap();
    assert_eq!(msgs.len(), 2);
    for m in &msgs {
        assert!(matches!(m, Instruction::Transfer { amount: 50, .. }));
    }
    assert_eq!(p.funds[0].amount, 0);
    let unbalanced = vec![(s("alice"), 330_000_000_000_000_000), (s("bob"), 340_000_000_000_000_000)];
    assert_eq!(p.try_distribute_funds(&s("admin"), &unbalanced), Err(ContractError::WeightsAreUnbalanced));
}

#[test]
fn settlement_moves_every_claim_date() {
    let update = Proposal {
        proposal_status: None,
        price: Funds::new(10, &native("fee")),
        proposal_type: ProposalType::UpdateCollection {
            collection_address: s("gopniks"),
            new_collection_address: None,
            new_collection: terms("gopniks", native("noria"), 48 * ONE_18_DECIMALS, EmissionType::Spending),
        },
    };
    // the update is proposed before the collection exists, so its address is free
    let mut q = StakingPlatform::new("admin", &None, &Some(s("minter")));
    q.try_create_proposal(&s("admin"), update).unwrap();
    q.try_create_proposal(&s("admin"), add("gopniks", terms("gopniks", native("noria"), 24 * ONE_18_DECIMALS, EmissionType::Spending))).unwrap();
    q.try_accept_proposal(&s("owner"), T0, 2, 10, &Token::new_native("fee")).unwrap();
    q.try_deposit_tokens(&s("owner"), &s("gopniks"), 1_000, &Token::new_native("noria")).unwrap();
    q.try_stake(&s("alice"), T0, &one("gopniks", 1)).unwrap();
    q.try_stake(&s("bob"), T0 + HOUR, &one("gopniks", 2)).unwrap();
    let at = T0 + 3 * HOUR;
    let msgs = q.try_accept_proposal(&s("owner"), at, 1, 10, &Token::new_native("fee")).unwrap();
    assert!(q.stakes.iter().all(|r| r.last_claim_date == at));
    // 24 per day is one per hour: alice 3, bob 2
    assert!(msgs.contains(&Instruction::Transfer { recipient: s("alice"), amount: 3, token: Token::new_native("noria") }));
    assert!(msgs.contains(&Instruction::Transfer { recipient: s("bob"), amount: 2, token: Token::new_native("noria") }));
    assert_eq!(q.collections_balances[0].1.amount, 995);
    // later rewards accrue at the new rate from the settlement on
    let lines = q.query_staking_rewards(&s("alice"), at + HOUR).unwrap();
    assert_eq!(lines[0].amount, 2);
}

#[test]
fn settlement_is_clamped_to_the_balance() {
    let mut q = StakingPlatform::new("admin", &None, &Some(s("minter")));
    q.try_create_proposal(&s("admin"), Proposal {
        proposal_status: None,
        price: Funds::new(10, &native("fee")),
        proposal_type: ProposalType::UpdateCollection {
            collection_address: s("gopniks"),
            new_collection_address: None,
            new_collection: terms("gopniks", native("noria"), 48 * ONE_18_DECIMALS, EmissionType::Spending),
        },
    }).unwrap();
    q.try_create_proposal(&s("admin"), add("gopniks", terms("gopniks", native("noria"), 24 * ONE_18_DECIMALS, EmissionType::Spending))).unwrap();
    q.try_accept_proposal(&s("owner"), T0, 2, 10, &Token::new_native("fee")).unwrap();
    q.try_deposit_tokens(&s("owner"), &s("gopniks"), 4, &Token::new_native("noria")).unwrap();
    q.try_stake(&s("alice"), T0, &one("gopniks", 1)).unwrap();
    q.try_stake(&s("bob"), T0, &one("gopniks", 2)).unwrap();
    let msgs = q.try_accept_proposal(&s("owner"), T0 + 3 * HOUR, 1, 10, &Token::new_native("fee")).unwrap();
    assert!(msgs.contains(&Instruction::Transfer { recipient: s("alice"), amount: 3, token: Token::new_native("noria") }));
    assert!(msgs.contains(&Instruction::Transfer { recipient: s("bob"), amount: 1, token: Token::new_native("noria") }));
    assert_eq!(q.collections_balances[0].1.amount, 0);
}

#[test]
fn duplicate_name_or_address_is_refused_at_acceptance() {
    let mut p = StakingPlatform::new("admin", &None, &None);
    p.try_create_proposal(&s("admin"), add("gopniks", terms("gopniks", native("noria"), ONE_18_DECIMALS, EmissionType::Spending))).unwrap();
    p.try_create_proposal(&s("admin"), add("other", terms("gopniks", native("noria"), ONE_18_DECIMALS, EmissionType::Spending))).unwrap();
    p.try_accept_proposal(&s("owner"), T0, 1, 10, &Token::new_native("fee")).unwrap();
    let before = format!("{:?}", p);
    assert_eq!(p.try_accept_proposal(&s("owner"), T0, 2, 10, &Token::new_native("fee")), Err(ContractError::CollectionDuplication));
    assert_eq!(format!("{:?}", p), before);
    assert_eq!(p.collections.len(), 1);
}

#[test]
fn every_refusal_has_its_error() {
    let mut p = live("gopniks", terms("gopniks", native("noria"), ONE_18_DECIMALS, EmissionType::Spending));
    let cw20 = Currency::new(&Token::new_cw20("atom"), 6);
    assert_eq!(
        p.try_create_proposal(&s("admin"), add("minted", terms("minted", cw20, ONE_18_DECIMALS, EmissionType::Minting))),
        Err(ContractError::WrongMinterTokenType)
    );
    assert!(matches!(p.try_reject_proposal(&s("admin"), 9), Err(ContractError::ParameterIsNotFound { .. })));
    assert!(matches!(p.try_accept_proposal(&s("owner"), T0, 0, 10, &Token::new_native("fee")), Err(ContractError::ParameterIsNotFound { .. })));
    assert_eq!(p.try_deposit_tokens(&s("owner"), &s("nowhere"), 1, &Token::new_native("noria")), Err(ContractError::CollectionIsNotFound));
    assert_eq!(p.try_deposit_tokens(&s("owner"), &s("gopniks"), 1, &Token::new_native("fee")), Err(ContractError::AssetIsNotFound));
    p.try_deposit_tokens(&s("owner"), &s("gopniks"), u128::MAX, &Token::new_native("noria")).unwrap();
    assert_eq!(p.try_deposit_tokens(&s("owner"), &s("gopniks"), 1, &Token::new_native("noria")), Err(ContractError::AmountOverflow));
    assert_eq!(p.try_stake(&s("alice"), T0, &one("nowhere", 1)), Err(ContractError::CollectionIsNotFound));

    let mut m = live("minted", terms("minted", native("noria"), ONE_18_DECIMALS, EmissionType::Minting));
    m.try_update_config(&s("admin"), None, None).unwrap();
    m.try_stake(&s("alice"), T0, &one("minted", 1)).unwrap();
    let before = format!("{:?}", m);
    assert!(matches!(
        m.try_claim_staking_rewards(&s("alice"), T0 + 24 * HOUR),
        Err(ContractError::ParameterIsNotFound { .. })
    ));
    assert_eq!(format!("{:?}", m), before);
    m.try_remove_collection(&s("admin"), &s("minted")).unwrap();
    assert_eq!(m.try_claim_staking_rewards(&s("alice"), T0 + 24 * HOUR), Err(ContractError::CollectionIsNotFound));
}

#[test]
fn minted_rewards_go_through_the_minter() {
    let mut m = live("minted", terms("minted", native("noria"), 2 * ONE_18_DECIMALS, EmissionType::Minting));
    m.try_stake(&s("alice"), T0, &one("minted", 1)).unwrap();
    let msgs = m.try_claim_staking_rewards(&s("alice"), T0 + 24 * HOUR).unwrap();
    assert_eq!(
        msgs,
        vec![Instruction::Mint { minter: s("minter"), recipient: s("alice"), denom: s("noria"), amount: 2 }]
    );
}

#[test]
fn authorization_modes() {
    let admin = s("admin");
    let owner = Some(s("owner"));
    let list = vec![None, Some(s("carol"))];
    assert!(check_authorization(&admin, &owner, &s("x"), &AuthType::Any).is_ok());
    assert!(check_authorization(&admin, &owner, &s("admin"), &AuthType::Admin).is_ok());
    assert!(check_authorization(&admin, &owner, &s("owner"), &AuthType::Admin).is_err());
    assert!(check_authorization(&admin, &owner, &s("owner"), &AuthType::AdminOrOwner).is_ok());
    assert!(check_authorization(&admin, &None, &s("owner"), &AuthType::AdminOrOwner).is_err());
    assert!(check_authorization(&admin, &owner, &s("carol"), &AuthType::Specified { allowlist: list.clone() }).is_ok());
    assert!(check_authorization(&admin, &owner, &s("admin"), &AuthType::Specified { allowlist: list.clone() }).is_err());
    assert!(check_authorization(&admin, &owner, &s("owner"), &AuthType::AdminOrOwnerOrSpecified { allowlist: list.clone() }).is_ok());
    assert_eq!(
        check_authorization(&admin, &owner, &s("owner"), &AuthType::AdminOrSpecified { allowlist: list }),
        Err(ContractError::Unauthorized)
    );
}

#[test]
fn small_helpers() {
    assert_eq!(Attrs::init("try_stake"), vec![(s("action"), s("try_stake"))]);
    assert_eq!(unwrap_field(Some(3), "x"), Ok(3));
    assert_eq!(unwrap_field::<u8>(None, "minter"), Err(ContractError::ParameterIsNotFound { value: s("minter") }));
    assert_eq!(TokenUnverified::new_native("noria").get_symbol(), "noria");
    assert_eq!(TokenUnverified::new_cw20("atom").get_symbol(), "atom");
    assert_eq!(TokenUnverified::new_cw20("atom").verify(), Token::new_cw20("atom"));
    assert!(EmissionType::Spending.is_spending());
    assert!(!EmissionType::Minting.is_spending());
    assert_eq!(Token::new_native("a").try_get_native(), Ok(s("a")));
    assert_eq!(Token::new_native("a").try_get_cw20(), Err(ContractError::AssetIsNotFound));
}

#[test]
fn text_and_bytes() {
    assert_eq!(gopstake::converters::str_to_u8_vec("ab"), vec![97u8, 98u8]);
    assert_eq!(gopstake::converters::str_to_u8_vec("\u{0141}"), vec![0x41u8]);
    assert_eq!(gopstake::converters::u8_vec_to_str(&[104, 105]), "hi");
    assert_eq!(gopstake::converters::u8_vec_to_str(&[0xe9]), "\u{e9}");
    assert_eq!(gopstake::converters::u8_vec_to_str(&[]), "");
}

#[test]
fn stakers_are_listed_with_their_groups() {
    let mut p = live("gopniks", terms("gopniks", native("noria"), ONE_18_DECIMALS, EmissionType::Spending));
    p.try_create_proposal(&s("admin"), Proposal {
        proposal_status: None,
        price: Funds::new(10, &native("fee")),
        proposal_type: ProposalType::AddCollection {
            collection_address: s("pinjeons"),
            collection: terms("pinjeons", native("noria"), ONE_18_DECIMALS, EmissionType::Spending),
        },
    }).unwrap();
    p.try_accept_proposal(&s("owner"), T0, 2, 10, &Token::new_native("fee")).unwrap();
    p.try_stake(&s("alice"), T0, &one("pinjeons", 7)).unwrap();
    p.try_stake(&s("bob"), T0, &one("gopniks", 1)).unwrap();
    p.try_stake(&s("alice"), T0 + HOUR, &one("gopniks", 2)).unwrap();
    p.try_stake(&s("alice"), T0 + HOUR, &one("pinjeons", 8)).unwrap();

    let all = p.query_stakers(&None);
    assert_eq!(all.len(), 2);
    assert_eq!(all[0].0, "alice");
    let groups = &all[0].1;
    assert_eq!(groups.len(), 2);
    assert_eq!(groups[0].collection_address, "pinjeons");
    let ids: Vec<u128> = groups[0].staked_token_info_list.iter().map(|t| t.token_id).collect();
    assert_eq!(ids, vec![7, 8]);
    assert_eq!(groups[1].collection_address, "gopniks");
    assert_eq!(groups[1].staked_token_info_list[0].last_claim_date, Some(T0 + HOUR));

    let bob = p.query_stakers(&Some(vec![s("bob"), s("nobody")]));
    assert_eq!(bob.len(), 1);
    assert_eq!(bob[0].0, "bob");

    p.try_unstake(&s("bob"), T0 + HOUR, &one("gopniks", 1)).unwrap();
    let bob = p.query_stakers(&Some(vec![s("bob")]));
    assert_eq!(bob.len(), 1);
    assert!(bob[0].1.is_empty());

    let picked = p.query_collections(&Some(vec![s("pinjeons")]));
    assert_eq!(picked.len(), 1);
    assert_eq!(picked[0].0, "pinjeons");
    assert_eq!(p.query_collections(&None).len(), 2);
    p.try_deposit_tokens(&s("owner"), &s("pinjeons"), 5, &Token::new_native("noria")).unwrap();
    let balances = p.query_collections_balances(&Some(vec![s("pinjeons")]));
    assert_eq!(balances, vec![(s("pinjeons"), Funds::new(5, &native("noria")))]);
    assert_eq!(p.query_collections_balances(&None).len(), 2);
    assert_eq!(p.query_config().admin, "admin");
    assert_eq!(p.proposal_counter(), 3);
}

#[test]
fn funds_routes() {
    let natives = vec![(5, Token::new_native("a")), (7, Token::new_native("b"))];
    assert_eq!(
        route_funds(&natives),
        Ok(FundsRoute::Attached { coins: vec![(5, s("a")), (7, s("b"))] })
    );
    assert_eq!(
        route_funds(&vec![(9, Token::new_cw20("atom"))]),
        Ok(FundsRoute::Relayed { amount: 9, token_address: s("atom") })
    );
    assert_eq!(
        route_funds(&vec![(9, Token::new_cw20("atom")), (1, Token::new_native("a"))]),
        Err(ContractError::WrongFundsCombination)
    );
    assert_eq!(route_funds(&vec![]), Ok(FundsRoute::Attached { coins: vec![] }));
}

#[test]
fn rewards_of_one_collection_and_wallet_currencies() {
    let mut p = live("gopniks", terms("gopniks", native("noria"), 24 * ONE_18_DECIMALS, EmissionType::Spending));
    p.try_stake(&s("alice"), T0, &one("gopniks", 1)).unwrap();
    let line = p.query_staking_rewards_per_collection(&s("alice"), &s("gopniks"), T0 + 5 * HOUR).unwrap();
    assert_eq!(line, Funds::new(5, &native("noria")));
    assert_eq!(
        p.query_staking_rewards_per_collection(&s("bob"), &s("gopniks"), T0),
        Err(ContractError::CollectionIsNotFound)
    );
    let (natives, contracts) = p.associated_currencies();
    assert_eq!(natives, vec![native("noria")]);
    assert!(contracts.is_empty());
}

#[test]
fn a_clock_behind_the_last_claim_is_refused() {
    let mut p = live("gopniks", terms("gopniks", native("noria"), 24 * ONE_18_DECIMALS, EmissionType::Spending));
    p.try_deposit_tokens(&s("owner"), &s("gopniks"), 100, &Token::new_native("noria")).unwrap();
    p.try_stake(&s("alice"), T0 + HOUR, &one("gopniks", 1)).unwrap();
    let before = format!("{:?}", p);
    assert_eq!(p.try_claim_staking_rewards(&s("alice"), T0), Err(ContractError::TimestampBeforeLastClaim));
    assert_eq!(p.try_unstake(&s("alice"), T0, &one("gopniks", 1)), Err(ContractError::TimestampBeforeLastClaim));
    assert_eq!(p.query_staking_rewards(&s("alice"), T0), Err(ContractError::TimestampBeforeLastClaim));
    assert_eq!(
        p.query_staking_rewards_per_collection(&s("alice"), &s("gopniks"), T0),
        Err(ContractError::TimestampBeforeLastClaim)
    );
    assert_eq!(format!("{:?}", p), before);
    // the same instant is fine and pays nothing
    assert_eq!(p.try_claim_staking_rewards(&s("alice"), T0 + HOUR), Ok(vec![]));
}
