use gopstake::assets::{Currency, Funds, Token};
use gopstake::error::ContractError;
use gopstake::math::{staking_reward, ONE_18_DECIMALS};
use gopstake::msg::Instruction;
use gopstake::platform::StakingPlatform;
use gopstake::types::{
    Collection, EmissionType, Proposal, ProposalType, StakedCollectionInfo, StakedTokenInfo,
};

const DAY: u64 = 86_400_000_000_000;
const T0: u64 = 1_700_000_000_000_000_000;

fn s(v: &str) -> String {
    v.to_string()
}

fn native(denom: &str, decimals: u8) -> Currency {
    Currency::new(&Token::new_native(denom), decimals)
}

fn add_proposal(address: &str, name: &str, daily: u128, emission: EmissionType, currency: Currency) -> Proposal {
    Proposal {
        proposal_status: None,
        price: Funds::new(100, &native("denom", 6)),
        proposal_type: ProposalType::AddCollection {
            collection_address: s(address),
            collection: Collection {
                name: s(name),
                staking_currency: currency,
                daily_rewards: daily,
                emission_type: emission,
                owner: s("owner"),
            },
        },
    }
}

fn item(token_id: u128) -> StakedTokenInfo {
    StakedTokenInfo { token_id, staking_start_date: None, last_claim_date: None }
}

fn stake_list(address: &str, ids: &[u128]) -> Vec<StakedCollectionInfo> {
    vec![StakedCollectionInfo {
        collection_address: s(address),
        staked_token_info_list: ids.iter().map(|i| item(*i)).collect(),
    }]
}

fn transfer_total(msgs: &[Instruction], recipient: &str, token: &Token) -> u128 {
    msgs.iter()
        .map(|m| match m {
            Instruction::Transfer { recipient: r, amount, token: t } if r == recipient && t == token => *amount,
            _ => 0,
        })
        .sum()
}

#[test]
fn half_day_of_rewards_then_claims() {
    let mut p = StakingPlatform::new("admin", &None, &None);
    let noria = native("noria", 6);
    p.try_create_proposal(&s("admin"), add_proposal("gopniks", "gopniks", 1_000_000 * ONE_18_DECIMALS, EmissionType::Spending, noria.clone()))
        .unwrap();
    p.try_accept_proposal(&s("owner"), T0, 1, 100, &Token::new_native("denom")).unwrap();
    p.try_deposit_tokens(&s("owner"), &s("gopniks"), 10_000_000, &Token::new_native("noria")).unwrap();
    p.try_stake(&s("alice"), T0, &stake_list("gopniks", &[1])).unwrap();

    let half = T0 + DAY / 2;
    let lines = p.query_staking_rewards(&s("alice"), half).unwrap();
    assert_eq!(lines.len(), 1);
    assert_eq!(lines[0].amount, 500_000);

    let paid = p.try_claim_staking_rewards(&s("alice"), half).unwrap();
    assert_eq!(transfer_total(&paid, "alice", &Token::new_native("noria")), 500_000);
    assert_eq!(p.stakes[0].last_claim_date, half);

    let again = p.try_claim_staking_rewards(&s("alice"), half).unwrap();
    assert!(again.is_empty());
}

#[test]
fn reward_formula_values() {
    assert_eq!(staking_reward(DAY, 0, 1_000_000 * ONE_18_DECIMALS), 1_000_000);
    assert_eq!(staking_reward(DAY / 2, 0, 1_000_000 * ONE_18_DECIMALS), 500_000);
    assert_eq!(staking_reward(3 * 3_600_000_000_000, 0, 1_000_000 * ONE_18_DECIMALS), 125_000);
    assert_eq!(staking_reward(5, 5, 1_000_000 * ONE_18_DECIMALS), 0);
    assert_eq!(staking_reward(0, 5, 1_000_000 * ONE_18_DECIMALS), 0);
}

#[test]
fn withdraw_beyond_balance_is_refused() {
    let mut p = StakingPlatform::new("admin", &None, &None);
    p.try_create_proposal(&s("admin"), add_proposal("gopniks", "gopniks", ONE_18_DECIMALS, EmissionType::Spending, native("noria", 6)))
        .unwrap();
    p.try_accept_proposal(&s("owner"), T0, 1, 100, &Token::new_native("denom")).unwrap();
    p.try_deposit_tokens(&s("owner"), &s("gopniks"), 1_000, &Token::new_native("noria")).unwrap();
    let res = p.try_withdraw_tokens(&s("owner"), &s("gopniks"), 1_001);
    assert_eq!(res.unwrap_err(), ContractError::InsufficientBalance);
    assert_eq!(p.collections_balances[0].1.amount, 1_000);
}
