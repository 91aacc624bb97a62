use crate::assets::Token;
use crate::error::ContractError;
use vstd::prelude::*;

verus! {

/// Response attributes.
#[derive(Debug)]
pub struct Attrs {}

impl Attrs {
    /// The attribute list every response starts with: the action's name.
    pub fn init(action: &str) -> (r: Vec<(String, String)>)
        ensures
            r@.len() == 1,
            r@[0].0@ == "action"@,
            r@[0].1@ == action@,
    {
        proof {
            reveal_strlit("action");
        }
        let mut attrs: Vec<(String, String)> = Vec::new();
        attrs.push(("action".to_string(), action.to_string()));
        attrs
    }
}

/// The value of an optional setting, or `ParameterIsNotFound` naming it.
pub fn unwrap_field<T>(field: Option<T>, name: &str) -> (r: Result<T, ContractError>)
    ensures
        field matches Some(v) ==> r == Ok::<T, ContractError>(v),
        field is None ==> (r matches Err(ContractError::ParameterIsNotFound { value }) && value@
            == name@),
{
    match field {
        Some(v) => Ok(v),
        None => Err(ContractError::ParameterIsNotFound { value: name.to_string() }),
    }
}

/// How funds travel with a call to another contract.
#[derive(Debug, PartialEq)]
pub enum FundsRoute {
    /// Native coins, `(amount, denom)`, attached to the call itself.
    Attached { coins: Vec<(u128, String)> },
    /// A token contract's amount sent to the callee, the call riding along.
    Relayed { amount: u128, token_address: String },
}

/// The native coins of `funds`, in order.
pub open spec fn native_coins(funds: Seq<(u128, Token)>) -> Seq<(u128, String)>
    decreases funds.len(),
{
    if funds.len() == 0 {
        Seq::empty()
    } else {
        let rest = native_coins(funds.drop_last());
        match funds.last().1 {
            Token::Native { denom } => rest.push((funds.last().0, denom)),
            Token::Cw20 { .. } => rest,
        }
    }
}

/// The token-contract amounts of `funds`, in order.
pub open spec fn contract_amounts(funds: Seq<(u128, Token)>) -> Seq<(u128, String)>
    decreases funds.len(),
{
    if funds.len() == 0 {
        Seq::empty()
    } else {
        let rest = contract_amounts(funds.drop_last());
        match funds.last().1 {
            Token::Native { .. } => rest,
            Token::Cw20 { address } => rest.push((funds.last().0, address)),
        }
    }
}

/// Decides how `funds_list` travels with a call: native coins only are
/// attached; a single token-contract amount alone is relayed through that
/// contract; any other mix is refused.
pub fn route_funds(funds_list: &Vec<(u128, Token)>) -> (r: Result<FundsRoute, ContractError>)
    ensures
        ({
            let natives = native_coins(funds_list@);
            let contracts = contract_amounts(funds_list@);
            &&& contracts.len() == 0 ==> (r matches Ok(FundsRoute::Attached { coins }) && coins@
                == natives)
            &&& contracts.len() == 1 && natives.len() == 0 ==> r == Ok::<FundsRoute, ContractError>(
                FundsRoute::Relayed { amount: contracts[0].0, token_address: contracts[0].1 },
            )
            &&& !(contracts.len() == 0 || (contracts.len() == 1 && natives.len() == 0)) ==> r
                == Err::<FundsRoute, _>(ContractError::WrongFundsCombination)
        }),
{
    let mut natives: Vec<(u128, String)> = Vec::new();
    let mut contracts: Vec<(u128, String)> = Vec::new();
    let mut i: usize = 0;
    assert(funds_list@.subrange(0, 0) == Seq::<(u128, Token)>::empty());
    while i < funds_list.len()
        invariant
            i <= funds_list@.len(),
            natives@ == native_coins(funds_list@.subrange(0, i as int)),
            contracts@ == contract_amounts(funds_list@.subrange(0, i as int)),
        decreases funds_list@.len() - i,
    {
        proof {
            let sub = funds_list@.subrange(0, i + 1 as int);
            assert(sub.drop_last() == funds_list@.subrange(0, i as int));
            assert(sub.last() == funds_list@[i as int]);
        }
        let amount = funds_list[i].0;
        match &funds_list[i].1 {
            Token::Native { denom } => natives.push((amount, denom.clone())),
            Token::Cw20 { address } => contracts.push((amount, address.clone())),
        }
        i = i + 1;
    }
    assert(funds_list@.subrange(0, funds_list@.len() as int) == funds_list@);
    if contracts.len() == 0 {
        return Ok(FundsRoute::Attached { coins: natives });
    }
    if contracts.len() == 1 && natives.len() == 0 {
        let (amount, token_address) = contracts.remove(0);
        return Ok(FundsRoute::Relayed { amount, token_address });
    }
    Err(ContractError::WrongFundsCombination)
}

} // verus!
