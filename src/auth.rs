use crate::error::ContractError;
use vstd::prelude::*;

verus! {

/// Who may perform an operation.
#[derive(Debug)]
pub enum AuthType {
    Any,
    Admin,
    AdminOrOwner,
    Specified { allowlist: Vec<Option<String>> },
    AdminOrOwnerOrSpecified { allowlist: Vec<Option<String>> },
    AdminOrSpecified { allowlist: Vec<Option<String>> },
}

/// `slot` is set, to `sender`.
pub open spec fn is_owner(slot: Option<String>, sender: Seq<char>) -> bool {
    slot matches Some(o) && o@ == sender
}

/// `sender` stands, set, in `allowlist`.
pub open spec fn listed(allowlist: Seq<Option<String>>, sender: Seq<char>) -> bool {
    exists|i: int| 0 <= i < allowlist.len() && is_owner(#[trigger] allowlist[i], sender)
}

/// Whether `sender` passes `auth` given the configured admin and owner.
pub open spec fn authorized(
    auth: AuthType,
    admin: Seq<char>,
    owner: Option<String>,
    sender: Seq<char>,
) -> bool {
    match auth {
        AuthType::Any => true,
        AuthType::Admin => sender == admin,
        AuthType::AdminOrOwner => sender == admin || is_owner(owner, sender),
        AuthType::Specified { allowlist } => listed(allowlist@, sender),
        AuthType::AdminOrOwnerOrSpecified { allowlist } => sender == admin || is_owner(
            owner,
            sender,
        ) || listed(allowlist@, sender),
        AuthType::AdminOrSpecified { allowlist } => sender == admin || listed(allowlist@, sender),
    }
}

fn is_listed(allowlist: &Vec<Option<String>>, sender: &String) -> (r: bool)
    ensures
        r == listed(allowlist@, sender@),
{
    let mut i: usize = 0;
    while i < allowlist.len()
        invariant
            i <= allowlist.len(),
            forall|j: int| 0 <= j < i ==> !is_owner(#[trigger] allowlist@[j], sender@),
        decreases allowlist.len() - i,
    {
        if let Some(a) = &allowlist[i] {
            if *a == *sender {
                return true;
            }
        }
        i = i + 1;
    }
    false
}

fn is_owner_of(owner: &Option<String>, sender: &String) -> (r: bool)
    ensures
        r == is_owner(*owner, sender@),
{
    match owner {
        Some(o) => *o == *sender,
        None => false,
    }
}

/// Accepts `sender` when it passes `auth`; an unset owner fails only the
/// owner branch.
pub fn check_authorization(
    admin: &String,
    owner: &Option<String>,
    sender: &String,
    auth: &AuthType,
) -> (r: Result<(), ContractError>)
    ensures
        r is Ok <==> authorized(*auth, admin@, *owner, sender@),
        r is Err ==> r == Err::<(), _>(ContractError::Unauthorized),
{
    let ok = match auth {
        AuthType::Any => true,
        AuthType::Admin => *sender == *admin,
        AuthType::AdminOrOwner => *sender == *admin || is_owner_of(owner, sender),
        AuthType::Specified { allowlist } => is_listed(allowlist, sender),
        AuthType::AdminOrOwnerOrSpecified { allowlist } => *sender == *admin || is_owner_of(
            owner,
            sender,
        ) || is_listed(allowlist, sender),
        AuthType::AdminOrSpecified { allowlist } => *sender == *admin || is_listed(
            allowlist,
            sender,
        ),
    };
    if ok {
        Ok(())
    } else {
        Err(ContractError::Unauthorized)
    }
}

} // verus!
