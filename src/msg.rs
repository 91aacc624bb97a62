use crate::assets::{Currency, Token, TokenView};
use crate::error::ContractError;
use crate::types::EmissionType;
use vstd::prelude::*;

verus! {

/// Work that an operation hands to the host, to be carried out together
/// with the operation or not at all.
#[derive(Debug, PartialEq)]
pub enum Instruction {
    /// Send `amount` of `token` to `recipient`.
    Transfer { recipient: String, amount: u128, token: Token },
    /// Ask `minter` to issue `amount` of the native `denom` to `recipient`.
    Mint { minter: String, recipient: String, denom: String, amount: u128 },
    /// Take item `token_id` of `collection_address` from `sender` into custody.
    ReceiveNft { collection_address: String, token_id: u128, sender: String },
    /// Release item `token_id` of `collection_address` to `recipient`.
    ReleaseNft { collection_address: String, token_id: u128, recipient: String },
}

/// A reward owed to `recipient`, paid the way `emission_type` says.
#[derive(Debug, PartialEq)]
pub struct Payout {
    pub recipient: String,
    pub currency: Currency,
    pub emission_type: EmissionType,
    pub amount: u128,
}

/// What identifies a payout line: payouts with equal keys are summed.
pub open spec fn payout_key(recipient: Seq<char>, token: TokenView, emission: EmissionType) -> (
    Seq<char>,
    TokenView,
    EmissionType,
) {
    (recipient, token, emission)
}

pub open spec fn key_of(p: Payout) -> (Seq<char>, TokenView, EmissionType) {
    payout_key(p.recipient@, p.currency.token@, p.emission_type)
}

/// The sum of the amounts in `ps` under key `k`.
pub open spec fn key_total(ps: Seq<Payout>, k: (Seq<char>, TokenView, EmissionType)) -> int
    decreases ps.len(),
{
    if ps.len() == 0 {
        0
    } else {
        key_total(ps.drop_last(), k) + if key_of(ps.last()) == k {
            ps.last().amount as int
        } else {
            0
        }
    }
}

pub open spec fn keys(ps: Seq<Payout>) -> Seq<(Seq<char>, TokenView, EmissionType)> {
    ps.map_values(|p: Payout| key_of(p))
}

/// `merged` holds one line per key of `ps`, each with the key's total.
pub open spec fn merges(merged: Seq<Payout>, ps: Seq<Payout>) -> bool {
    &&& forall|i: int, j: int|
        0 <= i < j < merged.len() ==> key_of(#[trigger] merged[i]) != key_of(#[trigger] merged[j])
    &&& forall|i: int|
        0 <= i < merged.len() ==> (#[trigger] merged[i]).amount == key_total(ps, key_of(merged[i]))
    &&& forall|i: int| 0 <= i < ps.len() ==> keys(merged).contains(key_of(#[trigger] ps[i]))
    &&& forall|j: int| 0 <= j < merged.len() ==> keys(ps).contains(key_of(#[trigger] merged[j]))
}

/// Some key of `ps` totals more than 128 bits hold.
pub open spec fn totals_overflow(ps: Seq<Payout>) -> bool {
    exists|i: int| 0 <= i < ps.len() && key_total(ps, key_of(#[trigger] ps[i])) > u128::MAX
}

proof fn lemma_key_total_nonneg(ps: Seq<Payout>, k: (Seq<char>, TokenView, EmissionType))
    ensures
        key_total(ps, k) >= 0,
    decreases ps.len(),
{
    if ps.len() > 0 {
        lemma_key_total_nonneg(ps.drop_last(), k);
    }
}

/// A total over a prefix never exceeds the total over the whole.
proof fn lemma_key_total_prefix(ps: Seq<Payout>, n: int, k: (Seq<char>, TokenView, EmissionType))
    requires
        0 <= n <= ps.len(),
    ensures
        key_total(ps.subrange(0, n), k) <= key_total(ps, k),
    decreases ps.len() - n,
{
    if n < ps.len() {
        lemma_key_total_prefix(ps, n + 1, k);
        assert(ps.subrange(0, n + 1).drop_last() == ps.subrange(0, n));
    } else {
        assert(ps.subrange(0, n) == ps);
    }
}

/// A key that no payout carries totals zero.
proof fn lemma_key_total_absent(ps: Seq<Payout>, k: (Seq<char>, TokenView, EmissionType))
    requires
        forall|i: int| 0 <= i < ps.len() ==> key_of(#[trigger] ps[i]) != k,
    ensures
        key_total(ps, k) == 0,
    decreases ps.len(),
{
    if ps.len() > 0 {
        assert(key_of(ps[ps.len() - 1]) != k);
        lemma_key_total_absent(ps.drop_last(), k);
    }
}

pub fn clone_payout(p: &Payout) -> (r: Payout)
    ensures
        r == *p,
{
    Payout {
        recipient: p.recipient.clone(),
        currency: p.currency.clone(),
        emission_type: p.emission_type,
        amount: p.amount,
    }
}

fn find_key(merged: &Vec<Payout>, p: &Payout) -> (r: Option<usize>)
    ensures
        r matches Some(j) ==> j < merged@.len() && key_of(merged@[j as int]) == key_of(*p),
        r is None ==> forall|t: int| 0 <= t < merged@.len() ==> key_of(#[trigger] merged@[t]) != key_of(*p),
{
    let mut j: usize = 0;
    while j < merged.len()
        invariant
            j <= merged.len(),
            forall|t: int| 0 <= t < j ==> key_of(#[trigger] merged@[t]) != key_of(*p),
        decreases merged.len() - j,
    {
        if merged[j].recipient == p.recipient && merged[j].currency.token == p.currency.token
            && merged[j].emission_type == p.emission_type {
            return Some(j);
        }
        j = j + 1;
    }
    None
}

proof fn lemma_merges_bounded(merged: Seq<Payout>, ps: Seq<Payout>)
    requires
        merges(merged, ps),
    ensures
        !totals_overflow(ps),
{
    assert forall|i: int| 0 <= i < ps.len() implies key_total(ps, key_of(#[trigger] ps[i]))
        <= u128::MAX by {
        assert(keys(merged).contains(key_of(ps[i])));
        let j = choose|j: int| 0 <= j < keys(merged).len() && keys(merged)[j] == key_of(ps[i]);
        assert(merged[j].amount == key_total(ps, key_of(merged[j])));
    }
}

proof fn lemma_key_total_push(ps: Seq<Payout>, p: Payout, k: (Seq<char>, TokenView, EmissionType))
    ensures
        key_total(ps.push(p), k) == key_total(ps, k) + if key_of(p) == k {
            p.amount as int
        } else {
            0
        },
{
    assert(ps.push(p).drop_last() == ps);
}

/// Adding a payout to a line of its key keeps the merge.
proof fn lemma_merge_add(merged: Seq<Payout>, ps: Seq<Payout>, at: int, p: Payout, line: Payout)
    requires
        merges(merged, ps),
        0 <= at < merged.len(),
        key_of(merged[at]) == key_of(p),
        key_of(line) == key_of(p),
        line.amount == merged[at].amount + p.amount,
    ensures
        merges(merged.update(at, line), ps.push(p)),
{
    let m2 = merged.update(at, line);
    let next = ps.push(p);
    assert(keys(m2) =~= keys(merged));
    assert(keys(next) =~= keys(ps).push(key_of(p)));
    assert forall|k| #[trigger] key_total(next, k) == key_total(ps, k) + if key_of(p) == k {
        p.amount as int
    } else {
        0
    } by {
        lemma_key_total_push(ps, p, k);
    }
    assert forall|i: int| 0 <= i < next.len() implies keys(m2).contains(key_of(#[trigger] next[i])) by {
        if i < ps.len() {
            assert(next[i] == ps[i]);
        } else {
            assert(keys(m2)[at] == key_of(p));
        }
    }
    assert forall|j: int| 0 <= j < m2.len() implies keys(next).contains(key_of(#[trigger] m2[j])) by {
        assert(key_of(m2[j]) == key_of(merged[j]));
        let t = choose|t: int| 0 <= t < keys(ps).len() && keys(ps)[t] == key_of(merged[j]);
        assert(keys(next)[t] == keys(ps)[t]);
    }
    assert forall|i: int| 0 <= i < m2.len() implies (#[trigger] m2[i]).amount == key_total(
        next,
        key_of(m2[i]),
    ) by {
        if i != at {
            assert(key_of(merged[i]) != key_of(merged[at]));
        }
    }
    assert forall|i: int, j: int| 0 <= i < j < m2.len() implies key_of(#[trigger] m2[i]) != key_of(
        #[trigger] m2[j],
    ) by {
        assert(key_of(m2[i]) == key_of(merged[i]));
        assert(key_of(m2[j]) == key_of(merged[j]));
    }
}

/// A payout of a key not yet merged opens a line of its own.
proof fn lemma_merge_new(merged: Seq<Payout>, ps: Seq<Payout>, p: Payout)
    requires
        merges(merged, ps),
        forall|t: int| 0 <= t < merged.len() ==> key_of(#[trigger] merged[t]) != key_of(p),
    ensures
        merges(merged.push(p), ps.push(p)),
{
    let m2 = merged.push(p);
    let next = ps.push(p);
    assert(keys(m2) =~= keys(merged).push(key_of(p)));
    assert(keys(next) =~= keys(ps).push(key_of(p)));
    assert forall|a: int| 0 <= a < ps.len() implies key_of(#[trigger] ps[a]) != key_of(p) by {
        assert(keys(merged).contains(key_of(ps[a])));
        let t = choose|t: int| 0 <= t < keys(merged).len() && keys(merged)[t] == key_of(ps[a]);
        assert(key_of(merged[t]) == key_of(ps[a]));
    }
    lemma_key_total_absent(ps, key_of(p));
    assert forall|k| #[trigger] key_total(next, k) == key_total(ps, k) + if key_of(p) == k {
        p.amount as int
    } else {
        0
    } by {
        lemma_key_total_push(ps, p, k);
    }
    assert forall|i: int| 0 <= i < next.len() implies keys(m2).contains(key_of(#[trigger] next[i])) by {
        if i < ps.len() {
            assert(next[i] == ps[i]);
            let t = choose|t: int| 0 <= t < keys(merged).len() && keys(merged)[t] == key_of(ps[i]);
            assert(keys(m2)[t] == keys(merged)[t]);
        } else {
            assert(keys(m2)[merged.len() as int] == key_of(p));
        }
    }
    assert forall|j: int| 0 <= j < m2.len() implies keys(next).contains(key_of(#[trigger] m2[j])) by {
        if j < merged.len() {
            assert(m2[j] == merged[j]);
            let t = choose|t: int| 0 <= t < keys(ps).len() && keys(ps)[t] == key_of(merged[j]);
            assert(keys(next)[t] == keys(ps)[t]);
        } else {
            assert(keys(next)[ps.len() as int] == key_of(p));
        }
    }
    assert forall|i: int| 0 <= i < m2.len() implies (#[trigger] m2[i]).amount == key_total(
        next,
        key_of(m2[i]),
    ) by {
        if i < merged.len() {
            assert(m2[i] == merged[i]);
        }
    }
}

/// Sums the payouts of `ps` per recipient, currency and emission type; fails
/// when a sum does not fit in 128 bits.
pub fn merge_payouts(ps: &Vec<Payout>) -> (r: Result<Vec<Payout>, ContractError>)
    ensures
        r is Err <==> totals_overflow(ps@),
        r is Err ==> r == Err::<Vec<Payout>, _>(ContractError::AmountOverflow),
        r matches Ok(m) ==> merges(m@, ps@),
{
    let mut merged: Vec<Payout> = Vec::new();
    let mut i: usize = 0;
    assert(ps@.subrange(0, 0) == Seq::<Payout>::empty());
    while i < ps.len()
        invariant
            i <= ps.len(),
            merges(merged@, ps@.subrange(0, i as int)),
        decreases ps.len() - i,
    {
        let p = &ps[i];
        let ghost prev = ps@.subrange(0, i as int);
        assert(ps@.subrange(0, i + 1 as int) == prev.push(*p));
        match find_key(&merged, p) {
            Some(j) => {
                match merged[j].amount.checked_add(p.amount) {
                    None => {
                        proof {
                            lemma_key_total_push(prev, *p, key_of(*p));
                            lemma_key_total_prefix(ps@, i + 1, key_of(*p));
                            assert(key_total(ps@, key_of(ps@[i as int])) > u128::MAX);
                        }
                        return Err(ContractError::AmountOverflow);
                    },
                    Some(t) => {
                        let mut line = clone_payout(&merged[j]);
                        line.amount = t;
                        proof {
                            lemma_merge_add(merged@, prev, j as int, *p, line);
                        }
                        merged.set(j, line);
                    },
                }
            },
            None => {
                proof {
                    lemma_merge_new(merged@, prev, *p);
                }
                merged.push(clone_payout(p));
            },
        }
        i = i + 1;
    }
    proof {
        assert(ps@.subrange(0, ps.len() as int) == ps@);
        lemma_merges_bounded(merged@, ps@);
    }
    Ok(merged)
}


proof fn lemma_key_total_positive(ps: Seq<Payout>, k: (Seq<char>, TokenView, EmissionType))
    requires
        key_total(ps, k) > 0,
    ensures
        exists|i: int| 0 <= i < ps.len() && key_of(#[trigger] ps[i]) == k && ps[i].amount > 0,
    decreases ps.len(),
{
    let n = ps.len() - 1;
    if key_of(ps[n]) == k && ps[n].amount > 0 {
    } else {
        lemma_key_total_positive(ps.drop_last(), k);
        let i = choose|i: int|
            0 <= i < ps.drop_last().len() && key_of(#[trigger] ps.drop_last()[i]) == k
                && ps.drop_last()[i].amount > 0;
        assert(ps[i] == ps.drop_last()[i]);
    }
}

proof fn lemma_key_total_at_least(ps: Seq<Payout>, i: int)
    requires
        0 <= i < ps.len(),
    ensures
        key_total(ps, key_of(ps[i])) >= ps[i].amount,
    decreases ps.len(),
{
    let n = ps.len() - 1;
    if i == n {
        lemma_key_total_nonneg(ps.drop_last(), key_of(ps[i]));
    } else {
        lemma_key_total_at_least(ps.drop_last(), i);
        assert(ps.drop_last()[i] == ps[i]);
    }
}

/// Merging keeps what the minter is asked for: a merged line mints exactly
/// when some payout under its key does.
pub proof fn lemma_merges_mints(merged: Seq<Payout>, ps: Seq<Payout>)
    requires
        merges(merged, ps),
    ensures
        mints(merged) == mints(ps),
        mints_contract_token(merged) == mints_contract_token(ps),
{
    if mints(ps) {
        let i = choose|i: int|
            0 <= i < ps.len() && (#[trigger] ps[i]).amount > 0 && ps[i].emission_type
                == EmissionType::Minting;
        lemma_key_total_at_least(ps, i);
        assert(keys(merged).contains(key_of(ps[i])));
        let j = choose|j: int| 0 <= j < keys(merged).len() && keys(merged)[j] == key_of(ps[i]);
        assert(merged[j].amount > 0);
    }
    if mints(merged) {
        let j = choose|j: int|
            0 <= j < merged.len() && (#[trigger] merged[j]).amount > 0 && merged[j].emission_type
                == EmissionType::Minting;
        lemma_key_total_positive(ps, key_of(merged[j]));
    }
    if mints_contract_token(ps) {
        let i = choose|i: int|
            0 <= i < ps.len() && (#[trigger] ps[i]).amount > 0 && ps[i].emission_type
                == EmissionType::Minting && ps[i].currency.token@ is Cw20;
        lemma_key_total_at_least(ps, i);
        assert(keys(merged).contains(key_of(ps[i])));
        let j = choose|j: int| 0 <= j < keys(merged).len() && keys(merged)[j] == key_of(ps[i]);
        assert(merged[j].amount > 0);
    }
    if mints_contract_token(merged) {
        let j = choose|j: int|
            0 <= j < merged.len() && (#[trigger] merged[j]).amount > 0 && merged[j].emission_type
                == EmissionType::Minting && merged[j].currency.token@ is Cw20;
        lemma_key_total_positive(ps, key_of(merged[j]));
    }
}

/// The instruction that pays `p`: a transfer out of held funds, or a
/// request to the minter.
pub open spec fn payout_instruction(p: Payout, minter: Option<String>) -> Instruction {
    match p.emission_type {
        EmissionType::Spending => Instruction::Transfer {
            recipient: p.recipient,
            amount: p.amount,
            token: p.currency.token,
        },
        EmissionType::Minting => Instruction::Mint {
            minter: match minter {
                Some(m) => m,
                None => arbitrary(),
            },
            recipient: p.recipient,
            denom: match p.currency.token {
                Token::Native { denom } => denom,
                Token::Cw20 { address } => address,
            },
            amount: p.amount,
        },
    }
}

/// The instructions paying the payouts of `ps` that are not zero, in order.
pub open spec fn payout_instructions(ps: Seq<Payout>, minter: Option<String>) -> Seq<Instruction>
    decreases ps.len(),
{
    if ps.len() == 0 {
        Seq::empty()
    } else {
        let rest = payout_instructions(ps.drop_last(), minter);
        if ps.last().amount == 0 {
            rest
        } else {
            rest.push(payout_instruction(ps.last(), minter))
        }
    }
}

/// A payout of `ps` asks the minter for a non-zero amount.
pub open spec fn mints(ps: Seq<Payout>) -> bool {
    exists|i: int|
        0 <= i < ps.len() && (#[trigger] ps[i]).amount > 0 && ps[i].emission_type
            == EmissionType::Minting
}

/// A payout of `ps` would have the minter issue a token contract's currency.
pub open spec fn mints_contract_token(ps: Seq<Payout>) -> bool {
    exists|i: int|
        0 <= i < ps.len() && (#[trigger] ps[i]).amount > 0 && ps[i].emission_type
            == EmissionType::Minting && ps[i].currency.token@ is Cw20
}

fn payout_to_instruction(p: &Payout, minter: &Option<String>) -> (r: Result<
    Instruction,
    ContractError,
>)
    requires
        p.emission_type == EmissionType::Minting ==> minter is Some,
    ensures
        r matches Ok(ins) ==> ins == payout_instruction(*p, *minter),
        r is Err <==> p.emission_type == EmissionType::Minting && p.currency.token@ is Cw20,
        r is Err ==> r == Err::<Instruction, _>(ContractError::AssetIsNotFound),
{
    match p.emission_type {
        EmissionType::Spending => Ok(
            Instruction::Transfer {
                recipient: p.recipient.clone(),
                amount: p.amount,
                token: p.currency.token.clone(),
            },
        ),
        EmissionType::Minting => {
            let denom = match &p.currency.token {
                Token::Native { denom } => denom.clone(),
                Token::Cw20 { .. } => {
                    return Err(ContractError::AssetIsNotFound);
                },
            };
            let name = match minter {
                Some(m) => m.clone(),
                None => String::new(),
            };
            Ok(
                Instruction::Mint {
                    minter: name,
                    recipient: p.recipient.clone(),
                    denom,
                    amount: p.amount,
                },
            )
        },
    }
}

/// The instructions that pay the non-zero payouts of `ps`. Minting needs a
/// configured minter and a native currency.
pub fn to_instructions(ps: &Vec<Payout>, minter: &Option<String>) -> (r: Result<
    Vec<Instruction>,
    ContractError,
>)
    ensures
        r is Ok <==> (minter is Some || !mints(ps@)) && !mints_contract_token(ps@),
        minter is None && mints(ps@) ==> r matches Err(ContractError::ParameterIsNotFound { .. }),
        (minter is Some || !mints(ps@)) && mints_contract_token(ps@) ==> r == Err::<
            Vec<Instruction>,
            _,
        >(ContractError::AssetIsNotFound),
        r matches Ok(v) ==> v@ == payout_instructions(ps@, *minter),
{
    let mut out: Vec<Instruction> = Vec::new();
    let mut i: usize = 0;
    assert(ps@.subrange(0, 0) == Seq::<Payout>::empty());
    while i < ps.len()
        invariant
            i <= ps.len(),
            out@ == payout_instructions(ps@.subrange(0, i as int), *minter),
            minter is None ==> forall|t: int|
                0 <= t < i ==> !((#[trigger] ps@[t]).amount > 0 && ps@[t].emission_type
                    == EmissionType::Minting),
            forall|t: int|
                0 <= t < i ==> !((#[trigger] ps@[t]).amount > 0 && ps@[t].emission_type
                    == EmissionType::Minting && ps@[t].currency.token@ is Cw20),
        decreases ps.len() - i,
    {
        let p = &ps[i];
        assert(ps@.subrange(0, i + 1 as int).drop_last() == ps@.subrange(0, i as int));
        if p.amount > 0 {
            if minter.is_none() && p.emission_type == EmissionType::Minting {
                return Err(ContractError::ParameterIsNotFound { value: "minter".to_string() });
            }
            let ins = payout_to_instruction(p, minter)?;
            out.push(ins);
        }
        i = i + 1;
    }
    assert(ps@.subrange(0, ps.len() as int) == ps@);
    Ok(out)
}

} // verus!
