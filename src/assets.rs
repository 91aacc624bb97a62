use vstd::prelude::*;

verus! {

/// A currency in the abstract: a native denomination or the address of a
/// token contract.
pub enum TokenView {
    Native(Seq<char>),
    Cw20(Seq<char>),
}

/// A validated currency: a native denomination or a token contract.
#[derive(Debug)]
pub enum Token {
    Native { denom: String },
    Cw20 { address: String },
}

impl View for Token {
    type V = TokenView;

    open spec fn view(&self) -> TokenView {
        match self {
            Token::Native { denom } => TokenView::Native(denom@),
            Token::Cw20 { address } => TokenView::Cw20(address@),
        }
    }
}

impl Clone for Token {
    fn clone(&self) -> (r: Self)
        ensures
            r == *self,
    {
        match self {
            Token::Native { denom } => Token::Native { denom: denom.clone() },
            Token::Cw20 { address } => Token::Cw20 { address: address.clone() },
        }
    }
}

impl PartialEq for Token {
    fn eq(&self, other: &Token) -> (r: bool) {
        match (self, other) {
            (Token::Native { denom: a }, Token::Native { denom: b }) => *a == *b,
            (Token::Cw20 { address: a }, Token::Cw20 { address: b }) => *a == *b,
            _ => false,
        }
    }
}

impl vstd::std_specs::cmp::PartialEqSpecImpl for Token {
    open spec fn obeys_eq_spec() -> bool {
        true
    }

    open spec fn eq_spec(&self, other: &Token) -> bool {
        self@ == other@
    }
}

impl Token {
    pub fn new_native(denom: &str) -> (r: Token)
        ensures
            r@ == TokenView::Native(denom@),
    {
        Token::Native { denom: denom.to_owned() }
    }

    pub fn new_cw20(address: &str) -> (r: Token)
        ensures
            r@ == TokenView::Cw20(address@),
    {
        Token::Cw20 { address: address.to_owned() }
    }

    pub open spec fn spec_is_native(&self) -> bool {
        self@ is Native
    }

    pub fn is_native(&self) -> (r: bool)
        ensures
            r == self.spec_is_native(),
    {
        match self {
            Token::Native { .. } => true,
            Token::Cw20 { .. } => false,
        }
    }

    /// The denomination of a native token; `AssetIsNotFound` for a token contract.
    pub fn try_get_native(&self) -> (r: Result<String, crate::error::ContractError>)
        ensures
            self@ matches TokenView::Native(d) ==> r matches Ok(s) && s@ == d,
            self@ is Cw20 ==> r == Err::<String, _>(crate::error::ContractError::AssetIsNotFound),
    {
        match self {
            Token::Native { denom } => Ok(denom.clone()),
            Token::Cw20 { .. } => Err(crate::error::ContractError::AssetIsNotFound),
        }
    }

    /// The address of a token contract; `AssetIsNotFound` for a native token.
    pub fn try_get_cw20(&self) -> (r: Result<String, crate::error::ContractError>)
        ensures
            self@ matches TokenView::Cw20(a) ==> r matches Ok(s) && s@ == a,
            self@ is Native ==> r == Err::<String, _>(crate::error::ContractError::AssetIsNotFound),
    {
        match self {
            Token::Native { .. } => Err(crate::error::ContractError::AssetIsNotFound),
            Token::Cw20 { address } => Ok(address.clone()),
        }
    }
}

/// A currency as a caller writes it, before its address has been validated.
#[derive(Debug)]
pub enum TokenUnverified {
    Native { denom: String },
    Cw20 { address: String },
}

impl View for TokenUnverified {
    type V = TokenView;

    open spec fn view(&self) -> TokenView {
        match self {
            TokenUnverified::Native { denom } => TokenView::Native(denom@),
            TokenUnverified::Cw20 { address } => TokenView::Cw20(address@),
        }
    }
}

impl Clone for TokenUnverified {
    fn clone(&self) -> (r: Self)
        ensures
            r == *self,
    {
        match self {
            TokenUnverified::Native { denom } => TokenUnverified::Native { denom: denom.clone() },
            TokenUnverified::Cw20 { address } => TokenUnverified::Cw20 { address: address.clone() },
        }
    }
}

impl TokenUnverified {
    pub fn new_native(denom: &str) -> (r: TokenUnverified)
        ensures
            r@ == TokenView::Native(denom@),
    {
        TokenUnverified::Native { denom: denom.to_owned() }
    }

    pub fn new_cw20(address: &str) -> (r: TokenUnverified)
        ensures
            r@ == TokenView::Cw20(address@),
    {
        TokenUnverified::Cw20 { address: address.to_owned() }
    }

    /// The denomination or the address, whichever the token holds.
    pub fn get_symbol(&self) -> (r: String)
        ensures
            r@ == (match self@ {
                TokenView::Native(d) => d,
                TokenView::Cw20(a) => a,
            }),
    {
        match self {
            TokenUnverified::Native { denom } => denom.clone(),
            TokenUnverified::Cw20 { address } => address.clone(),
        }
    }

    /// The token with its address taken as valid; checking an address
    /// against the chain's rules is the host's part.
    pub fn verify(&self) -> (r: Token)
        ensures
            r@ == self@,
    {
        match self {
            TokenUnverified::Native { denom } => Token::Native { denom: denom.clone() },
            TokenUnverified::Cw20 { address } => Token::Cw20 { address: address.clone() },
        }
    }
}

impl Token {
    /// The same currency in its unvalidated form.
    pub fn to_unverified(&self) -> (r: TokenUnverified)
        ensures
            r@ == self@,
    {
        match self {
            Token::Native { denom } => TokenUnverified::Native { denom: denom.clone() },
            Token::Cw20 { address } => TokenUnverified::Cw20 { address: address.clone() },
        }
    }
}

/// A token together with its number of decimal places.
#[derive(Debug)]
pub struct Currency {
    pub token: Token,
    pub decimals: u8,
}

impl View for Currency {
    type V = (TokenView, u8);

    open spec fn view(&self) -> (TokenView, u8) {
        (self.token@, self.decimals)
    }
}

impl Clone for Currency {
    fn clone(&self) -> (r: Self)
        ensures
            r == *self,
    {
        Currency { token: self.token.clone(), decimals: self.decimals }
    }
}

impl PartialEq for Currency {
    fn eq(&self, other: &Currency) -> (r: bool) {
        self.token == other.token && self.decimals == other.decimals
    }
}

impl vstd::std_specs::cmp::PartialEqSpecImpl for Currency {
    open spec fn obeys_eq_spec() -> bool {
        true
    }

    open spec fn eq_spec(&self, other: &Currency) -> bool {
        self@ == other@
    }
}

impl Currency {
    pub fn new(token: &Token, decimals: u8) -> (r: Currency)
        ensures
            r.token == *token,
            r.decimals == decimals,
    {
        Currency { token: token.clone(), decimals }
    }
}

/// An amount of a currency, in its base units.
#[derive(Debug)]
pub struct Funds {
    pub amount: u128,
    pub currency: Currency,
}

impl View for Funds {
    type V = (u128, (TokenView, u8));

    open spec fn view(&self) -> (u128, (TokenView, u8)) {
        (self.amount, self.currency@)
    }
}

impl Clone for Funds {
    fn clone(&self) -> (r: Self)
        ensures
            r == *self,
    {
        Funds { amount: self.amount, currency: self.currency.clone() }
    }
}

impl PartialEq for Funds {
    fn eq(&self, other: &Funds) -> (r: bool) {
        self.amount == other.amount && self.currency == other.currency
    }
}

impl vstd::std_specs::cmp::PartialEqSpecImpl for Funds {
    open spec fn obeys_eq_spec() -> bool {
        true
    }

    open spec fn eq_spec(&self, other: &Funds) -> bool {
        self@ == other@
    }
}

impl Funds {
    pub fn new(amount: u128, currency: &Currency) -> (r: Funds)
        ensures
            r.amount == amount,
            r.currency == *currency,
    {
        Funds { amount, currency: currency.clone() }
    }
}

} // verus!
