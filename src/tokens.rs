//! Token-initialization messages, their validation, and the token contract's
//! queries and handle messages.

use crate::contract::Contract;
use vstd::prelude::*;
use vstd::utf8::encode_utf8;

verus! {

/// A message the token contract sends to another contract once it is set up.
#[derive(Clone, Debug)]
pub struct InitHook {
    pub msg: Vec<u8>,
    pub contract_addr: String,
    pub code_hash: String,
}

/// An account's balance when the token is created.
#[derive(Debug)]
pub struct TokenInitBalance {
    pub amount: u128,
    pub address: String,
}

/// The message that creates a token.
#[derive(Debug)]
pub struct TokenInitMsg {
    pub name: String,
    pub admin: Option<Vec<String>>,
    pub symbol: String,
    pub decimals: u8,
    pub initial_balances: Option<Vec<TokenInitBalance>>,
    pub prng_seed: Vec<u8>,
    pub init_hook: Option<InitHook>,
    pub config: Option<InitConfig>,
    pub token_code_id: Option<u64>,
    pub is_being_minted: Option<bool>,
    pub is_voting_token: Option<bool>,
}

/// Optional settings of a new token.
#[derive(Clone, Copy, Debug, Default, PartialEq, Eq, Structural)]
pub struct InitConfig {
    /// Whether the total supply is public; unset means it is kept secret.
    pub public_total_supply: Option<bool>,
}

/// Why a token configuration was rejected; the first failing check wins.
#[derive(Clone, Copy, Debug, PartialEq, Eq, Structural)]
pub enum ValidationError {
    InvalidName,
    InvalidSymbol,
    DecimalsOutOfRange,
}

/// The largest number of decimals a token may have.
pub const MAX_DECIMALS: u8 = 18;

/// A name is 3 to 50 bytes of UTF-8.
pub open spec fn name_ok(bytes: Seq<u8>) -> bool {
    3 <= bytes.len() <= 50
}

/// The bytes a symbol may hold: `A`-`Z`, `a`-`z` and `-`.
pub open spec fn symbol_byte_ok(c: u8) -> bool {
    c == 45 || (65 <= c <= 90) || (97 <= c <= 122)
}

/// A symbol is 3 to 12 bytes, each of them allowed.
pub open spec fn symbol_ok(bytes: Seq<u8>) -> bool {
    &&& 3 <= bytes.len() <= 12
    &&& forall|i: int| 0 <= i < bytes.len() ==> symbol_byte_ok(#[trigger] bytes[i])
}

/// The verdict on a configuration: name, then symbol, then decimals.
pub open spec fn config_verdict(name: Seq<u8>, symbol: Seq<u8>, decimals: u8) -> Result<
    (),
    ValidationError,
> {
    if !name_ok(name) {
        Err(ValidationError::InvalidName)
    } else if !symbol_ok(symbol) {
        Err(ValidationError::InvalidSymbol)
    } else if decimals > MAX_DECIMALS {
        Err(ValidationError::DecimalsOutOfRange)
    } else {
        Ok(())
    }
}

/// Whether `name` is an acceptable token name.
pub fn is_valid_name(name: &str) -> (r: bool)
    ensures
        r == name_ok(encode_utf8(name@)),
{
    let bytes = name.as_bytes();
    if bytes.len() < 3 || bytes.len() > 50 {
        return false;
    }
    true
}

/// Whether `symbol` is an acceptable ticker symbol.
pub fn is_valid_symbol(symbol: &str) -> (r: bool)
    ensures
        r == symbol_ok(encode_utf8(symbol@)),
{
    let bytes = symbol.as_bytes();
    if bytes.len() < 3 || bytes.len() > 12 {
        return false;
    }
    let mut i: usize = 0;
    while i < bytes.len()
        invariant
            i <= bytes@.len(),
            bytes@ == encode_utf8(symbol@),
            forall|j: int| 0 <= j < i ==> symbol_byte_ok(#[trigger] bytes@[j]),
        decreases bytes@.len() - i,
    {
        let byte = bytes[i];
        if (byte != 45) && (byte < 65 || byte > 90) && (byte < 97 || byte > 122) {
            assert(!symbol_byte_ok(bytes@[i as int]));
            return false;
        }
        i = i + 1;
    }
    true
}

impl TokenInitMsg {
    /// A creation message with the given admins and hook, no initial
    /// balances, and a public total supply.
    #[allow(clippy::too_many_arguments)]
    pub fn new(
        name: String,
        admin: Vec<String>,
        symbol: String,
        decimals: u8,
        prng_seed: Vec<u8>,
        init_hook: InitHook,
        code_id: Option<u64>,
        is_being_minted: Option<bool>,
    ) -> (r: Self)
        ensures
            r.name@ == name@,
            r.admin == Some(admin),
            r.symbol@ == symbol@,
            r.decimals == decimals,
            r.initial_balances is None,
            r.prng_seed@ == prng_seed@,
            r.init_hook == Some(init_hook),
            r.config == Some(InitConfig { public_total_supply: Some(true) }),
            r.token_code_id == code_id,
            r.is_being_minted == is_being_minted,
            r.is_voting_token is None,
    {
        Self {
            name,
            admin: Some(admin),
            symbol,
            decimals,
            initial_balances: None,
            prng_seed,
            init_hook: Some(init_hook),
            config: Some(InitConfig { public_total_supply: Some(true) }),
            token_code_id: code_id,
            is_being_minted,
            is_voting_token: None,
        }
    }

    /// Checks the name, the symbol and the number of decimals, in that order.
    pub fn validate(&self) -> (r: Result<(), ValidationError>)
        ensures
            r == config_verdict(
                encode_utf8(self.name@),
                encode_utf8(self.symbol@),
                self.decimals,
            ),
    {
        if !is_valid_name(self.name.as_str()) {
            return Err(ValidationError::InvalidName);
        }
        if !is_valid_symbol(self.symbol.as_str()) {
            return Err(ValidationError::InvalidSymbol);
        }
        if self.decimals > MAX_DECIMALS {
            return Err(ValidationError::DecimalsOutOfRange);
        }
        Ok(())
    }
}


impl InitConfig {
    /// Whether the total supply is public; false unless set to true.
    pub fn total_supply_is_public(&self) -> (r: bool)
        ensures
            r == (self.public_total_supply == Some(true)),
    {
        match self.public_total_supply {
            Some(public) => public,
            None => false,
        }
    }
}

/// Queries answered by the token contract.
#[derive(Debug)]
pub enum TokenQuery {
    MultipleBalances { address: String, key: String, addresses: Vec<String> },
    TokenInfo {},
}

impl TokenQuery {
    /// Whether the query has the fields it needs: a balances query names at
    /// least one address.
    pub fn is_well_formed(&self) -> (r: bool)
        ensures
            r == match self {
                TokenQuery::MultipleBalances { addresses, .. } => addresses@.len() > 0,
                TokenQuery::TokenInfo {  } => true,
            },
    {
        match self {
            TokenQuery::MultipleBalances { addresses, .. } => addresses.len() > 0,
            TokenQuery::TokenInfo {  } => true,
        }
    }
}

/// Answers of the token contract.
#[derive(Debug)]
pub enum TokenQueryResponse {
    MultipleBalances { balances: Vec<u8> },
    TokenInfo { name: String, symbol: String, decimals: u8, total_supply: Option<u128> },
}

/// Messages that change the token contract's settings.
#[derive(Debug)]
pub enum TokenHandleMessage {
    SetVotingContract { contract: Option<Contract>, gov_token: bool },
}

} // verus!
