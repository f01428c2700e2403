use cargo_common::tokens::{
    is_valid_name, is_valid_symbol, InitConfig, InitHook, TokenInitMsg, TokenQuery,
    ValidationError,
};

fn config(name: &str, symbol: &str, decimals: u8) -> TokenInitMsg {
    TokenInitMsg {
        name: name.to_string(),
        admin: None,
        symbol: symbol.to_string(),
        decimals,
        initial_balances: None,
        prng_seed: vec![1, 2, 3],
        init_hook: None,
        config: None,
        token_code_id: None,
        is_being_minted: None,
        is_voting_token: None,
    }
}

#[test]
fn name_length_boundaries() {
    assert_eq!(config(&"n".repeat(2), "AAA", 6).validate(), Err(ValidationError::InvalidName));
    assert_eq!(config(&"n".repeat(3), "AAA", 6).validate(), Ok(()));
    assert_eq!(config(&"n".repeat(50), "AAA", 6).validate(), Ok(()));
    assert_eq!(config(&"n".repeat(51), "AAA", 6).validate(), Err(ValidationError::InvalidName));
}

#[test]
fn name_length_counts_bytes() {
    // two characters, four bytes
    assert!(is_valid_name("éé"));
    assert!(!is_valid_name("é"));
    assert!(!is_valid_name(""));
}

#[test]
fn symbol_rules() {
    assert!(is_valid_symbol("AAA"));
    assert!(!is_valid_symbol("AA"));
    assert!(is_valid_symbol("aA-Z"));
    assert!(!is_valid_symbol("AA1"));
    assert!(!is_valid_symbol("ABCDEFGHIJKLM"));
    assert!(is_valid_symbol("ABCDEFGHIJKL"));
    assert!(!is_valid_symbol("AB C"));
    assert_eq!(config("MyToken", "AA1", 6).validate(), Err(ValidationError::InvalidSymbol));
}

#[test]
fn decimals_limit() {
    assert_eq!(config("MyToken", "MTK", 18).validate(), Ok(()));
    assert_eq!(config("MyToken", "MTK", 19).validate(), Err(ValidationError::DecimalsOutOfRange));
    assert_eq!(config("MyToken", "MTK", 255).validate(), Err(ValidationError::DecimalsOutOfRange));
}

#[test]
fn checks_run_in_order() {
    assert_eq!(config("ab", "1", 200).validate(), Err(ValidationError::InvalidName));
    assert_eq!(config("abc", "1", 200).validate(), Err(ValidationError::InvalidSymbol));
}

#[test]
fn my_token_is_valid() {
    assert_eq!(config("MyToken", "MTK", 6).validate(), Ok(()));
}

#[test]
fn new_fills_defaults() {
    let hook = InitHook {
        msg: vec![7],
        contract_addr: "voting".to_string(),
        code_hash: "hash".to_string(),
    };
    let msg = TokenInitMsg::new(
        "MyToken".to_string(),
        vec!["admin".to_string()],
        "MTK".to_string(),
        6,
        vec![9, 9],
        hook,
        Some(3),
        Some(true),
    );
    assert_eq!(msg.name, "MyToken");
    assert_eq!(msg.admin, Some(vec!["admin".to_string()]));
    assert_eq!(msg.symbol, "MTK");
    assert_eq!(msg.decimals, 6);
    assert!(msg.initial_balances.is_none());
    assert_eq!(msg.prng_seed, vec![9, 9]);
    assert_eq!(msg.init_hook.as_ref().map(|h| h.contract_addr.clone()), Some("voting".to_string()));
    assert_eq!(msg.config, Some(InitConfig { public_total_supply: Some(true) }));
    assert_eq!(msg.token_code_id, Some(3));
    assert_eq!(msg.is_being_minted, Some(true));
    assert_eq!(msg.is_voting_token, None);
    assert_eq!(msg.validate(), Ok(()));
}

#[test]
fn total_supply_defaults_to_secret() {
    assert!(!InitConfig::default().total_supply_is_public());
    assert!(!InitConfig { public_total_supply: Some(false) }.total_supply_is_public());
    assert!(InitConfig { public_total_supply: Some(true) }.total_supply_is_public());
}

#[test]
fn balances_query_needs_addresses() {
    let empty = TokenQuery::MultipleBalances {
        address: "me".to_string(),
        key: "k".to_string(),
        addresses: vec![],
    };
    assert!(!empty.is_well_formed());
    let one = TokenQuery::MultipleBalances {
        address: "me".to_string(),
        key: "k".to_string(),
        addresses: vec!["you".to_string()],
    };
    assert!(one.is_well_formed());
    assert!(TokenQuery::TokenInfo {}.is_well_formed());
}
