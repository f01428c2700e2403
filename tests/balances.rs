use cargo_common::balances::{Balance, Balances, DecodeError, BALANCES};
use cargo_common::tokens::TokenInitMsg;

fn entry(account: &str, amount: u128) -> Balance {
    Balance { account: account.to_string(), amount }
}

fn pairs(l: &Balances) -> Vec<(String, u128)> {
    l.0.iter().map(|b| (b.account.clone(), b.amount)).collect()
}

#[test]
fn storage_key() {
    assert_eq!(BALANCES, "balances");
}

#[test]
fn empty_ledger_round_trip() {
    let bytes = Balances(vec![]).to_binary();
    assert_eq!(bytes, vec![0u8; 8]);
    assert!(matches!(Balances::try_from_binary(&[]), Err(DecodeError)));
    let back = Balances::try_from_binary(&bytes).unwrap();
    assert!(back.0.is_empty());
}

#[test]
fn single_entry_round_trip() {
    let bytes = Balances(vec![entry("addr1", 1000)]).to_binary();
    let back = Balances::try_from_binary(&bytes).unwrap();
    assert_eq!(back.0.len(), 1);
    assert_eq!(back.0[0].account, "addr1");
    assert_eq!(back.0[0].amount, 1000);
}

#[test]
fn entry_layout() {
    let bytes = Balances(vec![entry("addr1", 1000)]).to_binary();
    let mut expected = vec![1, 0, 0, 0, 0, 0, 0, 0];
    expected.extend_from_slice(&[5, 0, 0, 0, 0, 0, 0, 0]);
    expected.extend_from_slice(b"addr1");
    expected.extend_from_slice(&[0xe8, 0x03]);
    expected.extend_from_slice(&[0; 14]);
    assert_eq!(bytes, expected);
}

#[test]
fn order_and_duplicates_kept() {
    let ledger = Balances(vec![
        entry("b", u128::MAX),
        entry("a", 0),
        entry("b", 5),
        entry("", 1),
        entry("añ€😀", 42),
    ]);
    let bytes = ledger.to_binary();
    assert_eq!(bytes, ledger.to_binary());
    let back = Balances::try_from_binary(&bytes).unwrap();
    assert_eq!(pairs(&back), pairs(&ledger));
}

#[test]
fn truncated_bytes_are_rejected() {
    let bytes = Balances(vec![entry("addr1", 1000), entry("addr2", 2)]).to_binary();
    for cut in 0..bytes.len() {
        assert!(matches!(Balances::try_from_binary(&bytes[..cut]), Err(DecodeError)));
    }
}

#[test]
fn trailing_bytes_are_rejected() {
    let mut bytes = Balances(vec![entry("addr1", 1000)]).to_binary();
    bytes.push(0);
    assert!(matches!(Balances::try_from_binary(&bytes), Err(DecodeError)));
}

#[test]
fn appended_entry_is_rejected() {
    let one = Balances(vec![entry("addr1", 1000)]).to_binary();
    let two = Balances(vec![entry("addr1", 1000), entry("addr2", 2)]).to_binary();
    // the second entry's bytes, appended after a whole encoding
    let second = &two[one.len()..];
    let mut empty_then_entry = Balances(vec![]).to_binary();
    empty_then_entry.extend_from_slice(second);
    assert!(matches!(Balances::try_from_binary(&empty_then_entry), Err(DecodeError)));
    let mut one_then_entry = one.clone();
    one_then_entry.extend_from_slice(second);
    assert!(matches!(Balances::try_from_binary(&one_then_entry), Err(DecodeError)));
}

#[test]
fn count_must_match_entries() {
    let mut bytes = Balances(vec![entry("addr1", 1000)]).to_binary();
    bytes[0] = 2;
    assert!(matches!(Balances::try_from_binary(&bytes), Err(DecodeError)));
    bytes[0] = 0;
    assert!(matches!(Balances::try_from_binary(&bytes), Err(DecodeError)));
}

#[test]
fn oversized_length_is_rejected() {
    let mut bytes = Balances(vec![entry("addr1", 1000)]).to_binary();
    bytes[8] = 6;
    assert!(matches!(Balances::try_from_binary(&bytes), Err(DecodeError)));
    bytes[8] = 0xff;
    bytes[15] = 0xff;
    assert!(matches!(Balances::try_from_binary(&bytes), Err(DecodeError)));
}

#[test]
fn invalid_utf8_is_rejected() {
    let mut bytes = Balances(vec![entry("addr1", 1000)]).to_binary();
    bytes[16] = 0xff;
    assert!(matches!(Balances::try_from_binary(&bytes), Err(DecodeError)));
}

#[test]
fn mutated_bytes_never_decode_to_another_encoding() {
    let bytes = Balances(vec![entry("addr1", 1000), entry("xy", 3)]).to_binary();
    for i in 0..bytes.len() {
        for delta in [1u8, 0x80] {
            let mut m = bytes.clone();
            m[i] = m[i].wrapping_add(delta);
            if let Ok(l) = Balances::try_from_binary(&m) {
                assert_eq!(l.to_binary(), m);
            }
        }
    }
}

#[test]
fn token_setup_end_to_end() {
    let msg = TokenInitMsg {
        name: "MyToken".to_string(),
        admin: None,
        symbol: "MTK".to_string(),
        decimals: 6,
        initial_balances: None,
        prng_seed: vec![0],
        init_hook: None,
        config: None,
        token_code_id: None,
        is_being_minted: None,
        is_voting_token: None,
    };
    assert_eq!(msg.validate(), Ok(()));
    let empty = Balances::try_from_binary(&Balances(vec![]).to_binary()).unwrap();
    assert!(empty.0.is_empty());
    let one = Balances::try_from_binary(&Balances(vec![entry("addr1", 1000)]).to_binary()).unwrap();
    assert_eq!(pairs(&one), vec![("addr1".to_string(), 1000)]);
}
