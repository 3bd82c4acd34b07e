use mv_core::blind_text::{blind_join, derive_search_key, token_blind, tokenize, SEARCH_KEY_LABEL};
use mv_core::crypto::envelope::MasterKey;

fn expected_blind(key: &[u8; 32], token: &str) -> String {
    let mut data = b"mv.search_key.v1.token".to_vec();
    data.push(0);
    data.extend_from_slice(token.as_bytes());
    let h = blake3::keyed_hash(key, &data);
    hex::encode(&h.as_bytes()[..16])
}

#[test]
fn derive_is_deterministic_per_master_key() {
    let mk1 = MasterKey::from_bytes([7u8; 32]);
    let mk2 = MasterKey::from_bytes([7u8; 32]);
    let mk3 = MasterKey::from_bytes([8u8; 32]);
    assert_eq!(derive_search_key(&mk1), derive_search_key(&mk2));
    assert_ne!(derive_search_key(&mk1), derive_search_key(&mk3));
}

#[test]
fn search_key_is_blake3_derive_key_of_master_key() {
    let mk = MasterKey::from_bytes([7u8; 32]);
    assert_eq!(SEARCH_KEY_LABEL, "mv.search_key.v1");
    assert_eq!(derive_search_key(&mk), blake3::derive_key("mv.search_key.v1", &[7u8; 32]));
    assert_ne!(derive_search_key(&mk), [7u8; 32]);
}

#[test]
fn tokenize_normalises_and_dedupes() {
    let t = tokenize("Hello, HELLO world! hello");
    assert_eq!(t, vec!["hello".to_string(), "world".to_string()]);
}

#[test]
fn tokenize_strips_punctuation_and_keeps_digits() {
    let t = tokenize("Lens-85mm f/1.4");
    // digits and letters kept; `-`, `/`, `.` are separators
    assert!(t.contains(&"lens".to_string()));
    assert!(t.contains(&"85mm".to_string()));
    assert!(t.contains(&"f".to_string()));
    assert!(t.contains(&"1".to_string()));
    assert!(t.contains(&"4".to_string()));
}

#[test]
fn tokenize_sorts_and_handles_unicode_and_empty_input() {
    assert_eq!(tokenize("zeta Alpha beta"), vec!["alpha", "beta", "zeta"]);
    assert_eq!(tokenize("Ärger ÄRGER"), vec!["ärger"]);
    assert!(tokenize("").is_empty());
    assert!(tokenize(" ,.;- ").is_empty());
}

#[test]
fn token_blind_is_deterministic_and_key_dependent() {
    let k1 = [0u8; 32];
    let k2 = [1u8; 32];
    assert_eq!(token_blind(&k1, "hello"), token_blind(&k1, "hello"));
    assert_ne!(token_blind(&k1, "hello"), token_blind(&k2, "hello"));
    assert_ne!(token_blind(&k1, "hello"), token_blind(&k1, "world"));
    // 32-char lowercase hex
    assert_eq!(token_blind(&k1, "hello").len(), 32);
    assert!(token_blind(&k1, "hello").chars().all(|c| c.is_ascii_hexdigit()));
}

#[test]
fn token_blind_is_truncated_keyed_blake3() {
    let k = [3u8; 32];
    assert_eq!(token_blind(&k, "sunset"), expected_blind(&k, "sunset"));
    assert_eq!(token_blind(&k, ""), expected_blind(&k, ""));
}

#[test]
fn blind_join_separates_with_spaces() {
    let k = [5u8; 32];
    let tokens = vec!["a".to_string(), "b".to_string()];
    let joined = blind_join(&k, &tokens);
    assert_eq!(joined, format!("{} {}", expected_blind(&k, "a"), expected_blind(&k, "b")));
    assert_eq!(blind_join(&k, &Vec::new()), "");
}
