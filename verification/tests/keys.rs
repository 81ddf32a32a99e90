use rss_saved_queue::auth::{
    account_or_unauthorized, bearer, feed_account_or_missing, issue_key, key_hash_from_header,
    random_token, to_lower_hex, token_from_bytes, token_hash,
};
use rss_saved_queue::error::AppError;

#[test]
fn token_hash_is_lower_hex_sha256() {
    assert_eq!(token_hash("abc"), "ba7816bf8f01cfea414140de5dae2223b00361a396177a9cb410ff61f20015ad");
    assert_eq!(token_hash(""), "e3b0c44298fc1c149afbf4c8996fb92427ae41e4649b934ca495991b7852b855");
    assert_eq!(to_lower_hex(&[0x00, 0x0f, 0xa0, 0xff]), "000fa0ff");
}

#[test]
fn random_tokens_are_43_url_safe_characters_and_differ() {
    let a = random_token().unwrap();
    let b = random_token().unwrap();
    assert_eq!(a.len(), 43);
    assert!(a.chars().all(|c| c.is_ascii_alphanumeric() || c == '-' || c == '_'));
    assert_ne!(a, b);
    assert_eq!(issue_key().unwrap().token.len(), 43);
}

#[test]
fn issued_key_is_stored_by_its_hash() {
    let key = issue_key().unwrap();
    assert_eq!(key.hash, token_hash(&key.token));
    assert_ne!(key.hash, key.token);
}

#[test]
fn bearer_reads_the_key() {
    assert_eq!(bearer(Some("Bearer abc")).unwrap(), "abc");
    for header in [None, Some("Bearer "), Some("bearer abc"), Some("Basic abc"), Some("")] {
        match bearer(header) {
            Err(AppError::Unauthorized(m)) => assert_eq!(m, "Sign in on this device to access your private queue."),
            other => panic!("{other:?}"),
        }
    }
}

#[test]
fn header_gives_the_hash_to_look_up() {
    assert_eq!(key_hash_from_header(Some("Bearer abc")).unwrap(), token_hash("abc"));
    assert!(matches!(key_hash_from_header(None), Err(AppError::Unauthorized(_))));
}

#[test]
fn lookups_without_an_account_are_refused() {
    assert_eq!(account_or_unauthorized(Some(4)).unwrap(), 4);
    match account_or_unauthorized(None) {
        Err(AppError::Unauthorized(m)) => assert_eq!(m, "This device key is no longer active."),
        other => panic!("{other:?}"),
    }
    assert_eq!(feed_account_or_missing(Some(9)).unwrap(), 9);
    match feed_account_or_missing(None) {
        Err(AppError::Missing(m)) => assert_eq!(m, "This private feed link is unavailable."),
        other => panic!("{other:?}"),
    }
}

#[test]
fn issued_key_presented_as_bearer_finds_the_stored_hash() {
    let key = issue_key().unwrap();
    let header = format!("Bearer {}", key.token);
    assert_eq!(bearer(Some(&header)).unwrap(), key.token);
    assert_eq!(key_hash_from_header(Some(&header)).unwrap(), key.hash);
}

#[test]
fn issued_tokens_use_only_the_url_safe_alphabet() {
    for _ in 0..20 {
        let key = issue_key().unwrap();
        assert_eq!(key.token.chars().count(), 43);
        assert!(key.token.chars().all(|c| c.is_ascii_alphanumeric() || c == '-' || c == '_'));
    }
}

#[test]
fn tokens_are_url_safe_base64_of_the_bytes() {
    assert_eq!(token_from_bytes(Some(vec![0xfb, 0xff])).unwrap(), "-_8");
    assert_eq!(token_from_bytes(Some(b"hello".to_vec())).unwrap(), "aGVsbG8");
    assert_eq!(token_from_bytes(Some(vec![0; 32])).unwrap(), "A".repeat(43));
    assert_eq!(token_from_bytes(Some(vec![])).unwrap(), "");
    match token_from_bytes(None) {
        Err(AppError::Internal(m)) => assert_eq!(m, "A new key could not be made. Please try again."),
        other => panic!("{other:?}"),
    }
}
