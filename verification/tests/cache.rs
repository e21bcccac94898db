use cred_broker::cache::load;
use cred_broker::cache::store_bytes;
use cred_broker::credentials::CachedCredentialRecord;

fn record(expiration: u64) -> CachedCredentialRecord {
    CachedCredentialRecord {
        access_key_id: b"AKIAEXAMPLE".to_vec(),
        secret_access_key: b"s3cr3t".to_vec(),
        session_token: b"token".to_vec(),
        expiration,
    }
}

#[test]
fn test_load_returns_fresh_record_unchanged() {
    let now: u64 = 1700000000;
    let rec = record(now + 3600);
    let loaded = load(Some(store_bytes(&rec)), now).expect("a fresh record must load");
    assert_eq!(loaded, rec);
}

#[test]
fn test_load_rejects_expired_record() {
    let now: u64 = 1700000000;
    // Expiry exactly at `now` counts as expired: the comparison is strict.
    assert!(load(Some(store_bytes(&record(now))), now).is_none());
    assert!(load(Some(store_bytes(&record(now - 1))), now).is_none());
}

#[test]
fn test_load_boundary_one_second_ahead() {
    let now: u64 = 1700000000;
    let rec = record(now + 1);
    let loaded = load(Some(store_bytes(&rec)), now).expect("one second ahead is still fresh");
    assert_eq!(loaded, rec);
}

#[test]
fn test_load_absent_content() {
    assert!(load(None, 0).is_none());
}

#[test]
fn test_load_malformed_content() {
    let now: u64 = 0;
    for text in ["", "{", "garbage", "{\"access_key_id\":\"a\"", "[1,2,3]"] {
        assert!(load(Some(text.as_bytes().to_vec()), now).is_none(), "accepted: {text}");
    }
    // Truncated encoding of a real record.
    let mut bytes = store_bytes(&record(10));
    bytes.pop();
    assert!(load(Some(bytes), 0).is_none());
}

#[test]
fn test_load_rejects_empty_secret_material() {
    // Syntactically valid content whose record lacks a secret is not a
    // usable cache.
    let text = "{\"access_key_id\":\"a\",\"secret_access_key\":\"\",\"session_token\":\"t\",\"expiration\":99}";
    assert!(load(Some(text.as_bytes().to_vec()), 0).is_none());
}

#[test]
fn test_store_bytes_exact() {
    let bytes = store_bytes(&record(42));
    let expected = "{\"access_key_id\":\"AKIAEXAMPLE\",\"secret_access_key\":\"s3cr3t\",\"session_token\":\"token\",\"expiration\":42}";
    assert_eq!(bytes, expected.as_bytes().to_vec());
}
