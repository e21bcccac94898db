use cred_broker::codec::encode_record;
use cred_broker::codec::parse_record;
use cred_broker::credentials::CachedCredentialRecord;

fn sample_record() -> CachedCredentialRecord {
    CachedCredentialRecord {
        access_key_id: b"AKIAEXAMPLE".to_vec(),
        secret_access_key: b"s3cr3t".to_vec(),
        session_token: b"tok/abc+def=".to_vec(),
        expiration: 1700000000,
    }
}

#[test]
fn test_encode_exact_bytes() {
    let bytes = encode_record(&sample_record());
    let expected = "{\"access_key_id\":\"AKIAEXAMPLE\",\"secret_access_key\":\"s3cr3t\",\"session_token\":\"tok/abc+def=\",\"expiration\":1700000000}";
    assert_eq!(bytes, expected.as_bytes().to_vec());
}

#[test]
fn test_round_trip_plain() {
    let rec = sample_record();
    let parsed = parse_record(&encode_record(&rec)).expect("an encoding must parse");
    assert_eq!(parsed, rec);
}

#[test]
fn test_round_trip_escaped() {
    let rec = CachedCredentialRecord {
        access_key_id: b"a\"b".to_vec(),
        secret_access_key: b"c\\d".to_vec(),
        session_token: b"\"\\".to_vec(),
        expiration: 1,
    };
    let bytes = encode_record(&rec);
    let expected = "{\"access_key_id\":\"a\\\"b\",\"secret_access_key\":\"c\\\\d\",\"session_token\":\"\\\"\\\\\",\"expiration\":1}";
    assert_eq!(bytes, expected.as_bytes().to_vec());
    let parsed = parse_record(&bytes).expect("an encoding must parse");
    assert_eq!(parsed, rec);
}

#[test]
fn test_round_trip_extreme_expirations() {
    for exp in [0u64, 9, 10, 1234567890123456789, u64::MAX] {
        let rec = CachedCredentialRecord {
            access_key_id: b"k".to_vec(),
            secret_access_key: b"s".to_vec(),
            session_token: b"t".to_vec(),
            expiration: exp,
        };
        let parsed = parse_record(&encode_record(&rec)).expect("an encoding must parse");
        assert_eq!(parsed, rec);
    }
}

#[test]
fn test_parse_rejects_truncated() {
    let bytes = encode_record(&sample_record());
    for cut in [0, 1, 10, bytes.len() - 1] {
        let truncated = bytes[..cut].to_vec();
        assert!(parse_record(&truncated).is_none());
    }
}

#[test]
fn test_parse_rejects_wrong_shape() {
    let cases: &[&str] = &[
        "",
        "{}",
        "not json at all",
        "{\"access_key_id\":\"a\"}",
        // fields in another order
        "{\"secret_access_key\":\"s\",\"access_key_id\":\"a\",\"session_token\":\"t\",\"expiration\":1}",
        // whitespace the canonical form never carries
        "{ \"access_key_id\":\"a\",\"secret_access_key\":\"s\",\"session_token\":\"t\",\"expiration\":1}",
        // leading zero in the timestamp
        "{\"access_key_id\":\"a\",\"secret_access_key\":\"s\",\"session_token\":\"t\",\"expiration\":01}",
        // timestamp beyond u64
        "{\"access_key_id\":\"a\",\"secret_access_key\":\"s\",\"session_token\":\"t\",\"expiration\":99999999999999999999}",
        // missing timestamp
        "{\"access_key_id\":\"a\",\"secret_access_key\":\"s\",\"session_token\":\"t\",\"expiration\":}",
        // stray escape
        "{\"access_key_id\":\"a\\x\",\"secret_access_key\":\"s\",\"session_token\":\"t\",\"expiration\":1}",
        // trailing bytes
        "{\"access_key_id\":\"a\",\"secret_access_key\":\"s\",\"session_token\":\"t\",\"expiration\":1} ",
    ];
    for case in cases {
        assert!(parse_record(&case.as_bytes().to_vec()).is_none(), "accepted: {case}");
    }
}

#[test]
fn test_parse_accepts_exact_canonical_form() {
    let text = "{\"access_key_id\":\"a\",\"secret_access_key\":\"s\",\"session_token\":\"t\",\"expiration\":0}";
    let parsed = parse_record(&text.as_bytes().to_vec()).expect("canonical form must parse");
    assert_eq!(parsed.access_key_id, b"a".to_vec());
    assert_eq!(parsed.secret_access_key, b"s".to_vec());
    assert_eq!(parsed.session_token, b"t".to_vec());
    assert_eq!(parsed.expiration, 0);
}
