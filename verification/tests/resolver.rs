use cred_broker::cache::store_bytes;
use cred_broker::credentials::CachedCredentialRecord;
use cred_broker::credentials::ResolveError;
use cred_broker::credentials::Setting;
use cred_broker::resolver::Action;
use cred_broker::resolver::DirectMaterial;
use cred_broker::resolver::Event;
use cred_broker::resolver::Phase;
use cred_broker::resolver::RawAssumeResponse;
use cred_broker::resolver::step;
use cred_broker::resolver::ResolutionRequest;
use cred_broker::resolver::SESSION_DURATION_SECONDS;

fn request(role: bool, mfa: bool) -> ResolutionRequest {
    ResolutionRequest {
        region: Some(b"ap-northeast-1".to_vec()),
        role_identifier: if role { Some(b"arn:aws:iam::123456789012:role/reader".to_vec()) } else { None },
        mfa_device_identifier: if mfa { Some(b"arn:aws:iam::123456789012:mfa/dev".to_vec()) } else { None },
        session_name: b"my-session".to_vec(),
    }
}

fn cached(expiration: u64) -> CachedCredentialRecord {
    CachedCredentialRecord {
        access_key_id: b"ASIACACHED".to_vec(),
        secret_access_key: b"cachedsecret".to_vec(),
        session_token: b"cachedtoken".to_vec(),
        expiration,
    }
}

fn fresh_response() -> RawAssumeResponse {
    RawAssumeResponse {
        access_key_id: b"ASIAFRESH".to_vec(),
        secret_access_key: b"freshsecret".to_vec(),
        session_token: b"freshtoken".to_vec(),
        expiration: 1700003600,
    }
}

#[test]
fn test_missing_region_is_configuration_error() {
    let req = ResolutionRequest {
        region: None,
        role_identifier: None,
        mfa_device_identifier: None,
        session_name: b"my-session".to_vec(),
    };
    let (phase, action) = step(&req, Phase::Start, Event::Begin);
    assert_eq!(action, Action::Stop);
    assert_eq!(
        phase,
        Phase::Failed { error: ResolveError::Configuration { setting: Setting::Region } }
    );
}

// Scenario: no cache file, no role identifier: direct credentials come
// back and the dialogue never asks for a network exchange.
#[test]
fn test_direct_mode_returns_direct_credentials() {
    let req = request(false, false);
    let (phase, action) = step(&req, Phase::Start, Event::Begin);
    assert_eq!(phase, Phase::FetchingDirect);
    assert_eq!(action, Action::FetchDirect);
    let material = DirectMaterial {
        access_key_id: b"AKIADIRECT".to_vec(),
        secret_access_key: b"directsecret".to_vec(),
    };
    let (phase, action) = step(
        &req,
        phase,
        Event::DirectOutcome { outcome: Some(material) },
    );
    assert_eq!(action, Action::Stop);
    match phase {
        Phase::Done { credentials } => {
            assert_eq!(credentials.access_key_id, b"AKIADIRECT".to_vec());
            assert_eq!(credentials.secret_access_key, b"directsecret".to_vec());
            assert_eq!(credentials.session_token, None);
            assert_eq!(credentials.expiration, None);
        }
        other => panic!("expected success, got {other:?}"),
    }
}

#[test]
fn test_direct_mode_failed_chain_is_network_error() {
    let req = request(false, false);
    let (phase, _) = step(&req, Phase::Start, Event::Begin);
    let (phase, action) = step(&req, phase, Event::DirectOutcome { outcome: None });
    assert_eq!(action, Action::Stop);
    assert!(matches!(phase, Phase::Failed { error: ResolveError::Network { .. } }));
}

// Scenario: the cache holds a record expiring an hour from now: its
// fields come back verbatim and nothing else happens.
#[test]
fn test_valid_cache_short_circuits() {
    let req = request(true, true);
    let now: u64 = 1700000000;
    let rec = cached(now + 3600);
    let (phase, action) = step(&req, Phase::Start, Event::Begin);
    assert_eq!(phase, Phase::ReadingCache);
    assert_eq!(action, Action::ReadCache);
    let (phase, action) = step(
        &req,
        phase,
        Event::CacheContent { content: Some(store_bytes(&rec)), now },
    );
    assert_eq!(action, Action::Stop);
    match phase {
        Phase::Done { credentials } => {
            assert_eq!(credentials.access_key_id, rec.access_key_id);
            assert_eq!(credentials.secret_access_key, rec.secret_access_key);
            assert_eq!(credentials.session_token, Some(rec.session_token));
            assert_eq!(credentials.expiration, Some(rec.expiration));
        }
        other => panic!("expected success, got {other:?}"),
    }
}

// Scenario: the cached record expired one second ago and no second
// factor is configured: exactly one non-MFA role assumption runs and the
// cache is overwritten with the fresh record.
#[test]
fn test_expired_cache_assumes_without_mfa() {
    let req = request(true, false);
    let now: u64 = 1700000000;
    let stale = cached(now - 1);
    let (phase, _) = step(&req, Phase::Start, Event::Begin);
    let (phase, action) = step(
        &req,
        phase,
        Event::CacheContent { content: Some(store_bytes(&stale)), now },
    );
    assert_eq!(phase, Phase::Assuming { used_mfa: false });
    let params = match action {
        Action::AssumeRole { params } => params,
        other => panic!("expected a role assumption, got {other:?}"),
    };
    assert_eq!(params.role_identifier, b"arn:aws:iam::123456789012:role/reader".to_vec());
    assert_eq!(params.session_name, b"my-session".to_vec());
    assert_eq!(params.duration_seconds, SESSION_DURATION_SECONDS);
    assert_eq!(params.duration_seconds, 3600);
    assert!(params.mfa.is_none());

    let raw = fresh_response();
    let fresh = CachedCredentialRecord {
        access_key_id: raw.access_key_id.clone(),
        secret_access_key: raw.secret_access_key.clone(),
        session_token: raw.session_token.clone(),
        expiration: raw.expiration,
    };
    let (phase, action) = step(&req, phase, Event::AssumeOutcome { outcome: Ok(raw) });
    assert_eq!(phase, Phase::Storing { record: fresh.clone() });
    match action {
        Action::WriteCache { bytes } => assert_eq!(bytes, store_bytes(&fresh)),
        other => panic!("expected a cache write, got {other:?}"),
    }
    let (phase, action) = step(&req, phase, Event::StoreOutcome { ok: true });
    assert_eq!(action, Action::Stop);
    match phase {
        Phase::Done { credentials } => {
            assert_eq!(credentials.access_key_id, b"ASIAFRESH".to_vec());
            assert_eq!(credentials.session_token, Some(b"freshtoken".to_vec()));
            assert_eq!(credentials.expiration, Some(1700003600));
        }
        other => panic!("expected success, got {other:?}"),
    }
}

// Scenario: second-factor mode with a cache miss prompts once; a closed
// input stream fails the resolution before any network exchange.
#[test]
fn test_closed_prompt_is_input_error() {
    let req = request(true, true);
    let (phase, _) = step(&req, Phase::Start, Event::Begin);
    let (phase, action) = step(&req, phase, Event::CacheContent { content: None, now: 5 });
    assert_eq!(phase, Phase::Prompting);
    assert_eq!(action, Action::PromptForCode);
    let (phase, action) = step(&req, phase, Event::PromptLine { line: None });
    assert_eq!(action, Action::Stop);
    assert_eq!(phase, Phase::Failed { error: ResolveError::Input });
}

#[test]
fn test_prompted_code_reaches_mfa_params() {
    let req = request(true, true);
    let (phase, _) = step(&req, Phase::Start, Event::Begin);
    let (phase, action) = step(&req, phase, Event::CacheContent { content: None, now: 5 });
    assert_eq!(action, Action::PromptForCode);
    let (phase, action) = step(
        &req,
        phase,
        Event::PromptLine { line: Some(b"123456\n".to_vec()) },
    );
    assert_eq!(phase, Phase::Assuming { used_mfa: true });
    let params = match action {
        Action::AssumeRole { params } => params,
        other => panic!("expected a role assumption, got {other:?}"),
    };
    let mfa = params.mfa.expect("second factor must be presented");
    assert_eq!(mfa.serial, b"arn:aws:iam::123456789012:mfa/dev".to_vec());
    assert_eq!(mfa.code, b"123456".to_vec());
}

#[test]
fn test_blank_code_is_input_error() {
    let req = request(true, true);
    let (phase, _) = step(&req, Phase::Start, Event::Begin);
    let (phase, _) = step(&req, phase, Event::CacheContent { content: None, now: 5 });
    let (phase, action) = step(
        &req,
        phase,
        Event::PromptLine { line: Some(b"  \n".to_vec()) },
    );
    assert_eq!(action, Action::Stop);
    assert_eq!(phase, Phase::Failed { error: ResolveError::Input });
}

#[test]
fn test_rejected_exchange_is_network_error() {
    let req = request(true, false);
    let (phase, _) = step(&req, Phase::Start, Event::Begin);
    let (phase, _) = step(&req, phase, Event::CacheContent { content: None, now: 5 });
    let (phase, action) = step(
        &req,
        phase,
        Event::AssumeOutcome { outcome: Err(b"access denied".to_vec()) },
    );
    assert_eq!(action, Action::Stop);
    assert_eq!(
        phase,
        Phase::Failed { error: ResolveError::Network { detail: b"access denied".to_vec() } }
    );
}

#[test]
fn test_store_failure_is_swallowed() {
    let req = request(true, false);
    let (phase, _) = step(&req, Phase::Start, Event::Begin);
    let (phase, _) = step(&req, phase, Event::CacheContent { content: None, now: 5 });
    let (phase, _) = step(&req, phase, Event::AssumeOutcome { outcome: Ok(fresh_response()) });
    let (phase, action) = step(&req, phase, Event::StoreOutcome { ok: false });
    assert_eq!(action, Action::Stop);
    match phase {
        Phase::Done { credentials } => {
            assert_eq!(credentials.access_key_id, b"ASIAFRESH".to_vec());
        }
        other => panic!("expected success despite the failed write, got {other:?}"),
    }
}

#[test]
fn test_empty_response_material_is_network_error() {
    let req = request(true, false);
    let (phase, _) = step(&req, Phase::Start, Event::Begin);
    let (phase, _) = step(&req, phase, Event::CacheContent { content: None, now: 5 });
    let raw = RawAssumeResponse {
        access_key_id: Vec::new(),
        secret_access_key: b"s".to_vec(),
        session_token: b"t".to_vec(),
        expiration: 10,
    };
    let (phase, action) = step(&req, phase, Event::AssumeOutcome { outcome: Ok(raw) });
    assert_eq!(action, Action::Stop);
    assert!(matches!(phase, Phase::Failed { error: ResolveError::Network { .. } }));
}

#[test]
fn test_corrupt_cache_falls_through_to_assumption() {
    let req = request(true, false);
    let (phase, _) = step(&req, Phase::Start, Event::Begin);
    let (phase, action) = step(
        &req,
        phase,
        Event::CacheContent { content: Some(b"corrupt{{".to_vec()), now: 5 },
    );
    assert_eq!(phase, Phase::Assuming { used_mfa: false });
    assert!(matches!(action, Action::AssumeRole { .. }));
}
