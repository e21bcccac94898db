use vstd::prelude::*;

verus! {

/// A required setting that the resolver can find missing from a request.
#[derive(Clone, Copy, Debug, PartialEq, Eq, Structural)]
pub enum Setting {
    Region,
}

/// Why a resolution attempt failed.  A cache-persistence failure is not
/// here: the resolver deliberately swallows it.
#[derive(Clone, Debug, PartialEq, Eq)]
pub enum ResolveError {
    /// A required setting was absent from the request.
    Configuration { setting: Setting },
    /// The role-assumption exchange was rejected or unreachable; the
    /// detail carries the remote rejection reason when one is available.
    Network { detail: Vec<u8> },
    /// The operator's one-time code could not be read.
    Input,
}

/// Resolved secret material, ready for the client-construction step.
///
/// Field values are UTF-8 bytes; the surrounding binary converts them to
/// whatever string type its transport wants.
#[derive(Clone, Debug, PartialEq, Eq)]
pub struct CredentialSet {
    pub access_key_id: Vec<u8>,
    pub secret_access_key: Vec<u8>,
    /// Present exactly when the credentials came from role assumption.
    pub session_token: Option<Vec<u8>>,
    /// Seconds since the epoch; absent for direct credentials, whose
    /// lifetime the external provider chain manages.
    pub expiration: Option<u64>,
}

impl CredentialSet {
    /// Access identifier and secret are non-empty, and a session token is
    /// carried exactly together with an expiry.
    pub open spec fn wf(self) -> bool {
        &&& self.access_key_id@.len() > 0
        &&& self.secret_access_key@.len() > 0
        &&& (self.session_token is Some <==> self.expiration is Some)
    }
}

/// The mathematical content of a cached record.
#[verifier::ext_equal]
pub ghost struct RecordView {
    pub access_key_id: Seq<u8>,
    pub secret_access_key: Seq<u8>,
    pub session_token: Seq<u8>,
    pub expiration: u64,
}

impl RecordView {
    pub open spec fn wf(self) -> bool {
        &&& self.access_key_id.len() > 0
        &&& self.secret_access_key.len() > 0
        &&& self.session_token.len() > 0
    }
}

/// The durable snapshot of a previously produced role-assumed credential
/// set: the same secret material plus a mandatory expiry.  It is always
/// written whole and never edited in place.
#[derive(Clone, Debug, PartialEq, Eq)]
pub struct CachedCredentialRecord {
    pub access_key_id: Vec<u8>,
    pub secret_access_key: Vec<u8>,
    pub session_token: Vec<u8>,
    /// Seconds since the epoch.
    pub expiration: u64,
}

impl View for CachedCredentialRecord {
    type V = RecordView;

    open spec fn view(&self) -> RecordView {
        RecordView {
            access_key_id: self.access_key_id@,
            secret_access_key: self.secret_access_key@,
            session_token: self.session_token@,
            expiration: self.expiration,
        }
    }
}

impl CachedCredentialRecord {
    pub open spec fn wf(self) -> bool {
        self@.wf()
    }

    /// A record is usable at time `now` exactly when its expiry lies
    /// strictly in the future.
    pub open spec fn fresh_at(self, now: u64) -> bool {
        self.expiration > now
    }
}

/// Wraps role-assumed secret material as a full credential set.
pub fn assumed_credentials(record: CachedCredentialRecord) -> (c: CredentialSet)
    ensures
        c.access_key_id@ == record@.access_key_id,
        c.secret_access_key@ == record@.secret_access_key,
        c.session_token matches Some(t) && t@ == record@.session_token,
        c.expiration == Some(record.expiration),
        record.wf() ==> c.wf(),
{
    CredentialSet {
        access_key_id: record.access_key_id,
        secret_access_key: record.secret_access_key,
        session_token: Some(record.session_token),
        expiration: Some(record.expiration),
    }
}

/// Wraps material from the external default provider chain as a direct
/// credential set: no session token, no locally tracked expiry.
pub fn direct_credentials(access_key_id: Vec<u8>, secret_access_key: Vec<u8>) -> (c: CredentialSet)
    ensures
        c.access_key_id@ == access_key_id@,
        c.secret_access_key@ == secret_access_key@,
        c.session_token is None,
        c.expiration is None,
        access_key_id@.len() > 0 && secret_access_key@.len() > 0 ==> c.wf(),
{
    CredentialSet {
        access_key_id,
        secret_access_key,
        session_token: None,
        expiration: None,
    }
}

} // verus!
