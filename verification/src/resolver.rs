//! The credential resolver.
//!
//! Resolution is a short dialogue between this decision core and a
//! driver that owns all outside effects.  The core hands the driver an
//! [`Action`]; the driver performs it (read the cache file, prompt the
//! operator, perform the role-assumption exchange, write the cache) and
//! reports what happened as an [`Event`]; `step` then decides the next
//! phase and action.  The dialogue starts in [`Phase::Start`] with
//! [`Event::Begin`] and is over when the action is [`Action::Stop`],
//! which happens exactly when the phase is `Done` or `Failed`.

use vstd::prelude::*;

use crate::cache;
use crate::codec::spec_encode;
use crate::credentials::CachedCredentialRecord;
use crate::credentials::CredentialSet;
use crate::credentials::RecordView;
use crate::credentials::ResolveError;
use crate::credentials::Setting;
use crate::credentials::assumed_credentials;
use crate::credentials::direct_credentials;
use crate::prompt;

verus! {

/// The configuration bundle read once per resolution attempt.  Optional
/// values model settings that may be absent: a missing role identifier
/// selects direct credentials, a present second-factor device identifier
/// selects the interactive sub-mode.
#[derive(Clone, Debug, PartialEq, Eq)]
pub struct ResolutionRequest {
    /// Target region; required for every path.
    pub region: Option<Vec<u8>>,
    /// Identifier of the role to assume; presence switches on
    /// role-assumption mode.
    pub role_identifier: Option<Vec<u8>>,
    /// Serial of the second-factor device; presence switches on the
    /// interactive prompt.
    pub mfa_device_identifier: Option<Vec<u8>>,
    /// Label for the assumed session.
    pub session_name: Vec<u8>,
}

/// Temporary credentials are requested for exactly one hour.
pub const SESSION_DURATION_SECONDS: u32 = 3600;

/// The second factor presented with a role-assumption request.
#[derive(Clone, Debug, PartialEq, Eq)]
pub struct MfaChallenge {
    pub serial: Vec<u8>,
    pub code: Vec<u8>,
}

/// Everything the single role-assumption exchange needs.
#[derive(Clone, Debug, PartialEq, Eq)]
pub struct AssumeRoleParams {
    pub role_identifier: Vec<u8>,
    pub session_name: Vec<u8>,
    pub duration_seconds: u32,
    pub mfa: Option<MfaChallenge>,
}

/// The plain material of a successful role-assumption response, with the
/// remote expiry already normalized to seconds since the epoch.
#[derive(Clone, Debug, PartialEq, Eq)]
pub struct RawAssumeResponse {
    pub access_key_id: Vec<u8>,
    pub secret_access_key: Vec<u8>,
    pub session_token: Vec<u8>,
    pub expiration: u64,
}

impl View for RawAssumeResponse {
    type V = RecordView;

    open spec fn view(&self) -> RecordView {
        RecordView {
            access_key_id: self.access_key_id@,
            secret_access_key: self.secret_access_key@,
            session_token: self.session_token@,
            expiration: self.expiration,
        }
    }
}

/// The plain material the external default provider chain hands back for
/// the direct path.
#[derive(Clone, Debug, PartialEq, Eq)]
pub struct DirectMaterial {
    pub access_key_id: Vec<u8>,
    pub secret_access_key: Vec<u8>,
}

/// Where a resolution stands between two outside interactions.
#[derive(Debug, PartialEq, Eq)]
pub enum Phase {
    /// Nothing has happened yet.
    Start,
    /// Waiting for the cache file's content.
    ReadingCache,
    /// Waiting for the operator's one-time code.
    Prompting,
    /// Waiting for the outcome of the role-assumption exchange;
    /// `used_mfa` records which sub-mode was taken.
    Assuming { used_mfa: bool },
    /// Waiting for the outcome of the best-effort cache write.
    Storing { record: CachedCredentialRecord },
    /// Waiting for the default provider chain's direct credentials.
    FetchingDirect,
    /// Resolution succeeded.
    Done { credentials: CredentialSet },
    /// Resolution failed.
    Failed { error: ResolveError },
}

/// What the driver reports back after performing the pending action.
#[derive(Debug, PartialEq, Eq)]
pub enum Event {
    /// Starts the dialogue.
    Begin,
    /// The cache file's bytes, or `None` when it is absent or unreadable,
    /// together with the clock reading for the freshness comparison.
    CacheContent { content: Option<Vec<u8>>, now: u64 },
    /// The operator's raw line, or `None` when the input stream is
    /// closed or unreadable.
    PromptLine { line: Option<Vec<u8>> },
    /// The role-assumption outcome; the error side carries the remote
    /// rejection reason when one is available.
    AssumeOutcome { outcome: Result<RawAssumeResponse, Vec<u8>> },
    /// Whether the best-effort cache write succeeded.
    StoreOutcome { ok: bool },
    /// The default provider chain's material, or `None` when the chain
    /// produced nothing usable.
    DirectOutcome { outcome: Option<DirectMaterial> },
}

/// What the driver must do next.
#[derive(Debug, PartialEq, Eq)]
pub enum Action {
    /// Read the cache file and report its content and the current time.
    ReadCache,
    /// Prompt the operator for the one-time code, echo disabled, and
    /// report the line read.
    PromptForCode,
    /// Perform the single role-assumption exchange.
    AssumeRole { params: AssumeRoleParams },
    /// Replace the cache file's content with these bytes, best effort.
    WriteCache { bytes: Vec<u8> },
    /// Obtain direct credentials from the default provider chain.
    FetchDirect,
    /// The dialogue is over; the phase holds the result.
    Stop,
}

/// Which event answers the pending action of a phase.  Terminal phases
/// expect nothing: no event continues a finished resolution.
pub open spec fn expects(phase: Phase, event: Event) -> bool {
    match (phase, event) {
        (Phase::Start, Event::Begin) => true,
        (Phase::ReadingCache, Event::CacheContent { .. }) => true,
        (Phase::Prompting, Event::PromptLine { .. }) => true,
        (Phase::Assuming { .. }, Event::AssumeOutcome { .. }) => true,
        (Phase::Storing { .. }, Event::StoreOutcome { .. }) => true,
        (Phase::FetchingDirect, Event::DirectOutcome { .. }) => true,
        _ => false,
    }
}

/// Which phases can stand for the given request: every non-terminal
/// phase past `Start` presupposes the mode the request selected, and
/// carried values are well formed.
pub open spec fn phase_wf(req: ResolutionRequest, phase: Phase) -> bool {
    match phase {
        Phase::Start => true,
        Phase::ReadingCache => req.region is Some && req.role_identifier is Some,
        Phase::Prompting => req.region is Some && req.role_identifier is Some
            && req.mfa_device_identifier is Some,
        Phase::Assuming { .. } => req.region is Some && req.role_identifier is Some,
        Phase::Storing { record } => req.region is Some && req.role_identifier is Some
            && record.wf(),
        Phase::FetchingDirect => req.region is Some && req.role_identifier is None,
        Phase::Done { credentials } => credentials.wf(),
        Phase::Failed { .. } => true,
    }
}

/// The parameters of the exchange are exactly what the request and the
/// optional one-time code dictate: the requested role, the configured
/// session label, the fixed one-hour duration, and the second factor
/// exactly when a code was obtained.
pub open spec fn params_for(p: AssumeRoleParams, req: ResolutionRequest, code: Option<Seq<u8>>) -> bool {
    &&& req.role_identifier matches Some(role) && p.role_identifier@ == role@
    &&& p.session_name@ == req.session_name@
    &&& p.duration_seconds == SESSION_DURATION_SECONDS
    &&& match code {
        None => p.mfa is None,
        Some(c) => p.mfa matches Some(m) && m.code@ == c
            && (req.mfa_device_identifier matches Some(serial) && m.serial@ == serial@),
    }
}

/// `c` is the credential set carrying role-assumed material `v`.
pub open spec fn is_assumed_from(c: CredentialSet, v: RecordView) -> bool {
    &&& c.access_key_id@ == v.access_key_id
    &&& c.secret_access_key@ == v.secret_access_key
    &&& c.session_token matches Some(t) && t@ == v.session_token
    &&& c.expiration == Some(v.expiration)
}

/// `c` is the credential set carrying direct material `m`: no session
/// token, no locally tracked expiry.
pub open spec fn is_direct_from(c: CredentialSet, m: DirectMaterial) -> bool {
    &&& c.access_key_id@ == m.access_key_id@
    &&& c.secret_access_key@ == m.secret_access_key@
    &&& c.session_token is None
    &&& c.expiration is None
}

/// The whole decision tree: what phase and action follow a phase and the
/// event answering it.  This relation is the resolver's contract; `step`
/// is proved to realize it.
pub open spec fn transition(
    req: ResolutionRequest,
    phase: Phase,
    event: Event,
    next: Phase,
    action: Action,
) -> bool {
    match (phase, event) {
        (Phase::Start, Event::Begin) => {
            if req.region is None {
                &&& next == (Phase::Failed {
                    error: ResolveError::Configuration { setting: Setting::Region },
                })
                &&& action == Action::Stop
            } else if req.role_identifier is None {
                next == Phase::FetchingDirect && action == Action::FetchDirect
            } else {
                next == Phase::ReadingCache && action == Action::ReadCache
            }
        },
        (Phase::ReadingCache, Event::CacheContent { content, now }) => {
            match cache::spec_load(cache::spec_content(content), now) {
                Some(v) => {
                    &&& next matches Phase::Done { credentials } && is_assumed_from(
                        credentials,
                        v,
                    )
                    &&& action == Action::Stop
                },
                None => {
                    if req.mfa_device_identifier is Some {
                        next == Phase::Prompting && action == Action::PromptForCode
                    } else {
                        &&& next == (Phase::Assuming { used_mfa: false })
                        &&& action matches Action::AssumeRole { params } && params_for(
                            params,
                            req,
                            None,
                        )
                    }
                },
            }
        },
        (Phase::Prompting, Event::PromptLine { line }) => {
            match prompt::spec_code_of_line(prompt::spec_line(line)) {
                None => next == (Phase::Failed { error: ResolveError::Input }) && action
                    == Action::Stop,
                Some(code) => {
                    &&& next == (Phase::Assuming { used_mfa: true })
                    &&& action matches Action::AssumeRole { params } && params_for(
                        params,
                        req,
                        Some(code),
                    )
                },
            }
        },
        (Phase::Assuming { .. }, Event::AssumeOutcome { outcome }) => {
            match outcome {
                Err(detail) => {
                    &&& next matches Phase::Failed { error } && error matches
                        ResolveError::Network { detail: d } && d@ == detail@
                    &&& action == Action::Stop
                },
                Ok(raw) => {
                    if raw@.wf() {
                        &&& next matches Phase::Storing { record } && record@ == raw@
                        &&& action matches Action::WriteCache { bytes } && bytes@ == spec_encode(
                            raw@,
                        )
                    } else {
                        &&& next matches Phase::Failed { error } && error matches
                            ResolveError::Network { detail: d } && d@ == Seq::<u8>::empty()
                        &&& action == Action::Stop
                    }
                },
            }
        },
        (Phase::Storing { record }, Event::StoreOutcome { .. }) => {
            // Deliberately independent of the write's success: a cache
            // persistence failure never fails the resolution.
            &&& next matches Phase::Done { credentials } && is_assumed_from(credentials, record@)
            &&& action == Action::Stop
        },
        (Phase::FetchingDirect, Event::DirectOutcome { outcome }) => {
            match outcome {
                None => {
                    &&& next matches Phase::Failed { error } && error matches
                        ResolveError::Network { detail: d } && d@ == Seq::<u8>::empty()
                    &&& action == Action::Stop
                },
                Some(m) => {
                    if m.access_key_id@.len() > 0 && m.secret_access_key@.len() > 0 {
                        &&& next matches Phase::Done { credentials } && is_direct_from(
                            credentials,
                            m,
                        )
                        &&& action == Action::Stop
                    } else {
                        &&& next matches Phase::Failed { error } && error matches
                            ResolveError::Network { detail: d } && d@ == Seq::<u8>::empty()
                        &&& action == Action::Stop
                    }
                },
            }
        },
        _ => false,
    }
}

/// Byte-for-byte copy used to assemble owned parameter values from the
/// borrowed request.
fn copy_bytes(v: &Vec<u8>) -> (out: Vec<u8>)
    ensures
        out@ == v@,
{
    let mut out: Vec<u8> = Vec::new();
    let mut k: usize = 0;
    while k < v.len()
        invariant
            k <= v@.len(),
            out@ == v@.take(k as int),
        decreases v@.len() - k,
    {
        out.push(v[k]);
        proof {
            assert(v@.take(k as int).push(v@[k as int]) =~= v@.take(k as int + 1));
        }
        k = k + 1;
    }
    proof {
        assert(v@.take(v@.len() as int) =~= v@);
    }
    out
}

/// Builds the exchange parameters for the requested role.
fn build_params(req: &ResolutionRequest, code: Option<Vec<u8>>) -> (p: AssumeRoleParams)
    requires
        req.role_identifier is Some,
        code is Some ==> req.mfa_device_identifier is Some,
    ensures
        params_for(
            p,
            *req,
            match code {
                Some(c) => Some(c@),
                None => None,
            },
        ),
{
    let role_identifier = match &req.role_identifier {
        Some(role) => copy_bytes(role),
        None => Vec::new(),
    };
    let session_name = copy_bytes(&req.session_name);
    let mfa = match code {
        None => None,
        Some(c) => {
            let serial = match &req.mfa_device_identifier {
                Some(serial) => copy_bytes(serial),
                None => Vec::new(),
            };
            Some(MfaChallenge { serial, code: c })
        },
    };
    AssumeRoleParams {
        role_identifier,
        session_name,
        duration_seconds: SESSION_DURATION_SECONDS,
        mfa,
    }
}

/// One turn of the resolution dialogue: consumes the event answering the
/// phase's pending action and decides what happens next.  The action is
/// `Stop` exactly when the new phase is terminal, and a `Done` phase
/// always carries a well-formed credential set.
pub fn step(req: &ResolutionRequest, phase: Phase, event: Event) -> (r: (Phase, Action))
    requires
        expects(phase, event),
        phase_wf(*req, phase),
    ensures
        transition(*req, phase, event, r.0, r.1),
        phase_wf(*req, r.0),
        r.1 is Stop <==> (r.0 is Done || r.0 is Failed),
{
    match (phase, event) {
        (Phase::Start, Event::Begin) => {
            if req.region.is_none() {
                (
                    Phase::Failed {
                        error: ResolveError::Configuration { setting: Setting::Region },
                    },
                    Action::Stop,
                )
            } else if req.role_identifier.is_none() {
                (Phase::FetchingDirect, Action::FetchDirect)
            } else {
                (Phase::ReadingCache, Action::ReadCache)
            }
        },
        (Phase::ReadingCache, Event::CacheContent { content, now }) => {
            match cache::load(content, now) {
                Some(rec) => {
                    let credentials = assumed_credentials(rec);
                    (Phase::Done { credentials }, Action::Stop)
                },
                None => {
                    if req.mfa_device_identifier.is_some() {
                        (Phase::Prompting, Action::PromptForCode)
                    } else {
                        let params = build_params(req, None);
                        (Phase::Assuming { used_mfa: false }, Action::AssumeRole { params })
                    }
                },
            }
        },
        (Phase::Prompting, Event::PromptLine { line }) => {
            match prompt::code_of_line(line) {
                None => (Phase::Failed { error: ResolveError::Input }, Action::Stop),
                Some(code) => {
                    let params = build_params(req, Some(code));
                    (Phase::Assuming { used_mfa: true }, Action::AssumeRole { params })
                },
            }
        },
        (Phase::Assuming { .. }, Event::AssumeOutcome { outcome }) => {
            match outcome {
                Err(detail) => (
                    Phase::Failed { error: ResolveError::Network { detail } },
                    Action::Stop,
                ),
                Ok(raw) => {
                    if raw.access_key_id.len() > 0 && raw.secret_access_key.len() > 0
                        && raw.session_token.len() > 0 {
                        let record = CachedCredentialRecord {
                            access_key_id: raw.access_key_id,
                            secret_access_key: raw.secret_access_key,
                            session_token: raw.session_token,
                            expiration: raw.expiration,
                        };
                        let bytes = cache::store_bytes(&record);
                        (Phase::Storing { record }, Action::WriteCache { bytes })
                    } else {
                        (
                            Phase::Failed {
                                error: ResolveError::Network { detail: Vec::new() },
                            },
                            Action::Stop,
                        )
                    }
                },
            }
        },
        (Phase::Storing { record }, Event::StoreOutcome { .. }) => {
            let credentials = assumed_credentials(record);
            (Phase::Done { credentials }, Action::Stop)
        },
        (Phase::FetchingDirect, Event::DirectOutcome { outcome }) => {
            match outcome {
                None => (
                    Phase::Failed { error: ResolveError::Network { detail: Vec::new() } },
                    Action::Stop,
                ),
                Some(m) => {
                    if m.access_key_id.len() > 0 && m.secret_access_key.len() > 0 {
                        let credentials = direct_credentials(m.access_key_id, m.secret_access_key);
                        (Phase::Done { credentials }, Action::Stop)
                    } else {
                        (
                            Phase::Failed {
                                error: ResolveError::Network { detail: Vec::new() },
                            },
                            Action::Stop,
                        )
                    }
                },
            }
        },
        _ => {
            // Unreachable under the precondition: no other pairing is
            // expected.
            proof {
                assert(false);
            }
            (Phase::Failed { error: ResolveError::Input }, Action::Stop)
        },
    }
}

// --- laws ------------------------------------------------------------------

/// A transition preserves phase validity.
pub proof fn lemma_transition_preserves_wf(
    req: ResolutionRequest,
    phase: Phase,
    event: Event,
    next: Phase,
    action: Action,
)
    requires
        phase_wf(req, phase),
        transition(req, phase, event, next, action),
    ensures
        phase_wf(req, next),
{
}

/// What each phase, and each action, can follow from.  The relation
/// never re-enters `Start`, never leaves a terminal phase, and ties
/// every action to the one phase pair that issues it.
pub proof fn lemma_transition_inversion(
    req: ResolutionRequest,
    phase: Phase,
    event: Event,
    next: Phase,
    action: Action,
)
    requires
        transition(req, phase, event, next, action),
    ensures
        !(phase is Done),
        !(phase is Failed),
        !(next is Start),
        next is ReadingCache ==> phase is Start,
        next is Prompting ==> phase is ReadingCache && action is PromptForCode,
        next is Assuming ==> phase is ReadingCache || phase is Prompting,
        next is Storing ==> phase is Assuming,
        action is ReadCache ==> phase is Start && next is ReadingCache,
        action is PromptForCode ==> phase is ReadingCache && next is Prompting,
        action is AssumeRole ==> next is Assuming && (phase is ReadingCache || phase is Prompting),
        (action matches Action::AssumeRole { params } && params.mfa is Some) ==> phase
            is Prompting,
        (action matches Action::AssumeRole { params } && params.mfa is None) ==> phase
            is ReadingCache,
        action is WriteCache ==> phase is Assuming && next is Storing,
        action is FetchDirect ==> phase is Start && next is FetchingDirect,
        next is Done ==> phase is ReadingCache || phase is Storing || phase is FetchingDirect,
{
}

/// With no role identifier in the request, no single transition reads
/// the cache, prompts, assumes a role or writes the cache.
pub proof fn lemma_direct_mode_step(
    req: ResolutionRequest,
    phase: Phase,
    event: Event,
    next: Phase,
    action: Action,
)
    requires
        phase_wf(req, phase),
        req.role_identifier is None,
        transition(req, phase, event, next, action),
    ensures
        !(action is ReadCache),
        !(action is PromptForCode),
        !(action is AssumeRole),
        !(action is WriteCache),
{
}

/// A cache miss in second-factor mode prompts the operator, and only
/// then assumes the role.
pub proof fn lemma_miss_with_mfa_prompts(
    req: ResolutionRequest,
    content: Option<Vec<u8>>,
    now: u64,
    next: Phase,
    action: Action,
)
    requires
        req.mfa_device_identifier is Some,
        cache::spec_load(cache::spec_content(content), now) is None,
        transition(req, Phase::ReadingCache, Event::CacheContent { content, now }, next, action),
    ensures
        next is Prompting,
        action is PromptForCode,
{
}

/// A failed cache write is swallowed: from `Storing` the resolution
/// succeeds with the same material whether or not the write worked.
pub proof fn lemma_store_failure_swallowed(
    req: ResolutionRequest,
    record: CachedCredentialRecord,
    ok: bool,
    next: Phase,
    action: Action,
)
    requires
        transition(req, Phase::Storing { record }, Event::StoreOutcome { ok }, next, action),
    ensures
        next matches Phase::Done { credentials } && is_assumed_from(credentials, record@),
        action is Stop,
{
}

// --- laws over whole runs --------------------------------------------------

/// The phase a run is in just before its `i`-th step.
pub open spec fn run_prev(tr: Seq<(Event, Phase, Action)>, i: int) -> Phase {
    if i == 0 {
        Phase::Start
    } else {
        tr[i - 1].1
    }
}

/// One complete or partial resolution dialogue: step `i` consumes event
/// `tr[i].0` in the phase before it and yields phase `tr[i].1` and
/// action `tr[i].2`, always answering the pending action.
pub open spec fn is_run(req: ResolutionRequest, tr: Seq<(Event, Phase, Action)>) -> bool {
    forall|i: int| #![trigger tr[i]]
        0 <= i < tr.len() ==> expects(run_prev(tr, i), tr[i].0) && transition(
            req,
            run_prev(tr, i),
            tr[i].0,
            tr[i].1,
            tr[i].2,
        )
}

/// Every phase of a run is valid for the request.
pub proof fn lemma_run_wf(req: ResolutionRequest, tr: Seq<(Event, Phase, Action)>, i: int)
    requires
        is_run(req, tr),
        0 <= i < tr.len(),
    ensures
        phase_wf(req, run_prev(tr, i)),
        phase_wf(req, tr[i].1),
    decreases i,
{
    if i == 0 {
        lemma_transition_preserves_wf(req, Phase::Start, tr[0].0, tr[0].1, tr[0].2);
    } else {
        lemma_run_wf(req, tr, i - 1);
        lemma_transition_preserves_wf(req, tr[i - 1].1, tr[i].0, tr[i].1, tr[i].2);
    }
}

/// Each phase and each side-effecting action can occur only at a fixed
/// position near the start of a run: the dialogue is that short.
pub proof fn lemma_run_positions(req: ResolutionRequest, tr: Seq<(Event, Phase, Action)>, i: int)
    requires
        is_run(req, tr),
        0 <= i < tr.len(),
    ensures
        tr[i].1 is ReadingCache ==> i == 0,
        tr[i].1 is Prompting ==> i == 1,
        tr[i].1 is Assuming ==> i == 1 || i == 2,
        tr[i].1 is Storing ==> i == 2 || i == 3,
        tr[i].2 is ReadCache ==> i == 0,
        tr[i].2 is PromptForCode ==> i == 1,
        (tr[i].2 matches Action::AssumeRole { params } && params.mfa is Some) ==> i == 2,
        (tr[i].2 matches Action::AssumeRole { params } && params.mfa is None) ==> i == 1,
        tr[i].2 is AssumeRole ==> i == 1 || i == 2,
        tr[i].2 is WriteCache ==> i == 2 || i == 3,
    decreases i,
{
    lemma_transition_inversion(req, run_prev(tr, i), tr[i].0, tr[i].1, tr[i].2);
    if i > 0 {
        lemma_run_positions(req, tr, i - 1);
        lemma_transition_inversion(req, run_prev(tr, i - 1), tr[i - 1].0, tr[i - 1].1, tr[i - 1].2);
    }
}

/// Nothing follows a terminal phase: a run ends right after reaching
/// `Done` or `Failed`.
pub proof fn lemma_run_stops_when_terminal(
    req: ResolutionRequest,
    tr: Seq<(Event, Phase, Action)>,
    i: int,
)
    requires
        is_run(req, tr),
        0 <= i < tr.len(),
        tr[i].1 is Done || tr[i].1 is Failed,
    ensures
        tr.len() == i + 1,
{
    if i + 1 < tr.len() {
        assert(expects(run_prev(tr, i + 1), tr[i + 1].0));
        assert(false);
    }
}

/// With no role identifier, a whole run never reads the cache, never
/// prompts, never assumes a role and never writes the cache.
pub proof fn lemma_direct_mode_never_assumes(
    req: ResolutionRequest,
    tr: Seq<(Event, Phase, Action)>,
)
    requires
        is_run(req, tr),
        req.role_identifier is None,
    ensures
        forall|i: int| #![trigger tr[i]]
            0 <= i < tr.len() ==> !(tr[i].2 is ReadCache) && !(tr[i].2 is PromptForCode) && !(
            tr[i].2 is AssumeRole) && !(tr[i].2 is WriteCache),
{
    assert forall|i: int| #![trigger tr[i]] 0 <= i < tr.len() implies !(tr[i].2 is ReadCache) && !(
    tr[i].2 is PromptForCode) && !(tr[i].2 is AssumeRole) && !(tr[i].2 is WriteCache) by {
        lemma_run_wf(req, tr, i);
        lemma_direct_mode_step(req, run_prev(tr, i), tr[i].0, tr[i].1, tr[i].2);
    }
}

/// A valid cache hit ends the run at once: the cached material comes
/// back as the result, and no role assumption happens anywhere in the
/// run.
pub proof fn lemma_cache_hit_short_circuit(
    req: ResolutionRequest,
    tr: Seq<(Event, Phase, Action)>,
    i: int,
    v: RecordView,
)
    requires
        is_run(req, tr),
        0 <= i < tr.len(),
        run_prev(tr, i) is ReadingCache,
        tr[i].0 matches Event::CacheContent { content, now } && cache::spec_load(
            cache::spec_content(content),
            now,
        ) == Some(v),
    ensures
        tr[i].1 matches Phase::Done { credentials } && is_assumed_from(credentials, v),
        tr[i].2 is Stop,
        tr.len() == i + 1,
        forall|j: int| #![trigger tr[j]] 0 <= j < tr.len() ==> !(tr[j].2 is AssumeRole),
{
    lemma_run_stops_when_terminal(req, tr, i);
    assert forall|j: int| #![trigger tr[j]] 0 <= j < tr.len() implies !(tr[j].2 is AssumeRole) by {
        lemma_run_positions(req, tr, j);
        if tr[j].2 is AssumeRole {
            lemma_transition_inversion(req, run_prev(tr, j), tr[j].0, tr[j].1, tr[j].2);
        }
    }
}

/// In second-factor mode, a role assumption is always the MFA sub-mode
/// reached through exactly one prompt, which happens immediately before
/// it.
pub proof fn lemma_prompt_once_before_mfa_assume(
    req: ResolutionRequest,
    tr: Seq<(Event, Phase, Action)>,
    i: int,
)
    requires
        is_run(req, tr),
        0 <= i < tr.len(),
        tr[i].2 matches Action::AssumeRole { params } && params.mfa is Some,
    ensures
        i == 2,
        tr[1].2 is PromptForCode,
        forall|j: int| #![trigger tr[j]]
            0 <= j < tr.len() && j != 1 ==> !(tr[j].2 is PromptForCode),
{
    lemma_run_positions(req, tr, i);
    lemma_transition_inversion(req, run_prev(tr, i), tr[i].0, tr[i].1, tr[i].2);
    lemma_transition_inversion(req, run_prev(tr, 1), tr[1].0, tr[1].1, tr[1].2);
    assert forall|j: int| #![trigger tr[j]] 0 <= j < tr.len() && j != 1 implies !(tr[j].2
        is PromptForCode) by {
        lemma_run_positions(req, tr, j);
    }
}

/// A successful resolution carries a session token exactly when the
/// request selected role-assumption mode: assumed credentials always
/// have one, direct credentials never do.
pub proof fn lemma_token_iff_role_mode(
    req: ResolutionRequest,
    tr: Seq<(Event, Phase, Action)>,
    i: int,
)
    requires
        is_run(req, tr),
        0 <= i < tr.len(),
        tr[i].1 is Done,
    ensures
        tr[i].1 matches Phase::Done { credentials } && (credentials.session_token is Some
            <==> req.role_identifier is Some),
{
    lemma_run_wf(req, tr, i);
    lemma_transition_inversion(req, run_prev(tr, i), tr[i].0, tr[i].1, tr[i].2);
}

/// The side-effect budget: per run at most one cache read, one prompt,
/// one role assumption and one cache write.
pub proof fn lemma_side_effect_budget(
    req: ResolutionRequest,
    tr: Seq<(Event, Phase, Action)>,
    i: int,
    j: int,
)
    requires
        is_run(req, tr),
        0 <= i < j < tr.len(),
    ensures
        !(tr[i].2 is ReadCache && tr[j].2 is ReadCache),
        !(tr[i].2 is PromptForCode && tr[j].2 is PromptForCode),
        !(tr[i].2 is AssumeRole && tr[j].2 is AssumeRole),
        !(tr[i].2 is WriteCache && tr[j].2 is WriteCache),
{
    lemma_run_positions(req, tr, i);
    lemma_run_positions(req, tr, j);
    lemma_transition_inversion(req, run_prev(tr, i), tr[i].0, tr[i].1, tr[i].2);
    lemma_transition_inversion(req, run_prev(tr, j), tr[j].0, tr[j].1, tr[j].2);
}

} // verus!
