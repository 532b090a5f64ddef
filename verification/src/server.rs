//! The decisions of the three HTTP routes: authentication order, status codes,
//! error categories, persistence and what each answer carries. The executable
//! decodes requests, encodes replies and signs them with `sign_reply`.

use vstd::prelude::*;
use vstd::string::{StrSliceExecFns, StringExecFns};

use crate::auth::{
    sign_response, spec_response_tag, spec_verify, AuthError, AuthenticatedRequest, Authenticator,
    AuthenticatorView, NONCE_LENGTH,
};
use crate::crypto::{
    hex_decode, spec_chacha20poly1305_seal, spec_hex_decode, spec_hkdf_sha256, spec_hmac_sha256, spec_uuid_text,
    uuid_text,
};
use crate::decimal::std_parse_u64;
use crate::http::{is_protobuf, parse_u64, spec_is_protobuf};
use crate::pairing::{
    alive, code_alive, committed, completed_index, confirmation_message, credential_info, failure_count,
    failure_recorded, host_exchange,
    pending_index, pending_inserted, pruned, spake2_message_accepted, spec_credential_aad, start_refused,
    CredentialContext, PairingCode, PairingCodeView, PairingError, PairingResultView, PendingView, SourceAddress,
    MAX_CONFIRMATION_FAILURES,
};
use crate::power::{PowerController, PowerError};
use crate::protocol::{
    ErrorCode, ErrorReason, ErrorResponse, PairRequest, PairResponse, ShutdownRequest, ShutdownResponse,
    StatusRequest, StatusResponse,
};
use crate::storage::{
    option_text, recent_shutdown_nonces, shutdown_nonce_seen, AcceptedShutdownNonce, CredentialStore,
    HostIdentity, HostIdentityView, StoreError,
};
use crate::versioning::{compare, spec_compare, spec_parse_version, VersionRelation};
use crate::{HOST_VERSION, PROTOCOL_VERSION};

verus! {

/// The three routes of the host protocol.
#[derive(Debug, Clone, Copy, PartialEq, Eq, Structural)]
pub enum Route {
    Status,
    Pair,
    Shutdown,
}

pub open spec fn route_path(route: Route) -> Seq<char> {
    match route {
        Route::Status => "/v1/status"@,
        Route::Pair => "/v1/pair"@,
        Route::Shutdown => "/v1/shutdown"@,
    }
}

impl Route {
    pub fn path(&self) -> (path: &'static str)
        ensures
            path@ == route_path(*self),
    {
        match self {
            Route::Status => "/v1/status",
            Route::Pair => "/v1/pair",
            Route::Shutdown => "/v1/shutdown",
        }
    }
}

/// The header values a route reads, each present only when it is valid text.
pub struct RequestHeaders {
    pub content_type: Option<String>,
    pub timestamp: Option<String>,
    pub nonce: Option<String>,
    pub signature: Option<String>,
}

/// The credential and request nonce that an authenticated reply is signed
/// with.
pub struct AuthenticationContext {
    pub credential: [u8; 32],
    pub nonce: [u8; 16],
}

pub enum ReplyBody {
    Status(StatusResponse),
    Pair(PairResponse),
    Shutdown(ShutdownResponse),
    Error(ErrorResponse),
}

/// A route's answer: HTTP status, body, and, for an authenticated request,
/// what its response signature is made with.
pub struct Reply {
    pub status: u16,
    pub body: ReplyBody,
    pub authentication: Option<AuthenticationContext>,
}

/// The running host.
pub struct AppState<S: CredentialStore, P: PowerController> {
    pub identity: HostIdentity,
    pub pairing: PairingCode,
    pub authenticator: Authenticator,
    pub power: P,
    pub store: S,
    pub hostname: String,
    pub latest_client_version: Option<String>,
    /// Every identity handed to the store, in order, with what the store
    /// answered.
    pub saves: Ghost<SaveLog>,
    /// Every shutdown request made of the power controller, in order, with
    /// whether the controller accepted it.
    pub power_requests: Ghost<Seq<bool>>,
}

/// Identities handed to the store, in order, each with what the store
/// answered.
pub type SaveLog = Seq<(HostIdentityView, Result<(), StoreError>)>;

/// One more identity was handed to the store, and the store saved it exactly
/// when `saved`.
pub open spec fn one_save(before: SaveLog, after: SaveLog, identity: HostIdentityView, saved: bool) -> bool {
    if saved {
        after == before.push((identity, Ok(())))
    } else {
        after == before.push((identity, after.last().1)) && after.last().1 is Err
    }
}

/// Hands `identity` to the store and records the attempt and its outcome.
pub(crate) fn save_recorded<S: CredentialStore>(
    store: &S,
    saves: &mut Ghost<SaveLog>,
    identity: &HostIdentity,
) -> (r: Result<(), StoreError>)
    ensures
        final(saves)@ == old(saves)@.push((identity@, r)),
        r is Ok ==> final(saves)@ == old(saves)@.push((identity@, Ok(()))),
{
    match store.save(identity) {
        Ok(()) => {
            *saves = Ghost(saves@.push((identity@, Ok(()))));
            Ok(())
        },
        Err(error) => {
            *saves = Ghost(saves@.push((identity@, Err(error))));
            Err(error)
        },
    }
}

/// Asks the power controller to shut the machine down and records the
/// request and its outcome.
fn shutdown_recorded<P: PowerController>(power: &mut P, requests: &mut Ghost<Seq<bool>>) -> (r: Result<
    (),
    PowerError,
>)
    ensures
        final(requests)@ == old(requests)@.push(r is Ok),
{
    let r = power.shutdown();
    *requests = Ghost(requests@.push(r is Ok));
    r
}

pub open spec fn header_u64(h: Option<String>) -> Option<u64> {
    match h {
        Some(s) => std_parse_u64(s@),
        None => None,
    }
}

pub open spec fn header_bytes(h: Option<String>) -> Option<Seq<u8>> {
    match h {
        Some(s) => spec_hex_decode(s@),
        None => None,
    }
}

/// What authentication answers before any state is persisted, and the
/// verifier memory afterwards: header parsing, the paired credential, the
/// verifier, and, for shutdown, the persisted replay window.
pub open spec fn spec_authentication(
    identity: HostIdentityView,
    auth: AuthenticatorView,
    headers: RequestHeaders,
    route: Route,
    body: Seq<u8>,
    now: u64,
) -> (Result<(Seq<u8>, Seq<u8>), AuthError>, AuthenticatorView) {
    match (header_u64(headers.timestamp), header_bytes(headers.nonce), header_bytes(headers.signature)) {
        (Some(timestamp), Some(nonce), Some(signature)) => match identity.credential {
            None => (Err(AuthError::Invalid), auth),
            Some(credential) => {
                let (verdict, after) = spec_verify(
                    auth,
                    credential,
                    timestamp,
                    nonce,
                    signature,
                    "POST"@,
                    route_path(route),
                    body,
                    now,
                );
                match verdict {
                    Err(e) => (Err(e), after),
                    Ok(()) => if nonce.len() != NONCE_LENGTH {
                        (Err(AuthError::Malformed), after)
                    } else if route == Route::Shutdown && shutdown_nonce_seen(
                        recent_shutdown_nonces(identity.accepted_shutdown_nonces, now),
                        nonce,
                    ) {
                        (Err(AuthError::Replay), after)
                    } else {
                        (Ok((credential, nonce)), after)
                    },
                }
            },
        },
        _ => (Err(AuthError::Malformed), auth),
    }
}

/// Whether a shutdown request passed every check before its nonce is saved:
/// only then is the identity with the nonce added handed to the store, and
/// the request is accepted exactly when the store saved it.
pub open spec fn shutdown_accepted_before_saving(
    identity: HostIdentityView,
    auth: AuthenticatorView,
    headers: RequestHeaders,
    route: Route,
    body: Seq<u8>,
    now: u64,
) -> bool {
    route == Route::Shutdown && spec_authentication(identity, auth, headers, route, body, now).0 is Ok
}

/// Whether authentication reached the persisted shutdown replay window.
pub open spec fn reaches_shutdown_window(
    identity: HostIdentityView,
    auth: AuthenticatorView,
    headers: RequestHeaders,
    body: Seq<u8>,
    now: u64,
) -> bool {
    match (header_u64(headers.timestamp), header_bytes(headers.nonce), header_bytes(headers.signature)) {
        (Some(timestamp), Some(nonce), Some(signature)) => match identity.credential {
            None => false,
            Some(credential) => spec_verify(
                auth,
                credential,
                timestamp,
                nonce,
                signature,
                "POST"@,
                route_path(Route::Shutdown),
                body,
                now,
            ).0 is Ok && nonce.len() == NONCE_LENGTH,
        },
        _ => false,
    }
}

/// The identity after authenticating a shutdown request that reached the
/// replay window: expired nonces are forgotten and, when the request was
/// accepted and saved, its nonce is added.
pub open spec fn identity_after_shutdown_window(
    identity: HostIdentityView,
    headers: RequestHeaders,
    now: u64,
    accepted: bool,
) -> HostIdentityView {
    let kept = recent_shutdown_nonces(identity.accepted_shutdown_nonces, now);
    HostIdentityView {
        accepted_shutdown_nonces: if accepted {
            kept.push((header_u64(headers.timestamp)->Some_0, header_bytes(headers.nonce)->Some_0))
        } else {
            kept
        },
        ..identity
    }
}

/// Status, category and reason of the answer to a failed authentication.
pub open spec fn unauthorized_status(reason: AuthError) -> u16 {
    if reason == AuthError::Persistence {
        500
    } else if reason == AuthError::RateLimited {
        429
    } else if reason == AuthError::Replay {
        409
    } else {
        401
    }
}

pub open spec fn unauthorized_error(reason: AuthError) -> ErrorResponse {
    if reason == AuthError::Persistence {
        ErrorResponse { code: ErrorCode::Unspecified, reason: ErrorReason::AuthenticationNotSaved }
    } else if reason == AuthError::RateLimited {
        ErrorResponse { code: ErrorCode::RateLimited, reason: ErrorReason::AuthenticationRateLimited }
    } else {
        ErrorResponse { code: ErrorCode::Unauthorized, reason: ErrorReason::AuthenticationFailed }
    }
}

pub open spec fn is_error_reply(r: Reply, status: u16, error: ErrorResponse) -> bool {
    &&& r.status == status
    &&& r.body matches ReplyBody::Error(e) && e == error
}

pub open spec fn is_unauthorized_reply(r: Reply, reason: AuthError) -> bool {
    is_error_reply(r, unauthorized_status(reason), unauthorized_error(reason)) && r.authentication is None
}

pub open spec fn signed_with(r: Reply, credential: Seq<u8>, nonce: Seq<u8>) -> bool {
    &&& r.authentication matches Some(a) && a.credential@ == credential && a.nonce@ == nonce
}

/// The answer to an authenticated request whose body fails a check before
/// the route's own work, or `None` when the body passes.
pub open spec fn body_rejection(content_type: Option<String>, decoded: bool, protocol_version: u32) -> Option<(u16, ErrorResponse)> {
    if !spec_is_protobuf(option_text(content_type)) {
        Some((415, ErrorResponse { code: ErrorCode::MalformedRequest, reason: ErrorReason::WrongContentType }))
    } else if !decoded {
        Some((400, ErrorResponse { code: ErrorCode::MalformedRequest, reason: ErrorReason::MalformedProtobuf }))
    } else if protocol_version != PROTOCOL_VERSION {
        Some((426, ErrorResponse { code: ErrorCode::ProtocolMismatch, reason: ErrorReason::ProtocolMismatch }))
    } else {
        None
    }
}

/// The version memory after an authenticated request reports `version`:
/// only strict release versions are recorded.
pub open spec fn latest_after(latest: Option<Seq<char>>, version: Seq<char>) -> Option<Seq<char>> {
    if spec_compare(version, HOST_VERSION@) == VersionRelation::Unknown {
        latest
    } else {
        Some(version)
    }
}

/// What recording a reported plugin version does: the in-memory version
/// follows `latest_after`; a strict release version that is neither the one
/// in memory nor the stored one is handed to the store with the identity, and
/// the identity takes it exactly when the store saved it; otherwise nothing
/// is saved and the identity is unchanged.
pub open spec fn version_recorded(
    identity: HostIdentityView,
    latest: Option<Seq<char>>,
    saves: SaveLog,
    identity_after: HostIdentityView,
    latest_now: Option<Seq<char>>,
    saves_after: SaveLog,
    version: Seq<char>,
) -> bool {
    let updated = HostIdentityView { last_client_version: Some(version), ..identity };
    &&& latest_now == latest_after(latest, version)
    &&& if spec_compare(version, HOST_VERSION@) != VersionRelation::Unknown && latest != Some(version)
        && identity.last_client_version != Some(version) {
        &&& saves_after.len() == saves.len() + 1
        &&& saves_after == saves.push((updated, saves_after.last().1))
        &&& identity_after == if saves_after.last().1 is Ok {
            updated
        } else {
            identity
        }
    } else {
        saves_after == saves && identity_after == identity
    }
}

/// Status and error of a refused pairing step.
pub open spec fn pairing_failure(e: PairingError) -> (u16, ErrorResponse) {
    match e {
        PairingError::Expired => (
            410,
            ErrorResponse { code: ErrorCode::PairingExpired, reason: ErrorReason::PairingExpired },
        ),
        PairingError::RateLimited => (
            429,
            ErrorResponse { code: ErrorCode::RateLimited, reason: ErrorReason::PairingRateLimited },
        ),
        _ => (401, ErrorResponse { code: ErrorCode::Unauthorized, reason: ErrorReason::PairingFailed }),
    }
}

pub open spec fn is_pairing_failure(r: Reply, e: PairingError) -> bool {
    is_error_reply(r, pairing_failure(e).0, pairing_failure(e).1) && r.authentication is None
}

/// The associated data that binds a credential issued by this host.
pub open spec fn host_credential_aad(
    host_message: Seq<u8>,
    session_id: Seq<u8>,
    hostname: Seq<char>,
    host_id: u128,
) -> Option<Seq<u8>> {
    spec_credential_aad(
        host_message,
        session_id,
        vstd::utf8::encode_utf8(hostname),
        vstd::utf8::encode_utf8(HOST_VERSION@),
        PROTOCOL_VERSION,
        vstd::utf8::encode_utf8(spec_uuid_text(host_id)),
    )
}

/// A pairing answer: the exchange values and this host's metadata.
pub open spec fn is_pair_body(
    b: PairResponse,
    host_message: Seq<u8>,
    nonce: Seq<u8>,
    encrypted: Seq<u8>,
    session_id: Seq<u8>,
    hostname: Seq<char>,
    host_id: u128,
) -> bool {
    &&& b.host_spake2_message@ == host_message
    &&& b.encryption_nonce@ == nonce
    &&& b.encrypted_credential@ == encrypted
    &&& b.hostname@ == hostname
    &&& b.host_version@ == HOST_VERSION@
    &&& b.protocol_version == PROTOCOL_VERSION
    &&& b.host_id@ == spec_uuid_text(host_id)
    &&& b.session_id@ == session_id
}

pub open spec fn is_pair_reply(
    r: Reply,
    host_message: Seq<u8>,
    nonce: Seq<u8>,
    encrypted: Seq<u8>,
    session_id: Seq<u8>,
    hostname: Seq<char>,
    host_id: u128,
) -> bool {
    &&& r.status == 200
    &&& r.authentication is None
    &&& r.body matches ReplyBody::Pair(b) && is_pair_body(b, host_message, nonce, encrypted, session_id, hostname, host_id)
}

/// The identity once a credential is issued: paired, code retired, replay
/// window emptied.
pub open spec fn identity_paired(identity: HostIdentityView, credential: Seq<u8>) -> HostIdentityView {
    HostIdentityView {
        credential: Some(credential),
        pairing_code: None,
        pairing_created_at: 0,
        accepted_shutdown_nonces: Seq::empty(),
        ..identity
    }
}

/// Whether the host answers a pairing start with `AlreadyPaired`: it holds a
/// credential and no pending code.
pub open spec fn already_paired(identity: HostIdentityView) -> bool {
    identity.credential is Some && identity.pairing_code is None
}

/// The answer and pairing state of a pairing start at `now` (ms).
pub open spec fn pair_start_outcome(
    old_pairing: PairingCodeView,
    new_pairing: PairingCodeView,
    r: Reply,
    client_message: Seq<u8>,
    source: Option<SourceAddress>,
    now: u64,
    hostname: Seq<char>,
    host_id: u128,
) -> bool {
    if !code_alive(old_pairing, now) {
        is_pairing_failure(r, PairingError::Expired) && new_pairing == (PairingCodeView { spent: true, ..old_pairing })
    } else {
        let p = pruned(old_pairing, now);
        if start_refused(p, source) {
            is_pairing_failure(r, PairingError::RateLimited) && new_pairing == p
        } else if !spake2_message_accepted(client_message) {
            is_pairing_failure(r, PairingError::Invalid) && new_pairing == p
        } else {
            &&& r.status == 200
            &&& r.authentication is None
            &&& r.body matches ReplyBody::Pair(b) && {
                &&& is_pair_body(b, b.host_spake2_message@, Seq::empty(), Seq::empty(), b.session_id@, hostname, host_id)
                &&& b.host_spake2_message@.len() == 33
                &&& b.session_id@.len() == 16
                &&& exists|y: Seq<u8>|
                    b.host_spake2_message@ == #[trigger] host_exchange(p.code, client_message, y).0 && host_exchange(p.code, client_message, y).1.len() == 32
                    && new_pairing == PairingCodeView {
                        pending: pending_inserted(
                            p.pending,
                            PendingView {
                                session_id: b.session_id@,
                                shared: host_exchange(p.code, client_message, y).1,
                                client_message,
                                host_message: b.host_spake2_message@,
                                created: now,
                                source,
                            },
                        ),
                        ..p
                    }
            }
        }
    }
}

/// The answer, pairing state, identity and store attempts of a key
/// confirmation at `now` (ms) for a 16-byte session id: a credential is
/// answered only once the identity holding it was saved, and a failed save
/// leaves the session pending and the identity unchanged.
pub open spec fn pair_finish_outcome(
    old_pairing: PairingCodeView,
    new_pairing: PairingCodeView,
    old_identity: HostIdentityView,
    new_identity: HostIdentityView,
    old_saves: SaveLog,
    new_saves: SaveLog,
    r: Reply,
    session_id: Seq<u8>,
    confirmation: Seq<u8>,
    now: u64,
    hostname: Seq<char>,
) -> bool {
    let p = pruned(old_pairing, now);
    let c = completed_index(p.completed, session_id, 0);
    let i = pending_index(p.pending, session_id, 0);
    let host_id = old_identity.host_id;
    if c < p.completed.len() {
        &&& new_pairing == p
        &&& new_identity == old_identity
        &&& new_saves == old_saves
        &&& if confirmation == p.completed[c].confirmation {
            is_pair_reply(
                r,
                p.completed[c].result.host_message,
                p.completed[c].result.nonce,
                p.completed[c].result.encrypted_credential,
                session_id,
                hostname,
                host_id,
            )
        } else {
            is_pairing_failure(r, PairingError::Invalid)
        }
    } else if i >= p.pending.len() || !alive(p.pending[i].created, now) {
        is_pairing_failure(r, PairingError::Invalid) && new_pairing == p && new_identity == old_identity
            && new_saves == old_saves
    } else if confirmation != spec_hmac_sha256(p.pending[i].shared, confirmation_message(p.pending[i])) {
        let f = failure_recorded(p.failures, p.pending[i].source);
        &&& new_pairing == PairingCodeView { pending: p.pending.remove(i), failures: f, ..p }
        &&& new_identity == old_identity
        &&& new_saves == old_saves
        &&& is_pairing_failure(
            r,
            if failure_count(f, p.pending[i].source) >= MAX_CONFIRMATION_FAILURES {
                PairingError::RateLimited
            } else {
                PairingError::Invalid
            },
        )
    } else {
        match host_credential_aad(p.pending[i].host_message, session_id, hostname, host_id) {
            None => is_pairing_failure(r, PairingError::Invalid) && new_pairing == p && new_identity == old_identity
                && new_saves == old_saves,
            Some(aad) => {
                ||| {
                    &&& is_error_reply(
                        r,
                        500,
                        ErrorResponse { code: ErrorCode::Unspecified, reason: ErrorReason::PairingNotSaved },
                    )
                    &&& r.authentication is None
                    &&& new_pairing == p
                    &&& new_identity == old_identity
                    &&& exists|credential: Seq<u8>|
                        credential.len() == 32 && one_save(
                            old_saves,
                            new_saves,
                            #[trigger] identity_paired(old_identity, credential),
                            false,
                        )
                }
                ||| {
                    &&& new_identity.credential matches Some(credential) && new_identity == identity_paired(old_identity, credential)
                    &&& new_saves == old_saves.push((new_identity, Ok(())))
                    &&& r.status == 200
                    &&& r.authentication is None
                    &&& r.body matches ReplyBody::Pair(b) && {
                        &&& is_pair_body(
                            b,
                            p.pending[i].host_message,
                            b.encryption_nonce@,
                            b.encrypted_credential@,
                            session_id,
                            hostname,
                            host_id,
                        )
                        &&& b.encryption_nonce@.len() == 12
                        &&& b.encrypted_credential@ == spec_chacha20poly1305_seal(
                            spec_hkdf_sha256(p.pending[i].shared, credential_info()),
                            b.encryption_nonce@,
                            new_identity.credential->Some_0,
                            aad,
                        )
                        &&& new_pairing == committed(
                            p,
                            session_id,
                            confirmation,
                            PairingResultView {
                                host_message: p.pending[i].host_message,
                                nonce: b.encryption_nonce@,
                                encrypted_credential: b.encrypted_credential@,
                                credential: new_identity.credential->Some_0,
                            },
                            now,
                        )
                    }
                }
            },
        }
    }
}

pub fn error_reply(status: u16, code: ErrorCode, reason: ErrorReason) -> (r: Reply)
    ensures
        is_error_reply(r, status, ErrorResponse { code, reason }),
        r.authentication is None,
{
    Reply { status, body: ReplyBody::Error(ErrorResponse { code, reason }), authentication: None }
}

/// The unsigned answer to a request whose authentication failed.
pub fn unauthorized(reason: AuthError) -> (r: Reply)
    ensures
        is_unauthorized_reply(r, reason),
{
    if reason == AuthError::Persistence {
        return error_reply(500, ErrorCode::Unspecified, ErrorReason::AuthenticationNotSaved);
    }
    if reason == AuthError::RateLimited {
        return error_reply(429, ErrorCode::RateLimited, ErrorReason::AuthenticationRateLimited);
    }
    let status = if reason == AuthError::Replay {
        409
    } else {
        401
    };
    error_reply(status, ErrorCode::Unauthorized, ErrorReason::AuthenticationFailed)
}

fn copy_context(context: &AuthenticationContext) -> (c: AuthenticationContext)
    ensures
        c.credential@ == context.credential@,
        c.nonce@ == context.nonce@,
{
    AuthenticationContext { credential: context.credential, nonce: context.nonce }
}

fn authenticated_error(status: u16, code: ErrorCode, reason: ErrorReason, context: &AuthenticationContext) -> (r: Reply)
    ensures
        is_error_reply(r, status, ErrorResponse { code, reason }),
        signed_with(r, context.credential@, context.nonce@),
{
    Reply {
        status,
        body: ReplyBody::Error(ErrorResponse { code, reason }),
        authentication: Some(copy_context(context)),
    }
}

/// The response signature of an authenticated reply whose body encodes to
/// `body`.
pub fn sign_reply(context: &AuthenticationContext, route: Route, status: u16, body: &[u8]) -> (tag: [u8; 32])
    ensures
        spec_response_tag(context.credential@, context.nonce@, route_path(route), status, body@) == Some(tag@),
{
    proof {
        reveal_strlit("/v1/status");
        reveal_strlit("/v1/pair");
        reveal_strlit("/v1/shutdown");
    }
    match sign_response(&context.credential, &context.nonce, route.path(), status, body) {
        Ok(tag) => tag,
        Err(_) => [0_u8; 32],
    }
}

/// Whether two texts are the same characters.
pub fn text_equal(a: &str, b: &str) -> (equal: bool)
    ensures
        equal == (a@ == b@),
{
    let n = a.unicode_len();
    if n != b.unicode_len() {
        return false;
    }
    let mut i: usize = 0;
    while i < n
        invariant
            n == a@.len(),
            n == b@.len(),
            i <= n,
            a@.subrange(0, i as int) == b@.subrange(0, i as int),
        decreases n - i,
    {
        if a.get_char(i) != b.get_char(i) {
            return false;
        }
        assert(a@.subrange(0, i + 1) =~= a@.subrange(0, i as int).push(a@[i as int]));
        assert(b@.subrange(0, i + 1) =~= b@.subrange(0, i as int).push(b@[i as int]));
        i = i + 1;
    }
    assert(a@ =~= a@.subrange(0, n as int));
    assert(b@ =~= b@.subrange(0, n as int));
    true
}

fn nonce_array(nonce: &[u8]) -> (array: [u8; 16])
    requires
        nonce@.len() == 16,
    ensures
        array@ == nonce@,
{
    let mut array = [0_u8; 16];
    let mut k: usize = 0;
    while k < 16
        invariant
            k <= 16,
            nonce@.len() == 16,
            array@.subrange(0, k as int) == nonce@.subrange(0, k as int),
        decreases 16 - k,
    {
        array[k] = nonce[k];
        assert(array@.subrange(0, k + 1) =~= nonce@.subrange(0, k + 1));
        k = k + 1;
    }
    assert(array@.subrange(0, 16) =~= array@);
    assert(nonce@.subrange(0, 16) =~= nonce@);
    array
}

fn pairing_failure_reply(e: PairingError) -> (r: Reply)
    ensures
        is_pairing_failure(r, e),
{
    match e {
        PairingError::Expired => error_reply(410, ErrorCode::PairingExpired, ErrorReason::PairingExpired),
        PairingError::RateLimited => error_reply(429, ErrorCode::RateLimited, ErrorReason::PairingRateLimited),
        _ => error_reply(401, ErrorCode::Unauthorized, ErrorReason::PairingFailed),
    }
}

impl<S: CredentialStore, P: PowerController> AppState<S, P> {
    pub open spec fn wf(&self) -> bool {
        self.pairing.wf()
    }

    /// A host holding `identity` and `pairing`, with an empty verifier memory,
    /// nothing saved and no shutdown requested yet.
    pub fn new(
        identity: HostIdentity,
        pairing: PairingCode,
        store: S,
        power: P,
        hostname: String,
        latest_client_version: Option<String>,
    ) -> (state: Self)
        ensures
            state.identity@ == identity@,
            state.pairing@ == pairing@,
            state.authenticator@.nonces.len() == 0,
            state.authenticator@.failures.len() == 0,
            state.store == store,
            state.power == power,
            state.hostname@ == hostname@,
            option_text(state.latest_client_version) == option_text(latest_client_version),
            state.saves@.len() == 0,
            state.power_requests@.len() == 0,
    {
        AppState {
            identity,
            pairing,
            authenticator: Authenticator::default(),
            power,
            store,
            hostname,
            latest_client_version,
            saves: Ghost(Seq::empty()),
            power_requests: Ghost(Seq::empty()),
        }
    }

    /// Authenticates a request on `route` at `now` (Unix seconds). A shutdown
    /// nonce is also checked against the persisted replay window and saved
    /// before the request is accepted.
    pub fn authenticate(&mut self, headers: &RequestHeaders, route: Route, body: &[u8], now: u64) -> (r: Result<
        AuthenticationContext,
        AuthError,
    >)
        ensures
            ({
                let (verdict, auth_after) = spec_authentication(
                    old(self).identity@,
                    old(self).authenticator@,
                    *headers,
                    route,
                    body@,
                    now,
                );
                &&& final(self).authenticator@ == auth_after
                &&& match verdict {
                    Err(e) => r == Err::<AuthenticationContext, AuthError>(e),
                    Ok((credential, nonce)) => {
                        ||| r matches Ok(c) && c.credential@ == credential && c.nonce@ == nonce
                        ||| route == Route::Shutdown && r == Err::<AuthenticationContext, AuthError>(
                            AuthError::Persistence,
                        )
                    },
                }
            }),
            route == Route::Shutdown && reaches_shutdown_window(
                old(self).identity@,
                old(self).authenticator@,
                *headers,
                body@,
                now,
            ) ==> final(self).identity@ == identity_after_shutdown_window(
                old(self).identity@,
                *headers,
                now,
                r is Ok,
            ),
            !(route == Route::Shutdown && reaches_shutdown_window(
                old(self).identity@,
                old(self).authenticator@,
                *headers,
                body@,
                now,
            )) ==> final(self).identity@ == old(self).identity@,
            shutdown_accepted_before_saving(old(self).identity@, old(self).authenticator@, *headers, route, body@, now)
                ==> one_save(
                old(self).saves@,
                final(self).saves@,
                identity_after_shutdown_window(old(self).identity@, *headers, now, true),
                r is Ok,
            ),
            !shutdown_accepted_before_saving(old(self).identity@, old(self).authenticator@, *headers, route, body@, now)
                ==> final(self).saves@ == old(self).saves@,
            final(self).pairing@ == old(self).pairing@,
            final(self).hostname@ == old(self).hostname@,
            final(self).power == old(self).power,
            final(self).power_requests@ == old(self).power_requests@,
            option_text(final(self).latest_client_version) == option_text(old(self).latest_client_version),
    {
        let timestamp = match &headers.timestamp {
            Some(text) => parse_u64(text.as_str()),
            None => None,
        };
        let timestamp = match timestamp {
            Some(value) => value,
            None => {
                return Err(AuthError::Malformed);
            },
        };
        let nonce = match &headers.nonce {
            Some(text) => hex_decode(text.as_str()),
            None => None,
        };
        let nonce = match nonce {
            Some(bytes) => bytes,
            None => {
                return Err(AuthError::Malformed);
            },
        };
        let signature = match &headers.signature {
            Some(text) => hex_decode(text.as_str()),
            None => None,
        };
        let signature = match signature {
            Some(bytes) => bytes,
            None => {
                return Err(AuthError::Malformed);
            },
        };
        let credential = match self.identity.credential {
            Some(credential) => credential,
            None => {
                return Err(AuthError::Invalid);
            },
        };
        let method = "POST";
        self.authenticator.verify(
            &credential,
            AuthenticatedRequest {
                timestamp,
                nonce: nonce.as_slice(),
                signature: signature.as_slice(),
                method,
                path: route.path(),
                body,
            },
            now,
        )?;
        if nonce.len() != NONCE_LENGTH {
            return Err(AuthError::Malformed);
        }
        let nonce = nonce_array(nonce.as_slice());
        if route == Route::Shutdown {
            self.identity.retain_recent_shutdown_nonces(now);
            if self.identity.has_shutdown_nonce(&nonce) {
                return Err(AuthError::Replay);
            }
            let ghost kept = self.identity@;
            self.identity.accepted_shutdown_nonces.push(AcceptedShutdownNonce { timestamp, nonce });
            assert(self.identity@.accepted_shutdown_nonces =~= kept.accepted_shutdown_nonces.push((timestamp, nonce@)));
            if save_recorded(&self.store, &mut self.saves, &self.identity).is_err() {
                self.identity.accepted_shutdown_nonces.pop();
                assert(self.identity@.accepted_shutdown_nonces =~= kept.accepted_shutdown_nonces);
                return Err(AuthError::Persistence);
            }
        }
        Ok(AuthenticationContext { credential, nonce })
    }

    /// Records the plugin version reported by an authenticated request: only
    /// strict release versions, persisted with the identity when it changes
    /// (kept in memory alone when saving fails).
    pub fn record_client_version(&mut self, version: &str)
        ensures
            version_recorded(
                old(self).identity@,
                option_text(old(self).latest_client_version),
                old(self).saves@,
                final(self).identity@,
                option_text(final(self).latest_client_version),
                final(self).saves@,
                version@,
            ),
            final(self).power_requests@ == old(self).power_requests@,
            final(self).pairing@ == old(self).pairing@,
            final(self).authenticator@ == old(self).authenticator@,
            final(self).hostname@ == old(self).hostname@,
            final(self).power == old(self).power,
    {
        if compare(version, HOST_VERSION) == VersionRelation::Unknown {
            return;
        }
        let already_latest = match &self.latest_client_version {
            Some(latest) => text_equal(latest.as_str(), version),
            None => false,
        };
        if already_latest {
            return;
        }
        let already_stored = match &self.identity.last_client_version {
            Some(stored) => text_equal(stored.as_str(), version),
            None => false,
        };
        if !already_stored {
            let mut updated = self.identity.duplicate();
            updated.last_client_version = Some(String::from_str(version));
            if save_recorded(&self.store, &mut self.saves, &updated).is_ok() {
                self.identity = updated;
            }
        }
        self.latest_client_version = Some(String::from_str(version));
    }

    /// `POST /v1/status`: authenticated host status. `request` is the body
    /// decoded as a status request, if it decodes.
    pub fn handle_status(
        &mut self,
        headers: &RequestHeaders,
        body: &[u8],
        request: Option<StatusRequest>,
        now: u64,
    ) -> (r: Reply)
        requires
            old(self).wf(),
        ensures
            final(self).wf(),
            final(self).pairing@ == old(self).pairing@,
            final(self).power == old(self).power,
            final(self).power_requests@ == old(self).power_requests@,
            ({
                let (verdict, _) = spec_authentication(
                    old(self).identity@,
                    old(self).authenticator@,
                    *headers,
                    Route::Status,
                    body@,
                    now,
                );
                match verdict {
                    Err(e) => {
                        &&& is_unauthorized_reply(r, e)
                        &&& final(self).identity@ == old(self).identity@
                        &&& final(self).saves@ == old(self).saves@
                        &&& option_text(final(self).latest_client_version) == option_text(
                            old(self).latest_client_version,
                        )
                    },
                    Ok((credential, nonce)) => {
                        &&& signed_with(r, credential, nonce)
                        &&& match body_rejection(
                            headers.content_type,
                            request is Some,
                            match request {
                                Some(q) => q.protocol_version,
                                None => 0,
                            },
                        ) {
                            Some((status, error)) => {
                                &&& is_error_reply(r, status, error)
                                &&& final(self).identity@ == old(self).identity@
                                &&& final(self).saves@ == old(self).saves@
                                &&& option_text(final(self).latest_client_version) == option_text(
                                    old(self).latest_client_version,
                                )
                            },
                            None => {
                                &&& r.status == 200
                                &&& r.body matches ReplyBody::Status(b) && b.hostname@ == old(self).hostname@
                                    && b.host_version@ == HOST_VERSION@ && b.protocol_version == PROTOCOL_VERSION
                                    && b.paired == (old(self).identity@.credential is Some) && b.host_id@
                                    == spec_uuid_text(old(self).identity@.host_id)
                                &&& version_recorded(
                                    old(self).identity@,
                                    option_text(old(self).latest_client_version),
                                    old(self).saves@,
                                    final(self).identity@,
                                    option_text(final(self).latest_client_version),
                                    final(self).saves@,
                                    request->Some_0.client_version@,
                                )
                            },
                        }
                    },
                }
            }),
    {
        let authentication = match self.authenticate(headers, Route::Status, body, now) {
            Ok(authentication) => authentication,
            Err(reason) => {
                return unauthorized(reason);
            },
        };
        let content_type = match &headers.content_type {
            Some(text) => Some(text.as_str()),
            None => None,
        };
        if !is_protobuf(content_type) {
            return authenticated_error(415, ErrorCode::MalformedRequest, ErrorReason::WrongContentType, &authentication);
        }
        let request = match request {
            Some(request) => request,
            None => {
                return authenticated_error(400, ErrorCode::MalformedRequest, ErrorReason::MalformedProtobuf, &authentication);
            },
        };
        if request.protocol_version != PROTOCOL_VERSION {
            return authenticated_error(426, ErrorCode::ProtocolMismatch, ErrorReason::ProtocolMismatch, &authentication);
        }
        self.record_client_version(request.client_version.as_str());
        let response = StatusResponse {
            hostname: self.hostname.clone(),
            host_version: String::from_str(HOST_VERSION),
            protocol_version: PROTOCOL_VERSION,
            paired: self.identity.credential.is_some(),
            host_id: uuid_text(self.identity.host_id),
        };
        Reply { status: 200, body: ReplyBody::Status(response), authentication: Some(authentication) }
    }

    /// `POST /v1/shutdown`: an authenticated shutdown, whose nonce is saved
    /// before the machine is asked to power off.
    pub fn handle_shutdown(
        &mut self,
        headers: &RequestHeaders,
        body: &[u8],
        request: Option<ShutdownRequest>,
        now: u64,
    ) -> (r: Reply)
        requires
            old(self).wf(),
        ensures
            final(self).wf(),
            final(self).pairing@ == old(self).pairing@,
            ({
                let (verdict, _) = spec_authentication(
                    old(self).identity@,
                    old(self).authenticator@,
                    *headers,
                    Route::Shutdown,
                    body@,
                    now,
                );
                let accepted_identity = identity_after_shutdown_window(old(self).identity@, *headers, now, true);
                let nonce_saved = old(self).saves@.push((accepted_identity, Ok(())));
                match verdict {
                    Err(e) => {
                        &&& is_unauthorized_reply(r, e)
                        &&& final(self).saves@ == old(self).saves@
                        &&& final(self).power == old(self).power
                        &&& final(self).power_requests@ == old(self).power_requests@
                        &&& option_text(final(self).latest_client_version) == option_text(
                            old(self).latest_client_version,
                        )
                    },
                    Ok((credential, nonce)) => {
                        ||| {
                            &&& is_unauthorized_reply(r, AuthError::Persistence)
                            &&& one_save(old(self).saves@, final(self).saves@, accepted_identity, false)
                            &&& final(self).identity@ == identity_after_shutdown_window(
                                old(self).identity@,
                                *headers,
                                now,
                                false,
                            )
                            &&& final(self).power == old(self).power
                            &&& final(self).power_requests@ == old(self).power_requests@
                        }
                        ||| {
                            &&& signed_with(r, credential, nonce)
                            &&& match body_rejection(
                                headers.content_type,
                                request is Some,
                                match request {
                                    Some(q) => q.protocol_version,
                                    None => 0,
                                },
                            ) {
                                Some((status, error)) => {
                                    &&& is_error_reply(r, status, error)
                                    &&& final(self).saves@ == nonce_saved
                                    &&& final(self).identity@ == accepted_identity
                                    &&& final(self).power == old(self).power
                                    &&& final(self).power_requests@ == old(self).power_requests@
                                    &&& option_text(final(self).latest_client_version) == option_text(
                                        old(self).latest_client_version,
                                    )
                                },
                                None => {
                                    &&& version_recorded(
                                        accepted_identity,
                                        option_text(old(self).latest_client_version),
                                        nonce_saved,
                                        final(self).identity@,
                                        option_text(final(self).latest_client_version),
                                        final(self).saves@,
                                        request->Some_0.client_version@,
                                    )
                                    &&& final(self).power_requests@ == old(self).power_requests@.push(r.status == 202)
                                    &&& r.status == 202 ==> (r.body matches ReplyBody::Shutdown(b) && b.accepted)
                                    &&& r.status != 202 ==> is_error_reply(
                                        r,
                                        500,
                                        ErrorResponse {
                                            code: ErrorCode::ShutdownFailed,
                                            reason: ErrorReason::ShutdownRejected,
                                        },
                                    )
                                },
                            }
                        }
                    },
                }
            }),
    {
        let authentication = match self.authenticate(headers, Route::Shutdown, body, now) {
            Ok(authentication) => authentication,
            Err(reason) => {
                return unauthorized(reason);
            },
        };
        let content_type = match &headers.content_type {
            Some(text) => Some(text.as_str()),
            None => None,
        };
        if !is_protobuf(content_type) {
            return authenticated_error(415, ErrorCode::MalformedRequest, ErrorReason::WrongContentType, &authentication);
        }
        let request = match request {
            Some(request) => request,
            None => {
                return authenticated_error(400, ErrorCode::MalformedRequest, ErrorReason::MalformedProtobuf, &authentication);
            },
        };
        if request.protocol_version != PROTOCOL_VERSION {
            return authenticated_error(426, ErrorCode::ProtocolMismatch, ErrorReason::ProtocolMismatch, &authentication);
        }
        self.record_client_version(request.client_version.as_str());
        match shutdown_recorded(&mut self.power, &mut self.power_requests) {
            Ok(()) => Reply {
                status: 202,
                body: ReplyBody::Shutdown(ShutdownResponse { accepted: true }),
                authentication: Some(authentication),
            },
            Err(_) => authenticated_error(500, ErrorCode::ShutdownFailed, ErrorReason::ShutdownRejected, &authentication),
        }
    }
    /// `POST /v1/pair`, unauthenticated: a first request (empty session id)
    /// answers the client's SPAKE2 message; a second one checks the key
    /// confirmation, stores the issued credential, and only then commits the
    /// exchange. `now` is in milliseconds.
    pub fn handle_pair(
        &mut self,
        headers: &RequestHeaders,
        request: Option<PairRequest>,
        source: Option<SourceAddress>,
        now: u64,
    ) -> (r: Reply)
        requires
            old(self).wf(),
        ensures
            final(self).wf(),
            final(self).authenticator@ == old(self).authenticator@,
            final(self).hostname@ == old(self).hostname@,
            final(self).power == old(self).power,
            final(self).power_requests@ == old(self).power_requests@,
            option_text(final(self).latest_client_version) == option_text(old(self).latest_client_version),
            match body_rejection(
                headers.content_type,
                request is Some,
                match request {
                    Some(q) => q.protocol_version,
                    None => 0,
                },
            ) {
                Some((status, error)) => {
                    &&& is_error_reply(r, status, error)
                    &&& r.authentication is None
                    &&& final(self).pairing@ == old(self).pairing@
                    &&& final(self).identity@ == old(self).identity@
                    &&& final(self).saves@ == old(self).saves@
                },
                None => {
                    let q = request->Some_0;
                    if q.session_id@.len() == 0 {
                        &&& final(self).identity@ == old(self).identity@
                        &&& final(self).saves@ == old(self).saves@
                        &&& if already_paired(old(self).identity@) {
                            &&& is_error_reply(
                                r,
                                409,
                                ErrorResponse { code: ErrorCode::AlreadyPaired, reason: ErrorReason::AlreadyPaired },
                            )
                            &&& r.authentication is None
                            &&& final(self).pairing@ == old(self).pairing@
                        } else {
                            pair_start_outcome(
                                old(self).pairing@,
                                final(self).pairing@,
                                r,
                                q.client_spake2_message@,
                                source,
                                now,
                                old(self).hostname@,
                                old(self).identity@.host_id,
                            )
                        }
                    } else if q.session_id@.len() != 16 {
                        &&& is_pairing_failure(r, PairingError::Invalid)
                        &&& final(self).pairing@ == old(self).pairing@
                        &&& final(self).identity@ == old(self).identity@
                        &&& final(self).saves@ == old(self).saves@
                    } else {
                        pair_finish_outcome(
                            old(self).pairing@,
                            final(self).pairing@,
                            old(self).identity@,
                            final(self).identity@,
                            old(self).saves@,
                            final(self).saves@,
                            r,
                            q.session_id@,
                            q.client_confirmation@,
                            now,
                            old(self).hostname@,
                        )
                    }
                },
            },
    {
        let content_type = match &headers.content_type {
            Some(text) => Some(text.as_str()),
            None => None,
        };
        if !is_protobuf(content_type) {
            return error_reply(415, ErrorCode::MalformedRequest, ErrorReason::WrongContentType);
        }
        let request = match request {
            Some(request) => request,
            None => {
                return error_reply(400, ErrorCode::MalformedRequest, ErrorReason::MalformedProtobuf);
            },
        };
        if request.protocol_version != PROTOCOL_VERSION {
            return error_reply(426, ErrorCode::ProtocolMismatch, ErrorReason::ProtocolMismatch);
        }
        let host_id = uuid_text(self.identity.host_id);
        if request.session_id.len() == 0 {
            if self.identity.credential.is_some() && self.identity.pairing_code.is_none() {
                return error_reply(409, ErrorCode::AlreadyPaired, ErrorReason::AlreadyPaired);
            }
            let started = match self.pairing.start_for_source_at(
                request.client_spake2_message.as_slice(),
                source,
                now,
            ) {
                Ok(started) => started,
                Err(e) => {
                    return pairing_failure_reply(e);
                },
            };
            let response = PairResponse {
                host_spake2_message: started.host_message,
                encryption_nonce: Vec::new(),
                encrypted_credential: Vec::new(),
                hostname: self.hostname.clone(),
                host_version: String::from_str(HOST_VERSION),
                protocol_version: PROTOCOL_VERSION,
                host_id,
                session_id: vstd::slice::slice_to_vec(&started.session_id),
            };
            return Reply { status: 200, body: ReplyBody::Pair(response), authentication: None };
        }
        let session_id = request.session_id.as_slice();
        let confirmation = request.client_confirmation.as_slice();
        let ghost p = pruned(self.pairing@, now);
        let result = {
            let context = CredentialContext {
                hostname: self.hostname.as_str(),
                host_version: HOST_VERSION,
                protocol_version: PROTOCOL_VERSION,
                host_id: host_id.as_str(),
            };
            match self.pairing.finish_at(session_id, confirmation, &context, now) {
                Ok(result) => result,
                Err(e) => {
                    return pairing_failure_reply(e);
                },
            }
        };
        if self.pairing.is_completed(session_id) {
            let response = PairResponse {
                host_spake2_message: result.host_message,
                encryption_nonce: vstd::slice::slice_to_vec(&result.nonce),
                encrypted_credential: result.encrypted_credential,
                hostname: self.hostname.clone(),
                host_version: String::from_str(HOST_VERSION),
                protocol_version: PROTOCOL_VERSION,
                host_id,
                session_id: vstd::slice::slice_to_vec(session_id),
            };
            return Reply { status: 200, body: ReplyBody::Pair(response), authentication: None };
        }
        let previous = self.identity.duplicate();
        self.identity.credential = Some(result.credential);
        self.identity.pairing_code = None;
        self.identity.pairing_created_at = 0;
        self.identity.accepted_shutdown_nonces = Vec::new();
        assert(self.identity@.accepted_shutdown_nonces =~= Seq::<(u64, Seq<u8>)>::empty());
        assert(self.identity@ == identity_paired(previous@, result@.credential));
        if save_recorded(&self.store, &mut self.saves, &self.identity).is_err() {
            assert(self.saves@.last().0 == identity_paired(previous@, result@.credential));
            self.identity = previous;
            return error_reply(500, ErrorCode::Unspecified, ErrorReason::PairingNotSaved);
        }
        let ghost issued = result@;
        let kept = result.duplicate();
        // The confirmed session is still pending, so committing it succeeds.
        let outcome = self.pairing.commit_at(session_id, confirmation, kept, now);
        assert(outcome is Ok);
        let response = PairResponse {
            host_spake2_message: result.host_message,
            encryption_nonce: vstd::slice::slice_to_vec(&result.nonce),
            encrypted_credential: result.encrypted_credential,
            hostname: self.hostname.clone(),
            host_version: String::from_str(HOST_VERSION),
            protocol_version: PROTOCOL_VERSION,
            host_id,
            session_id: vstd::slice::slice_to_vec(session_id),
        };
        assert(response.encryption_nonce@ == issued.nonce);
        Reply { status: 200, body: ReplyBody::Pair(response), authentication: None }
    }
}

/// A shutdown nonce accepted and persisted by an authentication is refused
/// by every later authentication of the same request, whatever the verifier
/// remembers by then (after a restart it remembers nothing): while the
/// request's timestamp is inside the clock window its nonce is still in the
/// persisted window, and afterwards the request is stale.
pub proof fn lemma_persisted_shutdown_nonce_is_refused(
    identity: HostIdentityView,
    auth: AuthenticatorView,
    later_auth: AuthenticatorView,
    headers: RequestHeaders,
    body: Seq<u8>,
    now: u64,
    later: u64,
)
    requires
        reaches_shutdown_window(identity, auth, headers, body, now),
        spec_authentication(identity, auth, headers, Route::Shutdown, body, now).0 is Ok,
    ensures
        spec_authentication(
            identity_after_shutdown_window(identity, headers, now, true),
            later_auth,
            headers,
            Route::Shutdown,
            body,
            later,
        ).0 is Err,
{
    let after = identity_after_shutdown_window(identity, headers, now, true);
    let timestamp = header_u64(headers.timestamp)->Some_0;
    let nonce = header_bytes(headers.nonce)->Some_0;
    let signature = header_bytes(headers.signature)->Some_0;
    let credential = identity.credential->Some_0;
    let verdict = spec_verify(
        later_auth,
        credential,
        timestamp,
        nonce,
        signature,
        "POST"@,
        route_path(Route::Shutdown),
        body,
        later,
    );
    if verdict.0 is Ok {
        let kept = recent_shutdown_nonces(identity.accepted_shutdown_nonces, now);
        let pushed = kept.push((timestamp, nonce));
        assert(pushed.drop_last() =~= kept);
        let window = recent_shutdown_nonces(pushed, later);
        assert(window == recent_shutdown_nonces(kept, later).push((timestamp, nonce)));
        assert(window[window.len() - 1].1 == nonce);
        assert(shutdown_nonce_seen(window, nonce));
    }
}

/// Once a credential is issued the host is paired and holds no code, so a
/// new pairing start is refused as already paired until a new code is
/// generated.
pub proof fn lemma_paired_host_refuses_new_pairing(identity: HostIdentityView, credential: Seq<u8>)
    ensures
        already_paired(identity_paired(identity, credential)),
        identity_paired(identity, credential).accepted_shutdown_nonces.len() == 0,
{
}

/// A credential is issued only after a correct key confirmation: whenever
/// a confirmation step changes the host's credential, the session was
/// pending and alive, and the confirmation was the HMAC of that exchange
/// under its SPAKE2 key; the new identity is then the paired one.
pub proof fn lemma_credential_only_after_confirmation(
    old_pairing: PairingCodeView,
    new_pairing: PairingCodeView,
    old_identity: HostIdentityView,
    new_identity: HostIdentityView,
    old_saves: SaveLog,
    new_saves: SaveLog,
    r: Reply,
    session_id: Seq<u8>,
    confirmation: Seq<u8>,
    now: u64,
    hostname: Seq<char>,
)
    requires
        pair_finish_outcome(
            old_pairing,
            new_pairing,
            old_identity,
            new_identity,
            old_saves,
            new_saves,
            r,
            session_id,
            confirmation,
            now,
            hostname,
        ),
        new_identity.credential != old_identity.credential,
    ensures
        ({
            let p = pruned(old_pairing, now);
            let i = pending_index(p.pending, session_id, 0);
            &&& completed_index(p.completed, session_id, 0) >= p.completed.len()
            &&& i < p.pending.len()
            &&& alive(p.pending[i].created, now)
            &&& confirmation == spec_hmac_sha256(p.pending[i].shared, confirmation_message(p.pending[i]))
            &&& new_identity == identity_paired(old_identity, new_identity.credential->Some_0)
            &&& new_saves == old_saves.push((new_identity, Ok(())))
            &&& r.status == 200
        }),
{
}

/// A lost pairing answer is recovered without issuing another credential:
/// after a confirmation that issued a credential, repeating the identical
/// request within the lifetime is answered with the same encrypted
/// credential, nonce and host message, and changes neither the identity nor
/// the committed exchange, and hands nothing more to the store.
pub proof fn lemma_pairing_retry_returns_the_same_answer(
    p0: PairingCodeView,
    p1: PairingCodeView,
    p2: PairingCodeView,
    id0: HostIdentityView,
    id1: HostIdentityView,
    id2: HostIdentityView,
    s0: SaveLog,
    s1: SaveLog,
    s2: SaveLog,
    r1: Reply,
    r2: Reply,
    session_id: Seq<u8>,
    confirmation: Seq<u8>,
    now: u64,
    later: u64,
    hostname: Seq<char>,
)
    requires
        pair_finish_outcome(p0, p1, id0, id1, s0, s1, r1, session_id, confirmation, now, hostname),
        id1.credential != id0.credential,
        pair_finish_outcome(p1, p2, id1, id2, s1, s2, r2, session_id, confirmation, later, hostname),
        alive(now, later),
    ensures
        r2.status == 200,
        id2 == id1,
        s2 == s1,
        r1.body matches ReplyBody::Pair(b1) && r2.body matches ReplyBody::Pair(b2) && b2.encrypted_credential@
            == b1.encrypted_credential@ && b2.encryption_nonce@ == b1.encryption_nonce@
            && b2.host_spake2_message@ == b1.host_spake2_message@ && b2.session_id@ == b1.session_id@,
{
    lemma_credential_only_after_confirmation(p0, p1, id0, id1, s0, s1, r1, session_id, confirmation, now, hostname);
    let p = pruned(p0, now);
    let i = pending_index(p.pending, session_id, 0);
    let b1 = r1.body->Pair_0;
    let result = PairingResultView {
        host_message: p.pending[i].host_message,
        nonce: b1.encryption_nonce@,
        encrypted_credential: b1.encrypted_credential@,
        credential: id1.credential->Some_0,
    };
    assert(p1 == committed(p, session_id, confirmation, result, now));
    crate::pairing::lemma_commit_retry_is_identical(p, session_id, confirmation, result, now, later);
}

/// Every strict release version reported on an authenticated request
/// becomes the plugin version the host remembers, whatever its relation to
/// the host's own version (compatible, ahead, behind or of another major
/// version); anything that is not a release version changes nothing.
pub proof fn lemma_every_release_version_is_remembered(latest: Option<Seq<char>>, version: Seq<char>)
    ensures
        spec_parse_version(version) is Some ==> latest_after(latest, version) == Some(version),
        spec_parse_version(version) is None ==> latest_after(latest, version) == latest,
{
    crate::versioning::lemma_host_version_parses();
}

/// Recording a release version that is new both to memory and to the stored
/// identity hands the identity carrying it to the store once, remembers it,
/// and stores it with the identity exactly when the store saved it; a text
/// that is not a release version saves and changes nothing.
pub proof fn lemma_new_release_version_is_saved(
    identity: HostIdentityView,
    latest: Option<Seq<char>>,
    saves: SaveLog,
    identity_after: HostIdentityView,
    latest_now: Option<Seq<char>>,
    saves_after: SaveLog,
    version: Seq<char>,
)
    requires
        version_recorded(identity, latest, saves, identity_after, latest_now, saves_after, version),
    ensures
        spec_parse_version(version) is Some && latest != Some(version) && identity.last_client_version
            != Some(version) ==> {
            &&& latest_now == Some(version)
            &&& saves_after.len() == saves.len() + 1
            &&& saves_after.last().0 == (HostIdentityView { last_client_version: Some(version), ..identity })
            &&& identity_after.last_client_version == if saves_after.last().1 is Ok {
                Some(version)
            } else {
                identity.last_client_version
            }
        },
        spec_parse_version(version) is None ==> {
            &&& latest_now == latest
            &&& saves_after == saves
            &&& identity_after == identity
        },
{
    crate::versioning::lemma_host_version_parses();
    if spec_parse_version(version) is Some && latest != Some(version) && identity.last_client_version != Some(
        version,
    ) {
        assert(saves_after.last() == (HostIdentityView { last_client_version: Some(version), ..identity }, saves_after.last().1));
    }
}

} // verus!
