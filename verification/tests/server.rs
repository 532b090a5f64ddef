use std::cell::{Cell, RefCell};

use chacha20poly1305::{
    aead::{Aead, Payload},
    ChaCha20Poly1305, KeyInit, Nonce,
};
use decky_power_host::auth::{now_unix, random_nonce, sign, verify_response};
use decky_power_host::management::generate_pairing_code_at;
use decky_power_host::pairing::{credential_aad, CredentialContext, PairingCode, SourceAddress};
use decky_power_host::power::{MockPowerController, PowerController};
use decky_power_host::protocol::{
    ErrorCode, ErrorReason, PairRequest, ShutdownRequest, StatusRequest,
};
use decky_power_host::server::{sign_reply, AppState, Reply, ReplyBody, RequestHeaders, Route};
use decky_power_host::storage::{CredentialStore, HostIdentity, StoreError};
use decky_power_host::{HOST_VERSION, PROTOCOL_VERSION};
use hkdf::Hkdf;
use hmac::{Hmac, Mac};
use sha2::Sha256;
use spake2::{Ed25519Group, Identity, Password, Spake2};

const CONTENT_TYPE: &str = "application/x-protobuf";
const CONFIRMATION_DOMAIN: &[u8] = b"deckymyrig-pairing-confirm-v1\0";
const CREDENTIAL_INFO: &[u8] = b"deckymyrig-pairing-credential-v1";

struct MemoryStore {
    saved: RefCell<Option<HostIdentity>>,
    fail_next: Cell<bool>,
}

impl MemoryStore {
    fn empty() -> Self {
        MemoryStore {
            saved: RefCell::new(None),
            fail_next: Cell::new(false),
        }
    }
}

impl CredentialStore for MemoryStore {
    fn load_or_create(&self) -> Result<HostIdentity, StoreError> {
        let mut saved = self.saved.borrow_mut();
        if saved.is_none() {
            *saved = Some(HostIdentity::default());
        }
        Ok(saved.as_ref().unwrap().duplicate())
    }

    fn save(&self, identity: &HostIdentity) -> Result<(), StoreError> {
        if self.fail_next.replace(false) {
            return Err(StoreError {
                message: "injected persistence failure".into(),
            });
        }
        *self.saved.borrow_mut() = Some(identity.duplicate());
        Ok(())
    }
}

fn identity(credential: Option<[u8; 32]>) -> HostIdentity {
    HostIdentity {
        host_id: 0,
        credential,
        pairing_code: Some("123456".into()),
        pairing_created_at: now_unix(),
        accepted_shutdown_nonces: Vec::new(),
        last_client_version: None,
    }
}

fn state_with(
    identity: HostIdentity,
    pairing: PairingCode,
    store: MemoryStore,
    hostname: &str,
) -> AppState<MemoryStore, MockPowerController> {
    AppState::new(identity, pairing, store, MockPowerController::default(), hostname.into(), None)
}

fn state(credential: Option<[u8; 32]>) -> AppState<MemoryStore, MockPowerController> {
    state_with(identity(credential), PairingCode::generate(), MemoryStore::empty(), "test-pc")
}

fn protobuf_headers() -> RequestHeaders {
    RequestHeaders {
        content_type: Some(CONTENT_TYPE.into()),
        timestamp: None,
        nonce: None,
        signature: None,
    }
}

fn authenticated_headers(path: &str, body: &[u8], secret: &[u8], nonce: [u8; 16]) -> RequestHeaders {
    let timestamp = now_unix();
    let signature = sign(secret, timestamp, &nonce, "POST", path, body).unwrap();
    RequestHeaders {
        content_type: Some(CONTENT_TYPE.into()),
        timestamp: Some(timestamp.to_string()),
        nonce: Some(hex::encode(nonce)),
        signature: Some(hex::encode(signature)),
    }
}

fn status_request(protocol_version: u32) -> StatusRequest {
    StatusRequest {
        protocol_version,
        client_version: HOST_VERSION.into(),
    }
}

fn shutdown_request() -> ShutdownRequest {
    ShutdownRequest {
        protocol_version: PROTOCOL_VERSION,
        client_version: HOST_VERSION.into(),
    }
}

fn error_of(reply: &Reply) -> (ErrorCode, ErrorReason) {
    match &reply.body {
        ReplyBody::Error(error) => (error.code, error.reason),
        _ => panic!("not an error reply"),
    }
}

fn pair_request(message: Vec<u8>, session_id: Vec<u8>, confirmation: Vec<u8>) -> PairRequest {
    PairRequest {
        protocol_version: PROTOCOL_VERSION,
        client_version: HOST_VERSION.into(),
        client_spake2_message: message,
        session_id,
        client_confirmation: confirmation,
    }
}

fn confirm(shared: &[u8], client_message: &[u8], host_message: &[u8], session_id: &[u8]) -> Vec<u8> {
    let mut confirmation = <Hmac<Sha256> as Mac>::new_from_slice(shared).unwrap();
    confirmation.update(CONFIRMATION_DOMAIN);
    confirmation.update(client_message);
    confirmation.update(host_message);
    confirmation.update(session_id);
    confirmation.finalize().into_bytes().to_vec()
}

fn loopback() -> Option<SourceAddress> {
    Some(SourceAddress::V4(0x7f00_0001))
}

#[test]
fn authenticated_status_succeeds() {
    let secret = [8; 32];
    let mut state = state(Some(secret));
    let path = "/v1/status";
    let body = b"encoded status request".to_vec();
    let nonce = [6; 16];
    let headers = authenticated_headers(path, &body, &secret, nonce);
    let reply = state.handle_status(&headers, &body, Some(status_request(PROTOCOL_VERSION)), now_unix());
    assert_eq!(reply.status, 200);
    let context = reply.authentication.as_ref().unwrap();
    let response_body = b"encoded status response";
    let response_signature = sign_reply(context, Route::Status, reply.status, response_body);
    verify_response(&secret, &nonce, path, 200, response_body, &response_signature).unwrap();
    match &reply.body {
        ReplyBody::Status(status) => {
            assert_eq!(status.hostname, "test-pc");
            assert_eq!(status.host_version, HOST_VERSION);
            assert_eq!(status.protocol_version, PROTOCOL_VERSION);
            assert!(status.paired);
            assert_eq!(status.host_id, "00000000-0000-0000-0000-000000000000");
        }
        _ => panic!("not a status reply"),
    }
    assert_eq!(state.latest_client_version.as_deref(), Some(HOST_VERSION));
    assert_eq!(state.identity.last_client_version.as_deref(), Some(HOST_VERSION));
}

#[test]
fn shutdown_requires_authentication() {
    let mut state = state(Some([8; 32]));
    let reply = state.handle_shutdown(&protobuf_headers(), b"body", Some(shutdown_request()), now_unix());
    assert_eq!(reply.status, 401);
    assert!(reply.authentication.is_none());
    assert_eq!(error_of(&reply), (ErrorCode::Unauthorized, ErrorReason::AuthenticationFailed));
    assert!(!state.power.was_requested());
}

#[test]
fn malformed_protobuf_and_protocol_mismatch_are_structured() {
    let secret = [8; 32];
    let body = vec![0xff];
    let headers = authenticated_headers("/v1/status", &body, &secret, random_nonce());
    let reply = state(Some(secret)).handle_status(&headers, &body, None, now_unix());
    assert_eq!(reply.status, 400);
    assert_eq!(error_of(&reply), (ErrorCode::MalformedRequest, ErrorReason::MalformedProtobuf));
    let body = b"version 99".to_vec();
    let headers = authenticated_headers("/v1/status", &body, &secret, random_nonce());
    let reply = state(Some(secret)).handle_status(&headers, &body, Some(status_request(99)), now_unix());
    assert_eq!(reply.status, 426);
}

#[test]
fn authenticated_protocol_errors_are_signed() {
    let secret = [8; 32];
    let path = "/v1/status";
    let body = b"version 99".to_vec();
    let nonce = [11; 16];
    let headers = authenticated_headers(path, &body, &secret, nonce);
    let reply = state(Some(secret)).handle_status(&headers, &body, Some(status_request(99)), now_unix());
    assert_eq!(reply.status, 426);
    let context = reply.authentication.as_ref().unwrap();
    let response_body = b"encoded error";
    let response_signature = sign_reply(context, Route::Status, 426, response_body);
    verify_response(&secret, &nonce, path, 426, response_body, &response_signature).unwrap();
    assert_eq!(error_of(&reply).0, ErrorCode::ProtocolMismatch);
}

#[test]
fn authenticated_shutdown_replay_is_rejected_after_host_restart() {
    let secret = [8; 32];
    let store = MemoryStore::empty();
    store
        .save(&HostIdentity {
            host_id: 0,
            credential: Some(secret),
            pairing_code: None,
            pairing_created_at: 0,
            accepted_shutdown_nonces: Vec::new(),
            last_client_version: None,
        })
        .unwrap();
    let body = b"shutdown".to_vec();
    let headers = authenticated_headers("/v1/shutdown", &body, &secret, random_nonce());

    let restored = store.load_or_create().unwrap();
    let mut first = state_with(restored, PairingCode::generate(), store, "restart-test");
    let reply = first.handle_shutdown(&headers, &body, Some(shutdown_request()), now_unix());
    assert_eq!(reply.status, 202);
    assert!(first.power.was_requested());

    let store = first.store;
    let restored = store.load_or_create().unwrap();
    let mut second = state_with(restored, PairingCode::generate(), store, "restart-test");
    let reply = second.handle_shutdown(&headers, &body, Some(shutdown_request()), now_unix());
    assert_eq!(reply.status, 409);
    assert!(!second.power.was_requested());
}

#[test]
fn shutdown_nonce_is_not_accepted_when_it_cannot_be_saved() {
    let secret = [8; 32];
    let mut state = state(Some(secret));
    let body = b"shutdown".to_vec();
    let headers = authenticated_headers("/v1/shutdown", &body, &secret, random_nonce());
    state.store.fail_next.set(true);
    let reply = state.handle_shutdown(&headers, &body, Some(shutdown_request()), now_unix());
    assert_eq!(reply.status, 500);
    assert_eq!(error_of(&reply), (ErrorCode::Unspecified, ErrorReason::AuthenticationNotSaved));
    assert!(state.identity.accepted_shutdown_nonces.is_empty());
    assert!(!state.power.was_requested());
}

#[test]
fn rejected_power_off_is_reported_and_signed() {
    let secret = [8; 32];
    let mut state = state_with(identity(Some(secret)), PairingCode::generate(), MemoryStore::empty(), "pc");
    state.power = MockPowerController::failing();
    let body = b"shutdown".to_vec();
    let headers = authenticated_headers("/v1/shutdown", &body, &secret, random_nonce());
    let reply = state.handle_shutdown(&headers, &body, Some(shutdown_request()), now_unix());
    assert_eq!(reply.status, 500);
    assert!(reply.authentication.is_some());
    assert_eq!(error_of(&reply), (ErrorCode::ShutdownFailed, ErrorReason::ShutdownRejected));
}

#[test]
fn wrong_content_type_is_refused_after_authentication() {
    let secret = [8; 32];
    let body = b"status".to_vec();
    let mut headers = authenticated_headers("/v1/status", &body, &secret, random_nonce());
    headers.content_type = Some("application/json".into());
    let reply = state(Some(secret)).handle_status(&headers, &body, Some(status_request(1)), now_unix());
    assert_eq!(reply.status, 415);
    assert!(reply.authentication.is_some());
    let mut headers = authenticated_headers("/v1/status", &body, &secret, random_nonce());
    headers.content_type = Some(" Application/X-Protobuf ; charset=binary".into());
    let reply = state(Some(secret)).handle_status(&headers, &body, Some(status_request(1)), now_unix());
    assert_eq!(reply.status, 200);
}

#[test]
fn unpaired_host_refuses_authenticated_requests() {
    let body = b"status".to_vec();
    let headers = authenticated_headers("/v1/status", &body, &[8; 32], random_nonce());
    let reply = state(None).handle_status(&headers, &body, Some(status_request(1)), now_unix());
    assert_eq!(reply.status, 401);
    let mut headers = authenticated_headers("/v1/status", &body, &[8; 32], random_nonce());
    headers.nonce = Some("not hex".into());
    let reply = state(Some([8; 32])).handle_status(&headers, &body, Some(status_request(1)), now_unix());
    assert_eq!(reply.status, 401);
}

#[test]
fn pairing_completion_can_retry_after_persistence_recovers() {
    let store = MemoryStore::empty();
    store.fail_next.set(true);
    let mut state = state_with(
        identity(None),
        PairingCode::from_code("123456".into()).unwrap(),
        store,
        "persistence-test",
    );
    let now = now_unix() * 1000;
    let (client, client_message) = Spake2::<Ed25519Group>::start_a(
        &Password::new(b"123456"),
        &Identity::new(b"decky-client"),
        &Identity::new(b"decky-host"),
    );
    let start = state.handle_pair(
        &protobuf_headers(),
        Some(pair_request(client_message.clone(), Vec::new(), Vec::new())),
        None,
        now,
    );
    let started = match start.body {
        ReplyBody::Pair(response) => response,
        _ => panic!("pairing did not start"),
    };
    let shared = client.finish(&started.host_spake2_message).unwrap();
    let confirmation = confirm(
        &shared,
        &client_message,
        &started.host_spake2_message,
        &started.session_id,
    );
    let finish = || pair_request(Vec::new(), started.session_id.clone(), confirmation.clone());

    let failed = state.handle_pair(&protobuf_headers(), Some(finish()), None, now);
    assert_eq!(failed.status, 500);
    assert_eq!(error_of(&failed), (ErrorCode::Unspecified, ErrorReason::PairingNotSaved));
    assert!(state.identity.credential.is_none());
    let succeeded = state.handle_pair(&protobuf_headers(), Some(finish()), None, now);
    assert_eq!(succeeded.status, 200);
    assert!(state.store.load_or_create().unwrap().credential.is_some());
}

#[test]
fn pair_status_and_mock_shutdown_flow() {
    let mut state = state_with(
        identity(None),
        PairingCode::from_code("123456".into()).unwrap(),
        MemoryStore::empty(),
        "tcp-test-pc",
    );
    let now = now_unix() * 1000;
    let (client, client_message) = Spake2::<Ed25519Group>::start_a(
        &Password::new(b"123456"),
        &Identity::new(b"decky-client"),
        &Identity::new(b"decky-host"),
    );
    let initial = || pair_request(client_message.clone(), Vec::new(), Vec::new());
    let start = state.handle_pair(&protobuf_headers(), Some(initial()), loopback(), now);
    assert_eq!(start.status, 200);
    let started = match start.body {
        ReplyBody::Pair(response) => response,
        _ => panic!("pairing did not start"),
    };
    assert!(started.encrypted_credential.is_empty());
    let shared = client.finish(&started.host_spake2_message).unwrap();
    let confirmation = confirm(
        &shared,
        &client_message,
        &started.host_spake2_message,
        &started.session_id,
    );
    let finish = || pair_request(Vec::new(), started.session_id.clone(), confirmation.clone());
    let first = state.handle_pair(&protobuf_headers(), Some(finish()), loopback(), now);
    let second = state.handle_pair(&protobuf_headers(), Some(finish()), loopback(), now);
    assert_eq!(first.status, 200);
    assert_eq!(second.status, 200);
    let (paired, again) = match (first.body, second.body) {
        (ReplyBody::Pair(a), ReplyBody::Pair(b)) => (a, b),
        _ => panic!("pairing did not finish"),
    };
    assert_eq!(paired.encrypted_credential, again.encrypted_credential);
    assert_eq!(paired.encryption_nonce, again.encryption_nonce);
    let mut tampered = confirmation.clone();
    tampered[0] ^= 1;
    let refused = state.handle_pair(
        &protobuf_headers(),
        Some(pair_request(Vec::new(), started.session_id.clone(), tampered)),
        loopback(),
        now,
    );
    assert_eq!(refused.status, 401);

    let mut key = [0_u8; 32];
    Hkdf::<Sha256>::new(None, &shared)
        .expand(CREDENTIAL_INFO, &mut key)
        .unwrap();
    let aad = credential_aad(
        &paired.host_spake2_message,
        &paired.session_id,
        &CredentialContext {
            hostname: &paired.hostname,
            host_version: &paired.host_version,
            protocol_version: paired.protocol_version,
            host_id: &paired.host_id,
        },
    )
    .unwrap();
    let credential = ChaCha20Poly1305::new((&key).into())
        .decrypt(
            Nonce::from_slice(&paired.encryption_nonce),
            Payload {
                msg: &paired.encrypted_credential,
                aad: &aad,
            },
        )
        .unwrap();
    assert_eq!(state.identity.credential.unwrap().to_vec(), credential);
    assert_eq!(state.identity.pairing_code, None);

    let status_body = b"status".to_vec();
    let headers = authenticated_headers("/v1/status", &status_body, &credential, random_nonce());
    let reply = state.handle_status(&headers, &status_body, Some(status_request(1)), now_unix());
    assert_eq!(reply.status, 200);
    let headers = authenticated_headers("/v1/status", &status_body, &[99; 32], random_nonce());
    let reply = state.handle_status(&headers, &status_body, Some(status_request(1)), now_unix());
    assert_eq!(reply.status, 401);

    let shutdown_body = b"shutdown".to_vec();
    let headers = authenticated_headers("/v1/shutdown", &shutdown_body, &credential, random_nonce());
    let reply = state.handle_shutdown(&headers, &shutdown_body, Some(shutdown_request()), now_unix());
    assert_eq!(reply.status, 202);
    assert!(state.power.was_requested());

    let again = state.handle_pair(&protobuf_headers(), Some(initial()), loopback(), now);
    assert_eq!(again.status, 409);
    assert_eq!(error_of(&again), (ErrorCode::AlreadyPaired, ErrorReason::AlreadyPaired));
}

#[test]
fn pairing_enforces_expiration_and_attempt_limit() {
    let (_, client_message) = Spake2::<Ed25519Group>::start_a(
        &Password::new(b"123456"),
        &Identity::new(b"decky-client"),
        &Identity::new(b"decky-host"),
    );
    let request = || pair_request(client_message.clone(), Vec::new(), Vec::new());
    let now = now_unix() * 1000;

    let mut expired = state_with(
        identity(None),
        PairingCode::from_code_with_age_at("123456".into(), 301, now).unwrap(),
        MemoryStore::empty(),
        "pairing-boundary-test",
    );
    let reply = expired.handle_pair(&protobuf_headers(), Some(request()), loopback(), now);
    assert_eq!(reply.status, 410);

    let mut limited = state_with(
        identity(None),
        PairingCode::from_code_with_age_at("123456".into(), 0, now).unwrap(),
        MemoryStore::empty(),
        "pairing-boundary-test",
    );
    for _ in 0..8 {
        assert_eq!(
            limited
                .handle_pair(&protobuf_headers(), Some(request()), loopback(), now)
                .status,
            200
        );
    }
    assert_eq!(
        limited
            .handle_pair(&protobuf_headers(), Some(request()), loopback(), now)
            .status,
        429
    );
}

#[test]
fn pairing_checks_the_body_before_anything_else() {
    let mut state = state(None);
    let mut headers = protobuf_headers();
    headers.content_type = None;
    let reply = state.handle_pair(&headers, Some(pair_request(Vec::new(), Vec::new(), Vec::new())), None, 0);
    assert_eq!(reply.status, 415);
    let reply = state.handle_pair(&protobuf_headers(), None, None, 0);
    assert_eq!(reply.status, 400);
    let mut request = pair_request(Vec::new(), Vec::new(), Vec::new());
    request.protocol_version = 2;
    let reply = state.handle_pair(&protobuf_headers(), Some(request), None, 0);
    assert_eq!(reply.status, 426);
    assert_eq!(error_of(&reply), (ErrorCode::ProtocolMismatch, ErrorReason::ProtocolMismatch));
    let reply = state.handle_pair(
        &protobuf_headers(),
        Some(pair_request(Vec::new(), vec![1; 5], vec![0; 32])),
        None,
        0,
    );
    assert_eq!(reply.status, 401);
    assert_eq!(error_of(&reply), (ErrorCode::Unauthorized, ErrorReason::PairingFailed));
}

#[test]
fn only_release_versions_are_recorded() {
    let secret = [8; 32];
    let mut state = state(Some(secret));
    let body = b"status".to_vec();
    let headers = authenticated_headers("/v1/status", &body, &secret, random_nonce());
    let request = StatusRequest {
        protocol_version: 1,
        client_version: "dev-build".into(),
    };
    let reply = state.handle_status(&headers, &body, Some(request), now_unix());
    assert_eq!(reply.status, 200);
    assert_eq!(state.latest_client_version, None);
    assert_eq!(state.identity.last_client_version, None);
}

#[test]
fn route_paths_are_the_protocol_paths() {
    assert_eq!(Route::Status.path(), "/v1/status");
    assert_eq!(Route::Pair.path(), "/v1/pair");
    assert_eq!(Route::Shutdown.path(), "/v1/shutdown");
    assert_eq!(ErrorReason::AlreadyPaired.text(), "This host is already paired.");
}

#[test]
fn a_new_code_keeps_the_credential_usable_and_reopens_pairing() {
    let secret = [8; 32];
    let mut paired = identity(Some(secret));
    paired.pairing_code = None;
    let mut state = state_with(paired, PairingCode::generate(), MemoryStore::empty(), "pc");
    let (_, client_message) = Spake2::<Ed25519Group>::start_a(
        &Password::new(b"000000"),
        &Identity::new(b"decky-client"),
        &Identity::new(b"decky-host"),
    );
    let now = now_unix() * 1000;
    let refused = state.handle_pair(
        &protobuf_headers(),
        Some(pair_request(client_message.clone(), Vec::new(), Vec::new())),
        None,
        now,
    );
    assert_eq!(refused.status, 409);

    generate_pairing_code_at(&mut state, 0, now).ok().unwrap();
    assert_eq!(state.identity.credential, Some(secret));
    let started = state.handle_pair(
        &protobuf_headers(),
        Some(pair_request(client_message, Vec::new(), Vec::new())),
        None,
        now,
    );
    assert_eq!(started.status, 200);

    let body = b"status".to_vec();
    let headers = authenticated_headers("/v1/status", &body, &secret, random_nonce());
    let reply = state.handle_status(&headers, &body, Some(status_request(1)), now_unix());
    assert_eq!(reply.status, 200);
}

#[test]
fn failing_mock_controller_reports_its_rejection() {
    let mut power = MockPowerController::failing();
    assert!(!power.was_requested());
    let error = power.shutdown().err().unwrap();
    assert_eq!(error.message, "mock shutdown rejected");
    assert!(power.was_requested());
    let mut working = MockPowerController::default();
    assert!(working.shutdown().is_ok());
    assert!(working.was_requested());
}
