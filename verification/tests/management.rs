use std::cell::{Cell, RefCell};

use decky_power_host::auth::now_unix;
use decky_power_host::management::{
    generate_pairing_code, generate_pairing_code_at, pairing_state, pairing_state_at,
    persisted_code_age, state_for_test, RestoreError,
};
use decky_power_host::management_ipc::{respond, respond_at, Operation};
use decky_power_host::pairing::PairingError;
use decky_power_host::power::MockPowerController;
use decky_power_host::server::AppState;
use decky_power_host::storage::{CredentialStore, HostIdentity, StoreError};

struct MemoryStore {
    saved: RefCell<Option<HostIdentity>>,
    fail_next: Cell<bool>,
}

impl MemoryStore {
    fn empty() -> Self {
        MemoryStore {
            saved: RefCell::new(None),
            fail_next: Cell::new(false),
        }
    }

    fn holding(identity: HostIdentity) -> Self {
        MemoryStore {
            saved: RefCell::new(Some(identity)),
            fail_next: Cell::new(false),
        }
    }
}

impl CredentialStore for MemoryStore {
    fn load_or_create(&self) -> Result<HostIdentity, StoreError> {
        let mut saved = self.saved.borrow_mut();
        if saved.is_none() {
            *saved = Some(HostIdentity::default());
        }
        Ok(saved.as_ref().unwrap().duplicate())
    }

    fn save(&self, identity: &HostIdentity) -> Result<(), StoreError> {
        if self.fail_next.replace(false) {
            return Err(StoreError {
                message: "injected persistence failure".into(),
            });
        }
        *self.saved.borrow_mut() = Some(identity.duplicate());
        Ok(())
    }
}

fn identity_with_code(created_at: u64) -> HostIdentity {
    let mut identity = HostIdentity::default();
    identity.pairing_code = Some("123456".into());
    identity.pairing_created_at = created_at;
    identity
}

#[test]
fn local_management_generates_persists_and_regenerates_one_code() {
    let mut state = state_for_test(MemoryStore::empty(), "managed-host").ok().unwrap();
    let first = generate_pairing_code(&mut state).ok().unwrap();
    let second = generate_pairing_code(&mut state).ok().unwrap();

    assert_eq!(first.code.as_ref().unwrap().len(), 6);
    assert_ne!(first.code, second.code);
    assert!(second.expires_in > 299_000);
    let persisted = state.store.load_or_create().unwrap();
    assert_eq!(persisted.pairing_code, second.code);
}

#[test]
fn restart_preserves_code_age_instead_of_reviving_it() {
    let store = MemoryStore::holding(identity_with_code(now_unix().saturating_sub(301)));
    let state = state_for_test(store, "restarted-host").ok().unwrap();
    let pairing = pairing_state(&state);

    assert_eq!(pairing.code.as_deref(), Some("123456"));
    assert_eq!(pairing.expires_in, 0);
}

#[test]
fn restart_restores_the_last_authenticated_plugin_version() {
    let mut identity = HostIdentity::default();
    identity.last_client_version = Some("1.4.2".into());
    let state = state_for_test(MemoryStore::holding(identity), "restarted-host").ok().unwrap();

    assert_eq!(state.latest_client_version.as_deref(), Some("1.4.2"));
}

#[test]
fn clock_rollback_does_not_revive_a_persisted_code() {
    let store = MemoryStore::holding(identity_with_code(now_unix() + 60));
    let state = state_for_test(store, "rollback-host").ok().unwrap();
    assert_eq!(pairing_state(&state).expires_in, 0);
}

#[test]
fn persisted_code_age_counts_unknown_and_future_times_as_expired() {
    assert_eq!(persisted_code_age(0, 1_000), 301);
    assert_eq!(persisted_code_age(1_001, 1_000), 301);
    assert_eq!(persisted_code_age(1_000, 1_000), 0);
    assert_eq!(persisted_code_age(900, 1_000), 100);
    assert_eq!(persisted_code_age(1, 100_000), 99_999);
}

#[test]
fn restore_ages_a_recent_code_and_keeps_its_remaining_lifetime() {
    let now_ms = 1_800_000_000_000_u64;
    let identity = identity_with_code(now_ms / 1000 - 100);
    let state = AppState::restore_at(
        identity,
        MemoryStore::empty(),
        MockPowerController::default(),
        "host".into(),
        42,
        now_ms,
    )
    .ok()
    .unwrap();
    let shown = pairing_state_at(&state, now_ms);
    assert_eq!(shown.code.as_deref(), Some("123456"));
    assert_eq!(shown.expires_in, 200_000);
    assert!(!shown.paired);
}

#[test]
fn restore_without_a_persisted_code_shows_none_but_keeps_a_fresh_one() {
    let mut identity = HostIdentity::default();
    identity.pairing_code = None;
    identity.credential = Some([3; 32]);
    let state = AppState::restore_at(
        identity,
        MemoryStore::empty(),
        MockPowerController::default(),
        "host".into(),
        42,
        5_000_000,
    )
    .ok()
    .unwrap();
    assert_eq!(state.pairing.display_code(), "000042");
    let shown = pairing_state_at(&state, 5_000_000);
    assert_eq!(shown.code, None);
    assert!(shown.paired);
    assert_eq!(shown.expires_in, 300_000);
}

#[test]
fn restore_refuses_a_persisted_code_that_is_not_six_digits() {
    let mut identity = HostIdentity::default();
    identity.pairing_code = Some("12a456".into());
    assert!(matches!(
        AppState::restore_at(
            identity,
            MemoryStore::empty(),
            MockPowerController::default(),
            "host".into(),
            1,
            1,
        ),
        Err(PairingError::Invalid)
    ));
    let mut identity = HostIdentity::default();
    identity.pairing_code = Some("1".into());
    assert!(matches!(
        state_for_test(MemoryStore::holding(identity), "host"),
        Err(RestoreError::Pairing(PairingError::Invalid))
    ));
}

#[test]
fn generated_code_is_saved_before_it_is_used() {
    let mut state = state_for_test(MemoryStore::empty(), "host").ok().unwrap();
    let before = state.pairing.display_code().to_owned();
    state.store.fail_next.set(true);
    let failed = generate_pairing_code_at(&mut state, 654_321, 9_000_000);
    assert_eq!(failed.err().unwrap().message, "injected persistence failure");
    assert_eq!(state.pairing.display_code(), before);

    let issued = generate_pairing_code_at(&mut state, 654_321, 9_000_000).ok().unwrap();
    assert_eq!(issued.code.as_deref(), Some("654321"));
    assert_eq!(issued.expires_in, 300_000);
    assert_eq!(state.pairing.display_code(), "654321");
    assert_eq!(state.identity.pairing_created_at, 9_000);
    let persisted = state.store.load_or_create().unwrap();
    assert_eq!(persisted.pairing_code.as_deref(), Some("654321"));
    assert_eq!(persisted.pairing_created_at, 9_000);
}

#[test]
fn management_channel_generates_code_and_reports_versions() {
    let mut state = state_for_test(MemoryStore::empty(), "ipc-test").ok().unwrap();
    state.latest_client_version = Some("0.2.0".into());
    let response = respond(&mut state, Operation::GeneratePairingCode, 48100);
    assert!(response.ok);
    assert_eq!(response.port, 48100);
    assert_eq!(response.host_version, decky_power_host::HOST_VERSION);
    assert_eq!(response.plugin_version.as_deref(), Some("0.2.0"));
    assert_eq!(response.version_status, "update_host");
    assert_eq!(response.pairing_code.as_ref().unwrap().len(), 6);
    assert_eq!(response.expires_in_seconds, 300);
}

#[test]
fn management_channel_reports_state_and_store_failures() {
    let mut state = state_for_test(MemoryStore::empty(), "ipc-test").ok().unwrap();
    let created_ms = state.identity.pairing_created_at * 1000;
    let info = respond_at(&mut state, Operation::GetServiceInfo, 1, 7, created_ms);
    assert!(info.ok);
    assert!(info.service_running);
    assert_eq!(info.plugin_version, None);
    assert_eq!(info.version_status, "unknown");
    assert_eq!(info.pairing_code.as_deref(), Some(state.pairing.display_code()));

    state.store.fail_next.set(true);
    let failed = respond_at(&mut state, Operation::GeneratePairingCode, 2, 7, created_ms);
    assert!(!failed.ok);
    assert_eq!(failed.error.as_deref(), Some("injected persistence failure"));
    assert_eq!(failed.port, 2);
    assert_eq!(failed.pairing_code, None);
    assert_eq!(failed.expires_in_seconds, 0);
    assert_eq!(failed.version_status, "unknown");

    let pairing = respond_at(&mut state, Operation::GetPairingState, 3, 7, created_ms);
    assert!(pairing.ok);
    assert!(!pairing.paired);
}

#[test]
fn management_channel_never_reissues_the_current_code() {
    let mut state = state_for_test(MemoryStore::empty(), "ipc-test").ok().unwrap();
    for _ in 0..20 {
        let before = state.pairing.display_code().to_owned();
        let response = respond(&mut state, Operation::GeneratePairingCode, 1);
        assert!(response.ok);
        assert_ne!(response.pairing_code.as_deref(), Some(before.as_str()));
        assert_eq!(response.pairing_code.as_deref(), Some(state.pairing.display_code()));
    }
}
