//! Local management of the running host: the pairing state shown to the
//! owner of the machine, generating a new code, and restoring the host's
//! state after a restart without reviving an old code.

use vstd::prelude::*;
use vstd::string::StringExecFns;

use crate::crypto::{random_below, unix_millis};
use crate::pairing::{
    code_alive, code_remaining_ms, is_pairing_code, restored_code, six_digits, PairingCode, PairingCodeView,
    PairingError, PAIRING_LIFETIME_MS,
};
use crate::power::{MockPowerController, PowerController};
use crate::server::{save_recorded, AppState};
use crate::storage::{copy_text, option_text, CredentialStore, HostIdentity, HostIdentityView, StoreError};

verus! {

/// The age given to a persisted code whose creation time is unknown (zero)
/// or lies in the future: one second past the code lifetime.
pub const UNKNOWN_CODE_AGE_SECS: u64 = 301;

pub open spec fn spec_persisted_code_age(created_at: u64, now: u64) -> u64 {
    if created_at == 0 || created_at > now {
        UNKNOWN_CODE_AGE_SECS
    } else {
        (now - created_at) as u64
    }
}

/// How old, in seconds at `now` (Unix seconds), a code persisted at
/// `created_at` is. A missing or future creation time counts as expired, so
/// that a clock set back cannot revive a code.
pub fn persisted_code_age(created_at: u64, now: u64) -> (age: u64)
    ensures
        age == spec_persisted_code_age(created_at, now),
{
    if created_at == 0 || created_at > now {
        UNKNOWN_CODE_AGE_SECS
    } else {
        now - created_at
    }
}

/// What the owner of the machine is shown: whether a client is paired, the
/// pairing code while one is issued, and its remaining lifetime in ms.
pub struct PairingState {
    pub paired: bool,
    pub code: Option<String>,
    pub expires_in: u64,
}

/// The pairing state of `identity` and `pairing` at `now` (ms).
pub open spec fn is_pairing_state(
    s: PairingState,
    identity: HostIdentityView,
    pairing: PairingCodeView,
    now: u64,
) -> bool {
    &&& s.paired == (identity.credential is Some)
    &&& option_text(s.code) == if identity.pairing_code is Some {
        Some(pairing.code)
    } else {
        None::<Seq<char>>
    }
    &&& s.expires_in == code_remaining_ms(pairing, now)
}

/// The pairing state at `now` (ms).
pub fn pairing_state_at<S: CredentialStore, P: PowerController>(state: &AppState<S, P>, now: u64) -> (s:
    PairingState)
    ensures
        is_pairing_state(s, state.identity@, state.pairing@, now),
{
    let code = match &state.identity.pairing_code {
        Some(_) => Some(String::from_str(state.pairing.display_code())),
        None => None,
    };
    PairingState {
        paired: state.identity.credential.is_some(),
        code,
        expires_in: state.pairing.expires_in_at(now),
    }
}

/// The pairing state now.
pub fn pairing_state<S: CredentialStore, P: PowerController>(state: &AppState<S, P>) -> (s: PairingState)
    ensures
        s.paired == (state.identity@.credential is Some),
        option_text(s.code) == if state.identity@.pairing_code is Some {
            Some(state.pairing@.code)
        } else {
            None::<Seq<char>>
        },
        s.expires_in <= PAIRING_LIFETIME_MS,
        exists|now: u64| #[trigger] is_pairing_state(s, state.identity@, state.pairing@, now),
{
    let now = state.pairing.now_millis();
    pairing_state_at(state, now)
}

/// A code just issued at `now` (ms) from `value`: no exchange, no failure.
pub open spec fn fresh_code(pairing: PairingCodeView, value: nat, now: u64) -> bool {
    &&& pairing.code == six_digits(value)
    &&& pairing.created == now
    &&& !pairing.spent
    &&& pairing.failures.len() == 0
    &&& pairing.pending.len() == 0
    &&& pairing.completed.len() == 0
}

/// What issuing the code made of the six digits of `value` at `now` (ms)
/// does to the host: the identity holding the new code and its creation time
/// (in seconds) is handed to the store; only when the store saved it does the
/// host switch to the code, dropping every exchange of the old one, and
/// answer its state. When saving fails, the error the store returned is
/// answered and nothing else changes.
pub open spec fn code_generated<S: CredentialStore, P: PowerController>(
    before: AppState<S, P>,
    after: AppState<S, P>,
    r: Result<PairingState, StoreError>,
    value: nat,
    now: u64,
) -> bool {
    let updated = HostIdentityView {
        pairing_code: Some(six_digits(value)),
        pairing_created_at: now / 1000,
        ..before.identity@
    };
    &&& after.authenticator@ == before.authenticator@
    &&& after.hostname@ == before.hostname@
    &&& option_text(after.latest_client_version) == option_text(before.latest_client_version)
    &&& after.power == before.power
    &&& after.power_requests@ == before.power_requests@
    &&& match r {
        Ok(s) => {
            &&& after.saves@ == before.saves@.push((updated, Ok(())))
            &&& fresh_code(after.pairing@, value, now)
            &&& after.identity@ == updated
            &&& s.paired == (before.identity@.credential is Some)
            &&& option_text(s.code) == Some(six_digits(value))
            &&& s.expires_in == PAIRING_LIFETIME_MS
        },
        Err(e) => {
            &&& after.saves@ == before.saves@.push((updated, Err(e)))
            &&& after.pairing@ == before.pairing@
            &&& after.identity@ == before.identity@
        },
    }
}

/// Issues the code made of the six digits of `value` at `now` (ms), once it
/// is saved.
pub fn generate_pairing_code_at<S: CredentialStore, P: PowerController>(
    state: &mut AppState<S, P>,
    value: u32,
    now: u64,
) -> (r: Result<PairingState, StoreError>)
    requires
        old(state).wf(),
        value < 1_000_000,
    ensures
        final(state).wf(),
        code_generated(*old(state), *final(state), r, value as nat, now),
{
    let generated = PairingCode::with_value_at(value, now);
    let mut updated = state.identity.duplicate();
    updated.pairing_code = Some(String::from_str(generated.display_code()));
    updated.pairing_created_at = now / 1000;
    match save_recorded(&state.store, &mut state.saves, &updated) {
        Ok(()) => {},
        Err(error) => {
            return Err(error);
        },
    }
    state.identity = updated;
    state.pairing = generated;
    Ok(pairing_state_at(state, now))
}

/// Issues a new random code now, different from the current one.
pub fn generate_pairing_code<S: CredentialStore, P: PowerController>(state: &mut AppState<S, P>) -> (r:
    Result<PairingState, StoreError>)
    requires
        old(state).wf(),
    ensures
        final(state).wf(),
        r is Ok ==> final(state).pairing@.code != old(state).pairing@.code,
        exists|value: nat, now: u64|
            value < 1_000_000 && six_digits(value) != old(state).pairing@.code && #[trigger] code_generated(
                *old(state),
                *final(state),
                r,
                value,
                now,
            ),
{
    let value = state.pairing.next_code_value(random_below(999_999));
    let now = state.pairing.now_millis();
    let r = generate_pairing_code_at(state, value, now);
    assert(code_generated(*old(state), *state, r, value as nat, now));
    r
}

/// The code table restored at `now` (ms) for a persisted identity, when its
/// code is valid: the persisted code, aged by the time since it was issued
/// (capped just past the lifetime, and spent when past it), or a fresh code
/// from `fresh` when none was persisted.
pub open spec fn restored_pairing(identity: HostIdentityView, fresh: nat, now: u64) -> PairingCodeView {
    match identity.pairing_code {
        Some(code) => restored_code(code, spec_persisted_code_age(identity.pairing_created_at, now / 1000), now),
        None => PairingCodeView {
            code: six_digits(fresh),
            created: now,
            spent: false,
            failures: Seq::empty(),
            pending: Seq::empty(),
            completed: Seq::empty(),
        },
    }
}

impl<S: CredentialStore, P: PowerController> AppState<S, P> {
    /// The host's state after a restart at `now` (ms): the persisted identity,
    /// its code restored with its age, an empty verifier memory, and the last
    /// plugin version seen before the restart. A persisted code that is not
    /// six digits is refused.
    pub fn restore_at(
        identity: HostIdentity,
        store: S,
        power: P,
        hostname: String,
        fresh: u32,
        now: u64,
    ) -> (r: Result<Self, PairingError>)
        requires
            fresh < 1_000_000,
        ensures
            match identity@.pairing_code {
                Some(code) if !is_pairing_code(code) => r == Err::<Self, PairingError>(PairingError::Invalid),
                _ => r matches Ok(state) && {
                    &&& state.wf()
                    &&& state.identity@ == identity@
                    &&& state.pairing@ == restored_pairing(identity@, fresh as nat, now)
                    &&& state.authenticator@.nonces.len() == 0
                    &&& state.authenticator@.failures.len() == 0
                    &&& state.hostname@ == hostname@
                    &&& state.power == power
                    &&& option_text(state.latest_client_version) == identity@.last_client_version
                    &&& state.saves@.len() == 0
                    &&& state.power_requests@.len() == 0
                },
            },
    {
        let pairing = match &identity.pairing_code {
            Some(code) => {
                let age = persisted_code_age(identity.pairing_created_at, now / 1000);
                match PairingCode::from_code_with_age_at(code.clone(), age, now) {
                    Ok(pairing) => pairing,
                    Err(error) => {
                        return Err(error);
                    },
                }
            },
            None => PairingCode::with_value_at(fresh, now),
        };
        let latest_client_version = copy_text(&identity.last_client_version);
        let state = AppState::new(identity, pairing, store, power, hostname, latest_client_version);
        assert(state.pairing@.failures =~= Seq::<(Option<crate::pairing::SourceAddress>, u8)>::empty());
        assert(state.pairing@.pending =~= Seq::<crate::pairing::PendingView>::empty());
        assert(state.pairing@.completed =~= Seq::<crate::pairing::CompletedView>::empty());
        assert(state.pairing@ == restored_pairing(state.identity@, fresh as nat, now));
        Ok(state)
    }

    /// The host's state after a restart now.
    pub fn restore(identity: HostIdentity, store: S, power: P, hostname: String) -> (r: Result<
        Self,
        PairingError,
    >)
        ensures
            match identity@.pairing_code {
                Some(code) if !is_pairing_code(code) => r == Err::<Self, PairingError>(PairingError::Invalid),
                _ => r matches Ok(state) && {
                    &&& state.wf()
                    &&& state.identity@ == identity@
                    &&& state.hostname@ == hostname@
                    &&& state.power == power
                    &&& state.authenticator@.nonces.len() == 0
                    &&& state.authenticator@.failures.len() == 0
                    &&& option_text(state.latest_client_version) == identity@.last_client_version
                    &&& state.saves@.len() == 0
                    &&& state.power_requests@.len() == 0
                    &&& exists|fresh: nat, now: u64|
                        fresh < 1_000_000 && state.pairing@ == #[trigger] restored_pairing(identity@, fresh, now)
                },
            },
    {
        let fresh = random_below(1_000_000);
        let now = unix_millis();
        let ghost persisted = identity@;
        let r = Self::restore_at(identity, store, power, hostname, fresh, now);
        assert(r matches Ok(state) ==> state.pairing@ == restored_pairing(persisted, fresh as nat, now));
        r
    }
}

/// Why a development host could not be set up.
#[derive(Debug)]
pub enum RestoreError {
    Store(StoreError),
    Pairing(PairingError),
}

/// A host with a mock power controller, restored from what `store` holds.
pub fn state_for_test<S: CredentialStore>(store: S, hostname: &str) -> (r: Result<
    AppState<S, MockPowerController>,
    RestoreError,
>)
    ensures
        r matches Ok(state) ==> {
            &&& state.wf()
            &&& state.hostname@ == hostname@
            &&& !state.power.requested()
            &&& !state.power.fails()
            &&& state.authenticator@.nonces.len() == 0
            &&& state.authenticator@.failures.len() == 0
            &&& option_text(state.latest_client_version) == state.identity@.last_client_version
            &&& state.identity@.pairing_code matches Some(code) ==> state.pairing@.code == code
            &&& exists|fresh: nat, now: u64|
                fresh < 1_000_000 && state.pairing@ == #[trigger] restored_pairing(state.identity@, fresh, now)
        },
        r matches Err(RestoreError::Pairing(e)) ==> e == PairingError::Invalid,
{
    let identity = match store.load_or_create() {
        Ok(identity) => identity,
        Err(error) => {
            return Err(RestoreError::Store(error));
        },
    };
    match AppState::restore(identity, store, MockPowerController::default(), String::from_str(hostname)) {
        Ok(state) => Ok(state),
        Err(error) => Err(RestoreError::Pairing(error)),
    }
}

/// A code restored from storage with a missing, future or too old creation
/// time is expired from the moment the host starts: it is still shown, but
/// it accepts no exchange and has no time left at any clock reading, earlier
/// ones included.
pub proof fn lemma_restored_code_never_revives(identity: HostIdentityView, fresh: nat, now: u64, later: u64)
    requires
        identity.pairing_code is Some,
        spec_persisted_code_age(identity.pairing_created_at, now / 1000) > 300,
    ensures
        restored_pairing(identity, fresh, now).code == identity.pairing_code->Some_0,
        !code_alive(restored_pairing(identity, fresh, now), later),
        code_remaining_ms(restored_pairing(identity, fresh, now), later) == 0,
{
}

} // verus!
