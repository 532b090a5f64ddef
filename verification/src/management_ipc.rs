//! The decisions of the local management channel: who may open it, how
//! requests are framed, how failures to listen are retried, and what each
//! operation answers. The executable owns the named pipe and the JSON codec.

use vstd::prelude::*;
use vstd::string::StringExecFns;

use crate::crypto::random_below;
use crate::management::{fresh_code, generate_pairing_code_at, pairing_state_at, PairingState};
use crate::pairing::{code_remaining_ms, six_digits, PAIRING_LIFETIME_MS};
use crate::power::PowerController;
use crate::server::{one_save, AppState};
use crate::storage::{copy_text, option_text, CredentialStore, HostIdentityView};
use crate::versioning::{compare, spec_compare, VersionRelation};
use crate::HOST_VERSION;

verus! {

/// Name of the local management pipe.
pub const PIPE_NAME: &'static str = "\\\\.\\pipe\\DeckyPowerHostControl";

/// Access control of the pipe: a protected DACL granting full access to
/// LocalSystem and the built-in Administrators only.
pub const PIPE_SDDL: &'static str = "D:P(A;;GA;;;SY)(A;;GA;;;BA)";

/// Largest request body accepted on the pipe, in bytes.
pub const MAX_REQUEST_LENGTH: u32 = 4096;

/// Consecutive failures to listen after which the channel gives up.
pub const MAX_CONSECUTIVE_FAILURES: u32 = 5;

pub open spec fn doubling(n: nat) -> nat
    decreases n,
{
    if n == 0 {
        1
    } else {
        2 * doubling((n - 1) as nat)
    }
}

pub open spec fn spec_retry_delay(attempt: u32) -> u64 {
    (100 * doubling(if attempt < 4 { attempt as nat } else { 4 })) as u64
}

/// Milliseconds to wait before retrying after the `attempt`-th consecutive
/// failure: 100 ms doubled per attempt, at most 1.6 s.
pub fn retry_delay(attempt: u32) -> (delay: u64)
    ensures
        delay == spec_retry_delay(attempt),
        delay <= 1600,
{
    let exponent: u32 = if attempt < 4 {
        attempt
    } else {
        4
    };
    let mut factor: u64 = 1;
    let mut i: u32 = 0;
    while i < exponent
        invariant
            i <= exponent <= 4,
            factor == doubling(i as nat),
            factor <= 16,
        decreases exponent - i,
    {
        proof {
            reveal_with_fuel(doubling, 5);
        }
        factor = factor * 2;
        i = i + 1;
    }
    proof {
        reveal_with_fuel(doubling, 5);
    }
    100 * factor
}

/// What the listening loop does after a failure.
#[derive(Debug, Clone, Copy, PartialEq, Eq, Structural)]
pub enum RetryDecision {
    Retry { delay_ms: u64 },
    GiveUp,
}

/// The listening loop's memory: whether the next pipe is the first instance,
/// and how many failures happened since the last accepted connection.
pub struct PipeSupervisor {
    first: bool,
    consecutive_failures: u32,
}

impl PipeSupervisor {
    pub closed spec fn first(&self) -> bool {
        self.first
    }

    pub closed spec fn failures(&self) -> u32 {
        self.consecutive_failures
    }

    pub fn new() -> (s: Self)
        ensures
            s.first(),
            s.failures() == 0,
    {
        PipeSupervisor { first: true, consecutive_failures: 0 }
    }

    /// Whether the pipe about to be created must be its first instance.
    pub fn first_instance(&self) -> (first: bool)
        ensures
            first == self.first(),
    {
        self.first
    }

    /// A pipe instance was created: later ones are not the first.
    pub fn on_created(&mut self)
        ensures
            !final(self).first(),
            final(self).failures() == old(self).failures(),
    {
        self.first = false;
    }

    /// A connection was accepted: the failure count starts over.
    pub fn on_connected(&mut self)
        ensures
            final(self).first() == old(self).first(),
            final(self).failures() == 0,
    {
        self.consecutive_failures = 0;
    }

    /// Creating or connecting a pipe failed: retry after a bounded backoff,
    /// or give up at the fifth failure in a row.
    pub fn on_failure(&mut self) -> (d: RetryDecision)
        ensures
            final(self).first() == old(self).first(),
            final(self).failures() == if old(self).failures() < u32::MAX {
                (old(self).failures() + 1) as u32
            } else {
                u32::MAX
            },
            d == if final(self).failures() >= MAX_CONSECUTIVE_FAILURES {
                RetryDecision::GiveUp
            } else {
                RetryDecision::Retry { delay_ms: spec_retry_delay(final(self).failures()) }
            },
    {
        if self.consecutive_failures < u32::MAX {
            self.consecutive_failures = self.consecutive_failures + 1;
        }
        if self.consecutive_failures >= MAX_CONSECUTIVE_FAILURES {
            RetryDecision::GiveUp
        } else {
            RetryDecision::Retry { delay_ms: retry_delay(self.consecutive_failures) }
        }
    }
}

pub open spec fn le_u32(prefix: Seq<u8>) -> nat {
    (prefix[0] + 256 * prefix[1] + 65536 * prefix[2] + 16777216 * prefix[3]) as nat
}

/// The length of a request from its little-endian prefix, when it is
/// between 1 and `MAX_REQUEST_LENGTH`.
pub fn request_length(prefix: [u8; 4]) -> (length: Option<u32>)
    ensures
        match length {
            Some(n) => n == le_u32(prefix@) && 1 <= n <= MAX_REQUEST_LENGTH,
            None => le_u32(prefix@) == 0 || le_u32(prefix@) > MAX_REQUEST_LENGTH,
        },
{
    let value: u64 = prefix[0] as u64 + 256 * (prefix[1] as u64) + 65536 * (prefix[2] as u64) + 16777216 * (
    prefix[3] as u64);
    if value == 0 || value > MAX_REQUEST_LENGTH as u64 {
        None
    } else {
        Some(value as u32)
    }
}

/// The little-endian length prefix of a reply of `length` bytes.
pub fn length_prefix(length: u32) -> (prefix: [u8; 4])
    ensures
        le_u32(prefix@) == length,
{
    let b0 = (length % 256) as u8;
    let b1 = ((length / 256) % 256) as u8;
    let b2 = ((length / 65536) % 256) as u8;
    let b3 = (length / 16777216) as u8;
    let prefix = [b0, b1, b2, b3];
    assert(prefix@[0] == b0 && prefix@[1] == b1 && prefix@[2] == b2 && prefix@[3] == b3);
    prefix
}

/// An operation asked for on the management channel.
#[derive(Debug, Clone, Copy, PartialEq, Eq, Structural)]
pub enum Operation {
    GetServiceInfo,
    GetPairingState,
    GeneratePairingCode,
}

pub open spec fn version_status_text(relation: VersionRelation) -> Seq<char> {
    match relation {
        VersionRelation::Compatible => "compatible"@,
        VersionRelation::UpdateHost => "update_host"@,
        VersionRelation::UpdatePlugin => "update_plugin"@,
        VersionRelation::Incompatible => "incompatible"@,
        VersionRelation::Unknown => "unknown"@,
    }
}

pub open spec fn spec_version_status(plugin_version: Option<Seq<char>>) -> Seq<char> {
    match plugin_version {
        Some(v) => version_status_text(spec_compare(v, HOST_VERSION@)),
        None => "unknown"@,
    }
}

/// How the last authenticated plugin version relates to this host.
pub fn version_status(plugin_version: Option<&str>) -> (status: &'static str)
    ensures
        status@ == spec_version_status(
            match plugin_version {
                Some(v) => Some(v@),
                None => None,
            },
        ),
{
    match plugin_version {
        Some(version) => match compare(version, HOST_VERSION) {
            VersionRelation::Compatible => "compatible",
            VersionRelation::UpdateHost => "update_host",
            VersionRelation::UpdatePlugin => "update_plugin",
            VersionRelation::Incompatible => "incompatible",
            VersionRelation::Unknown => "unknown",
        },
        None => "unknown",
    }
}

/// The answer written back on the management channel.
pub struct ManagementResponse {
    pub ok: bool,
    pub error: Option<String>,
    pub service_running: bool,
    pub port: u16,
    pub paired: bool,
    pub pairing_code: Option<String>,
    pub expires_in_seconds: u64,
    pub host_version: &'static str,
    pub plugin_version: Option<String>,
    pub version_status: &'static str,
}

/// A successful answer carrying a pairing state.
pub open spec fn is_success_response(
    r: ManagementResponse,
    port: u16,
    paired: bool,
    code: Option<Seq<char>>,
    expires_in_ms: u64,
    plugin_version: Option<Seq<char>>,
) -> bool {
    &&& r.ok
    &&& r.error is None
    &&& r.service_running
    &&& r.port == port
    &&& r.paired == paired
    &&& option_text(r.pairing_code) == code
    &&& r.expires_in_seconds == expires_in_ms / 1000
    &&& r.host_version@ == HOST_VERSION@
    &&& option_text(r.plugin_version) == plugin_version
    &&& r.version_status@ == spec_version_status(plugin_version)
}

/// A failed answer: only the error, the port and this host's version.
pub open spec fn is_failure_response(r: ManagementResponse, port: u16) -> bool {
    &&& !r.ok
    &&& r.error is Some
    &&& r.service_running
    &&& r.port == port
    &&& !r.paired
    &&& r.pairing_code is None
    &&& r.expires_in_seconds == 0
    &&& r.host_version@ == HOST_VERSION@
    &&& r.plugin_version is None
    &&& r.version_status@ == "unknown"@
}

fn success_response(pairing: PairingState, port: u16, plugin_version: Option<String>) -> (r:
    ManagementResponse)
    ensures
        is_success_response(
            r,
            port,
            pairing.paired,
            option_text(pairing.code),
            pairing.expires_in,
            option_text(plugin_version),
        ),
{
    let status = match &plugin_version {
        Some(version) => version_status(Some(version.as_str())),
        None => version_status(None),
    };
    ManagementResponse {
        ok: true,
        error: None,
        service_running: true,
        port,
        paired: pairing.paired,
        pairing_code: pairing.code,
        expires_in_seconds: pairing.expires_in / 1000,
        host_version: HOST_VERSION,
        plugin_version,
        version_status: status,
    }
}

/// What the management channel does for `operation` at `now` (ms), a
/// generated code being made of the six digits of `value`: the pairing state
/// is answered with the plugin version last seen on an authenticated request;
/// generating hands the identity with the new code to the store, switches to
/// the code and answers it only when the store saved it, and otherwise
/// answers a failure carrying the store's error message and changes nothing.
pub open spec fn responded<S: CredentialStore, P: PowerController>(
    before: AppState<S, P>,
    after: AppState<S, P>,
    operation: Operation,
    r: ManagementResponse,
    port: u16,
    value: nat,
    now: u64,
) -> bool {
    let updated = HostIdentityView {
        pairing_code: Some(six_digits(value)),
        pairing_created_at: now / 1000,
        ..before.identity@
    };
    &&& after.authenticator@ == before.authenticator@
    &&& after.hostname@ == before.hostname@
    &&& option_text(after.latest_client_version) == option_text(before.latest_client_version)
    &&& after.power == before.power
    &&& after.power_requests@ == before.power_requests@
    &&& if operation != Operation::GeneratePairingCode {
        &&& after.pairing@ == before.pairing@
        &&& after.identity@ == before.identity@
        &&& after.saves@ == before.saves@
        &&& is_success_response(
            r,
            port,
            before.identity@.credential is Some,
            if before.identity@.pairing_code is Some {
                Some(before.pairing@.code)
            } else {
                None
            },
            code_remaining_ms(before.pairing@, now),
            option_text(before.latest_client_version),
        )
    } else {
        &&& one_save(before.saves@, after.saves@, updated, r.ok)
        &&& if r.ok {
            &&& fresh_code(after.pairing@, value, now)
            &&& after.identity@ == updated
            &&& is_success_response(
                r,
                port,
                before.identity@.credential is Some,
                Some(six_digits(value)),
                PAIRING_LIFETIME_MS,
                option_text(before.latest_client_version),
            )
        } else {
            &&& after.pairing@ == before.pairing@
            &&& after.identity@ == before.identity@
            &&& is_failure_response(r, port)
            &&& after.saves@.last().1 matches Err(e) && r.error matches Some(text) && text@ == e.message@
        }
    }
}

/// Performs `operation` for a client of the management channel at `now`
/// (ms); a generated code is made of the six digits of `value`.
pub fn respond_at<S: CredentialStore, P: PowerController>(
    state: &mut AppState<S, P>,
    operation: Operation,
    port: u16,
    value: u32,
    now: u64,
) -> (r: ManagementResponse)
    requires
        old(state).wf(),
        value < 1_000_000,
    ensures
        final(state).wf(),
        responded(*old(state), *final(state), operation, r, port, value as nat, now),
{
    let pairing = match operation {
        Operation::GeneratePairingCode => generate_pairing_code_at(state, value, now),
        _ => Ok(pairing_state_at(state, now)),
    };
    match pairing {
        Ok(pairing) => success_response(pairing, port, copy_text(&state.latest_client_version)),
        Err(error) => ManagementResponse {
            ok: false,
            error: Some(error.message),
            service_running: true,
            port,
            paired: false,
            pairing_code: None,
            expires_in_seconds: 0,
            host_version: HOST_VERSION,
            plugin_version: None,
            version_status: "unknown",
        },
    }
}

/// Performs `operation` now; a generated code differs from the current one.
pub fn respond<S: CredentialStore, P: PowerController>(
    state: &mut AppState<S, P>,
    operation: Operation,
    port: u16,
) -> (r: ManagementResponse)
    requires
        old(state).wf(),
    ensures
        final(state).wf(),
        operation == Operation::GeneratePairingCode && r.ok ==> final(state).pairing@.code != old(
            state,
        ).pairing@.code,
        exists|value: nat, now: u64|
            value < 1_000_000 && six_digits(value) != old(state).pairing@.code && #[trigger] responded(
                *old(state),
                *final(state),
                operation,
                r,
                port,
                value,
                now,
            ),
{
    let value = state.pairing.next_code_value(random_below(999_999));
    let now = state.pairing.now_millis();
    let r = respond_at(state, operation, port, value, now);
    assert(responded(*old(state), *state, operation, r, port, value as nat, now));
    r
}

} // verus!
