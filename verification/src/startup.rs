//! How the host executable is started: the command-line rules of the
//! development mode, the listening port, and a pairing code given on the
//! command line.

use vstd::prelude::*;
use vstd::string::StringExecFns;

use crate::config::HostConfig;
use crate::pairing::{is_pairing_code, PairingCode};
use crate::server::text_equal;
use crate::storage::{CredentialStore, HostIdentity, HostIdentityView, StoreError};

verus! {

/// Name of the development state file, next to the configuration file.
pub const DEV_STATE_FILE_NAME: &'static str = "DeckyPowerHost.dev-state.json";

pub open spec fn texts(arguments: Seq<String>) -> Seq<Seq<char>> {
    Seq::new(arguments.len(), |i: int| arguments[i]@)
}

pub open spec fn has_argument(arguments: Seq<Seq<char>>, flag: Seq<char>) -> bool {
    exists|i: int| 0 <= i < arguments.len() && arguments[i] == flag
}

/// The argument that follows the first occurrence of `name` at or after
/// `from` that has one.
pub open spec fn value_after(arguments: Seq<Seq<char>>, name: Seq<char>, from: int) -> Option<Seq<char>>
    decreases arguments.len() - from,
{
    if from < 0 || from + 1 >= arguments.len() {
        None
    } else if arguments[from] == name {
        Some(arguments[from + 1])
    } else {
        value_after(arguments, name, from + 1)
    }
}

/// Whether `flag` is one of the arguments.
pub fn has_flag(arguments: &[String], flag: &str) -> (found: bool)
    ensures
        found == has_argument(texts(arguments@), flag@),
{
    let mut i: usize = 0;
    while i < arguments.len()
        invariant
            i <= arguments@.len(),
            forall|k: int| 0 <= k < i ==> arguments@[k]@ != flag@,
        decreases arguments.len() - i,
    {
        if text_equal(arguments[i].as_str(), flag) {
            assert(texts(arguments@)[i as int] == flag@);
            return true;
        }
        i = i + 1;
    }
    assert forall|k: int| 0 <= k < arguments@.len() implies texts(arguments@)[k] != flag@ by {
        assert(arguments@[k]@ != flag@);
    }
    false
}

/// The argument after the first `name` that is followed by one.
pub fn flag_value(arguments: &[String], name: &str) -> (value: Option<String>)
    ensures
        match value {
            Some(v) => value_after(texts(arguments@), name@, 0) == Some(v@),
            None => value_after(texts(arguments@), name@, 0) is None,
        },
{
    let ghost args = texts(arguments@);
    let mut i: usize = 0;
    while i < arguments.len() && i < arguments.len() - 1
        invariant
            i <= arguments@.len(),
            args == texts(arguments@),
            value_after(args, name@, 0) == value_after(args, name@, i as int),
        decreases arguments.len() - i,
    {
        if text_equal(arguments[i].as_str(), name) {
            return Some(arguments[i + 1].clone());
        }
        i = i + 1;
    }
    None
}

/// The configuration file named with `--config`, if any.
pub fn config_override(arguments: &[String]) -> (path: Option<String>)
    ensures
        match path {
            Some(p) => value_after(texts(arguments@), "--config"@, 0) == Some(p@),
            None => value_after(texts(arguments@), "--config"@, 0) is None,
        },
{
    flag_value(arguments, "--config")
}

/// Whether the host was started by the service manager.
pub fn is_service_mode(arguments: &[String]) -> (service: bool)
    ensures
        service == has_argument(texts(arguments@), "--service"@),
{
    has_flag(arguments, "--service")
}

/// Why the host refuses to start.
#[derive(Debug)]
pub enum StartupError {
    NotDevelopment,
    MockShutdownRequired,
    InvalidPairingCode,
    Store(StoreError),
}

impl StartupError {
    /// The description shown when the host refuses to start.
    pub fn message(&self) -> (text: String)
        ensures
            match self {
                StartupError::NotDevelopment => text@ == "unknown arguments; use --dev --mock-shutdown for development"@,
                StartupError::MockShutdownRequired => text@ == "development mode requires --mock-shutdown"@,
                StartupError::InvalidPairingCode => text@ == "invalid pairing exchange"@,
                StartupError::Store(error) => text@ == error.message@,
            },
    {
        match self {
            StartupError::NotDevelopment => String::from_str(
                "unknown arguments; use --dev --mock-shutdown for development",
            ),
            StartupError::MockShutdownRequired => String::from_str("development mode requires --mock-shutdown"),
            StartupError::InvalidPairingCode => String::from_str("invalid pairing exchange"),
            StartupError::Store(error) => error.message.clone(),
        }
    }
}

/// What a development start asked for.
pub struct StartupOptions {
    pub config: Option<String>,
    pub ephemeral_port: bool,
    pub pairing_code_value: Option<String>,
}

/// The options of a portable (development) start. The host only runs with
/// `--dev` and `--mock-shutdown`, so that it never powers a machine off
/// from a development build.
pub fn parse_startup(arguments: &[String]) -> (r: Result<StartupOptions, StartupError>)
    ensures
        !has_argument(texts(arguments@), "--dev"@) ==> r matches Err(StartupError::NotDevelopment),
        has_argument(texts(arguments@), "--dev"@) && !has_argument(texts(arguments@), "--mock-shutdown"@)
            ==> r matches Err(StartupError::MockShutdownRequired),
        has_argument(texts(arguments@), "--dev"@) && has_argument(texts(arguments@), "--mock-shutdown"@)
            ==> (r matches Ok(o) && {
            &&& o.ephemeral_port == has_argument(texts(arguments@), "--ephemeral-port"@)
            &&& match o.config {
                Some(p) => value_after(texts(arguments@), "--config"@, 0) == Some(p@),
                None => value_after(texts(arguments@), "--config"@, 0) is None,
            }
            &&& match o.pairing_code_value {
                Some(c) => value_after(texts(arguments@), "--pairing-code-value"@, 0) == Some(c@),
                None => value_after(texts(arguments@), "--pairing-code-value"@, 0) is None,
            }
        }),
{
    if !has_flag(arguments, "--dev") {
        return Err(StartupError::NotDevelopment);
    }
    if !has_flag(arguments, "--mock-shutdown") {
        return Err(StartupError::MockShutdownRequired);
    }
    Ok(StartupOptions {
        config: config_override(arguments),
        ephemeral_port: has_flag(arguments, "--ephemeral-port"),
        pairing_code_value: flag_value(arguments, "--pairing-code-value"),
    })
}

/// The port to listen on: the configured one, or any free port (zero) when
/// `--ephemeral-port` was given.
pub fn listen_port(config: HostConfig, ephemeral: bool) -> (port: u16)
    ensures
        port == if ephemeral {
            0
        } else {
            config.port
        },
{
    if ephemeral {
        0
    } else {
        config.port
    }
}

/// Takes the pairing code given on the command line at `now` (Unix
/// seconds): it must be six digits, and it is saved as a code issued now.
/// The identity changes only once it is saved.
pub fn apply_requested_code<S: CredentialStore>(
    identity: &mut HostIdentity,
    code: String,
    store: &S,
    now: u64,
) -> (r: Result<(), StartupError>)
    ensures
        !is_pairing_code(code@) ==> (r matches Err(StartupError::InvalidPairingCode) && final(identity)@
            == old(identity)@),
        is_pairing_code(code@) ==> match r {
            Ok(()) => final(identity)@ == (HostIdentityView {
                pairing_code: Some(code@),
                pairing_created_at: now,
                ..old(identity)@
            }),
            Err(e) => e is Store && final(identity)@ == old(identity)@,
        },
{
    let pairing = match PairingCode::from_code_with_age_at(code, 0, 0) {
        Ok(pairing) => pairing,
        Err(_) => {
            return Err(StartupError::InvalidPairingCode);
        },
    };
    let mut updated = identity.duplicate();
    updated.pairing_code = Some(String::from_str(pairing.display_code()));
    updated.pairing_created_at = now;
    match store.save(&updated) {
        Ok(()) => {
            *identity = updated;
            Ok(())
        },
        Err(error) => Err(StartupError::Store(error)),
    }
}

} // verus!
