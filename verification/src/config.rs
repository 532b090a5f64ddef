//! The host configuration: the TCP port, read from an optional TOML file
//! next to the executable. The executable reads and parses the file; the
//! rules on the value live here.

use vstd::prelude::*;
use vstd::string::StringExecFns;

use crate::decimal::{int_text, int_to_text};
use crate::DEFAULT_PORT;

verus! {

/// Name of the configuration file, next to the executable.
pub const CONFIG_FILE_NAME: &'static str = "DeckyMyRigHost.toml";

#[derive(Debug, Clone, Copy, PartialEq, Eq, Structural)]
pub struct HostConfig {
    pub port: u16,
}

/// Why the configuration could not be used.
#[derive(Debug)]
pub enum ConfigError {
    Read { path: String, message: String },
    Parse { path: String, message: String },
    InvalidPort(i64),
    Executable(String),
}

/// The port named by a configured value (the default when none is given),
/// or `None` when it is outside `1..=65535`.
pub open spec fn configured_port(value: Option<i64>) -> Option<u16> {
    let v: int = match value {
        Some(v) => v as int,
        None => DEFAULT_PORT as int,
    };
    if 1 <= v <= 65535 {
        Some(v as u16)
    } else {
        None
    }
}

impl HostConfig {
    /// The configuration used when no file exists.
    pub fn default_config() -> (config: HostConfig)
        ensures
            config.port == DEFAULT_PORT,
    {
        HostConfig { port: DEFAULT_PORT }
    }

    /// The configuration for the `port` value of the file (absent when the
    /// file sets none): ports `1..=65535` are accepted, anything else is
    /// refused with the offending value.
    pub fn from_port_value(value: Option<i64>) -> (r: Result<HostConfig, ConfigError>)
        ensures
            match configured_port(value) {
                Some(port) => r matches Ok(c) && c.port == port,
                None => r matches Err(ConfigError::InvalidPort(v)) && v == value->Some_0,
            },
    {
        let value: i64 = match value {
            Some(v) => v,
            None => DEFAULT_PORT as i64,
        };
        if 1 <= value && value <= 65535 {
            Ok(HostConfig { port: value as u16 })
        } else {
            Err(ConfigError::InvalidPort(value))
        }
    }
}

impl ConfigError {
    /// The description shown when the host cannot start.
    pub fn message(&self) -> (text: String)
        ensures
            match self {
                ConfigError::Read { path, message } => text@ == "could not read configuration "@ + path@ + ": "@
                    + message@,
                ConfigError::Parse { path, message } => text@ == "malformed TOML in "@ + path@ + ": "@ + message@,
                ConfigError::InvalidPort(v) => text@ == "port must be in 1..=65535, got "@ + int_text(v as int),
                ConfigError::Executable(message) => text@ == "could not determine executable directory: "@
                    + message@,
            },
    {
        match self {
            ConfigError::Read { path, message } => describe3("could not read configuration ", path.as_str(), ": ", message.as_str()),
            ConfigError::Parse { path, message } => describe3("malformed TOML in ", path.as_str(), ": ", message.as_str()),
            ConfigError::InvalidPort(value) => {
                let mut text = String::from_str("port must be in 1..=65535, got ");
                text.append(int_to_text(*value).as_str());
                text
            },
            ConfigError::Executable(message) => {
                let mut text = String::from_str("could not determine executable directory: ");
                text.append(message.as_str());
                text
            },
        }
    }
}

fn describe3(a: &str, b: &str, c: &str, d: &str) -> (text: String)
    ensures
        text@ == a@ + b@ + c@ + d@,
{
    let mut text = String::from_str(a);
    text.append(b);
    text.append(c);
    text.append(d);
    text
}

} // verus!
