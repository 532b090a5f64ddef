//! Portable core of the Decky power host: request authentication, pairing,
//! version negotiation, configuration rules and the HTTP route decisions.
//! The executable in `app/` owns sockets, files, the clock-driven runtime and
//! the Protobuf codec; everything that decides lives here.

pub mod auth;
pub mod bytes;
pub mod client;
pub mod client_protocol;
pub mod config;
pub mod crypto;
pub mod decimal;
pub mod http;
pub mod management;
pub mod management_ipc;
pub mod pairing;
pub mod power;
pub mod protocol;
pub mod server;
pub mod startup;
pub mod storage;
pub mod versioning;

use vstd::prelude::*;

verus! {

/// Port used when the configuration file names none.
pub const DEFAULT_PORT: u16 = 47991;

/// The single application protocol version spoken by this host.
pub const PROTOCOL_VERSION: u32 = 1;

/// The release version of this host.
pub const HOST_VERSION: &'static str = "0.1.0";

} // verus!
