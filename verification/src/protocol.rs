//! The messages of the host protocol, as plain values. Their Protobuf wire
//! form is produced and read by the executable.

use vstd::prelude::*;

verus! {

/// Error categories of the wire protocol.
#[derive(Debug, Clone, Copy, PartialEq, Eq, Structural)]
pub enum ErrorCode {
    Unspecified,
    MalformedRequest,
    ProtocolMismatch,
    Unauthorized,
    AlreadyPaired,
    PairingExpired,
    RateLimited,
    ShutdownFailed,
}

/// Why a request was refused; determines the human-readable message.
#[derive(Debug, Clone, Copy, PartialEq, Eq, Structural)]
pub enum ErrorReason {
    WrongContentType,
    MalformedProtobuf,
    ProtocolMismatch,
    AlreadyPaired,
    PairingExpired,
    PairingRateLimited,
    PairingFailed,
    PairingNotSaved,
    AuthenticationNotSaved,
    AuthenticationRateLimited,
    AuthenticationFailed,
    ShutdownRejected,
}

/// The message sent to the client for each reason.
pub open spec fn reason_text(reason: ErrorReason) -> Seq<char> {
    match reason {
        ErrorReason::WrongContentType => "Content-Type must be application/x-protobuf."@,
        ErrorReason::MalformedProtobuf => "Malformed Protobuf request."@,
        ErrorReason::ProtocolMismatch => "DeckyMyRigHost and the Decky plugin use incompatible protocol versions."@,
        ErrorReason::AlreadyPaired => "This host is already paired."@,
        ErrorReason::PairingExpired => "The pairing code expired."@,
        ErrorReason::PairingRateLimited => "Too many pairing attempts."@,
        ErrorReason::PairingFailed => "Pairing failed."@,
        ErrorReason::PairingNotSaved => "Could not save pairing state."@,
        ErrorReason::AuthenticationNotSaved => "Authentication state could not be saved."@,
        ErrorReason::AuthenticationRateLimited => "Too many authentication failures."@,
        ErrorReason::AuthenticationFailed => "Request authentication failed."@,
        ErrorReason::ShutdownRejected => "Windows rejected the shutdown request."@,
    }
}

impl ErrorReason {
    /// The message sent to the client.
    pub fn text(&self) -> (text: &'static str)
        ensures
            text@ == reason_text(*self),
    {
        match self {
            ErrorReason::WrongContentType => "Content-Type must be application/x-protobuf.",
            ErrorReason::MalformedProtobuf => "Malformed Protobuf request.",
            ErrorReason::ProtocolMismatch => "DeckyMyRigHost and the Decky plugin use incompatible protocol versions.",
            ErrorReason::AlreadyPaired => "This host is already paired.",
            ErrorReason::PairingExpired => "The pairing code expired.",
            ErrorReason::PairingRateLimited => "Too many pairing attempts.",
            ErrorReason::PairingFailed => "Pairing failed.",
            ErrorReason::PairingNotSaved => "Could not save pairing state.",
            ErrorReason::AuthenticationNotSaved => "Authentication state could not be saved.",
            ErrorReason::AuthenticationRateLimited => "Too many authentication failures.",
            ErrorReason::AuthenticationFailed => "Request authentication failed.",
            ErrorReason::ShutdownRejected => "Windows rejected the shutdown request.",
        }
    }
}

pub struct StatusRequest {
    pub protocol_version: u32,
    pub client_version: String,
}

pub struct ShutdownRequest {
    pub protocol_version: u32,
    pub client_version: String,
}

pub struct PairRequest {
    pub protocol_version: u32,
    pub client_version: String,
    pub client_spake2_message: Vec<u8>,
    pub session_id: Vec<u8>,
    pub client_confirmation: Vec<u8>,
}

pub struct StatusResponse {
    pub hostname: String,
    pub host_version: String,
    pub protocol_version: u32,
    pub paired: bool,
    pub host_id: String,
}

pub struct PairResponse {
    pub host_spake2_message: Vec<u8>,
    pub encryption_nonce: Vec<u8>,
    pub encrypted_credential: Vec<u8>,
    pub hostname: String,
    pub host_version: String,
    pub protocol_version: u32,
    pub host_id: String,
    pub session_id: Vec<u8>,
}

pub struct ShutdownResponse {
    pub accepted: bool,
}

#[derive(Clone, Copy)]
pub struct ErrorResponse {
    pub code: ErrorCode,
    pub reason: ErrorReason,
}

} // verus!
