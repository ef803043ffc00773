//! The error taxonomy: argument errors raised locally before any request
//! is sent, network and protocol failures that end the session, and the
//! error codes a server reports in a reply header.

use vstd::prelude::*;

verus! {

/// Which part of a connect string an argument error is about.
#[derive(Clone, Copy, PartialEq, Eq, Structural, Debug)]
pub enum ServerInfo {
    Host,
    Ip,
    Port,
    Chroot,
}

/// Every failure a caller can see: argument errors, network and protocol
/// failures, and server-reported error codes.
#[derive(Clone, Debug)]
pub enum ZKError {
    /// A connect string did not validate; names the part at fault.
    ServerInfoError(ServerInfo, String),
    /// A path did not validate; carries the path and the reason.
    PathError(String, String),
    /// A socket-level failure.
    NetworkError(String),
    /// A reply shorter than declared or otherwise unreadable.
    ProtocolParseError,
    /// A failure with no better classification.
    UnknownError,
    /// A non-zero error code in a reply header, kept with its raw value.
    ServerError(ServerErrorCode, i32),
}

/// The named error codes a server can put in a reply header.
#[derive(Clone, Copy, PartialEq, Eq, Structural, Debug)]
pub enum ServerErrorCode {
    SystemError,
    RuntimeInconsistency,
    DataInconsistency,
    ConnectionLoss,
    MarshallingError,
    Unimplemented,
    OperationTimeout,
    BadArguments,
    UnknownSession,
    NewConfigNoQuorum,
    ReConfigInProgress,
    APIError,
    NoNode,
    NoAuth,
    BadVersion,
    NoChildrenForEphemerals,
    NodeExists,
    NotEmpty,
    SessionExpired,
    InvalidCallback,
    InvalidACL,
    AuthFailed,
    SessionMoved,
    NotReadonly,
    EphemeralOnLocalSession,
    NoWatcher,
    RequestTimeout,
    ReConfigDisabled,
    SessionClosedRequireSASLAuth,
}

impl ServerErrorCode {
    /// The named code for a wire value; codes outside the table fall back
    /// to `SystemError`.
    pub open spec fn spec_from_code(code: i32) -> ServerErrorCode {
        if code == -1 {
            ServerErrorCode::SystemError
        } else if code == -2 {
            ServerErrorCode::RuntimeInconsistency
        } else if code == -3 {
            ServerErrorCode::DataInconsistency
        } else if code == -4 {
            ServerErrorCode::ConnectionLoss
        } else if code == -5 {
            ServerErrorCode::MarshallingError
        } else if code == -6 {
            ServerErrorCode::Unimplemented
        } else if code == -7 {
            ServerErrorCode::OperationTimeout
        } else if code == -8 {
            ServerErrorCode::BadArguments
        } else if code == -12 {
            ServerErrorCode::UnknownSession
        } else if code == -13 {
            ServerErrorCode::NewConfigNoQuorum
        } else if code == -14 {
            ServerErrorCode::ReConfigInProgress
        } else if code == -100 {
            ServerErrorCode::APIError
        } else if code == -101 {
            ServerErrorCode::NoNode
        } else if code == -102 {
            ServerErrorCode::NoAuth
        } else if code == -103 {
            ServerErrorCode::BadVersion
        } else if code == -108 {
            ServerErrorCode::NoChildrenForEphemerals
        } else if code == -110 {
            ServerErrorCode::NodeExists
        } else if code == -111 {
            ServerErrorCode::NotEmpty
        } else if code == -112 {
            ServerErrorCode::SessionExpired
        } else if code == -113 {
            ServerErrorCode::InvalidCallback
        } else if code == -114 {
            ServerErrorCode::InvalidACL
        } else if code == -115 {
            ServerErrorCode::AuthFailed
        } else if code == -118 {
            ServerErrorCode::SessionMoved
        } else if code == -119 {
            ServerErrorCode::NotReadonly
        } else if code == -120 {
            ServerErrorCode::EphemeralOnLocalSession
        } else if code == -121 {
            ServerErrorCode::NoWatcher
        } else if code == -122 {
            ServerErrorCode::RequestTimeout
        } else if code == -123 {
            ServerErrorCode::ReConfigDisabled
        } else if code == -124 {
            ServerErrorCode::SessionClosedRequireSASLAuth
        } else {
            ServerErrorCode::SystemError
        }
    }

    pub fn from_code(code: i32) -> (r: ServerErrorCode)
        ensures
            r == ServerErrorCode::spec_from_code(code),
    {
        match code {
            -1 => ServerErrorCode::SystemError,
            -2 => ServerErrorCode::RuntimeInconsistency,
            -3 => ServerErrorCode::DataInconsistency,
            -4 => ServerErrorCode::ConnectionLoss,
            -5 => ServerErrorCode::MarshallingError,
            -6 => ServerErrorCode::Unimplemented,
            -7 => ServerErrorCode::OperationTimeout,
            -8 => ServerErrorCode::BadArguments,
            -12 => ServerErrorCode::UnknownSession,
            -13 => ServerErrorCode::NewConfigNoQuorum,
            -14 => ServerErrorCode::ReConfigInProgress,
            -100 => ServerErrorCode::APIError,
            -101 => ServerErrorCode::NoNode,
            -102 => ServerErrorCode::NoAuth,
            -103 => ServerErrorCode::BadVersion,
            -108 => ServerErrorCode::NoChildrenForEphemerals,
            -110 => ServerErrorCode::NodeExists,
            -111 => ServerErrorCode::NotEmpty,
            -112 => ServerErrorCode::SessionExpired,
            -113 => ServerErrorCode::InvalidCallback,
            -114 => ServerErrorCode::InvalidACL,
            -115 => ServerErrorCode::AuthFailed,
            -118 => ServerErrorCode::SessionMoved,
            -119 => ServerErrorCode::NotReadonly,
            -120 => ServerErrorCode::EphemeralOnLocalSession,
            -121 => ServerErrorCode::NoWatcher,
            -122 => ServerErrorCode::RequestTimeout,
            -123 => ServerErrorCode::ReConfigDisabled,
            -124 => ServerErrorCode::SessionClosedRequireSASLAuth,
            _ => ServerErrorCode::SystemError,
        }
    }
}

} // verus!
