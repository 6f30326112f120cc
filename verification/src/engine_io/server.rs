//! Server errors and events.
use vstd::prelude::*;
use crate::string_map::str_eq;

verus! {

/// Errors that the server answers a request with.
#[derive(Debug, Copy, Clone, PartialEq, Eq, Structural)]
pub enum ServerError {
    UnknownTransport,
    UnknownSid,
    BadHandshakeMethod,
    BadRequest,
    Forbidden,
    Unknown,
}

/// The server error that a message names; any other message is `Unknown`.
pub open spec fn server_error_from_message(message: Seq<char>) -> ServerError {
    if message == "Transport unknown"@ {
        ServerError::UnknownTransport
    } else if message == "Session ID unknown"@ {
        ServerError::UnknownSid
    } else if message == "Bad handshake method"@ {
        ServerError::BadHandshakeMethod
    } else if message == "Bad request"@ {
        ServerError::BadRequest
    } else if message == "Forbidden"@ {
        ServerError::Forbidden
    } else {
        ServerError::Unknown
    }
}

impl From<&str> for ServerError {
    fn from(message: &str) -> (r: ServerError) {
        if str_eq(message, "Transport unknown") {
            ServerError::UnknownTransport
        } else if str_eq(message, "Session ID unknown") {
            ServerError::UnknownSid
        } else if str_eq(message, "Bad handshake method") {
            ServerError::BadHandshakeMethod
        } else if str_eq(message, "Bad request") {
            ServerError::BadRequest
        } else if str_eq(message, "Forbidden") {
            ServerError::Forbidden
        } else {
            ServerError::Unknown
        }
    }
}

impl vstd::std_specs::convert::FromSpecImpl<&str> for ServerError {
    open spec fn obeys_from_spec() -> bool {
        true
    }

    open spec fn from_spec(message: &str) -> ServerError {
        server_error_from_message(message@)
    }
}

/// Events that the server sends to its owner.
#[derive(Debug, Clone, PartialEq)]
pub enum ServerEvent {
    Connection { connection_id: String },
    Flush { connection_id: String },
    Drain { connection_id: String },
}

} // verus!
