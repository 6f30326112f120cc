//! Socket events and states.
use vstd::prelude::*;

verus! {

/// Events that a socket sends to the server.
#[derive(Debug, Clone, PartialEq)]
pub enum SocketEvent {
    Open { socket_id: String },
    Close { socket_id: String },
    Flush { socket_id: String },
    Drain { socket_id: String },
    Upgrade { socket_id: String },
    Heartbeat { socket_id: String },
}

/// Why a socket closed.
#[derive(Debug, Clone, Copy, PartialEq, Eq, Structural)]
pub enum SocketError {
    TransportError,
    ParseError,
}

/// Where a socket stands in upgrading its transport.
#[derive(Debug, Clone, Copy, PartialEq, Eq, Structural)]
pub enum UpgradeState {
    Initial,
    Upgrading,
    Upgraded,
}

/// Where a socket stands between opening and closing.
#[derive(Debug, Clone, Copy, PartialEq, Eq, Structural)]
pub enum ReadyState {
    Opening,
    Open,
    Closing,
    Closed,
}

} // verus!
