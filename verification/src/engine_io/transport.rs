//! Transport kinds and options.
use vstd::prelude::*;

verus! {

/// The kind of a transport.
#[derive(Debug, Clone, Copy, PartialEq, Eq, Structural)]
pub enum TransportKind {
    WebSocket,
    Polling,
}

/// Options of a websocket transport.
#[derive(Debug, Copy, Clone)]
pub struct WebsocketTransportOptions {
    pub per_message_deflate: bool,
}

/// Options of a polling transport.
#[derive(Debug, Copy, Clone)]
pub struct PollingTransportOptions {
    pub max_http_buffer_size: usize,
    pub supports_binary: bool,
    pub http_compression: Option<HttpCompressionOptions>,
}

/// Options of HTTP compression.
#[derive(Debug, Copy, Clone)]
pub struct HttpCompressionOptions {
    pub threshold: usize,
}

/// Errors that a transport reports.
#[derive(Debug, Clone, Copy, PartialEq, Eq, Structural)]
pub enum TransportError {
    PacketParseError,
    OtherError,
}

} // verus!
