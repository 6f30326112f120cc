//! Transports: their kinds, options, commands and events, and the headers of
//! polling responses.
use vstd::prelude::*;
use vstd::utf8::encode_utf8;
use crate::engine_io_parser::packet::Packet;
use crate::engine_io_server::util::{RequestContext, ServerError};
use crate::string_map::{contains_str, owned, str_contains, str_eq, copy_string, StringMap};
use std::sync::Arc;

verus! {

/// The kind of a transport.
#[derive(Debug, Clone, Copy, PartialEq, Eq, Structural)]
pub enum TransportKind {
    WebSocket,
    Polling,
}

/// The name of a transport kind, as requests give it.
pub open spec fn transport_kind_name(k: TransportKind) -> Seq<char> {
    match k {
        TransportKind::WebSocket => "websocket"@,
        TransportKind::Polling => "polling"@,
    }
}

/// The transport kind that a name names.
pub open spec fn transport_kind_parse(name: Seq<char>) -> Result<TransportKind, ServerError> {
    if name == "websocket"@ {
        Ok(TransportKind::WebSocket)
    } else if name == "polling"@ {
        Ok(TransportKind::Polling)
    } else {
        Err(ServerError::UnknownTransport)
    }
}

/// A transport kind's name parses back to it.
pub proof fn law_transport_name_parses_back(k: TransportKind)
    ensures
        transport_kind_parse(transport_kind_name(k)) == Ok::<TransportKind, ServerError>(k),
{
    reveal_strlit("websocket");
    reveal_strlit("polling");
    assert("websocket"@.len() != "polling"@.len());
}

impl TransportKind {
    /// The transport kind named `input` ("websocket" or "polling"); any
    /// other name is an unknown transport.
    pub fn parse(input: &str) -> (r: Result<TransportKind, ServerError>)
        ensures
            r == transport_kind_parse(input@),
    {
        proof {
            reveal_strlit("websocket");
            reveal_strlit("polling");
            assert("websocket"@.len() != "polling"@.len());
        }
        if str_eq(input, "websocket") {
            Ok(TransportKind::WebSocket)
        } else if str_eq(input, "polling") {
            Ok(TransportKind::Polling)
        } else {
            Err(ServerError::UnknownTransport)
        }
    }

    /// Whether a transport of this kind frames packets itself: a websocket
    /// does, polling does not.
    pub fn supports_framing(&self) -> (r: bool)
        ensures
            r == (*self == TransportKind::WebSocket),
    {
        match self {
            TransportKind::WebSocket => true,
            TransportKind::Polling => false,
        }
    }

    /// Polling requests can only be served by a polling transport.
    pub fn as_polling_or_fail(&self) -> (r: Result<(), ServerError>)
        ensures
            *self == TransportKind::Polling ==> r is Ok,
            *self == TransportKind::WebSocket ==> r == Err::<(), ServerError>(ServerError::BadRequest),
    {
        match self {
            TransportKind::WebSocket => Err(ServerError::BadRequest),
            TransportKind::Polling => Ok(()),
        }
    }

    /// The name of this transport kind.
    pub fn name(&self) -> (s: &'static str)
        ensures
            s@ == transport_kind_name(*self),
    {
        match self {
            TransportKind::WebSocket => "websocket",
            TransportKind::Polling => "polling",
        }
    }
}

/// What a transport needs to be created.
#[derive(Debug)]
pub enum TransportCreateData<S> {
    Polling { jsonp: bool },
    WebSocket { supports_binary: bool, socket: S },
}

impl<S> TransportCreateData<S> {
    /// The kind of transport that this data creates.
    pub open spec fn spec_kind(&self) -> TransportKind {
        match self {
            TransportCreateData::Polling { .. } => TransportKind::Polling,
            TransportCreateData::WebSocket { .. } => TransportKind::WebSocket,
        }
    }

    /// The kind of transport that this data creates.
    pub fn kind(&self) -> (k: TransportKind)
        ensures
            k == self.spec_kind(),
    {
        match self {
            TransportCreateData::Polling { .. } => TransportKind::Polling,
            TransportCreateData::WebSocket { .. } => TransportKind::WebSocket,
        }
    }
}

/// The options a new websocket transport is created with: per-message
/// deflate on, binary as the client asked.
pub fn websocket_options(supports_binary: bool) -> (o: WebsocketTransportOptions)
    ensures
        o.per_message_deflate,
        o.supports_binary == supports_binary,
{
    WebsocketTransportOptions { per_message_deflate: true, supports_binary }
}

/// The options a new polling transport is created with: a buffer of 1024
/// bytes, no HTTP compression, JSONP as the client asked.
pub fn polling_options(jsonp: bool) -> (o: PollingTransportOptions)
    ensures
        o.max_http_buffer_size == 1024,
        o.http_compression is None,
        o.jsonp == jsonp,
{
    PollingTransportOptions { max_http_buffer_size: 1024, http_compression: None, jsonp }
}

/// Options of a websocket transport.
#[derive(Debug, Copy, Clone)]
pub struct WebsocketTransportOptions {
    pub per_message_deflate: bool,
    pub supports_binary: bool,
}

/// Options of a polling transport.
#[derive(Debug, Copy, Clone)]
pub struct PollingTransportOptions {
    pub max_http_buffer_size: usize,
    pub http_compression: Option<HttpCompressionOptions>,
    pub jsonp: bool,
}

/// Options of HTTP compression.
#[derive(Debug, Copy, Clone)]
pub struct HttpCompressionOptions {
    pub threshold: usize,
}

/// Errors that a transport reports.
#[derive(Debug, Clone, Copy, PartialEq, Eq, Structural)]
pub enum TransportError {
    PacketParseError,
    OtherError,
}

/// Commands from a socket to its transport.
#[derive(Debug)]
pub enum TransportCmd {
    Send { packets: Vec<Packet> },
}

/// Events that a transport sends back to its socket.
#[derive(Debug)]
pub enum TransportEvent {
    Error { error: TransportError },
    Packet { context: Arc<RequestContext>, packet: Packet },
    Drain,
    Close,
}

/// The body of a polling response.
#[derive(Debug)]
pub enum ResponseBodyData {
    Plaintext(String),
    Binary(Vec<u8>),
}

impl ResponseBodyData {
    /// The bytes of the body: text as UTF-8, bytes as they are.
    pub fn into_bytes(self) -> (b: Vec<u8>)
        ensures
            match self {
                ResponseBodyData::Plaintext(text) => b@ == encode_utf8(text@),
                ResponseBodyData::Binary(binary) => b@ == binary@,
            },
    {
        match self {
            ResponseBodyData::Plaintext(text) => vstd::slice::slice_to_vec(text.as_str().as_bytes()),
            ResponseBodyData::Binary(binary) => binary,
        }
    }
}

/// What a transport answers a request with: an event for the socket to
/// act on, or the response itself.
#[derive(Debug)]
pub enum RequestReply<R> {
    Action(TransportEvent),
    Response(R),
}

/// The part that all transports share.
pub trait TransportBase<R> {
    fn is_writable(&self) -> bool;
}

/// The headers of a polling response: `X-XSS-Protection: 0` for Internet
/// Explorer user agents; for XHR, credentials and the origin when the request
/// has one (under the key `Access-Control-Allow_origin`), else any origin
/// (under `Access-Control-Allow-Origin`).
pub open spec fn polling_response_headers(
    user_agent: Seq<char>,
    origin: Option<Seq<char>>,
    xhr: bool,
) -> Map<Seq<char>, Seq<char>> {
    let ie = contains_str(user_agent, ";MSIE"@) || contains_str(user_agent, "Trident/"@);
    let h0 = if ie {
        Map::empty().insert("X-XSS-Protection"@, "0"@)
    } else {
        Map::empty()
    };
    if xhr {
        match origin {
            Some(o) => h0.insert("Access-Control-Allow-Credentials"@, "true"@).insert(
                "Access-Control-Allow_origin"@,
                o,
            ),
            None => h0.insert("Access-Control-Allow-Origin"@, "*"@),
        }
    } else {
        h0
    }
}

/// The headers that every polling response carries.
pub fn get_common_polling_response_headers(request_context: Arc<RequestContext>, xhr: bool) -> (h:
    StringMap)
    ensures
        h.wf(),
        h@ == polling_response_headers(
            request_context.user_agent@,
            crate::engine_io_server::util::opt_str_view(request_context.origin),
            xhr,
        ),
{
    let mut headers = StringMap::new();
    let user_agent = request_context.user_agent.as_str();
    if str_contains(user_agent, ";MSIE") || str_contains(user_agent, "Trident/") {
        headers.insert(owned("X-XSS-Protection"), owned("0"));
    }
    if xhr {
        match &request_context.origin {
            Some(origin) => {
                headers.insert(owned("Access-Control-Allow-Credentials"), owned("true"));
                headers.insert(owned("Access-Control-Allow_origin"), copy_string(origin));
            },
            None => {
                headers.insert(owned("Access-Control-Allow-Origin"), owned("*"));
            },
        }
    }
    headers
}

} // verus!
