//! The decisions of the warp adapter: how polling requests are routed,
//! decoded and answered, how websocket messages become packets and packets
//! messages, and which paths and transports requests name. The HTTP server
//! itself is run by the caller.
use vstd::prelude::*;
use vstd::utf8::{decode_utf8, valid_utf8};
use crate::engine_io_parser::binary::{bin_packet_decoding, bin_packet_encoding, bin_payload_decoding};
use crate::engine_io_parser::binary::decoder as binary_decoder;
use crate::engine_io_parser::binary::encoder as binary_encoder;
use crate::engine_io_parser::decoder::{decode_packet, Encoded};
use crate::engine_io_parser::packet::{packets_view, Packet, PacketView, PayloadOutcome};
use crate::engine_io_parser::string::{text_packet_decoding, text_packet_encoding, text_payload_decoding};
use crate::engine_io_parser::string::decoder as string_decoder;
use crate::engine_io_parser::string::encoder as string_encoder;
use crate::engine_io_server::transport::{
    get_common_polling_response_headers, polling_response_headers, transport_kind_parse,
    ResponseBodyData, TransportKind,
};
use crate::engine_io_server::util::{opt_str_view, HttpMethod, RequestContext, ServerError};
use crate::string_map::{owned, str_eq, StringMap};
use crate::strings::str_from_utf8;
use std::sync::Arc;

verus! {

/// How a polling transport answers: plain XHR, or JSONP.
#[derive(Debug, Clone, Copy, PartialEq, Eq, Structural)]
pub enum Mode {
    Xhr,
    Jsonp,
}

/// A server error, as the warp filters reject a request with it.
#[derive(Debug)]
pub struct WarpError {
    error: Box<ServerError>,
}

impl WarpError {
    /// The rejection of a request with `error`.
    pub fn new(error: ServerError) -> (w: WarpError)
        ensures
            w.spec_error() == error,
    {
        WarpError { error: Box::new(error) }
    }

    /// The error that rejected the request.
    pub closed spec fn spec_error(&self) -> ServerError {
        *self.error
    }

    /// The error that rejected the request.
    pub fn error(&self) -> (e: ServerError)
        ensures
            e == self.spec_error(),
    {
        *self.error
    }
}

/// The mode of a new polling transport: JSONP when its options ask for it.
pub fn polling_mode(jsonp: bool) -> (m: Mode)
    ensures
        m == (if jsonp { Mode::Jsonp } else { Mode::Xhr }),
{
    if jsonp {
        Mode::Jsonp
    } else {
        Mode::Xhr
    }
}

/// What a polling request asks for.
#[derive(Debug, Clone, Copy, PartialEq, Eq, Structural)]
pub enum PollingRequestKind {
    /// A GET: the packets waiting for the client.
    Poll,
    /// A POST: packets from the client.
    Data,
    /// A preflight OPTIONS request in XHR mode.
    Options,
    /// Anything else: answered with this status code alone.
    StatusOnly(u16),
}

/// What a polling request with this method asks for, in this mode.
pub fn polling_request_kind(http_method: HttpMethod, mode: Mode) -> (k: PollingRequestKind)
    ensures
        k == match (http_method, mode) {
            (HttpMethod::Get, _) => PollingRequestKind::Poll,
            (HttpMethod::Post, _) => PollingRequestKind::Data,
            (HttpMethod::Options, Mode::Xhr) => PollingRequestKind::Options,
            _ => PollingRequestKind::StatusOnly(500),
        },
{
    match (http_method, mode) {
        (HttpMethod::Get, _) => PollingRequestKind::Poll,
        (HttpMethod::Post, _) => PollingRequestKind::Data,
        (HttpMethod::Options, Mode::Xhr) => PollingRequestKind::Options,
        (_, _) => PollingRequestKind::StatusOnly(500),
    }
}

/// The content type of binary request bodies.
pub open spec fn binary_content_type() -> Seq<char> {
    "application/octet-stream"@
}

/// Whether the decoding of the body cannot panic: a binary payload, or a
/// text payload in valid UTF-8, that the decoders accept without panicking.
pub open spec fn data_request_decodable(content_type: Seq<char>, body: Seq<u8>) -> bool {
    if content_type == binary_content_type() {
        !(bin_payload_decoding(body) is Panics)
    } else {
        valid_utf8(body) ==> !(text_payload_decoding(decode_utf8(body)) is Panics)
    }
}

/// Whether decoding the body is undefined (see [`data_request_decodable`]),
/// so that [`decode_data_request`] does not accept it.
pub fn data_request_undefined(content_type: &str, body: &[u8]) -> (r: bool)
    ensures
        r == !data_request_decodable(content_type@, body@),
{
    proof {
        reveal_strlit("application/octet-stream");
    }
    if str_eq(content_type, "application/octet-stream") {
        binary_decoder::decode_payload_undefined(body)
    } else {
        match str_from_utf8(body) {
            Some(text) => string_decoder::decode_payload_undefined(text),
            None => false,
        }
    }
}

/// The packets that a POST body holds: a binary payload when its content
/// type is `application/octet-stream`, else a text payload in UTF-8. A
/// request without a body, with a text body that is not UTF-8, or with a
/// payload that does not decode is a bad request.
pub fn decode_data_request(content_type: &str, body: Option<&[u8]>) -> (r: Result<
    Vec<Packet>,
    ServerError,
>)
    requires
        body matches Some(b) ==> data_request_decodable(content_type@, b@),
    ensures
        match body {
            None => r == Err::<Vec<Packet>, ServerError>(ServerError::BadRequest),
            Some(b) => {
                let outcome = if content_type@ == binary_content_type() {
                    bin_payload_decoding(b@)
                } else if valid_utf8(b@) {
                    text_payload_decoding(decode_utf8(b@))
                } else {
                    PayloadOutcome::Failed
                };
                match outcome {
                    PayloadOutcome::Done(ps) => r matches Ok(v) && packets_view(v@) == ps,
                    _ => r == Err::<Vec<Packet>, ServerError>(ServerError::BadRequest),
                }
            },
        },
{
    proof {
        reveal_strlit("application/octet-stream");
    }
    let is_binary = str_eq(content_type, "application/octet-stream");
    let body = match body {
        Some(b) => b,
        None => return Err(ServerError::BadRequest),
    };
    let decoded = if is_binary {
        binary_decoder::decode_payload(body)
    } else {
        let text = match str_from_utf8(body) {
            Some(t) => t,
            None => return Err(ServerError::BadRequest),
        };
        string_decoder::decode_payload(text)
    };
    match decoded {
        Ok(packets) => Ok(packets),
        Err(e) => Err(ServerError::from_parse_error(e)),
    }
}

/// The content type of a polling response body.
pub open spec fn body_content_type(content: ResponseBodyData) -> Seq<char> {
    match content {
        ResponseBodyData::Plaintext(_) => "text/plain; charset=UTF-8"@,
        ResponseBodyData::Binary(_) => "application/octet-stream"@,
    }
}

/// The content type of a polling response body: UTF-8 text, or bytes.
pub fn response_content_type(content: &ResponseBodyData) -> (s: &'static str)
    ensures
        s@ == body_content_type(*content),
{
    match content {
        ResponseBodyData::Plaintext(_) => "text/plain; charset=UTF-8",
        ResponseBodyData::Binary(_) => "application/octet-stream",
    }
}

/// The headers of a polling response: those of every polling response (see
/// [`get_common_polling_response_headers`], as XHR in XHR mode), then its
/// content type. There is no way yet to write a cookie into a response, so
/// a request context that sets one is not accepted.
pub fn response_headers(content: &ResponseBodyData, context: Arc<RequestContext>, mode: Mode) -> (h:
    StringMap)
    requires
        context.set_cookie is None,
    ensures
        h.wf(),
        h@ == polling_response_headers(
            context.user_agent@,
            opt_str_view(context.origin),
            mode == Mode::Xhr,
        ).insert("Content-Type"@, body_content_type(*content)),
{
    let mut headers = get_common_polling_response_headers(context, mode == Mode::Xhr);
    headers.insert(owned("Content-Type"), owned(response_content_type(content)));
    headers
}

/// The body of the answer to a poll: the packets as a text payload.
pub fn packets_response_body(packets: &[Packet]) -> (b: ResponseBodyData)
    ensures
        b matches ResponseBodyData::Plaintext(s) && s@ == crate::engine_io_parser::string::text_payload_encoding(
            packets_view(packets@),
        ),
{
    ResponseBodyData::Plaintext(string_encoder::encode_payload(packets))
}

/// A message that came over a websocket.
#[derive(Debug)]
pub enum WsMessage {
    Binary(Vec<u8>),
    Text(String),
    Close,
    /// A ping or a pong: engine.io has pings of its own.
    Other,
}

/// What to do with a websocket message: hand a packet to the socket, skip
/// it, or stop listening.
#[derive(Debug)]
pub enum WsStep {
    Packet(Packet),
    Skip,
    Stop,
}

/// A websocket message: binary and text messages are decoded as one packet
/// each (one that does not decode is skipped); a close stops the listening;
/// pings and pongs are skipped.
pub fn websocket_message_step(message: &WsMessage) -> (s: WsStep)
    ensures
        match message {
            WsMessage::Binary(b) => match bin_packet_decoding(b@) {
                Some(p) => s matches WsStep::Packet(q) && q@ == p,
                None => s is Skip,
            },
            WsMessage::Text(t) => match text_packet_decoding(t@) {
                Some(p) => s matches WsStep::Packet(q) && q@ == p,
                None => s is Skip,
            },
            WsMessage::Close => s is Stop,
            WsMessage::Other => s is Skip,
        },
{
    let encoded = match message {
        WsMessage::Binary(b) => Encoded::Binary(b.as_slice()),
        WsMessage::Text(t) => Encoded::Text(t.as_str()),
        WsMessage::Close => return WsStep::Stop,
        WsMessage::Other => return WsStep::Skip,
    };
    match decode_packet(encoded) {
        Ok(packet) => WsStep::Packet(packet),
        Err(_) => WsStep::Skip,
    }
}

/// A message to send over a websocket.
#[derive(Debug)]
pub enum WsOutgoing {
    Binary(Vec<u8>),
    Text(String),
}

/// Whether `m` is the message that sends the packet `p`: its binary
/// encoding when the client supports binary, its text encoding else.
pub open spec fn ws_message_of(m: WsOutgoing, p: PacketView, supports_binary: bool) -> bool {
    if supports_binary {
        m matches WsOutgoing::Binary(b) && b@ == bin_packet_encoding(p)
    } else {
        m matches WsOutgoing::Text(t) && t@ == text_packet_encoding(p)
    }
}

/// The messages that send the packets over a websocket, one per packet:
/// binary encodings when the client supports binary, text encodings else.
pub fn websocket_messages(packets: &[Packet], supports_binary: bool) -> (v: Vec<WsOutgoing>)
    ensures
        v@.len() == packets@.len(),
        forall|i: int| 0 <= i < v@.len() ==> #[trigger] ws_message_of(v@[i], packets@[i]@, supports_binary),
{
    let mut v: Vec<WsOutgoing> = Vec::new();
    let mut i: usize = 0;
    while i < packets.len()
        invariant
            i <= packets@.len(),
            v@.len() == i,
            forall|j: int| 0 <= j < i ==> #[trigger] ws_message_of(v@[j], packets@[j]@, supports_binary),
        decreases packets@.len() - i,
    {
        if supports_binary {
            v.push(WsOutgoing::Binary(binary_encoder::encode_packet(&packets[i])));
        } else {
            v.push(WsOutgoing::Text(string_encoder::encode_packet(&packets[i])));
        }
        i = i + 1;
    }
    v
}

/// The part of a path scheme before its first `&`.
pub open spec fn scheme_prefix(scheme: Seq<char>) -> Seq<char> {
    let n = if exists|i: int| 0 <= i < scheme.len() && scheme[i] == '&' {
        choose|i: int| 0 <= i < scheme.len() && scheme[i] == '&' && forall|j: int| 0 <= j < i ==> scheme[j] != '&'
    } else {
        scheme.len() as int
    };
    scheme.subrange(0, n)
}

/// Whether a request's full path starts with the scheme (its part before
/// the first `&`).
pub fn path_matches(scheme: &str, full_path: &str) -> (r: bool)
    ensures
        r == (full_path@.len() >= scheme_prefix(scheme@).len() && full_path@.subrange(
            0,
            scheme_prefix(scheme@).len() as int,
        ) == scheme_prefix(scheme@)),
{
    let s = crate::strings::str_chars(scheme);
    let p = crate::strings::str_chars(full_path);
    let mut n: usize = 0;
    while n < s.len() && s[n] != '&'
        invariant
            n <= s@.len(),
            forall|j: int| 0 <= j < n ==> s@[j] != '&',
        decreases s@.len() - n,
    {
        n = n + 1;
    }
    proof {
        if n < s@.len() {
            assert(s@[n as int] == '&');
            let c = choose|i: int| 0 <= i < s@.len() && s@[i] == '&' && forall|j: int| 0 <= j < i ==> s@[j] != '&';
            if c < n {
                assert(s@[c] != '&');
            }
            if c > n {
                assert(s@[n as int] != '&');
            }
        }
        assert(scheme_prefix(scheme@) == s@.subrange(0, n as int));
    }
    if p.len() < n {
        return false;
    }
    let mut i: usize = 0;
    while i < n
        invariant
            s@ == scheme@,
            p@ == full_path@,
            scheme_prefix(scheme@) == s@.subrange(0, n as int),
            n <= s@.len(),
            n <= p@.len(),
            i <= n,
            forall|j: int| 0 <= j < i ==> s@[j] == p@[j],
        decreases n - i,
    {
        if s[i] != p[i] {
            assert(p@.subrange(0, n as int)[i as int] != s@.subrange(0, n as int)[i as int]);
            return false;
        }
        i = i + 1;
    }
    assert(p@.subrange(0, n as int) =~= s@.subrange(0, n as int));
    true
}

/// The transport that a request's query names with `transport`
/// (`polling` when it names none); an unknown name is refused.
pub fn transport_kind_of_query(query: &StringMap) -> (r: Result<TransportKind, ServerError>)
    requires
        query.wf(),
    ensures
        r == transport_kind_parse(
            match query@.get("transport"@) {
                Some(t) => t,
                None => "polling"@,
            },
        ),
{
    proof {
        reveal_strlit("transport");
        reveal_strlit("polling");
    }
    let name: &str = match query.get("transport") {
        Some(t) => t.as_str(),
        None => "polling",
    };
    TransportKind::parse(name)
}

/// Which handler a request of the listening server goes to.
#[derive(Debug, Clone, Copy, PartialEq, Eq, Structural)]
pub enum Route {
    WebSocket,
    Poll,
    Data,
}

/// Whether the server's transports include the websocket one: only then is
/// a websocket upgrade accepted.
pub fn websocket_enabled(transports: &[TransportKind]) -> (r: bool)
    ensures
        r == transports@.contains(TransportKind::WebSocket),
{
    let mut i: usize = 0;
    while i < transports.len()
        invariant
            i <= transports@.len(),
            forall|j: int| 0 <= j < i ==> transports@[j] != TransportKind::WebSocket,
        decreases transports@.len() - i,
    {
        if transports[i] == TransportKind::WebSocket {
            assert(transports@[i as int] == TransportKind::WebSocket);
            return true;
        }
        i = i + 1;
    }
    false
}

/// Where a request goes: nowhere off the server's path; a websocket
/// upgrade first, when websockets are enabled (the upgrade route is tried
/// before the others); then a `GET` to the poll handler and a `POST` to the
/// data handler; nowhere otherwise.
pub fn route_request(websockets: bool, on_path: bool, is_upgrade: bool, http_method: HttpMethod) -> (r:
    Option<Route>)
    ensures
        !on_path ==> r is None,
        on_path && websockets && is_upgrade ==> r == Some(Route::WebSocket),
        on_path && !(websockets && is_upgrade) ==> r == match http_method {
            HttpMethod::Get => Some(Route::Poll),
            HttpMethod::Post => Some(Route::Data),
            _ => None::<Route>,
        },
{
    if !on_path {
        None
    } else if websockets && is_upgrade {
        Some(Route::WebSocket)
    } else {
        match http_method {
            HttpMethod::Get => Some(Route::Poll),
            HttpMethod::Post => Some(Route::Data),
            _ => None,
        }
    }
}

} // verus!
