//! Socket.io sockets: one per client and namespace, with the handshake that
//! made it.
use vstd::prelude::*;
use crate::engine_io_server::server::{is_hyphenated_uuid, uuid_v4_string, uuid_v4_text};
use crate::engine_io_server::util::{opt_str_view, RequestContext};
use crate::socket_io_parser::packet::PacketDataValue;
use crate::string_map::{copy_string, owned, StringMap};

verus! {

/// A date and time in UTC, as the number of non-leap seconds since the
/// Unix epoch. The clock is read by the caller.
#[derive(Debug, Clone, Copy, PartialEq, Eq, Structural)]
pub struct UtcTime {
    pub secs: i64,
}

impl UtcTime {
    /// The number of non-leap seconds since the Unix epoch.
    pub fn timestamp(&self) -> (s: i64)
        ensures
            s == self.secs,
    {
        self.secs
    }
}

/// What a new socket takes from outside the library: random bytes for its
/// id, and the time it is made at.
#[derive(Debug, Clone, Copy)]
pub struct FreshInputs {
    pub id_bytes: [u8; 16],
    pub now: UtcTime,
}

/// What the server knows of the request that connected a socket.
#[derive(Debug)]
pub struct Handshake {
    /// The headers send as part of the handshake
    pub headers: StringMap,
    /// The date of creation
    pub time: UtcTime,
    /// The ip of the client
    pub address: String,
    /// Whether the connection is cross-domain
    pub xdomain: bool,
    /// Whether the connection is secure
    pub secure: bool,
    /// The date of creation (as unix timestamp)
    pub issued: i64,
    /// The request URL string
    pub url: String,
    /// The query object, simplified
    pub query: StringMap,
    /// The auth object
    pub auth: PacketDataValue,
}

impl Handshake {
    /// The handshake of a request: its headers, address, security, URL and
    /// query, cross-domain when it has an origin, made at `now`.
    pub fn new(context: &RequestContext, auth: PacketDataValue, now: UtcTime) -> (h: Handshake)
        requires
            context.wf(),
        ensures
            h.headers.wf(),
            h.query.wf(),
            h.headers@ == context.headers@,
            h.query@ == context.query@,
            h.address@ == context.remote_address@,
            h.xdomain == (opt_str_view(context.origin) is Some),
            h.secure == context.secure,
            h.url@ == context.request_url@,
            h.auth == auth,
            h.time == now,
            h.issued == now.secs,
    {
        let time = now;
        let issued = time.timestamp();
        Handshake {
            headers: context.headers.copy(),
            time,
            xdomain: context.origin.is_some(),
            address: copy_string(&context.remote_address),
            secure: context.secure,
            issued,
            url: copy_string(&context.request_url),
            query: context.query.copy(),
            auth,
        }
    }
}

/// What a socket keeps between events; nothing yet.
#[derive(Debug, Clone, Copy, PartialEq, Eq, Structural)]
pub struct SocketState {}

impl SocketState {
    /// The state of a new socket.
    pub fn new() -> (s: SocketState)
        ensures
            s == (SocketState {}),
    {
        SocketState {}
    }
}

/// A client in a namespace.
#[derive(Debug)]
pub struct Socket {
    pub id: String,
    state: SocketState,
    namespace: String,
    handshake: Handshake,
}

impl Socket {
    /// The socket's id.
    pub closed spec fn spec_id(&self) -> Seq<char> {
        self.id@
    }

    /// The name of the socket's namespace.
    pub closed spec fn spec_namespace(&self) -> Seq<char> {
        self.namespace@
    }

    /// The handshake that made the socket.
    pub closed spec fn spec_handshake(&self) -> Handshake {
        self.handshake
    }

    /// A socket of the namespace, with a fresh id made of the random bytes:
    /// the engine.io connection id is not reused, as it is sensitive.
    pub fn new(handshake: Handshake, namespace: &str, id_bytes: [u8; 16]) -> (s: Socket)
        ensures
            is_hyphenated_uuid(s.spec_id()),
            s.spec_id() == uuid_v4_text(id_bytes@),
            s.spec_namespace() == namespace@,
            s.spec_handshake() == handshake,
    {
        let id = Self::generate_id(id_bytes);
        Socket { id, state: SocketState::new(), handshake, namespace: owned(namespace) }
    }

    /// The socket's id.
    pub fn id_str(&self) -> (s: &str)
        ensures
            s@ == self.spec_id(),
    {
        self.id.as_str()
    }

    /// A fresh id for a socket: the hyphenated version 4 UUID made of the
    /// random bytes that the caller drew.
    pub fn generate_id(id_bytes: [u8; 16]) -> (s: String)
        ensures
            is_hyphenated_uuid(s@),
            s@ == uuid_v4_text(id_bytes@),
    {
        proof {
            crate::engine_io_server::server::lemma_uuid_v4_text(id_bytes@);
        }
        uuid_v4_string(id_bytes)
    }

    /// The handshake that made the socket.
    pub fn get_handshake(&self) -> (h: &Handshake)
        ensures
            *h == self.spec_handshake(),
    {
        &self.handshake
    }
}

} // verus!
