//! The engine.io server: its options, the events it sends its owner, and its
//! registry of clients with the decisions taken on requests and socket
//! events. Timers, channels and transports are run by the caller.
use vstd::prelude::*;
use crate::engine_io_parser::packet::{Packet, PacketData, PacketDataView, PacketType, PacketView};
use crate::engine_io_server::socket::{
    event_kind, event_kinds, packet_views, send_packet_post, ReadyState, Socket, SocketActions, SocketEvent, SocketEventKind,
    UpgradeState,
};
use crate::engine_io_server::transport::{TransportCreateData, TransportKind};
use crate::engine_io_server::util::{
    HttpMethod, RequestContext, SendPacketError, ServerError, SetCookie,
};
use crate::engine_io_server::socket::clone_packet;
use crate::string_map::{copy_string, owned, str_eq};
use std::sync::Arc;

verus! {

/// The factor of the server's buffer factor that sizes its event channels.
pub const BUFFER_CONST: usize = 32;

/// Options of the cookie that a handshake sets.
#[derive(Debug)]
pub struct CookieOptions {
    pub name: String,
    pub path: String,
    pub http_only: bool,
}

impl CookieOptions {
    /// The default cookie: `io` at `/`, HTTP only.
    pub fn default() -> (c: CookieOptions)
        ensures
            c.name@ == "io"@,
            c.path@ == "/"@,
            c.http_only,
    {
        CookieOptions { name: owned("io"), path: owned("/"), http_only: true }
    }
}

/// Options of the server.
#[derive(Debug)]
pub struct ServerOptions {
    pub ping_timeout: u32,
    pub ping_interval: u32,
    pub upgrade_timeout: u32,
    pub transports: Vec<TransportKind>,
    pub allow_upgrades: bool,
    pub initial_packet: Option<Packet>,
    pub cookie: Option<CookieOptions>,
    pub buffer_factor: usize,
}

impl ServerOptions {
    /// The default options: a ping timeout of 5 s, a ping interval of 25 s,
    /// an upgrade timeout of 10 s, websocket and polling, upgrades allowed, no
    /// initial packet, the default cookie, and a buffer factor of 2.
    pub fn default() -> (o: ServerOptions)
        ensures
            o.ping_timeout == 5000,
            o.ping_interval == 25000,
            o.upgrade_timeout == 10000,
            o.transports@ == seq![TransportKind::WebSocket, TransportKind::Polling],
            o.allow_upgrades,
            o.initial_packet is None,
            o.cookie matches Some(c) && c.name@ == "io"@ && c.path@ == "/"@ && c.http_only,
            o.buffer_factor == 2,
    {
        ServerOptions {
            ping_timeout: 5000,
            ping_interval: 25000,
            upgrade_timeout: 10000,
            transports: vec![TransportKind::WebSocket, TransportKind::Polling],
            allow_upgrades: true,
            initial_packet: None,
            cookie: Some(CookieOptions::default()),
            buffer_factor: 2,
        }
    }
}

/// Events that the server sends its owner.
#[derive(Debug)]
pub enum ServerEvent {
    /// Socket ID
    Connection { connection_id: String },
    Flush { connection_id: String },
    Drain { connection_id: String },
    Message { connection_id: String, context: Arc<RequestContext>, data: PacketData },
    Error { connection_id: String },
}

/// What a handshake is made with.
#[derive(Debug)]
pub enum HandshakeData<S> {
    Polling,
    WebSocket { socket: S },
}

/// Where a request goes: to the client that it names, or to a handshake.
#[derive(Debug)]
pub enum RequestRoute {
    Client { sid: String },
    Handshake,
}

/// What a handshake made: the new client's id, the request context that
/// sets its cookie, what its transport is to be created with, and the
/// `Connection` event for the server's owner, once the client is open.
#[derive(Debug)]
pub struct Handshake<S> {
    pub sid: String,
    pub context: RequestContext,
    pub transport_create_data: TransportCreateData<S>,
    pub connection_event: ServerEvent,
}

/// What [`Server::open_client`] does with the client `sid`, the open
/// packet's data `data` and whether the transport is writable: `old` and
/// `new` are the server before and after, `r` the actions. The client's
/// queue gets the `Open` packet holding `data`; it is sent at once when the
/// client's transport can be written, else it waits in the buffer (followed
/// by the server's initial packet, if any).
pub open spec fn open_client_post(
    old: Server,
    new: Server,
    sid: Seq<char>,
    data: Seq<char>,
    writable: bool,
    r: Result<Vec<SocketActions>, ServerError>,
) -> bool {
    &&& new.wf()
    &&& new.spec_options() == old.spec_options()
    &&& !old.has_client(sid) ==> r == Err::<Vec<SocketActions>, ServerError>(ServerError::UnknownSid)
        && new.spec_clients() == old.spec_clients()
    &&& old.has_client(sid) ==> {
        let c = old.client(sid);
        let queued = c.spec_buffer().push(
            PacketView { packet_type: PacketType::Open, data: PacketDataView::Plaintext(data) },
        );
        &&& r matches Ok(actions) && actions@.len() == (if old.spec_options().initial_packet is Some {
            2int
        } else {
            1int
        }) && actions@[0].reset_ping_timer && event_kind(actions@[0].events@.last()) == (
            SocketEventKind::Open,
            sid,
        ) && if c.spec_transport() is Some && writable {
            &&& actions@[0].transport_send matches Some(cmd) && packet_views(cmd@) == queued
            &&& new.client(sid).spec_buffer().len() == 0
            &&& old.spec_options().initial_packet matches Some(p) ==> actions@[1].transport_send matches Some(
                cmd,
            ) && packet_views(cmd@) == seq![p@]
        } else {
            &&& actions@[0].transport_send is None
            &&& new.client(sid).spec_buffer() == match old.spec_options().initial_packet {
                Some(p) => queued.push(p@),
                None => queued,
            }
        }
        &&& new.has_client(sid)
        &&& new.client(sid).spec_ready() == ReadyState::Open
        &&& new.spec_clients() == old.spec_clients().update(old.client_index(sid), new.client(sid))
    }
}

/// Opening a known client hands it the `Open` packet with the given data,
/// right after what it had queued: either its transport is sent the queue
/// ending with that packet, or its buffer holds the queue followed by that
/// packet.
pub proof fn law_open_client_sends_the_open_packet(
    old: Server,
    new: Server,
    sid: Seq<char>,
    data: Seq<char>,
    writable: bool,
    r: Result<Vec<SocketActions>, ServerError>,
)
    requires
        open_client_post(old, new, sid, data, writable, r),
        old.has_client(sid),
    ensures
        r is Ok,
        ({
            let open = PacketView { packet_type: PacketType::Open, data: PacketDataView::Plaintext(data) };
            let before = old.client(sid).spec_buffer();
            let after = new.client(sid).spec_buffer();
            ||| r->Ok_0@[0].transport_send matches Some(cmd) && packet_views(cmd@).len() == before.len() + 1
                && packet_views(cmd@).last() == open && packet_views(cmd@).drop_last() == before
            ||| after.len() > before.len() && after[before.len() as int] == open && after.subrange(
                0,
                before.len() as int,
            ) == before
        }),
{
    let open = PacketView { packet_type: PacketType::Open, data: PacketDataView::Plaintext(data) };
    let before = old.client(sid).spec_buffer();
    let after = new.client(sid).spec_buffer();
    let queued = before.push(open);
    if !(old.client(sid).spec_transport() is Some && writable) {
        assert(queued.subrange(0, before.len() as int) =~= before);
        match old.spec_options().initial_packet {
            Some(p) => {
                assert(after == queued.push(p@));
                assert(after.subrange(0, before.len() as int) =~= before);
            },
            None => {},
        }
    } else {
        assert(queued.drop_last() =~= before);
    }
}

/// The engine.io server: its options and its clients.
#[derive(Debug)]
pub struct Server {
    clients: Vec<Socket>,
    pub options: ServerOptions,
}

/// Whether `s` is a hyphenated UUID in lower case: 36 characters, hyphens
/// at 8, 13, 18 and 23, hexadecimal digits elsewhere.
pub open spec fn is_hyphenated_uuid(s: Seq<char>) -> bool {
    &&& s.len() == 36
    &&& forall|i: int|
        0 <= i < 36 ==> if i == 8 || i == 13 || i == 18 || i == 23 {
            s[i] == '-'
        } else {
            ('0' <= #[trigger] s[i] <= '9') || ('a' <= s[i] <= 'f')
        }
}

/// The lower-case hexadecimal digit of `n < 16`.
pub open spec fn hex_char(n: u8) -> char {
    if n < 10 {
        (48 + n) as char
    } else {
        (87 + n) as char
    }
}

/// The bytes of the version 4 UUID built from `b`: the version 4 in the
/// high nibble of byte 6, the RFC 4122 variant in the top bits of byte 8.
pub open spec fn uuid_v4_bytes(b: Seq<u8>) -> Seq<u8> {
    b.update(6, (b[6] & 0x0fu8) | 0x40u8).update(8, (b[8] & 0x3fu8) | 0x80u8)
}

/// The character at `k` of the hyphenated text of the UUID bytes `u`:
/// hyphens at 8, 13, 18 and 23; elsewhere the hexadecimal digits of the
/// bytes in order, the high nibble first.
pub open spec fn uuid_text_char(u: Seq<u8>, k: int) -> char {
    if k == 8 || k == 13 || k == 18 || k == 23 {
        '-'
    } else {
        let hyphens = if k < 8 {
            0
        } else if k < 13 {
            1
        } else if k < 18 {
            2
        } else if k < 23 {
            3
        } else {
            4int
        };
        let m = k - hyphens;
        if m % 2 == 0 {
            hex_char(u[m / 2] / 16)
        } else {
            hex_char(u[m / 2] % 16)
        }
    }
}

/// The hyphenated text of the version 4 UUID that `uuid` builds from the
/// given 16 bytes (`to_hyphenated().to_string()`).
pub open spec fn uuid_v4_text(bytes: Seq<u8>) -> Seq<char> {
    Seq::new(36, |k: int| uuid_text_char(uuid_v4_bytes(bytes), k))
}

/// The hyphenated text of a UUID is a hyphenated UUID.
pub proof fn lemma_uuid_v4_text(bytes: Seq<u8>)
    requires
        bytes.len() == 16,
    ensures
        is_hyphenated_uuid(uuid_v4_text(bytes)),
{
    let s = uuid_v4_text(bytes);
    let u = uuid_v4_bytes(bytes);
    assert forall|i: int| 0 <= i < 36 implies if i == 8 || i == 13 || i == 18 || i == 23 {
        s[i] == '-'
    } else {
        ('0' <= #[trigger] s[i] <= '9') || ('a' <= s[i] <= 'f')
    } by {
        if !(i == 8 || i == 13 || i == 18 || i == 23) {
            let c = s[i];
            assert(c == uuid_text_char(u, i));
            let hyphens = if i < 8 {
                0
            } else if i < 13 {
                1
            } else if i < 18 {
                2
            } else if i < 23 {
                3
            } else {
                4int
            };
            let m = i - hyphens;
            let x = u[m / 2];
            let n: u8 = if m % 2 == 0 {
                x / 16
            } else {
                x % 16
            };
            assert(n < 16);
            assert(c == hex_char(n));
            if n < 10 {
                assert(c as u32 == 48 + n);
            } else {
                assert(c as u32 == 87 + n);
            }
        }
    }
}

/// Builds a version 4 UUID from 16 random bytes as `uuid::Uuid::new_v4`
/// does with the bytes it draws (`uuid::Builder::from_bytes`, then the RFC
/// 4122 variant and the random version set, then `build`), and writes it by
/// `to_hyphenated().to_string()`: 32 lower-case hexadecimal digits in groups
/// of 8, 4, 4, 4 and 12, separated by hyphens. The bytes come from the
/// caller, so nothing here can fail for want of randomness.
#[verifier::external_body]
pub(crate) fn uuid_v4_string(bytes: [u8; 16]) -> (s: String)
    ensures
        s@ == uuid_v4_text(bytes@),
{
    uuid::Builder::from_bytes(bytes).set_variant(uuid::Variant::RFC4122).set_version(
        uuid::Version::Random,
    ).build().to_hyphenated().to_string()
}

impl Server {
    /// The clients, in the order they were added.
    pub closed spec fn spec_clients(&self) -> Seq<Socket> {
        self.clients@
    }

    /// The server's options.
    pub closed spec fn spec_options(&self) -> ServerOptions {
        self.options
    }

    /// Whether a client has the id `id`.
    pub open spec fn has_client(&self, id: Seq<char>) -> bool {
        exists|i: int| 0 <= i < self.spec_clients().len() && #[trigger] self.spec_clients()[i].spec_id() == id
    }

    /// The position of the client with the id `id`.
    pub open spec fn client_index(&self, id: Seq<char>) -> int {
        choose|i: int| 0 <= i < self.spec_clients().len() && #[trigger] self.spec_clients()[i].spec_id() == id
    }

    /// The client with the id `id`.
    pub open spec fn client(&self, id: Seq<char>) -> Socket {
        self.spec_clients()[self.client_index(id)]
    }

    /// No two clients share an id, and each client is well formed.
    pub open spec fn wf(&self) -> bool {
        &&& forall|i: int, j: int|
            0 <= i < j < self.spec_clients().len() ==> #[trigger] self.spec_clients()[i].spec_id()
                != #[trigger] self.spec_clients()[j].spec_id()
        &&& forall|i: int| 0 <= i < self.spec_clients().len() ==> #[trigger] self.spec_clients()[i].wf()
    }

    /// A server with the given options and no clients.
    pub fn new(options: ServerOptions) -> (s: Server)
        ensures
            s.wf(),
            s.spec_clients().len() == 0,
            s.spec_options() == options,
    {
        Server { clients: Vec::new(), options }
    }

    /// The capacity of the server's event channels: the buffer factor times
    /// [`BUFFER_CONST`].
    pub fn channel_capacity(&self) -> (n: usize)
        requires
            self.spec_options().buffer_factor * BUFFER_CONST <= usize::MAX,
        ensures
            n == self.spec_options().buffer_factor * BUFFER_CONST,
    {
        self.options.buffer_factor * BUFFER_CONST
    }

    /// A new id for a client: the hyphenated version 4 UUID made of the
    /// random bytes that the caller drew, unique with overwhelming
    /// likelihood.
    pub fn generate_id(random: [u8; 16]) -> (s: String)
        ensures
            is_hyphenated_uuid(s@),
            s@ == uuid_v4_text(random@),
    {
        proof {
            lemma_uuid_v4_text(random@);
        }
        uuid_v4_string(random)
    }

    /// The number of clients.
    pub fn clients_count(&self) -> (n: usize)
        ensures
            n == self.spec_clients().len(),
    {
        self.clients.len()
    }

    /// The position of the client with the id `id`, if there is one.
    fn find_client(&self, id: &str) -> (r: Option<usize>)
        requires
            self.wf(),
        ensures
            r is Some <==> self.has_client(id@),
            r matches Some(i) ==> i == self.client_index(id@) && i < self.spec_clients().len(),
    {
        let mut i: usize = 0;
        while i < self.clients.len()
            invariant
                self.wf(),
                i <= self.clients@.len(),
                forall|j: int| 0 <= j < i ==> #[trigger] self.clients@[j].spec_id() != id@,
            decreases self.clients@.len() - i,
        {
            if str_eq(self.clients[i].id_str(), id) {
                proof {
                    assert(self.spec_clients()[i as int].spec_id() == id@);
                    let k = self.client_index(id@);
                    if k != i {
                        if k < i {
                            assert(self.spec_clients()[k].spec_id() != self.spec_clients()[i as int].spec_id());
                        } else {
                            assert(self.spec_clients()[i as int].spec_id() != self.spec_clients()[k].spec_id());
                        }
                    }
                }
                return Some(i);
            }
            i = i + 1;
        }
        None
    }

    /// The client with the id `id`; `UnknownSid` when there is none.
    pub fn get_client_or_error(&self, id: &str) -> (r: Result<&Socket, ServerError>)
        requires
            self.wf(),
        ensures
            r is Ok <==> self.has_client(id@),
            r matches Ok(s) ==> *s == self.client(id@),
            r matches Err(e) ==> e == ServerError::UnknownSid,
    {
        match self.find_client(id) {
            Some(i) => Ok(&self.clients[i]),
            None => Err(ServerError::UnknownSid),
        }
    }

    /// Checks a request: one that names a client must name a known one and,
    /// unless it is an upgrade, come over that client's transport; one that
    /// names none is a handshake, which must be a GET.
    pub fn verify_request(
        &self,
        sid: Option<&String>,
        upgrade: bool,
        transport_kind: TransportKind,
        http_method: HttpMethod,
    ) -> (r: Result<(), ServerError>)
        requires
            self.wf(),
        ensures
            r == verify_request_result(self, sid, upgrade, transport_kind, http_method),
    {
        match sid {
            Some(sid) => match self.find_client(sid.as_str()) {
                Some(i) => {
                    let client_transport_kind = self.clients[i].get_transport_kind();
                    if !upgrade && Some(transport_kind) != client_transport_kind {
                        Err(ServerError::BadRequest)
                    } else {
                        Ok(())
                    }
                },
                None => Err(ServerError::UnknownSid),
            },
            None => {
                if http_method != HttpMethod::Get {
                    Err(ServerError::BadHandshakeMethod)
                } else {
                    Ok(())
                }
            },
        }
    }

    /// Where a polling request goes: after [`Server::verify_request`] (with
    /// the `sid` of its query, as no upgrade), to the client it names, or to
    /// a handshake when it names none.
    pub fn route_request(&self, context: &RequestContext) -> (r: Result<RequestRoute, ServerError>)
        requires
            self.wf(),
            context.wf(),
        ensures
            ({
                let sid = context.query@.get("sid"@);
                let verified = match sid {
                    Some(s) => verify_sid_result(self, s, false, context.transport_kind),
                    None => verify_method_result(context.http_method),
                };
                match r {
                    Ok(RequestRoute::Client { sid: s }) => verified is Ok && sid == Some(s@),
                    Ok(RequestRoute::Handshake) => verified is Ok && sid is None,
                    Err(e) => verified == Err::<(), ServerError>(e),
                }
            }),
    {
        proof {
            reveal_strlit("sid");
        }
        let sid = context.query.get("sid");
        match self.verify_request(sid, false, context.transport_kind, context.http_method) {
            Err(e) => Err(e),
            Ok(()) => match sid {
                Some(s) => Ok(RequestRoute::Client { sid: copy_string(s) }),
                None => Ok(RequestRoute::Handshake),
            },
        }
    }

    /// Adds `socket` as a client; a client with the same id is replaced.
    fn insert_client(&mut self, socket: Socket)
        requires
            old(self).wf(),
            socket.wf(),
        ensures
            final(self).wf(),
            final(self).spec_options() == old(self).spec_options(),
            old(self).has_client(socket.spec_id()) ==> final(self).spec_clients() == old(
                self,
            ).spec_clients().update(old(self).client_index(socket.spec_id()), socket),
            !old(self).has_client(socket.spec_id()) ==> final(self).spec_clients() == old(
                self,
            ).spec_clients().push(socket),
    {
        let ghost sid = socket.spec_id();
        match self.find_client(socket.id_str()) {
            Some(i) => {
                self.clients.set(i, socket);
                assert forall|a: int, b: int| 0 <= a < b < self.spec_clients().len() implies
                    #[trigger] self.spec_clients()[a].spec_id()
                    != #[trigger] self.spec_clients()[b].spec_id() by {
                    assert(old(self).spec_clients()[i as int].spec_id() == sid);
                    if a != i && b != i {
                        assert(old(self).spec_clients()[a].spec_id() != old(self).spec_clients()[b].spec_id());
                    } else if a == i {
                        assert(old(self).spec_clients()[a].spec_id() != old(self).spec_clients()[b].spec_id());
                    } else {
                        assert(old(self).spec_clients()[a].spec_id() != old(self).spec_clients()[b].spec_id());
                    }
                }
            },
            None => {
                self.clients.push(socket);
                assert forall|a: int, b: int| 0 <= a < b < self.spec_clients().len() implies
                    #[trigger] self.spec_clients()[a].spec_id()
                    != #[trigger] self.spec_clients()[b].spec_id() by {
                    if b < old(self).spec_clients().len() {
                        assert(old(self).spec_clients()[a].spec_id() != old(self).spec_clients()[b].spec_id());
                    } else {
                        assert(old(self).spec_clients()[a] == self.spec_clients()[a]);
                        if old(self).spec_clients()[a].spec_id() == sid {
                            assert(old(self).has_client(sid));
                        }
                    }
                }
            },
        }
    }

    /// Starts a handshake: a new client with a fresh id, opening, whose
    /// transport is a websocket or polling as `data` says. Binary is
    /// supported unless the query has `b64`; JSONP is used when binary is not
    /// supported and the query has no `j`. The request context that is
    /// handed back sets the cookie of the server's options, holding the id.
    pub fn handshake<S>(&mut self, context: &RequestContext, data: HandshakeData<S>, random: [u8; 16]) -> (h:
        Handshake<S>)
        requires
            old(self).wf(),
            context.wf(),
        ensures
            final(self).wf(),
            final(self).spec_options() == old(self).spec_options(),
            is_hyphenated_uuid(h.sid@),
            h.sid@ == uuid_v4_text(random@),
            h.connection_event matches ServerEvent::Connection { connection_id } && connection_id@
                == h.sid@,
            h.context.wf(),
            h.context.same_request(context),
            match h.context.set_cookie {
                Some(c) => old(self).spec_options().cookie matches Some(o) && c.name@ == o.name@
                    && c.value@ == h.sid@ && c.path@ == o.path@ && c.http_only == o.http_only
                    && c.same_site,
                None => old(self).spec_options().cookie is None,
            },
            ({
                let supports_binary = !context.query@.contains_key("b64"@);
                let jsonp = !supports_binary && !context.query@.contains_key("j"@);
                match data {
                    HandshakeData::Polling => h.transport_create_data
                        == TransportCreateData::<S>::Polling { jsonp },
                    HandshakeData::WebSocket { socket } => h.transport_create_data
                        == TransportCreateData::<S>::WebSocket { supports_binary, socket },
                }
            }),
            final(self).has_client(h.sid@),
            ({
                let c = final(self).client(h.sid@);
                &&& c.spec_ready() == ReadyState::Opening
                &&& c.spec_upgrade() == UpgradeState::Initial
                &&& c.spec_transport() == Some(h.transport_create_data.spec_kind())
                &&& c.spec_remote_address() == context.remote_address@
                &&& c.spec_buffer().len() == 0
                &&& c.spec_pending().len() == 0
                &&& c.spec_flushed().len() == 0
            }),
            forall|id: Seq<char>|
                id != h.sid@ ==> (final(self).has_client(id) == old(self).has_client(id)) && (
                old(self).has_client(id) ==> final(self).client(id) == old(self).client(id)),
    {
        let sid = Self::generate_id(random);
        proof {
            reveal_strlit("b64");
            reveal_strlit("j");
        }
        let supports_binary = !context.query.contains_key("b64");
        let jsonp = !supports_binary && !context.query.contains_key("j");
        let set_cookie = SetCookie::from_cookie_options(&self.options.cookie, copy_string(&sid));
        let context = context.with_set_cookie(set_cookie);
        let transport_create_data = match data {
            HandshakeData::Polling => TransportCreateData::Polling { jsonp },
            HandshakeData::WebSocket { socket } => TransportCreateData::WebSocket {
                supports_binary,
                socket,
            },
        };
        let socket = Socket::new(
            copy_string(&sid),
            copy_string(&context.remote_address),
            transport_create_data.kind(),
        );
        let ghost new_socket = socket;
        let ghost before = *self;
        self.insert_client(socket);
        proof {
            self.lemma_client_after_insert(before, new_socket);
        }
        let connection_event = ServerEvent::Connection { connection_id: copy_string(&sid) };
        Handshake { sid, context, transport_create_data, connection_event }
    }

    /// Forwards a socket's event to the owner of the server: `Flush`,
    /// `Drain`, `Message` and `Error` become the server events of the same
    /// name; `Close` removes the client and is not forwarded; the others are
    /// not forwarded either.
    pub fn on_socket_event(&mut self, event: SocketEvent) -> (r: Option<ServerEvent>)
        requires
            old(self).wf(),
        ensures
            final(self).wf(),
            final(self).spec_options() == old(self).spec_options(),
            match event {
                SocketEvent::Close { socket_id } => {
                    &&& r is None
                    &&& !final(self).has_client(socket_id@)
                    &&& old(self).has_client(socket_id@) ==> final(self).spec_clients() == old(
                        self,
                    ).spec_clients().remove(old(self).client_index(socket_id@))
                    &&& !old(self).has_client(socket_id@) ==> final(self).spec_clients() == old(
                        self,
                    ).spec_clients()
                },
                SocketEvent::Flush { socket_id } => r == Some(
                    ServerEvent::Flush { connection_id: socket_id },
                ) && final(self).spec_clients() == old(self).spec_clients(),
                SocketEvent::Drain { socket_id } => r == Some(
                    ServerEvent::Drain { connection_id: socket_id },
                ) && final(self).spec_clients() == old(self).spec_clients(),
                SocketEvent::Message { socket_id, context, data } => r == Some(
                    ServerEvent::Message { connection_id: socket_id, context, data },
                ) && final(self).spec_clients() == old(self).spec_clients(),
                SocketEvent::Error { socket_id } => r == Some(
                    ServerEvent::Error { connection_id: socket_id },
                ) && final(self).spec_clients() == old(self).spec_clients(),
                _ => r is None && final(self).spec_clients() == old(self).spec_clients(),
            },
    {
        match event {
            SocketEvent::Close { socket_id } => {
                match self.find_client(socket_id.as_str()) {
                    Some(i) => {
                        self.clients.remove(i);
                        assert forall|a: int, b: int| 0 <= a < b < self.spec_clients().len() implies
                            #[trigger] self.spec_clients()[a].spec_id()
                            != #[trigger] self.spec_clients()[b].spec_id() by {
                            let a0 = if a < i { a } else { a + 1 };
                            let b0 = if b < i { b } else { b + 1 };
                            assert(old(self).spec_clients()[a0].spec_id() != old(self).spec_clients()[b0].spec_id());
                        }
                        assert forall|a: int| 0 <= a < self.spec_clients().len() implies
                            #[trigger] self.spec_clients()[a].wf() by {
                            let a0 = if a < i { a } else { a + 1 };
                            assert(old(self).spec_clients()[a0].wf());
                        }
                        assert forall|a: int| 0 <= a < self.spec_clients().len() implies
                            #[trigger] self.spec_clients()[a].spec_id() != socket_id@ by {
                            let a0 = if a < i { a } else { a + 1 };
                            assert(old(self).spec_clients()[i as int].spec_id() == socket_id@);
                            if a0 < i {
                                assert(old(self).spec_clients()[a0].spec_id() != old(self).spec_clients()[i as int].spec_id());
                            } else {
                                assert(old(self).spec_clients()[i as int].spec_id() != old(self).spec_clients()[a0].spec_id());
                            }
                        }
                    },
                    None => {},
                }
                None
            },
            SocketEvent::Flush { socket_id } => Some(ServerEvent::Flush { connection_id: socket_id }),
            SocketEvent::Drain { socket_id } => Some(ServerEvent::Drain { connection_id: socket_id }),
            SocketEvent::Message { socket_id, context, data } => Some(
                ServerEvent::Message { connection_id: socket_id, context, data },
            ),
            SocketEvent::Error { socket_id } => Some(ServerEvent::Error { connection_id: socket_id }),
            _ => None,
        }
    }

    /// Takes the client at `i` out, hands it to `f`'s caller, and puts it
    /// back: the clients that are left keep their places.
    fn take_client(&mut self, i: usize) -> (c: Socket)
        requires
            old(self).wf(),
            i < old(self).spec_clients().len(),
        ensures
            c == old(self).spec_clients()[i as int],
            final(self).spec_clients() == old(self).spec_clients().remove(i as int),
            final(self).spec_options() == old(self).spec_options(),
    {
        self.clients.remove(i)
    }

    /// Puts a client back at `i` after [`Server::take_client`].
    fn put_client(&mut self, i: usize, c: Socket, Ghost(before): Ghost<Server>)
        requires
            before.wf(),
            i < before.spec_clients().len(),
            old(self).spec_clients() == before.spec_clients().remove(i as int),
            c.spec_id() == before.spec_clients()[i as int].spec_id(),
            c.wf(),
        ensures
            final(self).wf(),
            final(self).spec_clients() == before.spec_clients().update(i as int, c),
            final(self).spec_options() == old(self).spec_options(),
    {
        self.clients.insert(i, c);
        assert(self.spec_clients() =~= before.spec_clients().update(i as int, c));
        assert forall|a: int, b: int| 0 <= a < b < self.spec_clients().len() implies
            #[trigger] self.spec_clients()[a].spec_id()
            != #[trigger] self.spec_clients()[b].spec_id() by {
            assert(before.spec_clients()[a].spec_id() != before.spec_clients()[b].spec_id());
        }
        assert forall|a: int| 0 <= a < self.spec_clients().len() implies
            #[trigger] self.spec_clients()[a].wf() by {
            if a != i {
                assert(before.spec_clients()[a].wf());
            }
        }
    }

    /// Sends a packet to the client `connection_id` (see
    /// [`Socket::send_packet`]); `UnknownConnectionId` when there is no such
    /// client.
    pub fn send_packet(&mut self, connection_id: &str, packet: Packet, writable: bool) -> (r: Result<
        SocketActions,
        SendPacketError,
    >)
        requires
            old(self).wf(),
        ensures
            final(self).wf(),
            final(self).spec_options() == old(self).spec_options(),
            !old(self).has_client(connection_id@) ==> r == Err::<SocketActions, SendPacketError>(
                SendPacketError::UnknownConnectionId,
            ) && final(self).spec_clients() == old(self).spec_clients(),
            old(self).has_client(connection_id@) ==> (r matches Ok(a) && send_packet_post(
                old(self).client(connection_id@),
                final(self).client(connection_id@),
                packet@,
                None,
                writable,
                a,
            )) && final(self).spec_clients() == old(self).spec_clients().update(
                old(self).client_index(connection_id@),
                final(self).client(connection_id@),
            ),
    {
        match self.find_client(connection_id) {
            Some(i) => {
                let ghost before = *self;
                let mut client = self.take_client(i);
                let actions = client.send_packet(packet, None, writable);
                self.put_client(i, client, Ghost(before));
                proof {
                    before.lemma_same_place(*self, i as int, connection_id@);
                }
                Ok(actions)
            },
            None => Err(SendPacketError::UnknownConnectionId),
        }
    }

    /// The same as [`Server::send_packet`]: the callback is not used.
    pub fn send_packet_with_ack(
        &mut self,
        connection_id: &str,
        packet: Packet,
        callback: Option<u64>,
        writable: bool,
    ) -> (r: Result<SocketActions, SendPacketError>)
        requires
            old(self).wf(),
        ensures
            final(self).wf(),
            final(self).spec_options() == old(self).spec_options(),
            !old(self).has_client(connection_id@) ==> r == Err::<SocketActions, SendPacketError>(
                SendPacketError::UnknownConnectionId,
            ) && final(self).spec_clients() == old(self).spec_clients(),
            old(self).has_client(connection_id@) ==> (r matches Ok(a) && send_packet_post(
                old(self).client(connection_id@),
                final(self).client(connection_id@),
                packet@,
                None,
                writable,
                a,
            )) && final(self).spec_clients() == old(self).spec_clients().update(
                old(self).client_index(connection_id@),
                final(self).client(connection_id@),
            ),
    {
        self.send_packet(connection_id, packet, writable)
    }

    /// Opens the client `sid` (see [`Socket::open`]) with the open packet's
    /// data, then sends it the initial packet of the server's options, if
    /// any; `UnknownSid` when there is no such client. The actions come back
    /// in that order.
    pub fn open_client(&mut self, sid: &str, open_packet_data: String, writable: bool) -> (r: Result<
        Vec<SocketActions>,
        ServerError,
    >)
        requires
            old(self).wf(),
        ensures
            open_client_post(*old(self), *final(self), sid@, open_packet_data@, writable, r),
    {
        match self.find_client(sid) {
            Some(i) => {
                let ghost before = *self;
                let mut client = self.take_client(i);
                let mut actions: Vec<SocketActions> = Vec::new();
                let opened = client.open(open_packet_data, writable);
                proof {
                    let n = opened.events@.len();
                    assert(event_kinds(opened.events@).len() == n);
                    assert(n >= 1);
                    assert(event_kinds(opened.events@)[n - 1] == event_kind(opened.events@[n - 1]));
                }
                actions.push(opened);
                match &self.options.initial_packet {
                    Some(p) => {
                        let initial = clone_packet(p);
                        let ghost queued = client.spec_buffer();
                        let sent = client.send_packet(initial, None, writable);
                        proof {
                            if queued.len() == 0 {
                                assert(queued.push(p@) =~= seq![p@]);
                            }
                        }
                        actions.push(sent);
                    },
                    None => {},
                }
                self.put_client(i, client, Ghost(before));
                proof {
                    before.lemma_same_place(*self, i as int, sid@);
                }
                Ok(actions)
            },
            None => Err(ServerError::UnknownSid),
        }
    }

    /// After a client at `i` was replaced by one with the same id, the
    /// client under that id is the one at `i`.
    proof fn lemma_same_place(&self, after: Server, i: int, id: Seq<char>)
        requires
            self.wf(),
            after.wf(),
            0 <= i < self.spec_clients().len(),
            self.has_client(id),
            i == self.client_index(id),
            after.spec_clients().len() == self.spec_clients().len(),
            after.spec_clients()[i].spec_id() == id,
            forall|j: int| 0 <= j < self.spec_clients().len() && j != i ==> after.spec_clients()[j]
                == self.spec_clients()[j],
        ensures
            after.has_client(id),
            after.client_index(id) == i,
    {
        assert(after.spec_clients()[i].spec_id() == id);
        let k = after.client_index(id);
        if k != i {
            if k < i {
                assert(after.spec_clients()[k].spec_id() != after.spec_clients()[i].spec_id());
            } else {
                assert(after.spec_clients()[i].spec_id() != after.spec_clients()[k].spec_id());
            }
        }
    }

    /// What [`Server::insert_client`] leaves: the new socket under its id,
    /// every other client as it was.
    proof fn lemma_client_after_insert(&self, before: Server, socket: Socket)
        requires
            before.wf(),
            self.wf(),
            before.has_client(socket.spec_id()) ==> self.spec_clients() == before.spec_clients().update(
                before.client_index(socket.spec_id()),
                socket,
            ),
            !before.has_client(socket.spec_id()) ==> self.spec_clients() == before.spec_clients().push(
                socket,
            ),
        ensures
            self.has_client(socket.spec_id()),
            self.client(socket.spec_id()) == socket,
            forall|id: Seq<char>|
                id != socket.spec_id() ==> (self.has_client(id) == before.has_client(id)) && (
                before.has_client(id) ==> self.client(id) == before.client(id)),
    {
        let sid = socket.spec_id();
        let n = before.spec_clients().len();
        let k = if before.has_client(sid) { before.client_index(sid) } else { n as int };
        assert(self.spec_clients()[k] == socket);
        assert(self.has_client(sid));
        let m = self.client_index(sid);
        if m != k {
            if m < k {
                assert(self.spec_clients()[m].spec_id() != self.spec_clients()[k].spec_id());
            } else {
                assert(self.spec_clients()[k].spec_id() != self.spec_clients()[m].spec_id());
            }
        }
        assert forall|id: Seq<char>| id != sid implies (self.has_client(id) == before.has_client(id))
            && (before.has_client(id) ==> self.client(id) == before.client(id)) by {
            if before.has_client(id) {
                let b = before.client_index(id);
                assert(self.spec_clients()[b] == before.spec_clients()[b]);
                let c = self.client_index(id);
                if c != b {
                    if c < b {
                        assert(self.spec_clients()[c].spec_id() != self.spec_clients()[b].spec_id());
                    } else {
                        assert(self.spec_clients()[b].spec_id() != self.spec_clients()[c].spec_id());
                    }
                }
            }
            if self.has_client(id) {
                let c = self.client_index(id);
                assert(c != k);
                assert(before.spec_clients()[c] == self.spec_clients()[c]);
            }
        }
    }
}

/// A request that names a known client and comes over its transport passes
/// [`Server::verify_request`]; an upgrade passes over any transport.
pub proof fn law_known_client_verifies(server: &Server, sid: Seq<char>, kind: TransportKind)
    requires
        server.has_client(sid),
        server.client(sid).spec_transport() == Some(kind),
    ensures
        verify_sid_result(server, sid, false, kind) == Ok::<(), ServerError>(()),
        forall|k: TransportKind| verify_sid_result(server, sid, true, k) == Ok::<(), ServerError>(()),
{
}

/// A request that names a client the server does not know is refused with
/// `UnknownSid`, whatever else it says.
pub proof fn law_unknown_client_refused(server: &Server, sid: Seq<char>, upgrade: bool, kind: TransportKind)
    requires
        !server.has_client(sid),
    ensures
        verify_sid_result(server, sid, upgrade, kind) == Err::<(), ServerError>(ServerError::UnknownSid),
{
}

/// The outcome of [`Server::verify_request`] for a request that names the
/// client `sid`.
pub open spec fn verify_sid_result(
    server: &Server,
    sid: Seq<char>,
    upgrade: bool,
    transport_kind: TransportKind,
) -> Result<(), ServerError> {
    if server.has_client(sid) {
        if !upgrade && Some(transport_kind) != server.client(sid).spec_transport() {
            Err(ServerError::BadRequest)
        } else {
            Ok(())
        }
    } else {
        Err(ServerError::UnknownSid)
    }
}

/// The outcome of [`Server::verify_request`] for a handshake.
pub open spec fn verify_method_result(http_method: HttpMethod) -> Result<(), ServerError> {
    if http_method != HttpMethod::Get {
        Err(ServerError::BadHandshakeMethod)
    } else {
        Ok(())
    }
}

/// The outcome of [`Server::verify_request`].
pub open spec fn verify_request_result(
    server: &Server,
    sid: Option<&String>,
    upgrade: bool,
    transport_kind: TransportKind,
    http_method: HttpMethod,
) -> Result<(), ServerError> {
    match sid {
        Some(s) => verify_sid_result(server, s@, upgrade, transport_kind),
        None => verify_method_result(http_method),
    }
}

} // verus!
