//! The socket.io server's registry: namespaces, dynamic namespaces and
//! connections, with the decisions taken on the engine.io layer's events.
//! Timers, channels and the engine.io server are run by the caller.
use vstd::prelude::*;
use crate::engine_io_server::adapter::ListenOptions;
use crate::engine_io_server::server::ServerOptions as EngineOptions;
use crate::engine_io_server::util::RequestContext;
use crate::socket_io_parser::decoder::{payload_valid, DefaultDecoder, HandleEngineMessageError};
use crate::socket_io_parser::packet::{
    json_to_data, DataView, JsonView, Packet, PacketDataValue, PacketType, ProtoPacket,
};
use crate::socket_io_server::connection::{
    delivered_to, AddToNamespaceSuccess, Connection, DecodeBinarySuccess,
};
use crate::socket_io_server::namespace::{DynamicNamespace, NamespaceEvent, SimpleNamespace};
use crate::socket_io_server::socket::{FreshInputs, Handshake};
use crate::socket_io_server::storage::Storage;
use crate::string_map::{copy_string, owned, str_eq, StringMap};
use crate::strings::push_str;
use std::sync::Arc;

verus! {

/// Options of the socket.io server.
#[derive(Debug, Clone, Copy, PartialEq, Eq, Structural)]
pub struct ServerOptions {
    /// in milliseconds
    pub connect_timeout: u32,
    pub buffer_factor: usize,
}

impl ServerOptions {
    /// The default options: a connect timeout of 45 s, a buffer factor of 2.
    pub fn default() -> (o: ServerOptions)
        ensures
            o == (ServerOptions { connect_timeout: 45000, buffer_factor: 2 }),
    {
        ServerOptions { connect_timeout: 45000, buffer_factor: 2 }
    }
}

/// Events that the server sends its subscribers.
#[derive(Debug)]
pub enum ServerEvent {
    Error { message: String },
}

/// All the options of a socket.io server: of its engine.io server, of the
/// adapter, of the listener, and its own.
#[derive(Debug)]
pub struct Options<O> {
    pub engine_options: EngineOptions,
    pub adapter_options: O,
    pub listen_options: ListenOptions,
    pub socketio_options: ServerOptions,
}

impl<O> Options<O> {
    /// The default options, with the given adapter options: those of the
    /// parts, listening at `/socket.io`.
    pub fn default_with(adapter_options: O) -> (o: Options<O>)
        ensures
            o.adapter_options == adapter_options,
            o.listen_options.path@ == "/socket.io"@,
            o.listen_options.destroy_upgrade_timeout == Some(1000u32),
            o.socketio_options == (ServerOptions { connect_timeout: 45000, buffer_factor: 2 }),
            o.engine_options.ping_timeout == 5000,
            o.engine_options.ping_interval == 25000,
    {
        let mut listen_options = ListenOptions::default();
        listen_options.path = "/socket.io";
        Options {
            engine_options: EngineOptions::default(),
            adapter_options,
            listen_options,
            socketio_options: ServerOptions::default(),
        }
    }
}

/// What a client sent, as the server saw it.
#[derive(Debug)]
pub enum ClientEvent {
    Connect {
        /// Engine Socket ID
        connection_id: String,
        context: Arc<RequestContext>,
        nsp: String,
        data: PacketDataValue,
    },
    Packet { connection_id: String, context: Arc<RequestContext>, packet: Packet },
    Error,
}

/// Whether a namespace was found or made.
#[derive(Debug, Clone, Copy, PartialEq, Eq, Structural)]
pub enum GetResult {
    New,
    Existing,
}

/// No client or namespace with the given name.
#[derive(Debug, Clone, Copy, PartialEq, Eq, Structural)]
pub struct NotFoundError;

impl NotFoundError {
    /// The error's message, as `Display` shows it.
    pub fn to_string(&self) -> (s: String)
        ensures
            s@ == "Client or namespace not found"@,
    {
        owned("Client or namespace not found")
    }
}

/// `regex::Regex`.
#[verifier::external_type_specification]
#[verifier::external_body]
pub struct ExRegex(regex::Regex);

/// Whether `regex::Regex::new` accepts the pattern.
pub uninterp spec fn regex_compiles(pattern: Seq<char>) -> bool;

/// Whether the regex compiled from the pattern matches somewhere in the
/// text, as `regex::Regex::is_match` says.
pub uninterp spec fn regex_matches(pattern: Seq<char>, text: Seq<char>) -> bool;

/// `regex::Regex::new`: the regex of the pattern, unless the pattern is not
/// a valid regex (or its compiled form is too large); which patterns those
/// are is `regex_compiles`, a function of the pattern alone.
#[verifier::external_body]
fn regex_new(pattern: &str) -> (r: Option<regex::Regex>)
    ensures
        r is Some <==> regex_compiles(pattern@),
{
    regex::Regex::new(pattern).ok()
}

/// `regex::Regex::is_match` on the regex of a [`CompiledRegex`]: whether it
/// matches somewhere in `text`. The regex was compiled from the pattern that
/// the value holds (only [`CompiledRegex::new`] makes one), so the answer
/// is `regex_matches` of that pattern and the text.
#[verifier::external_body]
fn regex_is_match(regex: &CompiledRegex, text: &str) -> (r: bool)
    ensures
        r == regex_matches(regex@, text@),
{
    regex.regex.is_match(text)
}

/// A regex, with the pattern it was compiled from.
#[derive(Debug)]
pub struct CompiledRegex {
    pattern: String,
    regex: regex::Regex,
}

impl View for CompiledRegex {
    type V = Seq<char>;

    /// The pattern.
    closed spec fn view(&self) -> Seq<char> {
        self.pattern@
    }
}

impl CompiledRegex {
    /// The regex of the pattern; `None` where `regex` refuses the pattern.
    pub fn new(pattern: &str) -> (r: Option<CompiledRegex>)
        ensures
            r is Some <==> regex_compiles(pattern@),
            r matches Some(c) ==> c@ == pattern@,
    {
        match regex_new(pattern) {
            Some(regex) => Some(CompiledRegex { pattern: owned(pattern), regex }),
            None => None,
        }
    }

    /// The pattern.
    pub fn as_str(&self) -> (s: &str)
        ensures
            s@ == self@,
    {
        self.pattern.as_str()
    }
}

/// A test of namespace names that users of the server write: whether the
/// namespace of a name, asked for with the given auth data, joins a dynamic
/// namespace.
pub trait NamespaceNameMatch {
    /// What the test may answer for the name and the auth data. An
    /// implementation may narrow it; as given here it allows either answer.
    open spec fn match_answer(&self, name: Seq<char>, auth: DataView, r: bool) -> bool {
        true
    }

    /// Whether the name, asked for with the auth data, is recognised.
    fn matches(&self, name: &str, auth: &PacketDataValue) -> (r: bool)
        ensures
            self.match_answer(name@, auth@, r),
    ;
}

/// How the names of a dynamic namespace's members are recognised: by a
/// regex, by being equal to a text, or by a test of the user's.
pub enum NamespaceDescriptor {
    Text(String),
    Regex(CompiledRegex),
    Function(Box<dyn NamespaceNameMatch>),
}

/// What the descriptor may answer for the name asked for with the auth
/// data: a text whether it is equal to the name, a regex whether it matches
/// somewhere in it, a test of the user's what that test may answer.
pub open spec fn descriptor_answers(descriptor: NamespaceDescriptor, name: Seq<char>, auth: DataView, r: bool) -> bool {
    match descriptor {
        NamespaceDescriptor::Text(t) => r == (t@ == name),
        NamespaceDescriptor::Regex(c) => r == regex_matches(c@, name),
        NamespaceDescriptor::Function(f) => f.match_answer(name, auth, r),
    }
}

/// The member names that a dynamic namespace with members `members` has
/// after the namespace `n` is offered to it: `n` is added at the end unless
/// it is there already.
pub open spec fn with_member(members: Seq<Seq<char>>, n: Seq<char>) -> Seq<Seq<char>> {
    if members.contains(n) {
        members
    } else {
        members.push(n)
    }
}

/// What [`Server::get_matching_dynamic_namespace`] does with the name
/// `namespace_name` asked for with the auth data `auth`: `old` and `new`
/// are the server before and after, `r` the dynamic namespace that matched.
pub open spec fn matching_post<S: Storage>(
    old: Server<S>,
    new: Server<S>,
    namespace_name: Seq<char>,
    auth: DataView,
    r: Option<usize>,
) -> bool {
    let n = normalized_namespace(namespace_name);
    &&& new.wf()
    &&& new.dynamic_count() == old.dynamic_count()
    &&& new.spec_connections() == old.spec_connections()
    &&& new.spec_lookup() == old.spec_lookup()
    &&& new.spec_options() == old.spec_options()
    &&& forall|j: int| 0 <= j < old.dynamic_count() ==> new.descriptor(j) == old.descriptor(j)
    &&& r is None ==> forall|j: int|
        0 <= j < old.dynamic_count() ==> descriptor_answers(#[trigger] old.descriptor(j), namespace_name, auth, false)
    &&& r is None ==> new.spec_namespaces() == old.spec_namespaces() && new.spec_dynamic() == old.spec_dynamic()
    &&& r matches Some(i) ==> {
        &&& i < old.dynamic_count()
        &&& descriptor_answers(old.descriptor(i as int), namespace_name, auth, true)
        &&& forall|j: int| 0 <= j < i ==> descriptor_answers(#[trigger] old.descriptor(j), namespace_name, auth, false)
        &&& new.namespace_names().contains(n)
        &&& forall|j: int| 0 <= j < old.dynamic_count() && j != i ==> #[trigger] new.spec_dynamic()[j] == old.spec_dynamic()[j]
        &&& new.spec_dynamic()[i as int].1.spec_member_names() == if old.namespace_names().contains(n) {
            old.spec_dynamic()[i as int].1.spec_member_names()
        } else {
            with_member(old.spec_dynamic()[i as int].1.spec_member_names(), n)
        }
    }
}

/// A name that a dynamic namespace recognises, and whose namespace did not
/// exist, makes that namespace a member of the dynamic namespace that
/// recognised it (after its members, which stay); a name whose namespace
/// existed joins nothing. The other dynamic namespaces are left as they were.
pub proof fn law_new_matched_namespace_joins<S: Storage>(
    old: Server<S>,
    new: Server<S>,
    namespace_name: Seq<char>,
    auth: DataView,
    i: usize,
)
    requires
        matching_post(old, new, namespace_name, auth, Some(i)),
    ensures
        ({
            let n = normalized_namespace(namespace_name);
            let before = old.spec_dynamic()[i as int].1.spec_member_names();
            let after = new.spec_dynamic()[i as int].1.spec_member_names();
            &&& !old.namespace_names().contains(n) ==> after.contains(n) && after.len() <= before.len() + 1
                && after.subrange(0, before.len() as int) == before
            &&& old.namespace_names().contains(n) ==> after == before
        }),
        forall|j: int| 0 <= j < old.dynamic_count() && j != i ==> #[trigger] new.spec_dynamic()[j] == old.spec_dynamic()[j],
{
    let n = normalized_namespace(namespace_name);
    let before = old.spec_dynamic()[i as int].1.spec_member_names();
    let after = new.spec_dynamic()[i as int].1.spec_member_names();
    if !old.namespace_names().contains(n) {
        if before.contains(n) {
            assert(after.subrange(0, before.len() as int) =~= before);
        } else {
            assert(after[before.len() as int] == n);
            assert(after.subrange(0, before.len() as int) =~= before);
        }
    }
}

/// A namespace of the server, by its place in the server's registry.
#[derive(Debug, Clone, Copy, PartialEq, Eq, Structural)]
pub enum NamespaceKind {
    Simple(usize),
    Dynamic(usize),
}

/// The name of a namespace with a leading `/`.
pub open spec fn normalized_namespace(name: Seq<char>) -> Seq<char> {
    if name.len() > 0 && name[0] == '/' {
        name
    } else {
        seq!['/'] + name
    }
}

/// A name that has its leading `/` is left as it is.
pub proof fn law_normalized_namespace_is_stable(name: Seq<char>)
    ensures
        normalized_namespace(normalized_namespace(name)) == normalized_namespace(name),
        normalized_namespace(name).len() > 0 && normalized_namespace(name)[0] == '/',
{
}

/// The name with a leading `/`.
pub fn normalize_namespace(name: &str) -> (r: String)
    ensures
        r@ == normalized_namespace(name@),
{
    if name.unicode_len() > 0 && name.get_char(0) == '/' {
        owned(name)
    } else {
        let mut r = owned("/");
        proof {
            reveal_strlit("/");
        }
        push_str(&mut r, name);
        r
    }
}

/// A socket that a connect made: its namespace's place, its id, and the
/// event for the namespace's listeners when it is new.
#[derive(Debug)]
pub struct ConnectedSocket {
    pub namespace: usize,
    pub socket_id: String,
    pub event: Option<NamespaceEvent>,
}

/// How a client's connect was answered: the packet to send back, and the
/// socket, when one was connected.
#[derive(Debug)]
pub struct ConnectOutcome {
    pub packet: Packet,
    pub connected: Option<ConnectedSocket>,
}

/// The view of the packet that accepts a connect to the namespace `nsp`:
/// `Connect`, without id, holding `{"sid": sid}`.
pub open spec fn connect_packet_view(nsp: Seq<char>, sid: Seq<char>) -> (
    PacketType,
    Option<u64>,
    Seq<char>,
    DataView,
) {
    (PacketType::Connect, None, nsp, DataView::Object(seq![("sid"@, DataView::String(sid))]))
}

/// The view of the packet that refuses a connect to the namespace `nsp`:
/// `ConnectError`, without id, holding `{"message": "Invalid namespace"}`.
pub open spec fn connect_error_packet_view(nsp: Seq<char>) -> (
    PacketType,
    Option<u64>,
    Seq<char>,
    DataView,
) {
    (
        PacketType::ConnectError,
        None,
        nsp,
        DataView::Object(seq![("message"@, DataView::String("Invalid namespace"@))]),
    )
}

/// The packet that accepts a connect to `nsp` for the socket `sid`.
fn make_connect_packet(nsp: String, sid: String) -> (p: Packet)
    ensures
        (p.packet_type, p.id, p.nsp@, p.data@) == connect_packet_view(nsp@, sid@),
{
    let ghost sid_view = sid@;
    let key = owned("sid");
    let value = PacketDataValue::String(sid);
    assert(value@ == DataView::String(sid_view));
    let mut entries: Vec<(String, PacketDataValue)> = Vec::new();
    entries.push((key, value));
    let data = PacketDataValue::Object(entries);
    proof {
        let v = data@;
        assert(entries@[0].0@ == "sid"@);
        assert(v->Object_0[0] == (entries@[0].0@, entries@[0].1@));
        assert(v->Object_0 =~= seq![("sid"@, DataView::String(sid_view))]);
    }
    Packet { packet_type: PacketType::Connect, id: None, nsp, data }
}

/// The packet that refuses a connect to `nsp`.
fn make_connect_error_packet(nsp: String) -> (p: Packet)
    ensures
        (p.packet_type, p.id, p.nsp@, p.data@) == connect_error_packet_view(nsp@),
{
    let key = owned("message");
    let text = owned("Invalid namespace");
    let value = PacketDataValue::String(text);
    assert(value@ == DataView::String("Invalid namespace"@));
    let mut entries: Vec<(String, PacketDataValue)> = Vec::new();
    entries.push((key, value));
    let data = PacketDataValue::Object(entries);
    proof {
        let v = data@;
        assert(entries@[0].0@ == "message"@);
        assert(v->Object_0[0] == (entries@[0].0@, entries@[0].1@));
        assert(v->Object_0 =~= seq![("message"@, DataView::String("Invalid namespace"@))]);
    }
    Packet { packet_type: PacketType::ConnectError, nsp, data, id: None }
}

/// What a client's packet led to: the answer to a connect, or the socket
/// that is to handle the packet, if any.
#[derive(Debug)]
pub enum ClientPacketOutcome {
    Reply(ConnectOutcome),
    Delivered { socket_id: Option<String> },
}

/// A message of the engine.io layer: a text, as the socket.io decoder made
/// it out; binary data; or nothing.
#[derive(Debug)]
pub enum EngineMessage {
    Text(Result<ProtoPacket, HandleEngineMessageError>),
    Binary(Vec<u8>),
    Empty,
}

/// What a message led to: an error for the server's subscribers, and what
/// became of a packet that was handled.
#[derive(Debug)]
pub struct MessageOutcome {
    pub error: Option<ServerEvent>,
    pub handled: Option<ClientPacketOutcome>,
}

/// An event of the engine.io layer, as the socket.io server sees it.
#[derive(Debug)]
pub enum EngineEvent {
    Connection { connection_id: String },
    Close { connection_id: String },
    Message {
        connection_id: String,
        context: Arc<RequestContext>,
        message: EngineMessage,
        fresh: FreshInputs,
    },
    Error { connection_id: String },
    Other,
}

/// What the caller is to do after an event of the engine.io layer.
#[derive(Debug)]
pub enum EngineEventAction {
    /// Start the connect timer of the connection.
    SetupConnectTimer { connection_id: String },
    /// The connection was forgotten, if there was one.
    Closed { existed: bool },
    /// The message was handled.
    Handled(MessageOutcome),
    /// Close the engine.io socket.
    CloseSocket { connection_id: String },
    Nothing,
}

/// The replies that the server writes to a connect carry data that a
/// decoder accepts for their type: whatever JSON reads as the `Connect`
/// packet's `{"sid": ..}` suits `Connect`, and whatever JSON reads as the
/// `ConnectError` packet's `{"message": "Invalid namespace"}` suits
/// `ConnectError`.
pub proof fn law_connect_replies_are_accepted(nsp: Seq<char>, sid: Seq<char>, json: JsonView)
    ensures
        json_to_data(json) == connect_packet_view(nsp, sid).3 ==> payload_valid(PacketType::Connect, json),
        json_to_data(json) == connect_error_packet_view(nsp).3 ==> payload_valid(
            PacketType::ConnectError,
            json,
        ),
{
}

/// What [`Server::handle_client_connect`] does.
pub open spec fn client_connect_post<S: Storage>(
    old: Server<S>,
    new: Server<S>,
    namespace_name: Seq<char>,
    engine_connection_id: Seq<char>,
    auth: DataView,
    r: ConnectOutcome,
) -> bool {
    &&& new.wf()
    &&& new.spec_options() == old.spec_options()
    &&& new.dynamic_count() == old.dynamic_count()
    &&& r.connected is Some ==> (old.namespace_names().contains(namespace_name) || exists|j: int|
        0 <= j < old.dynamic_count() && descriptor_answers(#[trigger] old.descriptor(j), namespace_name, auth, true))
    &&& r.connected is None ==> (!old.namespace_names().contains(namespace_name) && forall|j: int|
        0 <= j < old.dynamic_count() ==> descriptor_answers(#[trigger] old.descriptor(j), namespace_name, auth, false))
    &&& match r.connected {
        Some(c) => {
            &&& (r.packet.packet_type, r.packet.id, r.packet.nsp@, r.packet.data@) == connect_packet_view(
                normalized_namespace(namespace_name),
                c.socket_id@,
            )
            &&& new.spec_lookup() == old.spec_lookup().insert(c.socket_id@, engine_connection_id)
            &&& new.connection_ids().contains(engine_connection_id)
            &&& c.namespace < new.namespace_names().len()
            &&& new.namespace_names()[c.namespace as int] == normalized_namespace(namespace_name)
        },
        None => {
            &&& (r.packet.packet_type, r.packet.id, r.packet.nsp@, r.packet.data@)
                == connect_error_packet_view(namespace_name)
            &&& new.spec_lookup() == old.spec_lookup()
            &&& new.spec_connections() == old.spec_connections()
            &&& new.spec_namespaces() == old.spec_namespaces()
        },
    }
}

/// What [`Server::handle_new_message`] does with a message of the
/// connection `engine_connection_id`: `old` and `new` are the server before
/// and after, `r` the outcome.
pub open spec fn new_message_post<S: Storage>(
    old: Server<S>,
    new: Server<S>,
    engine_connection_id: Seq<char>,
    message: EngineMessage,
    r: MessageOutcome,
) -> bool {
    match message {
        EngineMessage::Text(Err(_)) => {
            &&& r.error matches Some(ServerEvent::Error { message }) && message@ == "Bad packet"@
            &&& r.handled is None
            &&& new == old
        },
        EngineMessage::Text(Ok(ProtoPacket::Multipart(header))) => {
            &&& r.handled is None
            &&& new.spec_namespaces() == old.spec_namespaces()
            &&& new.spec_lookup() == old.spec_lookup()
            &&& new.connection_ids() == old.connection_ids()
            &&& if header.attachments_count > 0 && old.connection_ids().contains(
                engine_connection_id,
            ) {
                let i = old.connection_index(engine_connection_id);
                let c = old.spec_connections()[i];
                if c.spec_decoder() is None {
                    &&& r.error is None
                    &&& new.spec_connections()[i].spec_decoder() matches Some(d)
                        && d.spec_header() == header && d.spec_buffer().len() == 0
                } else {
                    &&& r.error matches Some(ServerEvent::Error { message }) && message@
                        == "sequence error"@
                    &&& new.spec_connections() == old.spec_connections()
                }
            } else {
                &&& r.error is None
                &&& new.spec_connections() == old.spec_connections()
            }
        },
        EngineMessage::Text(Ok(ProtoPacket::Plain(packet))) => {
            &&& r.error is None
            &&& r.handled is Some
            &&& packet.packet_type == PacketType::Connect ==> (r.handled matches Some(
                ClientPacketOutcome::Reply(c),
            ) && client_connect_post(old, new, packet.nsp@, engine_connection_id, packet.data@, c))
            &&& packet.packet_type != PacketType::Connect ==> (r.handled matches Some(
                ClientPacketOutcome::Delivered { .. },
            ) && new == old)
        },
        EngineMessage::Binary(data) => {
            &&& r.error is None
            &&& !old.connection_ids().contains(engine_connection_id) ==> r.handled is None && new == old
            &&& old.connection_ids().contains(engine_connection_id) ==> {
                let i = old.connection_index(engine_connection_id);
                let c = old.spec_connections()[i];
                match c.spec_decoder() {
                    None => r.handled is None && new == old,
                    Some(d) => {
                        let count = d.spec_header().attachments_count;
                        let nc = new.spec_connections()[i];
                        &&& new.spec_options() == old.spec_options()
                        &&& new.spec_namespaces() == old.spec_namespaces()
                        &&& new.spec_dynamic() == old.spec_dynamic()
                        &&& new.spec_lookup() == old.spec_lookup()
                        &&& new.spec_connections().len() == old.spec_connections().len()
                        &&& forall|j: int|
                            0 <= j < old.spec_connections().len() && j != i ==> #[trigger] new.spec_connections()[j]
                                == old.spec_connections()[j]
                        &&& nc.spec_id() == c.spec_id()
                        &&& nc.spec_socket_ids() == c.spec_socket_ids()
                        &&& nc.spec_namespaces() == c.spec_namespaces()
                        &&& if d.spec_buffer().len() == count {
                            r.handled is None && nc.spec_decoder() is None
                        } else if d.spec_buffer().len() + 1 == count {
                            // The last attachment: the collected packet, of a
                            // binary type, goes to the socket of its namespace.
                            &&& nc.spec_decoder() is None
                            &&& r.handled matches Some(ClientPacketOutcome::Delivered { socket_id })
                            &&& delivered_to(
                                c,
                                match d.spec_header().nsp {
                                    Some(n) => n@,
                                    None => "/"@,
                                },
                                socket_id,
                            )
                        } else {
                            &&& r.handled is None
                            &&& nc.spec_decoder() matches Some(nd) && nd.spec_header() == d.spec_header()
                                && nd.spec_buffer() == d.spec_buffer().push(data@)
                        }
                    },
                }
            }
        },
        EngineMessage::Empty => r.error is None && r.handled is None && new == old,
    }
}

/// The connection `b` has the id of `a` and each of its sockets.
pub open spec fn kept_in(a: Connection, b: Connection) -> bool {
    &&& b.spec_id() == a.spec_id()
    &&& forall|x: Seq<char>| #[trigger] a.spec_socket_ids().contains(x) ==> b.spec_socket_ids().contains(x)
}

/// The socket.io server's registry.
pub struct Server<S: Storage> {
    /// The namespaces, by name.
    namespaces: Vec<SimpleNamespace<S>>,
    dynamic_namespaces: Vec<(NamespaceDescriptor, DynamicNamespace<S>)>,
    /// The main place that all the connected clients are stored, by
    /// engine.io connection id.
    connections: Vec<Connection>,
    /// For each socket id, the id of its engine.io connection.
    connection_lookup: StringMap,
    socketio_options: ServerOptions,
}

impl<S: Storage> Server<S> {
    /// The server's options.
    pub closed spec fn spec_options(&self) -> ServerOptions {
        self.socketio_options
    }

    /// The names of the namespaces, in the order they were made.
    pub closed spec fn namespace_names(&self) -> Seq<Seq<char>> {
        Seq::new(self.namespaces@.len(), |i: int| self.namespaces@[i].spec_name())
    }

    /// The namespaces, in the order they were made.
    pub closed spec fn spec_namespaces(&self) -> Seq<SimpleNamespace<S>> {
        self.namespaces@
    }

    /// The number of dynamic namespaces.
    pub closed spec fn dynamic_count(&self) -> nat {
        self.dynamic_namespaces@.len()
    }

    /// The dynamic namespaces and their descriptors.
    pub closed spec fn spec_dynamic(&self) -> Seq<(NamespaceDescriptor, DynamicNamespace<S>)> {
        self.dynamic_namespaces@
    }

    /// The ids of the connections, in the order they were made.
    pub open spec fn connection_ids(&self) -> Seq<Seq<char>> {
        Seq::new(self.spec_connections().len(), |i: int| self.spec_connections()[i].spec_id())
    }

    /// The connections, in the order they were made.
    pub closed spec fn spec_connections(&self) -> Seq<Connection> {
        self.connections@
    }

    /// For each socket id, the id of its engine.io connection.
    pub closed spec fn spec_lookup(&self) -> Map<Seq<char>, Seq<char>> {
        self.connection_lookup@
    }

    /// Names are normalized and unique, connection ids unique, and each part
    /// well formed.
    pub closed spec fn wf(&self) -> bool {
        &&& forall|i: int| 0 <= i < self.namespaces@.len() ==> #[trigger] self.namespaces@[i].wf()
        &&& forall|i: int|
            0 <= i < self.namespaces@.len() ==> normalized_namespace(
                #[trigger] self.namespaces@[i].spec_name(),
            ) == self.namespaces@[i].spec_name()
        &&& forall|i: int, j: int|
            0 <= i < j < self.namespaces@.len() ==> #[trigger] self.namespaces@[i].spec_name()
                != #[trigger] self.namespaces@[j].spec_name()
        &&& forall|i: int| 0 <= i < self.connections@.len() ==> #[trigger] self.connections@[i].wf()
        &&& forall|i: int, j: int|
            0 <= i < j < self.connections@.len() ==> #[trigger] self.connections@[i].spec_id()
                != #[trigger] self.connections@[j].spec_id()
        &&& self.connection_lookup.wf()
        &&& self.lookup_is_live()
    }

    /// Each socket id in the lookup leads to a connection that holds a
    /// socket of that id.
    closed spec fn lookup_is_live(&self) -> bool {
        forall|sid: Seq<char>|
            #[trigger] self.connection_lookup@.contains_key(sid) ==> exists|i: int|
                0 <= i < self.connections@.len() && #[trigger] self.connections@[i].spec_id()
                    == self.connection_lookup@[sid] && self.connections@[i].spec_socket_ids().contains(sid)
    }

    /// The lookup stays live while it does not change and each connection
    /// keeps its place, its id and its sockets.
    proof fn lemma_lookup_is_live_kept(&self, other: &Self)
        requires
            self.lookup_is_live(),
            other.connections@.len() >= self.connections@.len(),
            forall|i: int| 0 <= i < self.connections@.len() ==> kept_in(#[trigger] self.connections@[i], other.connections@[i]),
            other.connection_lookup@ == self.connection_lookup@,
        ensures
            other.lookup_is_live(),
    {
        assert forall|sid: Seq<char>| #[trigger] other.connection_lookup@.contains_key(sid) implies exists|i: int|
            0 <= i < other.connections@.len() && #[trigger] other.connections@[i].spec_id()
                == other.connection_lookup@[sid] && other.connections@[i].spec_socket_ids().contains(sid) by {
            assert(self.connection_lookup@.contains_key(sid));
            let i = choose|i: int|
                0 <= i < self.connections@.len() && #[trigger] self.connections@[i].spec_id()
                    == self.connection_lookup@[sid] && self.connections@[i].spec_socket_ids().contains(sid);
            assert(kept_in(self.connections@[i], other.connections@[i]));
        }
    }

    /// The lookup stays live when one key is added that leads to a
    /// connection holding it, and each connection keeps its place, its id
    /// and its sockets.
    proof fn lemma_lookup_is_live_grown(&self, other: &Self, sid: Seq<char>, cid: Seq<char>, k: int)
        requires
            self.lookup_is_live(),
            other.connection_lookup@ == self.connection_lookup@.insert(sid, cid),
            other.connections@.len() >= self.connections@.len(),
            forall|i: int| 0 <= i < self.connections@.len() ==> kept_in(#[trigger] self.connections@[i], other.connections@[i]),
            0 <= k < other.connections@.len(),
            other.connections@[k].spec_id() == cid,
            other.connections@[k].spec_socket_ids().contains(sid),
        ensures
            other.lookup_is_live(),
    {
        assert forall|x: Seq<char>| #[trigger] other.connection_lookup@.contains_key(x) implies exists|i: int|
            0 <= i < other.connections@.len() && #[trigger] other.connections@[i].spec_id()
                == other.connection_lookup@[x] && other.connections@[i].spec_socket_ids().contains(x) by {
            if x == sid {
                assert(other.connections@[k].spec_id() == other.connection_lookup@[x]);
            } else {
                assert(self.connection_lookup@.contains_key(x));
                let i = choose|i: int|
                    0 <= i < self.connections@.len() && #[trigger] self.connections@[i].spec_id()
                        == self.connection_lookup@[x] && self.connections@[i].spec_socket_ids().contains(x);
                assert(kept_in(self.connections@[i], other.connections@[i]));
                assert(other.connections@[i].spec_id() == other.connection_lookup@[x]);
            }
        }
    }

    /// The lookup stays live when a connection leaves with the keys of all
    /// its sockets.
    proof fn lemma_lookup_is_live_removed(&self, other: &Self, ci: int)
        requires
            self.lookup_is_live(),
            0 <= ci < self.connections@.len(),
            other.connections@ == self.connections@.remove(ci),
            other.connection_lookup@ == self.connection_lookup@.remove_keys(
                self.connections@[ci].spec_socket_ids().to_set(),
            ),
        ensures
            other.lookup_is_live(),
    {
        assert forall|x: Seq<char>| #[trigger] other.connection_lookup@.contains_key(x) implies exists|i: int|
            0 <= i < other.connections@.len() && #[trigger] other.connections@[i].spec_id()
                == other.connection_lookup@[x] && other.connections@[i].spec_socket_ids().contains(x) by {
            assert(self.connection_lookup@.contains_key(x));
            let i = choose|i: int|
                0 <= i < self.connections@.len() && #[trigger] self.connections@[i].spec_id()
                    == self.connection_lookup@[x] && self.connections@[i].spec_socket_ids().contains(x);
            assert(!self.connections@[ci].spec_socket_ids().to_set().contains(x));
            assert(i != ci);
            let j = if i < ci { i } else { i - 1 };
            assert(other.connections@[j] == self.connections@[i]);
        }
    }

    /// A server with the given options and nothing registered.
    pub fn new(socketio_options: ServerOptions) -> (s: Server<S>)
        ensures
            s.wf(),
            s.namespace_names().len() == 0,
            s.dynamic_count() == 0,
            s.connection_ids().len() == 0,
            s.spec_lookup() == Map::<Seq<char>, Seq<char>>::empty(),
            s.spec_options() == socketio_options,
    {
        let s = Server {
            namespaces: Vec::new(),
            dynamic_namespaces: Vec::new(),
            connections: Vec::new(),
            connection_lookup: StringMap::new(),
            socketio_options,
        };
        assert(s.namespace_names() =~= Seq::<Seq<char>>::empty());
        assert(s.connection_ids() =~= Seq::<Seq<char>>::empty());
        s
    }

    /// The place of the namespace `name`, if there is one.
    fn find_namespace(&self, name: &str) -> (r: Option<usize>)
        requires
            self.wf(),
        ensures
            r is None <==> !self.namespace_names().contains(name@),
            r matches Some(i) ==> i < self.namespace_names().len() && self.namespace_names()[i as int]
                == name@,
    {
        let mut i: usize = 0;
        while i < self.namespaces.len()
            invariant
                i <= self.namespaces@.len(),
                forall|j: int| 0 <= j < i ==> #[trigger] self.namespace_names()[j] != name@,
            decreases self.namespaces@.len() - i,
        {
            if str_eq(self.namespaces[i].get_name(), name) {
                assert(self.namespace_names()[i as int] == name@);
                return Some(i);
            }
            i = i + 1;
        }
        None
    }

    /// Whether there is a namespace named `name` (as it is given).
    pub fn namespace_exists(&self, name: &str) -> (r: bool)
        requires
            self.wf(),
        ensures
            r == self.namespace_names().contains(name@),
    {
        self.find_namespace(name).is_some()
    }

    /// The namespace at `i`.
    pub fn namespace(&self, i: usize) -> (n: &SimpleNamespace<S>)
        requires
            i < self.namespace_names().len(),
        ensures
            *n == self.spec_namespaces()[i as int],
            n.spec_name() == self.namespace_names()[i as int],
    {
        &self.namespaces[i]
    }

    /// The dynamic namespace at `i`.
    pub fn dynamic_namespace(&self, i: usize) -> (n: &DynamicNamespace<S>)
        requires
            i < self.dynamic_count(),
        ensures
            *n == self.spec_dynamic()[i as int].1,
    {
        &self.dynamic_namespaces[i].1
    }

    /// The namespace named `name` with a leading `/`: the one there is, or a
    /// new one.
    pub fn get_or_create_namespace(&mut self, name: &str) -> (r: (usize, GetResult))
        requires
            old(self).wf(),
        ensures
            final(self).wf(),
            final(self).dynamic_count() == old(self).dynamic_count(),
            final(self).spec_dynamic() == old(self).spec_dynamic(),
            final(self).spec_connections() == old(self).spec_connections(),
            final(self).spec_lookup() == old(self).spec_lookup(),
            final(self).spec_options() == old(self).spec_options(),
            r.0 < final(self).namespace_names().len(),
            final(self).namespace_names()[r.0 as int] == normalized_namespace(name@),
            old(self).namespace_names().contains(normalized_namespace(name@)) ==> r.1 == GetResult::Existing
                && final(self).spec_namespaces() == old(self).spec_namespaces(),
            !old(self).namespace_names().contains(normalized_namespace(name@)) ==> r.1 == GetResult::New
                && final(self).spec_namespaces() == old(self).spec_namespaces().push(
                final(self).spec_namespaces()[r.0 as int],
            ) && final(self).spec_namespaces()[r.0 as int].spec_socket_ids() == Set::<
                Seq<char>,
            >::empty(),
    {
        let name = normalize_namespace(name);
        match self.find_namespace(name.as_str()) {
            Some(i) => (i, GetResult::Existing),
            None => {
                let ghost n = name@;
                let namespace = SimpleNamespace::<S>::new(name);
                self.namespaces.push(namespace);
                let i = self.namespaces.len() - 1;
                proof {
                    assert(self.namespace_names() =~= old(self).namespace_names().push(n));
                    assert forall|a: int, b: int| 0 <= a < b < self.namespaces@.len() implies
                        #[trigger] self.namespaces@[a].spec_name()
                        != #[trigger] self.namespaces@[b].spec_name() by {
                        if b == i {
                            assert(old(self).namespace_names()[a] == self.namespaces@[a].spec_name());
                        } else {
                            assert(old(self).namespaces@[a] == self.namespaces@[a]);
                            assert(old(self).namespaces@[b] == self.namespaces@[b]);
                        }
                    }
                    assert forall|a: int| 0 <= a < self.namespaces@.len() implies normalized_namespace(
                        #[trigger] self.namespaces@[a].spec_name(),
                    ) == self.namespaces@[a].spec_name() by {
                        if a < i {
                            assert(old(self).namespaces@[a] == self.namespaces@[a]);
                        } else {
                            let nn = normalized_namespace(n);
                            assert(nn.len() > 0 && nn[0] == '/');
                        }
                    }
                    old(self).lemma_lookup_is_live_kept(self);
                }
                (i, GetResult::New)
            },
        }
    }

    /// The descriptor of the dynamic namespace at `i`.
    pub closed spec fn descriptor(&self, i: int) -> NamespaceDescriptor {
        self.dynamic_namespaces@[i].0
    }

    /// Registers a dynamic namespace whose members are the namespaces that
    /// the descriptor recognises; its place comes back.
    pub fn make_dynamic_namespace(&mut self, namespace_descriptor: NamespaceDescriptor) -> (i: usize)
        requires
            old(self).wf(),
        ensures
            final(self).wf(),
            final(self).dynamic_count() == old(self).dynamic_count() + 1,
            i == old(self).dynamic_count(),
            final(self).descriptor(i as int) == namespace_descriptor,
            forall|j: int| 0 <= j < old(self).dynamic_count() ==> final(self).descriptor(j) == old(
                self,
            ).descriptor(j),
            final(self).spec_namespaces() == old(self).spec_namespaces(),
            final(self).spec_connections() == old(self).spec_connections(),
            final(self).spec_lookup() == old(self).spec_lookup(),
            final(self).spec_options() == old(self).spec_options(),
    {
        self.dynamic_namespaces.push((namespace_descriptor, DynamicNamespace::new()));
        proof {
            old(self).lemma_lookup_is_live_kept(self);
        }
        self.dynamic_namespaces.len() - 1
    }

    /// The namespace that the descriptor names: a text names one namespace
    /// (made if need be, see [`Server::get_or_create_namespace`]); a regex
    /// makes a dynamic namespace.
    pub fn of(&mut self, namespace_descriptor: NamespaceDescriptor) -> (k: NamespaceKind)
        requires
            old(self).wf(),
        ensures
            final(self).wf(),
            match namespace_descriptor {
                NamespaceDescriptor::Text(name) => k matches NamespaceKind::Simple(i) && i
                    < final(self).namespace_names().len() && final(self).namespace_names()[i as int]
                    == normalized_namespace(name@) && final(self).dynamic_count() == old(
                    self,
                ).dynamic_count(),
                _ => k matches NamespaceKind::Dynamic(i) && i == old(self).dynamic_count()
                    && final(self).dynamic_count() == old(self).dynamic_count() + 1
                    && final(self).descriptor(i as int) == namespace_descriptor,
            },
    {
        match namespace_descriptor {
            NamespaceDescriptor::Text(name) => {
                let (i, _) = self.get_or_create_namespace(name.as_str());
                NamespaceKind::Simple(i)
            },
            _ => NamespaceKind::Dynamic(self.make_dynamic_namespace(namespace_descriptor)),
        }
    }

    /// The namespace named `name` with a leading `/`, made if need be.
    pub fn get_namespace(&mut self, name: &str) -> (n: &SimpleNamespace<S>)
        requires
            old(self).wf(),
        ensures
            n.spec_name() == normalized_namespace(name@),
    {
        let (i, _) = self.get_or_create_namespace(name);
        &self.namespaces[i]
    }

    /// Whether the descriptor recognises the name asked for with the auth
    /// data.
    fn descriptor_matches(descriptor: &NamespaceDescriptor, name: &str, auth: &PacketDataValue) -> (r: bool)
        ensures
            descriptor_answers(*descriptor, name@, auth@, r),
    {
        match descriptor {
            NamespaceDescriptor::Text(text) => str_eq(text.as_str(), name),
            NamespaceDescriptor::Regex(regex) => regex_is_match(regex, name),
            NamespaceDescriptor::Function(f) => f.matches(name, auth),
        }
    }

    /// The first dynamic namespace whose descriptor recognises the name (see
    /// [`descriptor_answers`]). When there is one, the namespace of that name
    /// is found or made, and a new one joins the dynamic namespace.
    pub fn get_matching_dynamic_namespace(&mut self, namespace_name: &str, auth: &PacketDataValue) -> (r:
        Option<usize>)
        requires
            old(self).wf(),
        ensures
            matching_post(*old(self), *final(self), namespace_name@, auth@, r),
    {
        if self.dynamic_namespaces.len() == 0 {
            return None;
        }
        let mut i: usize = 0;
        while i < self.dynamic_namespaces.len()
            invariant
                *self == *old(self),
                self.wf(),
                i <= self.dynamic_namespaces@.len(),
                forall|j: int| 0 <= j < i ==> descriptor_answers(#[trigger] self.descriptor(j), namespace_name@, auth@, false),
            decreases self.dynamic_namespaces@.len() - i,
        {
            if Self::descriptor_matches(&self.dynamic_namespaces[i].0, namespace_name, auth) {
                let (k, get_result) = self.get_or_create_namespace(namespace_name);
                proof {
                    assert(self.namespace_names()[k as int] == normalized_namespace(namespace_name@));
                }
                if get_result == GetResult::New {
                    let member = self.namespaces[k].share();
                    let ghost before = self.dynamic_namespaces@;
                    let mut entry = self.dynamic_namespaces.remove(i);
                    let ghost descriptor = entry.0;
                    entry.1.insert_simple_namespace(member);
                    assert(entry.0 == descriptor);
                    self.dynamic_namespaces.insert(i, entry);
                    assert(self.dynamic_namespaces@ =~= before.update(i as int, entry));
                    proof {
                        old(self).lemma_lookup_is_live_kept(self);
                    }
                }
                return Some(i);
            }
            i = i + 1;
        }
        None
    }

    /// The place of the connection `id`, if there is one.
    fn find_connection(&self, id: &str) -> (r: Option<usize>)
        requires
            self.wf(),
        ensures
            r is None <==> !self.connection_ids().contains(id@),
            r matches Some(i) ==> i < self.connection_ids().len() && self.connection_ids()[i as int] == id@,
    {
        let mut i: usize = 0;
        while i < self.connections.len()
            invariant
                i <= self.connections@.len(),
                forall|j: int| 0 <= j < i ==> #[trigger] self.connection_ids()[j] != id@,
            decreases self.connections@.len() - i,
        {
            if str_eq(self.connections[i].id_str(), id) {
                assert(self.connection_ids()[i as int] == id@);
                return Some(i);
            }
            i = i + 1;
        }
        None
    }

    /// Connects the engine.io connection to the namespace at `namespace`:
    /// the connection's socket in it, made if need be (the connection too),
    /// is recorded under the connection's id. The new socket's id comes
    /// back, with the event for the namespace's listeners when a socket was
    /// made.
    pub fn add_connection(
        &mut self,
        namespace: usize,
        engine_connection_id: &str,
        handshake: Handshake,
        id_bytes: [u8; 16],
    ) -> (r: (
        String,
        Option<NamespaceEvent>,
    ))
        requires
            old(self).wf(),
            namespace < old(self).namespace_names().len(),
        ensures
            final(self).wf(),
            final(self).namespace_names() == old(self).namespace_names(),
            final(self).spec_dynamic() == old(self).spec_dynamic(),
            final(self).spec_options() == old(self).spec_options(),
            final(self).spec_lookup() == old(self).spec_lookup().insert(r.0@, engine_connection_id@),
            old(self).connection_ids().contains(engine_connection_id@) ==> final(self).connection_ids()
                == old(self).connection_ids(),
            !old(self).connection_ids().contains(engine_connection_id@) ==> final(self).connection_ids()
                == old(self).connection_ids().push(engine_connection_id@),
            final(self).connection_ids().contains(engine_connection_id@),
    {
        let ghost names_before = self.namespace_names();
        let found = self.find_connection(engine_connection_id);
        let mut ns = self.namespaces.remove(namespace);
        let ghost ns_name = ns.spec_name();
        let ghost mut k: int = 0;
        let (socket_id, event) = match found {
            Some(ci) => {
                let ghost conns_before = self.connections@;
                let mut connection = self.connections.remove(ci);
                let (success, event) = connection.add_to_namespace(handshake, &mut ns, id_bytes);
                self.connections.insert(ci, connection);
                proof {
                    assert(self.connections@ =~= conns_before.update(ci as int, connection));
                    assert(self.connection_ids() =~= old(self).connection_ids());
                    assert forall|a: int| 0 <= a < self.connections@.len() implies #[trigger] self.connections@[a].wf() by {
                        if a != ci {
                            assert(conns_before[a] == self.connections@[a]);
                        }
                    }
                    assert forall|a: int, b: int| 0 <= a < b < self.connections@.len() implies
                        #[trigger] self.connections@[a].spec_id() != #[trigger] self.connections@[b].spec_id() by {
                        assert(old(self).connection_ids()[a] == self.connection_ids()[a]);
                        assert(old(self).connection_ids()[b] == self.connection_ids()[b]);
                        assert(old(self).connections@[a].spec_id() != old(self).connections@[b].spec_id());
                    }
                }
                let socket_id = match success {
                    AddToNamespaceSuccess::Added { socket_id } => socket_id,
                    AddToNamespaceSuccess::AlreadyExisting { socket_id } => socket_id,
                };
                proof {
                    k = ci as int;
                    assert(self.connection_ids()[k] == engine_connection_id@);
                    assert forall|a: int| 0 <= a < old(self).connections@.len() implies kept_in(
                        #[trigger] old(self).connections@[a],
                        self.connections@[a],
                    ) by {
                        if a == ci {
                            let before_ids = old(self).connections@[a].spec_socket_ids();
                            assert forall|x: Seq<char>| #[trigger] before_ids.contains(x) implies self.connections@[a].spec_socket_ids().contains(x) by {
                                let w = choose|w: int| 0 <= w < before_ids.len() && before_ids[w] == x;
                                assert(self.connections@[a].spec_socket_ids()[w] == x);
                            }
                        }
                    }
                }
                (socket_id, event)
            },
            None => {
                let (connection, socket_id, event) = Connection::initialize(
                    engine_connection_id,
                    handshake,
                    &mut ns,
                    id_bytes,
                );
                self.connections.push(connection);
                proof {
                    assert(self.connection_ids() =~= old(self).connection_ids().push(engine_connection_id@));
                    assert forall|a: int, b: int| 0 <= a < b < self.connections@.len() implies
                        #[trigger] self.connections@[a].spec_id() != #[trigger] self.connections@[b].spec_id() by {
                        assert(self.connection_ids()[a] == self.connections@[a].spec_id());
                        if b == self.connections@.len() - 1 {
                            assert(old(self).connection_ids()[a] == self.connections@[a].spec_id());
                        } else {
                            assert(old(self).connections@[a].spec_id() != old(self).connections@[b].spec_id());
                        }
                    }
                    assert forall|a: int| 0 <= a < self.connections@.len() implies #[trigger] self.connections@[a].wf() by {
                        if a < self.connections@.len() - 1 {
                            assert(old(self).connections@[a] == self.connections@[a]);
                        }
                    }
                    k = self.connections@.len() - 1;
                    assert(self.connections@[k].spec_socket_ids()[0] == socket_id@);
                    assert forall|a: int| 0 <= a < old(self).connections@.len() implies kept_in(
                        #[trigger] old(self).connections@[a],
                        self.connections@[a],
                    ) by {
                        assert(old(self).connections@[a] == self.connections@[a]);
                    }
                }
                (socket_id, Some(event))
            },
        };
        self.namespaces.insert(namespace, ns);
        proof {
            assert(self.namespace_names() =~= names_before);
            assert forall|a: int| 0 <= a < self.namespaces@.len() implies #[trigger] self.namespaces@[a].wf() by {
                if a != namespace {
                    assert(old(self).namespaces@[a] == self.namespaces@[a]);
                }
            }
            assert forall|a: int| 0 <= a < self.namespaces@.len() implies normalized_namespace(
                #[trigger] self.namespaces@[a].spec_name(),
            ) == self.namespaces@[a].spec_name() by {
                assert(self.namespace_names()[a] == names_before[a]);
                assert(old(self).namespace_names()[a] == old(self).namespaces@[a].spec_name());
            }
            assert forall|a: int, b: int| 0 <= a < b < self.namespaces@.len() implies
                #[trigger] self.namespaces@[a].spec_name() != #[trigger] self.namespaces@[b].spec_name() by {
                assert(self.namespace_names()[a] == names_before[a]);
                assert(self.namespace_names()[b] == names_before[b]);
                assert(old(self).namespaces@[a].spec_name() != old(self).namespaces@[b].spec_name());
            }
        }
        self.connection_lookup.insert(copy_string(&socket_id), owned(engine_connection_id));
        proof {
            old(self).lemma_lookup_is_live_grown(self, socket_id@, engine_connection_id@, k);
            if !old(self).connection_ids().contains(engine_connection_id@) {
                assert(self.connection_ids()[self.connection_ids().len() - 1] == engine_connection_id@);
            }
        }
        (socket_id, event)
    }

    /// The place of the connection with the id `id`.
    pub open spec fn connection_index(&self, id: Seq<char>) -> int {
        choose|i: int| 0 <= i < self.connection_ids().len() && self.connection_ids()[i] == id
    }

    /// Forgets the engine.io connection and the ids of its sockets; whether
    /// there was such a connection comes back.
    pub fn remove_connection(&mut self, engine_connection_id: &str) -> (r: bool)
        requires
            old(self).wf(),
        ensures
            final(self).wf(),
            final(self).spec_namespaces() == old(self).spec_namespaces(),
            final(self).spec_dynamic() == old(self).spec_dynamic(),
            final(self).spec_options() == old(self).spec_options(),
            r == old(self).connection_ids().contains(engine_connection_id@),
            !r ==> *final(self) == *old(self),
            r ==> ({
                let i = old(self).connection_index(engine_connection_id@);
                &&& final(self).spec_connections() == old(self).spec_connections().remove(i)
                &&& final(self).spec_lookup() == old(self).spec_lookup().remove_keys(
                    old(self).spec_connections()[i].spec_socket_ids().to_set(),
                )
            }),
    {
        match self.find_connection(engine_connection_id) {
            Some(ci) => {
                proof {
                    let k = old(self).connection_index(engine_connection_id@);
                    assert(old(self).connection_ids()[ci as int] == engine_connection_id@);
                    if k != ci {
                        if k < ci {
                            assert(old(self).connections@[k].spec_id() != old(self).connections@[ci as int].spec_id());
                        } else {
                            assert(old(self).connections@[ci as int].spec_id() != old(self).connections@[k].spec_id());
                        }
                    }
                }
                let connection = self.connections.remove(ci);
                let ids = connection.socket_ids();
                let ghost all = connection.spec_socket_ids();
                let mut j: usize = 0;
                while j < ids.len()
                    invariant
                        old(self).wf(),
                        ci < old(self).connections@.len(),
                        self.connections@ == old(self).connections@.remove(ci as int),
                        self.namespaces@ == old(self).namespaces@,
                        self.dynamic_namespaces@ == old(self).dynamic_namespaces@,
                        self.socketio_options == old(self).socketio_options,
                        all == old(self).connections@[ci as int].spec_socket_ids(),
                        self.connection_lookup.wf(),
                        j <= ids@.len(),
                        ids@.len() == all.len(),
                        forall|a: int| 0 <= a < ids@.len() ==> #[trigger] ids@[a]@ == all[a],
                        self.connection_lookup@ == old(self).connection_lookup@.remove_keys(
                            all.subrange(0, j as int).to_set(),
                        ),
                    decreases ids@.len() - j,
                {
                    let ghost before = self.connection_lookup@;
                    self.connection_lookup.remove(ids[j].as_str());
                    proof {
                        let s1 = all.subrange(0, j + 1);
                        let s0 = all.subrange(0, j as int);
                        assert(s1.to_set() =~= s0.to_set().insert(all[j as int])) by {
                            assert forall|x: Seq<char>| s1.to_set().contains(x) <==> s0.to_set().insert(all[j as int]).contains(x) by {
                                if s1.contains(x) {
                                    let q = choose|q: int| 0 <= q < s1.len() && #[trigger] s1[q] == x;
                                    if q < j {
                                        assert(s0[q] == x);
                                    }
                                }
                                if s0.contains(x) {
                                    let q = choose|q: int| 0 <= q < s0.len() && #[trigger] s0[q] == x;
                                    assert(s1[q] == x);
                                }
                                if x == all[j as int] {
                                    assert(s1[j as int] == x);
                                }
                            }
                        }
                        assert(self.connection_lookup@ =~= old(self).connection_lookup@.remove_keys(
                            all.subrange(0, j + 1).to_set(),
                        ));
                    }
                    j = j + 1;
                }
                proof {
                    assert(all.subrange(0, all.len() as int) =~= all);
                    old(self).lemma_lookup_is_live_removed(self, ci as int);
                    assert forall|a: int, b: int| 0 <= a < b < self.connections@.len() implies
                        #[trigger] self.connections@[a].spec_id() != #[trigger] self.connections@[b].spec_id() by {
                        let a0 = if a < ci { a } else { a + 1 };
                        let b0 = if b < ci { b } else { b + 1 };
                        assert(old(self).connections@[a0].spec_id() != old(self).connections@[b0].spec_id());
                    }
                    assert forall|a: int| 0 <= a < self.connections@.len() implies #[trigger] self.connections@[a].wf() by {
                        let a0 = if a < ci { a } else { a + 1 };
                        assert(old(self).connections@[a0].wf());
                    }
                }
                true
            },
            None => false,
        }
    }

    /// An engine.io socket closed: its connection is forgotten (see
    /// [`Server::remove_connection`]); whether there was one comes back.
    pub fn handle_engine_socket_close(&mut self, engine_connection_id: &str) -> (r: bool)
        requires
            old(self).wf(),
        ensures
            final(self).wf(),
            final(self).spec_namespaces() == old(self).spec_namespaces(),
            final(self).spec_options() == old(self).spec_options(),
            r == old(self).connection_ids().contains(engine_connection_id@),
            !r ==> *final(self) == *old(self),
            r ==> final(self).spec_connections() == old(self).spec_connections().remove(
                old(self).connection_index(engine_connection_id@),
            ),
            r ==> final(self).spec_lookup() == old(self).spec_lookup().remove_keys(
                old(self).spec_connections()[old(self).connection_index(
                    engine_connection_id@,
                )].spec_socket_ids().to_set(),
            ),
    {
        self.remove_connection(engine_connection_id)
    }

    /// Connects the engine.io connection to the namespace named `name` with
    /// a leading `/` (made if need be): see [`Server::add_connection`], with
    /// the handshake of the request. The connect timer of the connection is
    /// to be cleared.
    pub fn connect_client(
        &mut self,
        context: &RequestContext,
        namespace_name: &str,
        engine_connection_id: &str,
        auth: PacketDataValue,
        fresh: FreshInputs,
    ) -> (r: ConnectedSocket)
        requires
            old(self).wf(),
            context.wf(),
        ensures
            final(self).wf(),
            final(self).spec_options() == old(self).spec_options(),
            final(self).dynamic_count() == old(self).dynamic_count(),
            r.namespace < final(self).namespace_names().len(),
            final(self).namespace_names()[r.namespace as int] == normalized_namespace(namespace_name@),
            final(self).namespace_names().len() >= old(self).namespace_names().len(),
            forall|i: int| 0 <= i < old(self).namespace_names().len() ==> final(self).namespace_names()[i]
                == old(self).namespace_names()[i],
            final(self).spec_lookup() == old(self).spec_lookup().insert(r.socket_id@, engine_connection_id@),
            final(self).connection_ids().contains(engine_connection_id@),
    {
        let (namespace, _) = self.get_or_create_namespace(namespace_name);
        let ghost names = self.namespace_names();
        let handshake = Handshake::new(context, auth, fresh.now);
        let (socket_id, event) = self.add_connection(namespace, engine_connection_id, handshake, fresh.id_bytes);
        proof {
            assert forall|i: int| 0 <= i < old(self).namespace_names().len() implies self.namespace_names()[i]
                == old(self).namespace_names()[i] by {
                if !old(self).namespace_names().contains(normalized_namespace(namespace_name@)) {
                    assert(names =~= old(self).namespace_names().push(names[namespace as int]));
                }
            }
        }
        ConnectedSocket { namespace, socket_id, event }
    }

    /// A client asks to connect to a namespace: when a namespace of that
    /// name exists, or a dynamic namespace recognises the name, the client
    /// is connected (see [`Server::connect_client`]) and answered with a
    /// `Connect` packet of the namespace holding `{"sid": socket_id}`; else
    /// with a `ConnectError` packet holding `{"message": "Invalid
    /// namespace"}`.
    pub fn handle_client_connect(
        &mut self,
        context: &RequestContext,
        namespace_name: String,
        engine_connection_id: &str,
        auth: PacketDataValue,
        fresh: FreshInputs,
    ) -> (r: ConnectOutcome)
        requires
            old(self).wf(),
            context.wf(),
        ensures
            client_connect_post(*old(self), *final(self), namespace_name@, engine_connection_id@, auth@, r),
    {
        let connect = if self.namespace_exists(namespace_name.as_str()) {
            true
        } else {
            self.get_matching_dynamic_namespace(namespace_name.as_str(), &auth).is_some()
        };
        if connect {
            let connected = self.connect_client(context, namespace_name.as_str(), engine_connection_id, auth, fresh);
            proof {
                if old(self).namespace_names().contains(namespace_name@) {
                    let k = choose|k: int| 0 <= k < old(self).namespace_names().len() && old(self).namespace_names()[k] == namespace_name@;
                    assert(old(self).spec_namespaces()[k].wf());
                }
            }
            let nsp = owned(self.namespaces[connected.namespace].get_name());
            let packet = make_connect_packet(nsp, copy_string(&connected.socket_id));
            ConnectOutcome { packet, connected: Some(connected) }
        } else {
            let packet = make_connect_error_packet(namespace_name);
            ConnectOutcome { packet, connected: None }
        }
    }

    /// A packet came from a client: a `Connect` is answered (see
    /// [`Server::handle_client_connect`], with the packet's namespace and
    /// data); any other packet goes to the socket that its connection has
    /// for the packet's namespace (see [`Connection::handle_packet`]).
    pub fn handle_packet_from_client(
        &mut self,
        context: &RequestContext,
        engine_connection_id: &str,
        packet: Packet,
        fresh: FreshInputs,
    ) -> (r: ClientPacketOutcome)
        requires
            old(self).wf(),
            context.wf(),
        ensures
            packet.packet_type == PacketType::Connect ==> (r matches ClientPacketOutcome::Reply(c)
                && client_connect_post(*old(self), *final(self), packet.nsp@, engine_connection_id@, packet.data@, c)),
            packet.packet_type != PacketType::Connect ==> {
                &&& r matches ClientPacketOutcome::Delivered { socket_id }
                &&& *final(self) == *old(self)
                &&& !old(self).connection_ids().contains(engine_connection_id@) ==> socket_id is None
                &&& old(self).connection_ids().contains(engine_connection_id@) ==> delivered_to(
                    old(self).spec_connections()[old(self).connection_index(engine_connection_id@)],
                    packet.nsp@,
                    socket_id,
                )
            },
    {
        match packet.packet_type {
            PacketType::Connect => {
                let Packet { nsp, data, .. } = packet;
                ClientPacketOutcome::Reply(
                    self.handle_client_connect(context, nsp, engine_connection_id, data, fresh),
                )
            },
            _ => {
                match self.find_connection(engine_connection_id) {
                    Some(ci) => {
                        proof {
                            self.lemma_connection_index(ci as int, engine_connection_id@);
                        }
                        let socket_id = self.connections[ci].handle_packet(&packet);
                        ClientPacketOutcome::Delivered { socket_id }
                    },
                    None => ClientPacketOutcome::Delivered { socket_id: None },
                }
            },
        }
    }

    /// The connection at `i` is the one with its id.
    proof fn lemma_connection_index(&self, i: int, id: Seq<char>)
        requires
            self.wf(),
            0 <= i < self.connection_ids().len(),
            self.connection_ids()[i] == id,
        ensures
            self.connection_index(id) == i,
            self.spec_connections()[i].wf(),
    {
        let k = self.connection_index(id);
        assert(self.connection_ids()[i] == id);
        if k != i {
            if k < i {
                assert(self.connections@[k].spec_id() != self.connections@[i].spec_id());
            } else {
                assert(self.connections@[i].spec_id() != self.connections@[k].spec_id());
            }
        }
    }

    /// Puts back at `i` a connection that was taken out, changed, and kept
    /// its id.
    fn put_connection(&mut self, i: usize, c: Connection, Ghost(before): Ghost<Server<S>>)
        requires
            before.wf(),
            i < before.spec_connections().len(),
            old(self).spec_connections() == before.spec_connections().remove(i as int),
            old(self).spec_namespaces() == before.spec_namespaces(),
            old(self).spec_dynamic() == before.spec_dynamic(),
            old(self).spec_lookup() == before.spec_lookup(),
            old(self).spec_options() == before.spec_options(),
            old(self).connection_lookup.wf(),
            c.spec_id() == before.spec_connections()[i as int].spec_id(),
            c.spec_socket_ids() == before.spec_connections()[i as int].spec_socket_ids(),
            c.wf(),
        ensures
            final(self).wf(),
            final(self).spec_connections() == before.spec_connections().update(i as int, c),
            final(self).spec_namespaces() == before.spec_namespaces(),
            final(self).spec_dynamic() == before.spec_dynamic(),
            final(self).spec_lookup() == before.spec_lookup(),
            final(self).spec_options() == before.spec_options(),
            final(self).connection_ids() == before.connection_ids(),
    {
        self.connections.insert(i, c);
        proof {
            assert(self.connections@ =~= before.connections@.update(i as int, c));
            assert(self.connection_ids() =~= before.connection_ids());
            assert forall|a: int| 0 <= a < before.connections@.len() implies kept_in(
                #[trigger] before.connections@[a],
                self.connections@[a],
            ) by {
                if a == i {
                    assert(self.connections@[a] == c);
                }
            }
            before.lemma_lookup_is_live_kept(self);
            assert forall|a: int| 0 <= a < self.connections@.len() implies #[trigger] self.connections@[a].wf() by {
                if a != i {
                    assert(before.connections@[a].wf());
                }
            }
            assert forall|a: int, b: int| 0 <= a < b < self.connections@.len() implies
                #[trigger] self.connections@[a].spec_id() != #[trigger] self.connections@[b].spec_id() by {
                assert(before.connection_ids()[a] == self.connection_ids()[a]);
                assert(before.connection_ids()[b] == self.connection_ids()[b]);
                assert(before.connections@[a].spec_id() != before.connections@[b].spec_id());
            }
        }
    }

    /// A message came from the engine.io layer (socket.io's `ondata`): a
    /// text that could not be decoded is reported as `Bad packet`; the
    /// header of a packet with attachments makes the connection collect
    /// them (a connection that is already collecting reports `sequence
    /// error`); a whole packet, or the last attachment of one, is handled
    /// (see [`Server::handle_packet_from_client`]); the rest is ignored.
    pub fn handle_new_message(
        &mut self,
        context: &RequestContext,
        engine_connection_id: &str,
        message: EngineMessage,
        fresh: FreshInputs,
    ) -> (r: MessageOutcome)
        requires
            old(self).wf(),
            context.wf(),
        ensures
            final(self).wf(),
            final(self).spec_options() == old(self).spec_options(),
            new_message_post(*old(self), *final(self), engine_connection_id@, message, r),
    {
        match message {
            EngineMessage::Text(decoded) => match decoded {
                Err(_) => MessageOutcome {
                    error: Some(ServerEvent::Error { message: owned("Bad packet") }),
                    handled: None,
                },
                Ok(ProtoPacket::Multipart(header)) => {
                    if header.has_attachments() {
                        match self.find_connection(engine_connection_id) {
                            Some(ci) => {
                                proof {
                                    self.lemma_connection_index(ci as int, engine_connection_id@);
                                }
                                let ghost before = *self;
                                let mut connection = self.connections.remove(ci);
                                let result = connection.set_decoder(DefaultDecoder::new(header));
                                self.put_connection(ci, connection, Ghost(before));
                                match result {
                                    Ok(()) => MessageOutcome { error: None, handled: None },
                                    Err(_) => {
                                        proof {
                                            assert(self.connections@ =~= before.connections@);
                                        }
                                        MessageOutcome {
                                            error: Some(ServerEvent::Error { message: owned("sequence error") }),
                                            handled: None,
                                        }
                                    },
                                }
                            },
                            None => MessageOutcome { error: None, handled: None },
                        }
                    } else {
                        MessageOutcome { error: None, handled: None }
                    }
                },
                Ok(ProtoPacket::Plain(packet)) => {
                    let handled = self.handle_packet_from_client(context, engine_connection_id, packet, fresh);
                    MessageOutcome { error: None, handled: Some(handled) }
                },
            },
            EngineMessage::Binary(buffer) => {
                match self.find_connection(engine_connection_id) {
                    Some(ci) => {
                        proof {
                            self.lemma_connection_index(ci as int, engine_connection_id@);
                        }
                        if !self.connections[ci].has_decoder() {
                            return MessageOutcome { error: None, handled: None };
                        }
                        let ghost before = *self;
                        let mut connection = self.connections.remove(ci);
                        let result = connection.decode_binary_data(buffer);
                        self.put_connection(ci, connection, Ghost(before));
                        match result {
                            Ok(DecodeBinarySuccess::Done { packet }) => {
                                let handled = self.handle_packet_from_client(
                                    context,
                                    engine_connection_id,
                                    packet,
                                    fresh,
                                );
                                MessageOutcome { error: None, handled: Some(handled) }
                            },
                            _ => MessageOutcome { error: None, handled: None },
                        }
                    },
                    None => MessageOutcome { error: None, handled: None },
                }
            },
            EngineMessage::Empty => MessageOutcome { error: None, handled: None },
        }
    }

    /// Acts on an event of the engine.io layer: a new connection is to get
    /// a connect timer; a closed one is forgotten (see
    /// [`Server::handle_engine_socket_close`]); a message is handled (see
    /// [`Server::handle_new_message`]); after an error the engine.io socket
    /// is to be closed; other events are ignored.
    pub fn on_engine_event(&mut self, event: EngineEvent) -> (r: EngineEventAction)
        requires
            old(self).wf(),
            event matches EngineEvent::Message { context, .. } ==> context.wf(),
        ensures
            final(self).wf(),
            final(self).spec_options() == old(self).spec_options(),
            match event {
                EngineEvent::Connection { connection_id } => r == EngineEventAction::SetupConnectTimer {
                    connection_id,
                } && *final(self) == *old(self),
                EngineEvent::Close { connection_id } => {
                    &&& r == EngineEventAction::Closed {
                        existed: old(self).connection_ids().contains(connection_id@),
                    }
                    &&& old(self).connection_ids().contains(connection_id@) ==> final(self).spec_connections()
                        == old(self).spec_connections().remove(old(self).connection_index(connection_id@))
                    &&& !old(self).connection_ids().contains(connection_id@) ==> *final(self) == *old(self)
                },
                EngineEvent::Message { connection_id, message, .. } => r matches EngineEventAction::Handled(o)
                    && new_message_post(*old(self), *final(self), connection_id@, message, o),
                EngineEvent::Error { connection_id } => r == EngineEventAction::CloseSocket {
                    connection_id,
                } && *final(self) == *old(self),
                EngineEvent::Other => r is Nothing && *final(self) == *old(self),
            },
    {
        match event {
            EngineEvent::Connection { connection_id } => EngineEventAction::SetupConnectTimer {
                connection_id,
            },
            EngineEvent::Close { connection_id } => {
                let existed = self.handle_engine_socket_close(connection_id.as_str());
                EngineEventAction::Closed { existed }
            },
            EngineEvent::Message { connection_id, context, message, fresh } => {
                let outcome = self.handle_new_message(&*context, connection_id.as_str(), message, fresh);
                EngineEventAction::Handled(outcome)
            },
            EngineEvent::Error { connection_id } => EngineEventAction::CloseSocket { connection_id },
            EngineEvent::Other => EngineEventAction::Nothing,
        }
    }
}

/// Every socket id in the lookup leads to a connection that is still there
/// and holds a socket of that id.
pub proof fn law_socket_ids_lead_to_live_connections<S: Storage>(s: Server<S>, sid: Seq<char>)
    requires
        s.wf(),
        s.spec_lookup().contains_key(sid),
    ensures
        s.connection_ids().contains(s.spec_lookup()[sid]),
        s.spec_connections()[s.connection_index(s.spec_lookup()[sid])].spec_socket_ids().contains(sid),
{
    let i = choose|i: int|
        0 <= i < s.connections@.len() && #[trigger] s.connections@[i].spec_id() == s.connection_lookup@[sid]
            && s.connections@[i].spec_socket_ids().contains(sid);
    assert(s.connection_ids()[i] == s.spec_lookup()[sid]);
    s.lemma_connection_index(i, s.spec_lookup()[sid]);
}

/// Once a connection is gone (an engine.io close removes it), it is gone
/// for good from the registry: no connection of that id is left, and no
/// socket id leads to it.
pub proof fn law_closed_connection_is_unreachable<S: Storage>(
    before: Server<S>,
    after: Server<S>,
    id: Seq<char>,
    sid: Seq<char>,
)
    requires
        before.wf(),
        after.wf(),
        before.connection_ids().contains(id),
        after.spec_connections() == before.spec_connections().remove(before.connection_index(id)),
    ensures
        !after.connection_ids().contains(id),
        after.spec_lookup().contains_key(sid) ==> after.spec_lookup()[sid] != id,
{
    let k = before.connection_index(id);
    assert(0 <= k < before.connection_ids().len() && before.connection_ids()[k] == id);
    assert forall|j: int| 0 <= j < after.connection_ids().len() implies #[trigger] after.connection_ids()[j] != id by {
        let j0 = if j < k { j } else { j + 1 };
        assert(after.connections@[j] == before.connections@[j0]);
        if j0 < k {
            assert(before.connections@[j0].spec_id() != before.connections@[k].spec_id());
        } else {
            assert(before.connections@[k].spec_id() != before.connections@[j0].spec_id());
        }
    }
    if after.spec_lookup().contains_key(sid) {
        law_socket_ids_lead_to_live_connections(after, sid);
    }
}

} // verus!
