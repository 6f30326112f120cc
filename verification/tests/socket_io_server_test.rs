use engine_io::engine_io_server::transport::TransportKind;
use engine_io::engine_io_server::util::{HttpMethod, RequestContext};
use engine_io::socket_io_parser::decoder::HandleEngineMessageError;
use engine_io::socket_io_parser::packet::{
    BinaryPacketType, JsonValue, MultipartPacketHeader, Packet, PacketDataValue, PacketType,
    ProtoPacket,
};
use engine_io::socket_io_server::connection::{AddToNamespaceSuccess, Connection, DecodeBinarySuccess, DecodeError};
use engine_io::socket_io_server::error::{BroadcastError, EmitError};
use engine_io::socket_io_server::namespace::{
    broadcast_request, emit_outcome, make_hash_set_from_str, make_packet_for_event, DynamicNamespace, NamespaceEvent,
    SimpleNamespace,
};
use engine_io::socket_io_server::server::{
    normalize_namespace, ClientPacketOutcome, CompiledRegex, EngineEvent, EngineEventAction, EngineMessage,
    GetResult, NamespaceDescriptor, NamespaceKind, NamespaceNameMatch, NotFoundError, Options, Server, ServerEvent,
    ServerOptions,
};
use engine_io::socket_io_server::socket::{FreshInputs, Handshake, Socket, UtcTime};
use engine_io::socket_io_server::storage::{Flags, Storage};
use engine_io::socket_io_parser::decoder::DefaultDecoder;
use engine_io::string_map::{StringMap, StringSet};
use std::sync::Arc;
use std::sync::Mutex;

/// A storage that records what it is asked.
struct Recorder {
    broadcasts: Mutex<Vec<(String, Vec<String>)>>,
    fail: bool,
}

impl Storage for Recorder {
    fn new() -> Self {
        Recorder { broadcasts: Mutex::new(Vec::new()), fail: false }
    }
    fn add_all(&self, _socket_id: &str, _room_names: StringSet) {}
    fn del(&self, _socket_id: &str, _room_name: &str) {}
    fn broadcast(&self, packet: Packet, rooms: &[String], _flags: Flags) -> Result<(), BroadcastError> {
        self.broadcasts.lock().unwrap().push((packet.nsp.clone(), rooms.to_vec()));
        if self.fail {
            Err(BroadcastError)
        } else {
            Ok(())
        }
    }
}

fn context() -> RequestContext {
    let mut headers = StringMap::new();
    headers.insert("host".to_string(), "example.com".to_string());
    RequestContext {
        query: StringMap::new(),
        headers,
        origin: Some("http://example.com".to_string()),
        secure: true,
        user_agent: "agent".to_string(),
        content_type: "text/plain".to_string(),
        transport_kind: TransportKind::Polling,
        http_method: HttpMethod::Get,
        remote_address: "10.0.0.1:1234".to_string(),
        request_url: "/socket.io/?EIO=3".to_string(),
        set_cookie: None,
    }
}

fn fresh() -> FreshInputs {
    FreshInputs { id_bytes: [9u8; 16], now: UtcTime { secs: 1_600_000_000 } }
}

fn object(entries: Vec<(&str, PacketDataValue)>) -> PacketDataValue {
    PacketDataValue::Object(entries.into_iter().map(|(k, v)| (k.to_string(), v)).collect())
}

#[test]
fn errors_and_defaults() {
    assert_eq!(EmitError::EmptyEventName.to_string(), "Event name cannot be empty");
    assert_eq!(EmitError::from(BroadcastError), EmitError::BroadcastError);
    assert_eq!(BroadcastError.to_string(), "Broadcast failed");
    assert_eq!(NotFoundError.to_string(), "Client or namespace not found");
    assert_eq!(Flags::default(), Flags { volatile: false, compress: false, local: false });
    let o = ServerOptions::default();
    assert_eq!((o.connect_timeout, o.buffer_factor), (45000, 2));
    let all = Options::default_with(());
    assert_eq!(all.listen_options.path, "/socket.io");
}

#[test]
fn namespace_names_get_a_leading_slash() {
    assert_eq!(normalize_namespace("chat"), "/chat");
    assert_eq!(normalize_namespace("/chat"), "/chat");
    assert_eq!(normalize_namespace(""), "/");
    let set = make_hash_set_from_str("room");
    assert!(set.contains("room"));
    assert_eq!(set.to_vec(), vec!["room".to_string()]);
}

#[test]
fn event_packets_carry_name_and_data() {
    let p = make_packet_for_event("greet", PacketDataValue::Number(engine_io::socket_io_parser::packet::JsonNumber::PosInt(1)), "/chat");
    assert_eq!(p.packet_type, PacketType::Event);
    assert_eq!(p.nsp, "/chat");
    assert_eq!(p.id, None);
    assert_eq!(
        p.data,
        PacketDataValue::Array(vec![
            PacketDataValue::String("greet".to_string()),
            PacketDataValue::Number(engine_io::socket_io_parser::packet::JsonNumber::PosInt(1)),
        ])
    );
}

#[test]
fn emitting_refuses_empty_names_and_reports_failures() {
    let ns = SimpleNamespace::<Recorder>::new("/".to_string());
    assert_eq!(ns.emit("", PacketDataValue::Null), Err(EmitError::EmptyEventName));
    assert_eq!(ns.emit("x", PacketDataValue::Null), Ok(()));
    assert_eq!(ns.send(PacketDataValue::Null), Ok(()));
    let filtered = ns.to("a").to("b").add_room("c");
    assert_eq!(filtered.emit("", PacketDataValue::Null), Err(EmitError::EmptyEventName));
    assert_eq!(filtered.emit("x", PacketDataValue::Null), Ok(()));
}

#[test]
fn dynamic_namespace_broadcasts_to_each_member() {
    let a = SimpleNamespace::<Recorder>::new("/a".to_string());
    let b = SimpleNamespace::<Recorder>::new("/b".to_string());
    let mut d = DynamicNamespace::<Recorder>::new();
    assert_eq!(d.emit("x", PacketDataValue::Null), Ok(()));
    d.insert_simple_namespace(a.share());
    d.insert_simple_namespace(b.share());
    d.insert_simple_namespace(a.share());
    assert_eq!(d.emit("", PacketDataValue::Null), Err(EmitError::EmptyEventName));
    assert_eq!(d.send(PacketDataValue::Null), Ok(()));
}

#[test]
fn simple_namespace_tracks_sockets() {
    let mut ns = SimpleNamespace::<Recorder>::new("/".to_string());
    match ns.add_socket("s1") {
        NamespaceEvent::Connection { socket_id } => assert_eq!(socket_id, "s1"),
        _ => panic!("expected a connection event"),
    }
    ns.remove_socket("s1");
    assert_eq!(ns.get_name(), "/");
}

#[test]
fn handshake_copies_the_request() {
    let h = Handshake::new(&context(), PacketDataValue::Null, UtcTime { secs: 1_600_000_000 });
    assert!(h.xdomain);
    assert!(h.secure);
    assert_eq!(h.address, "10.0.0.1:1234");
    assert_eq!(h.url, "/socket.io/?EIO=3");
    assert_eq!(h.headers.get("host").map(|s| s.as_str()), Some("example.com"));
    assert_eq!(h.issued, 1_600_000_000);
    assert_eq!(h.time, UtcTime { secs: 1_600_000_000 });
    let s = Socket::new(h, "/chat", [3u8; 16]);
    assert_eq!(s.id.len(), 36);
    assert_eq!(s.get_handshake().address, "10.0.0.1:1234");
}

#[test]
fn get_or_create_namespace_finds_existing_ones() {
    let mut server = Server::<Recorder>::new(ServerOptions::default());
    let (i, r) = server.get_or_create_namespace("chat");
    assert_eq!(r, GetResult::New);
    let (j, r) = server.get_or_create_namespace("/chat");
    assert_eq!((j, r), (i, GetResult::Existing));
    assert!(server.namespace_exists("/chat"));
    assert!(!server.namespace_exists("chat"));
    assert_eq!(server.namespace(i).get_name(), "/chat");
    match server.of(NamespaceDescriptor::Text("news".to_string())) {
        NamespaceKind::Simple(k) => assert_eq!(server.namespace(k).get_name(), "/news"),
        _ => panic!("expected a simple namespace"),
    }
}

#[test]
fn connect_to_unknown_namespace_is_refused() {
    let mut server = Server::<Recorder>::new(ServerOptions::default());
    let out = server.handle_client_connect(&context(), "/nope".to_string(), "e1", PacketDataValue::Null, fresh());
    assert!(out.connected.is_none());
    assert_eq!(out.packet.packet_type, PacketType::ConnectError);
    assert_eq!(out.packet.nsp, "/nope");
    assert_eq!(
        out.packet.data,
        object(vec![("message", PacketDataValue::String("Invalid namespace".to_string()))])
    );
}

#[test]
fn connect_to_existing_namespace_answers_with_sid() {
    let mut server = Server::<Recorder>::new(ServerOptions::default());
    server.get_or_create_namespace("/");
    let out = server.handle_client_connect(&context(), "/".to_string(), "e1", PacketDataValue::Null, fresh());
    let connected = out.connected.unwrap();
    assert_eq!(out.packet.packet_type, PacketType::Connect);
    assert_eq!(out.packet.nsp, "/");
    assert_eq!(
        out.packet.data,
        object(vec![("sid", PacketDataValue::String(connected.socket_id.clone()))])
    );
    assert!(matches!(connected.event, Some(NamespaceEvent::Connection { .. })));
    assert!(server.remove_connection("e1"));
    assert!(!server.remove_connection("e1"));
}

#[test]
fn dynamic_namespaces_match_by_regex() {
    let mut server = Server::<Recorder>::new(ServerOptions::default());
    assert!(CompiledRegex::new("(").is_none());
    let re = CompiledRegex::new("^/dyn-[0-9]+$").unwrap();
    assert_eq!(re.as_str(), "^/dyn-[0-9]+$");
    server.make_dynamic_namespace(NamespaceDescriptor::Regex(re));
    assert_eq!(server.get_matching_dynamic_namespace("/other", &PacketDataValue::Null), None);
    assert!(!server.namespace_exists("/other"));
    assert_eq!(server.get_matching_dynamic_namespace("/dyn-12", &PacketDataValue::Null), Some(0));
    assert!(server.namespace_exists("/dyn-12"));
    let out = server.handle_client_connect(&context(), "/dyn-7".to_string(), "e2", PacketDataValue::Null, fresh());
    assert_eq!(out.packet.packet_type, PacketType::Connect);
    assert_eq!(out.packet.nsp, "/dyn-7");
}

/// A test that accepts the names that start with its prefix when the auth
/// data is `true`.
struct PrefixWithAuth(&'static str);

impl NamespaceNameMatch for PrefixWithAuth {
    fn matches(&self, name: &str, auth: &PacketDataValue) -> bool {
        name.starts_with(self.0) && *auth == PacketDataValue::Bool(true)
    }
}

#[test]
fn dynamic_namespaces_match_by_a_test_of_the_user() {
    let mut server = Server::<Recorder>::new(ServerOptions::default());
    server.make_dynamic_namespace(NamespaceDescriptor::Text("/exact".to_string()));
    match server.of(NamespaceDescriptor::Function(Box::new(PrefixWithAuth("/room-")))) {
        NamespaceKind::Dynamic(i) => assert_eq!(i, 1),
        NamespaceKind::Simple(_) => panic!("a test of the user makes a dynamic namespace"),
    }
    assert_eq!(server.get_matching_dynamic_namespace("/room-1", &PacketDataValue::Null), None);
    assert!(!server.namespace_exists("/room-1"));
    assert_eq!(server.get_matching_dynamic_namespace("/room-1", &PacketDataValue::Bool(true)), Some(1));
    assert!(server.namespace_exists("/room-1"));
    assert_eq!(server.get_matching_dynamic_namespace("/exact", &PacketDataValue::Bool(true)), Some(0));
    let out = server.handle_client_connect(&context(), "/lobby".to_string(), "e3", PacketDataValue::Bool(true), fresh());
    assert_eq!(out.packet.packet_type, PacketType::ConnectError);
    let out = server.handle_client_connect(&context(), "/room-2".to_string(), "e3", PacketDataValue::Bool(true), fresh());
    assert_eq!(out.packet.packet_type, PacketType::Connect);
    assert_eq!(out.packet.nsp, "/room-2");
}

#[test]
fn messages_from_the_engine_layer() {
    let mut server = Server::<Recorder>::new(ServerOptions::default());
    let out = server.handle_new_message(
        &context(),
        "e1",
        EngineMessage::Text(Err(HandleEngineMessageError::PacketParseError)),
        fresh(),
    );
    assert!(matches!(out.error, Some(ServerEvent::Error { message }) if message == "Bad packet"));
    server.get_or_create_namespace("/");
    let connect = Packet {
        packet_type: PacketType::Connect,
        id: None,
        nsp: "/".to_string(),
        data: PacketDataValue::Null,
    };
    let out = server.handle_new_message(&context(), "e1", EngineMessage::Text(Ok(ProtoPacket::Plain(connect))), fresh());
    assert!(out.error.is_none());
    let sid = match out.handled {
        Some(ClientPacketOutcome::Reply(r)) => r.connected.unwrap().socket_id,
        _ => panic!("expected a reply"),
    };
    let header = MultipartPacketHeader {
        packet_type: BinaryPacketType::BinaryEvent,
        id: None,
        nsp: Some("/".to_string()),
        data: JsonValue::Null,
        attachments_count: 1,
    };
    let out = server.handle_new_message(&context(), "e1", EngineMessage::Text(Ok(ProtoPacket::Multipart(header))), fresh());
    assert!(out.error.is_none());
    let header = MultipartPacketHeader {
        packet_type: BinaryPacketType::BinaryEvent,
        id: None,
        nsp: Some("/".to_string()),
        data: JsonValue::Null,
        attachments_count: 1,
    };
    let out = server.handle_new_message(&context(), "e1", EngineMessage::Text(Ok(ProtoPacket::Multipart(header))), fresh());
    assert!(matches!(out.error, Some(ServerEvent::Error { message }) if message == "sequence error"));
    let out = server.handle_new_message(&context(), "e1", EngineMessage::Binary(vec![1, 2, 3]), fresh());
    match out.handled {
        Some(ClientPacketOutcome::Delivered { socket_id }) => assert_eq!(socket_id, Some(sid)),
        _ => panic!("expected the collected packet to be delivered"),
    }
    let out = server.handle_new_message(&context(), "e1", EngineMessage::Empty, fresh());
    assert!(out.error.is_none() && out.handled.is_none());
}

#[test]
fn engine_events_become_actions() {
    let mut server = Server::<Recorder>::new(ServerOptions::default());
    match server.on_engine_event(EngineEvent::Connection { connection_id: "e9".to_string() }) {
        EngineEventAction::SetupConnectTimer { connection_id } => assert_eq!(connection_id, "e9"),
        _ => panic!("expected a timer"),
    }
    assert!(matches!(
        server.on_engine_event(EngineEvent::Close { connection_id: "e9".to_string() }),
        EngineEventAction::Closed { existed: false }
    ));
    assert!(matches!(
        server.on_engine_event(EngineEvent::Error { connection_id: "e9".to_string() }),
        EngineEventAction::CloseSocket { .. }
    ));
    let ctx = Arc::new(context());
    assert!(matches!(
        server.on_engine_event(EngineEvent::Message {
            connection_id: "e9".to_string(),
            context: ctx,
            message: EngineMessage::Empty,
            fresh: fresh(),
        }),
        EngineEventAction::Handled(_)
    ));
}

#[test]
fn connection_collects_attachments() {
    let mut ns = SimpleNamespace::<Recorder>::new("/".to_string());
    let h = Handshake::new(&context(), PacketDataValue::Null, UtcTime { secs: 1_600_000_000 });
    let (mut c, sid, _) = Connection::initialize("e1", h, &mut ns, [4u8; 16]);
    assert_eq!(c.socket_ids(), vec![sid]);
    assert!(matches!(c.decode_binary_data(vec![1]), Err(DecodeError::InvalidDecoderState)));
    let placeholder = JsonValue::Object(vec![
        ("_placeholder".to_string(), JsonValue::Bool(true)),
        ("num".to_string(), JsonValue::Number(engine_io::socket_io_parser::packet::JsonNumber::PosInt(1))),
    ]);
    let header = MultipartPacketHeader {
        packet_type: BinaryPacketType::BinaryAck,
        id: Some(4),
        nsp: None,
        data: JsonValue::Array(vec![placeholder]),
        attachments_count: 2,
    };
    assert!(c.set_decoder(DefaultDecoder::new(header)).is_ok());
    assert!(matches!(c.decode_binary_data(vec![1]), Ok(DecodeBinarySuccess::InProgress)));
    match c.decode_binary_data(vec![2, 3]) {
        Ok(DecodeBinarySuccess::Done { packet }) => {
            assert_eq!(packet.packet_type, PacketType::BinaryAck);
            assert_eq!(packet.id, Some(4));
            assert_eq!(packet.nsp, "/");
            assert_eq!(packet.data, PacketDataValue::Array(vec![PacketDataValue::Binary(vec![2, 3])]));
        }
        _ => panic!("expected the packet"),
    }
    assert!(!c.has_decoder());
}

#[test]
fn closed_connection_gets_no_more_packets() {
    let mut server = Server::<Recorder>::new(ServerOptions::default());
    server.get_or_create_namespace("/chat");
    let out = server.handle_client_connect(&context(), "/chat".to_string(), "conn-1", PacketDataValue::Null, fresh());
    let socket_id = out.connected.unwrap().socket_id;
    let event = || Packet {
        packet_type: PacketType::Event,
        id: None,
        nsp: "/chat".to_string(),
        data: PacketDataValue::Null,
    };
    match server.handle_packet_from_client(&context(), "conn-1", event(), fresh()) {
        ClientPacketOutcome::Delivered { socket_id: delivered } => assert_eq!(delivered, Some(socket_id)),
        _ => panic!("expected a delivery"),
    }
    assert!(matches!(
        server.on_engine_event(EngineEvent::Close { connection_id: "conn-1".to_string() }),
        EngineEventAction::Closed { existed: true }
    ));
    let event = Packet {
        packet_type: PacketType::Event,
        id: None,
        nsp: "/chat".to_string(),
        data: PacketDataValue::Null,
    };
    match server.handle_packet_from_client(&context(), "conn-1", event, fresh()) {
        ClientPacketOutcome::Delivered { socket_id } => assert_eq!(socket_id, None),
        _ => panic!("expected no delivery"),
    }
    assert!(!server.remove_connection("conn-1"));
}

#[test]
fn dynamic_namespace_without_members_sends_nowhere() {
    let d = DynamicNamespace::<Recorder>::new();
    assert_eq!(d.send(PacketDataValue::Null), Ok(()));
    assert_eq!(d.emit("ev", PacketDataValue::Null), Ok(()));
    assert_eq!(d.emit("", PacketDataValue::Null), Err(EmitError::EmptyEventName));
}

#[test]
fn joining_a_namespace_twice_answers_the_first_socket() {
    let mut ns = SimpleNamespace::<Recorder>::new("/a".to_string());
    let h = Handshake::new(&context(), PacketDataValue::Null, UtcTime { secs: 1 });
    let (mut c, sid, _) = Connection::initialize("e1", h, &mut ns, [5u8; 16]);
    let h = Handshake::new(&context(), PacketDataValue::Null, UtcTime { secs: 2 });
    let (answer, event) = c.add_to_namespace(h, &mut ns, [6u8; 16]);
    assert!(event.is_none());
    match answer {
        AddToNamespaceSuccess::AlreadyExisting { socket_id } => assert_eq!(socket_id, sid),
        _ => panic!("expected the first socket"),
    }
    assert_eq!(c.socket_ids(), vec![sid]);
    let mut other = SimpleNamespace::<Recorder>::new("/b".to_string());
    let h = Handshake::new(&context(), PacketDataValue::Null, UtcTime { secs: 3 });
    let (answer, event) = c.add_to_namespace(h, &mut other, [6u8; 16]);
    assert!(matches!(answer, AddToNamespaceSuccess::Added { .. }));
    assert!(event.is_some());
    assert_eq!(c.socket_ids().len(), 2);
}

#[test]
fn emits_hand_the_request_to_the_broadcast() {
    assert!(broadcast_request("", PacketDataValue::Null, vec![], Flags::default()).is_none());
    let q = broadcast_request("ev", PacketDataValue::Bool(true), vec!["r".to_string()], Flags::default()).unwrap();
    assert_eq!(q.event_name, "ev");
    assert_eq!(q.data, PacketDataValue::Bool(true));
    assert_eq!(q.rooms, vec!["r".to_string()]);
    assert_eq!(emit_outcome(Ok(())), Ok(()));
    assert_eq!(emit_outcome(Err(BroadcastError)), Err(EmitError::BroadcastError));
    let ns = SimpleNamespace::<Recorder>::new("/".to_string());
    let f = ns.to("a").to("b").to("a");
    let mut rooms = f.target_rooms();
    rooms.sort();
    assert_eq!(rooms, vec!["a".to_string(), "b".to_string()]);
    assert_eq!(f.emit("ev", PacketDataValue::Null), Ok(()));
}

#[test]
fn emit_requests_name_the_rooms_of_each_namespace() {
    let flags = Flags { volatile: true, compress: false, local: true };
    let ns = SimpleNamespace::<Recorder>::new("/chat".to_string());
    assert!(ns.emit_request("", PacketDataValue::Null, flags).is_none());
    let q = ns.emit_request("ev", PacketDataValue::Bool(false), flags).unwrap();
    assert_eq!(q.event_name, "ev");
    assert_eq!(q.data, PacketDataValue::Bool(false));
    assert!(q.rooms.is_empty());
    assert_eq!(q.flags, flags);
    let d = DynamicNamespace::<Recorder>::new();
    assert!(d.emit_request("", PacketDataValue::Null, flags).is_none());
    assert!(d.emit_request("ev", PacketDataValue::Null, flags).unwrap().rooms.is_empty());
    let f = ns.to("x").add_room("y").add_room("x");
    assert!(f.emit_request("", PacketDataValue::Null, flags).is_none());
    let q = f.emit_request("ev", PacketDataValue::Null, flags).unwrap();
    let mut rooms = q.rooms.clone();
    rooms.sort();
    assert_eq!(rooms, vec!["x".to_string(), "y".to_string()]);
    assert_eq!(q.flags, flags);
}

