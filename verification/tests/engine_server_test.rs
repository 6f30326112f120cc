use engine_io::engine_io_parser::packet::{Packet, PacketData, PacketType};
use engine_io::engine_io_server::adapter::ListenOptions;
use engine_io::engine_io_server::server::{
    HandshakeData, RequestRoute, Server, ServerEvent, ServerOptions,
};
use engine_io::engine_io_server::socket::{
    PollingResponse, ReadyState, Socket, SocketError, SocketEvent,
};
use engine_io::engine_io_server::transport::{
    get_common_polling_response_headers, polling_options, websocket_options, RequestReply,
    ResponseBodyData, TransportCreateData, TransportError, TransportEvent, TransportKind,
};
use engine_io::engine_io_server::util::{
    HttpMethod, RequestContext, SendPacketError, ServerError, ServerErrorMessage, SetCookie,
};
use engine_io::engine_io_server::server::CookieOptions;
use engine_io::string_map::StringMap;
use std::sync::Arc;

fn context(query: &[(&str, &str)], kind: TransportKind, method: HttpMethod) -> RequestContext {
    let mut q = StringMap::new();
    for (k, v) in query {
        q.insert(k.to_string(), v.to_string());
    }
    RequestContext {
        query: q,
        headers: StringMap::new(),
        origin: None,
        secure: false,
        user_agent: "test-agent".to_string(),
        content_type: "text/plain".to_string(),
        transport_kind: kind,
        http_method: method,
        remote_address: "127.0.0.1:4000".to_string(),
        request_url: "/engine.io/".to_string(),
        set_cookie: None,
    }
}

fn message(text: &str) -> Packet {
    Packet { packet_type: PacketType::Message, data: PacketData::Plaintext(text.to_string()) }
}

fn is_uuid(s: &str) -> bool {
    let chars: Vec<char> = s.chars().collect();
    chars.len() == 36
        && chars.iter().enumerate().all(|(i, c)| {
            if i == 8 || i == 13 || i == 18 || i == 23 {
                *c == '-'
            } else {
                c.is_ascii_digit() || ('a'..='f').contains(c)
            }
        })
}

#[test]
fn transport_kind_parses_names() {
    assert_eq!(TransportKind::parse("websocket"), Ok(TransportKind::WebSocket));
    assert_eq!(TransportKind::parse("polling"), Ok(TransportKind::Polling));
    assert_eq!(TransportKind::parse("flashsocket"), Err(ServerError::UnknownTransport));
    assert_eq!(TransportKind::WebSocket.name(), "websocket");
    assert!(TransportKind::WebSocket.supports_framing());
    assert!(!TransportKind::Polling.supports_framing());
    assert_eq!(TransportKind::WebSocket.as_polling_or_fail(), Err(ServerError::BadRequest));
}

#[test]
fn server_errors_have_codes_and_messages() {
    assert_eq!(ServerError::UnknownSid.code(), 1);
    assert_eq!(ServerError::ShuttingDown.code(), -99);
    assert_eq!(ServerError::BadHandshakeMethod.to_string(), "Bad handshake method");
    assert_eq!(ServerError::from_message("Forbidden"), Some(ServerError::Forbidden));
    assert_eq!(ServerError::from_message("nope"), None);
    let m = ServerErrorMessage::from_server_error(ServerError::Unknown);
    assert_eq!(m.code, -1);
    assert_eq!(m.message, "Unknown");
}

#[test]
fn default_options() {
    let o = ServerOptions::default();
    assert_eq!(o.ping_timeout, 5000);
    assert_eq!(o.ping_interval, 25000);
    assert_eq!(o.transports, vec![TransportKind::WebSocket, TransportKind::Polling]);
    let c = o.cookie.unwrap();
    assert_eq!((c.name.as_str(), c.path.as_str(), c.http_only), ("io", "/", true));
    let l = ListenOptions::default();
    assert_eq!(l.path, "/engine.io");
    assert_eq!(l.destroy_upgrade_timeout, Some(1000));
    assert!(websocket_options(false).per_message_deflate);
    assert_eq!(polling_options(true).max_http_buffer_size, 1024);
}

#[test]
fn set_cookie_from_options() {
    let cookie = SetCookie::from_cookie_options(&Some(CookieOptions::default()), "abc".to_string())
        .unwrap();
    assert_eq!(cookie.name, "io");
    assert_eq!(cookie.value, "abc");
    assert!(cookie.same_site);
    assert!(SetCookie::from_cookie_options(&None, "abc".to_string()).is_none());
}

#[test]
fn response_body_bytes() {
    assert_eq!(ResponseBodyData::Plaintext("h€".to_string()).into_bytes(), vec![104, 226, 130, 172]);
    assert_eq!(ResponseBodyData::Binary(vec![1, 2]).into_bytes(), vec![1, 2]);
}

#[test]
fn polling_headers_for_ie_and_origin() {
    let mut ctx = context(&[], TransportKind::Polling, HttpMethod::Get);
    ctx.user_agent = "Mozilla/5.0 (compatible; MSIE 10.0; Windows NT 6.2; Trident/6.0)".to_string();
    ctx.origin = Some("http://example.com".to_string());
    let h = get_common_polling_response_headers(Arc::new(ctx), true);
    assert_eq!(h.get("X-XSS-Protection").map(|s| s.as_str()), Some("0"));
    assert_eq!(h.get("Access-Control-Allow-Credentials").map(|s| s.as_str()), Some("true"));
    assert_eq!(h.get("Access-Control-Allow_origin").map(|s| s.as_str()), Some("http://example.com"));
    let ctx = context(&[], TransportKind::Polling, HttpMethod::Get);
    let h = get_common_polling_response_headers(Arc::new(ctx), true);
    assert_eq!(h.get("Access-Control-Allow-Origin").map(|s| s.as_str()), Some("*"));
    assert!(!h.contains_key("X-XSS-Protection"));
    assert_eq!(h.len(), 1);
}

#[test]
fn generated_ids_are_hyphenated_uuids() {
    let a = Server::generate_id([1u8; 16]);
    let b = Server::generate_id([2u8; 16]);
    assert_eq!(Server::generate_id([1u8; 16]), a);
    assert_eq!(Server::generate_id([0u8; 16]), "00000000-0000-4000-8000-000000000000");
    assert_eq!(a, "01010101-0101-4101-8101-010101010101");
    assert_eq!(Server::generate_id([255u8; 16]), "ffffffff-ffff-4fff-bfff-ffffffffffff");
    assert!(is_uuid(&a));
    assert!(is_uuid(&b));
    assert_ne!(a, b);
}

#[test]
fn handshake_registers_an_opening_client() {
    let mut server = Server::new(ServerOptions::default());
    let ctx = context(&[("b64", "1")], TransportKind::Polling, HttpMethod::Get);
    let h = server.handshake::<()>(&ctx, HandshakeData::Polling, [7u8; 16]);
    assert!(is_uuid(&h.sid));
    assert_eq!(server.clients_count(), 1);
    match h.transport_create_data {
        TransportCreateData::Polling { jsonp } => assert!(jsonp),
        _ => panic!("expected polling"),
    }
    let cookie = h.context.set_cookie.as_ref().unwrap();
    assert_eq!(cookie.value, h.sid);
    let client = server.get_client_or_error(&h.sid).unwrap();
    assert_eq!(client.ready_state(), ReadyState::Opening);
    assert_eq!(client.get_transport_kind(), Some(TransportKind::Polling));
    assert!(server.get_client_or_error("missing").is_err());
}

#[test]
fn verify_request_checks_sid_transport_and_method() {
    let mut server = Server::new(ServerOptions::default());
    let ctx = context(&[], TransportKind::Polling, HttpMethod::Get);
    let h = server.handshake::<()>(&ctx, HandshakeData::Polling, [7u8; 16]);
    let sid = h.sid.clone();
    assert_eq!(server.verify_request(Some(&sid), false, TransportKind::Polling, HttpMethod::Get), Ok(()));
    assert_eq!(
        server.verify_request(Some(&sid), false, TransportKind::WebSocket, HttpMethod::Get),
        Err(ServerError::BadRequest)
    );
    assert_eq!(server.verify_request(Some(&sid), true, TransportKind::WebSocket, HttpMethod::Get), Ok(()));
    assert_eq!(
        server.verify_request(Some(&"other".to_string()), false, TransportKind::Polling, HttpMethod::Get),
        Err(ServerError::UnknownSid)
    );
    assert_eq!(
        server.verify_request(None, false, TransportKind::Polling, HttpMethod::Post),
        Err(ServerError::BadHandshakeMethod)
    );
    assert_eq!(server.verify_request(None, false, TransportKind::Polling, HttpMethod::Get), Ok(()));
}

#[test]
fn route_request_goes_to_client_or_handshake() {
    let mut server = Server::new(ServerOptions::default());
    let ctx = context(&[], TransportKind::Polling, HttpMethod::Get);
    match server.route_request(&ctx) {
        Ok(RequestRoute::Handshake) => {}
        _ => panic!("expected a handshake"),
    }
    let h = server.handshake::<()>(&ctx, HandshakeData::Polling, [7u8; 16]);
    let ctx = context(&[("sid", h.sid.as_str())], TransportKind::Polling, HttpMethod::Get);
    match server.route_request(&ctx) {
        Ok(RequestRoute::Client { sid }) => assert_eq!(sid, h.sid),
        _ => panic!("expected the client"),
    }
    let ctx = context(&[("sid", "unknown")], TransportKind::Polling, HttpMethod::Get);
    assert!(matches!(server.route_request(&ctx), Err(ServerError::UnknownSid)));
}

#[test]
fn close_event_forgets_the_client() {
    let mut server = Server::new(ServerOptions::default());
    let ctx = context(&[], TransportKind::Polling, HttpMethod::Get);
    let h = server.handshake::<()>(&ctx, HandshakeData::Polling, [7u8; 16]);
    let forwarded = server.on_socket_event(SocketEvent::Flush { socket_id: h.sid.clone() });
    assert!(matches!(forwarded, Some(ServerEvent::Flush { connection_id }) if connection_id == h.sid));
    let forwarded = server.on_socket_event(SocketEvent::Close { socket_id: h.sid.clone() });
    assert!(forwarded.is_none());
    assert_eq!(server.clients_count(), 0);
    assert_eq!(server.get_client_or_error(&h.sid).err(), Some(ServerError::UnknownSid));
    assert!(server.on_socket_event(SocketEvent::Heartbeat { socket_id: h.sid }).is_none());
}

#[test]
fn send_packet_to_unknown_connection_fails() {
    let mut server = Server::new(ServerOptions::default());
    assert_eq!(
        server.send_packet("nobody", message("x"), true).err(),
        Some(SendPacketError::UnknownConnectionId)
    );
}

#[test]
fn open_client_sends_open_packet_and_initial_packet() {
    let mut options = ServerOptions::default();
    options.initial_packet = Some(message("welcome"));
    let mut server = Server::new(options);
    let ctx = context(&[], TransportKind::Polling, HttpMethod::Get);
    let h = server.handshake::<()>(&ctx, HandshakeData::Polling, [7u8; 16]);
    let actions = server.open_client(&h.sid, "{\"sid\":\"x\"}".to_string(), false).unwrap();
    assert_eq!(actions.len(), 2);
    assert!(actions[0].reset_ping_timer);
    assert!(matches!(actions[0].events.last(), Some(SocketEvent::Open { .. })));
    let client = server.get_client_or_error(&h.sid).unwrap();
    assert_eq!(client.ready_state(), ReadyState::Open);
    assert!(server.open_client("missing", String::new(), false).is_err());
}

#[test]
fn socket_buffers_until_writable_then_flushes() {
    let mut socket = Socket::new("s1".to_string(), "addr".to_string(), TransportKind::Polling);
    let a = socket.open("{}".to_string(), false);
    assert!(a.transport_send.is_none());
    let a = socket.send_packet(message("one"), Some(7), false);
    assert!(a.transport_send.is_none());
    let (sent, a) = socket.flush(true);
    let sent = sent.unwrap();
    assert_eq!(sent.len(), 2);
    assert_eq!(sent[0].packet_type, PacketType::Open);
    assert_eq!(sent[1], message("one"));
    assert_eq!(a.events.len(), 2);
    assert!(matches!(a.events[0], SocketEvent::Flush { .. }));
    assert!(matches!(a.events[1], SocketEvent::Drain { .. }));
    let (again, _) = socket.flush(true);
    assert!(again.is_none());
    let drained = socket.on_drain();
    assert_eq!(drained.run_callbacks, vec![7]);
    assert!(socket.on_drain().run_callbacks.is_empty());
}

#[test]
fn websocket_flush_makes_one_batch_per_callback() {
    let mut socket = Socket::new("s2".to_string(), "addr".to_string(), TransportKind::WebSocket);
    socket.open("{}".to_string(), false);
    socket.send_packet(message("a"), Some(1), false);
    socket.send_packet(message("b"), Some(2), false);
    let (sent, _) = socket.flush(true);
    assert_eq!(sent.unwrap().len(), 3);
    assert_eq!(socket.on_drain().run_callbacks, vec![1]);
    assert_eq!(socket.on_drain().run_callbacks, vec![2]);
}

#[test]
fn closing_socket_drops_transport_after_flush() {
    let mut socket = Socket::new("s3".to_string(), "addr".to_string(), TransportKind::Polling);
    socket.open("{}".to_string(), false);
    let a = socket.close(true);
    assert!(!a.drop_transport);
    assert_eq!(socket.ready_state(), ReadyState::Closing { with_discard: true });
    let (sent, a) = socket.flush(true);
    assert!(sent.is_some());
    assert!(a.drop_transport);
    assert_eq!(socket.get_transport_kind(), None);
    assert_eq!(socket.get_transport_or_fail().err(), Some(ServerError::Unknown));
}

#[test]
fn close_of_an_open_socket_without_buffer_drops_transport() {
    let mut socket = Socket::new("s4".to_string(), "addr".to_string(), TransportKind::Polling);
    socket.open("{}".to_string(), true);
    let a = socket.close(false);
    assert!(a.drop_transport);
    assert_eq!(socket.get_transport_kind(), None);
}

#[test]
fn transport_error_closes_and_reports() {
    let mut socket = Socket::new("s5".to_string(), "addr".to_string(), TransportKind::Polling);
    let a = socket.on_transport_error(TransportError::PacketParseError);
    assert_eq!(socket.ready_state(), ReadyState::Closed);
    assert_eq!(a.events.len(), 2);
    assert!(matches!(a.events[0], SocketEvent::Close { .. }));
    assert!(matches!(a.events[1], SocketEvent::Error { .. }));
    let a = socket.send_packet(message("late"), None, true);
    assert!(a.transport_send.is_none());
    let a = socket.on_close(SocketError::TransportError);
    assert!(a.events.is_empty());
}

#[test]
fn open_socket_answers_ping_and_forwards_messages() {
    let ctx = Arc::new(context(&[], TransportKind::WebSocket, HttpMethod::Get));
    let mut socket = Socket::new("s6".to_string(), "addr".to_string(), TransportKind::WebSocket);
    socket.open("{}".to_string(), true);
    let ping = Packet { packet_type: PacketType::Ping, data: PacketData::Empty };
    let a = socket.on_packet(ctx.clone(), ping, true);
    assert!(a.reset_ping_timer);
    let sent = a.transport_send.unwrap();
    assert_eq!(sent, vec![Packet { packet_type: PacketType::Pong, data: PacketData::Empty }]);
    assert!(matches!(a.events.last(), Some(SocketEvent::Heartbeat { .. })));
    let a = socket.on_transport_event(TransportEvent::Packet { context: ctx, packet: message("hi") }, true);
    assert_eq!(a.events.len(), 1);
    match &a.events[0] {
        SocketEvent::Message { data, .. } => assert_eq!(*data, PacketData::Plaintext("hi".to_string())),
        _ => panic!("expected a message"),
    }
}

#[test]
fn polling_reply_drain_flushes_or_is_bad_request() {
    let mut socket = Socket::new("s7".to_string(), "addr".to_string(), TransportKind::Polling);
    assert_eq!(socket.polling_transport_or_fail(), Ok(()));
    let (r, _) = socket.on_polling_reply::<u8>(RequestReply::Action(TransportEvent::Drain));
    assert_eq!(r.err(), Some(ServerError::BadRequest));
    socket.open("{}".to_string(), false);
    let (r, _) = socket.on_polling_reply::<u8>(RequestReply::Action(TransportEvent::Drain));
    match r {
        Ok(PollingResponse::Packets(ps)) => assert_eq!(ps.len(), 1),
        _ => panic!("expected packets"),
    }
    let (r, _) = socket.on_polling_reply::<u8>(RequestReply::Response(5));
    assert!(matches!(r, Ok(PollingResponse::Response(5))));
    let (r, _) = socket.on_polling_reply::<u8>(RequestReply::Action(TransportEvent::Close));
    assert_eq!(r.err(), Some(ServerError::Unknown));
}
