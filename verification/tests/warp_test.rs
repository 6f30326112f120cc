use engine_io::engine_io_parser::packet::{Packet, PacketData, PacketType};
use engine_io::engine_io_server::transport::{ResponseBodyData, TransportKind};
use engine_io::engine_io_server::util::{HttpMethod, RequestContext, ServerError};
use engine_io::engine_io_warp::{
    decode_data_request, packets_response_body, path_matches, polling_mode, polling_request_kind,
    response_content_type, response_headers, transport_kind_of_query, websocket_message_step,
    websocket_messages, Mode, PollingRequestKind, WarpError, WsMessage, WsOutgoing, WsStep, Route,
    route_request, websocket_enabled,
};
use engine_io::string_map::StringMap;
use std::sync::Arc;

fn text(s: &str) -> Packet {
    Packet { packet_type: PacketType::Message, data: PacketData::Plaintext(s.to_string()) }
}

#[test]
fn polling_modes_and_routes() {
    assert_eq!(polling_mode(true), Mode::Jsonp);
    assert_eq!(polling_mode(false), Mode::Xhr);
    assert_eq!(polling_request_kind(HttpMethod::Get, Mode::Jsonp), PollingRequestKind::Poll);
    assert_eq!(polling_request_kind(HttpMethod::Post, Mode::Xhr), PollingRequestKind::Data);
    assert_eq!(polling_request_kind(HttpMethod::Options, Mode::Xhr), PollingRequestKind::Options);
    assert_eq!(polling_request_kind(HttpMethod::Options, Mode::Jsonp), PollingRequestKind::StatusOnly(500));
    assert_eq!(WarpError::new(ServerError::Forbidden).error(), ServerError::Forbidden);
}

#[test]
fn data_requests_decode_by_content_type() {
    let packets = decode_data_request("text/plain", Some("6:4hello".as_bytes())).unwrap();
    assert_eq!(packets, vec![text("hello")]);
    let packets = decode_data_request("application/octet-stream", Some(&[0u8, 6, 255, 52, 104, 101, 108, 108, 111][..])).unwrap();
    assert_eq!(packets, vec![text("hello")]);
    assert_eq!(decode_data_request("text/plain", None).err(), Some(ServerError::BadRequest));
    assert_eq!(decode_data_request("text/plain", Some(&[0xffu8, 0xfe][..])).err(), Some(ServerError::BadRequest));
    assert_eq!(decode_data_request("text/plain", Some("3:9ab".as_bytes())).err(), Some(ServerError::BadRequest));
}

#[test]
fn response_headers_and_body() {
    let content = ResponseBodyData::Plaintext("x".to_string());
    assert_eq!(response_content_type(&content), "text/plain; charset=UTF-8");
    assert_eq!(response_content_type(&ResponseBodyData::Binary(vec![])), "application/octet-stream");
    let ctx = RequestContext {
        query: StringMap::new(),
        headers: StringMap::new(),
        origin: None,
        secure: false,
        user_agent: "agent".to_string(),
        content_type: "text/plain".to_string(),
        transport_kind: TransportKind::Polling,
        http_method: HttpMethod::Get,
        remote_address: "a".to_string(),
        request_url: "/".to_string(),
        set_cookie: None,
    };
    let h = response_headers(&content, Arc::new(ctx), Mode::Xhr);
    assert_eq!(h.get("Content-Type").map(|s| s.as_str()), Some("text/plain; charset=UTF-8"));
    assert_eq!(h.get("Access-Control-Allow-Origin").map(|s| s.as_str()), Some("*"));
    match packets_response_body(&[text("hi"), text("yo")]) {
        ResponseBodyData::Plaintext(s) => assert_eq!(s, "3:4hi3:4yo"),
        _ => panic!("expected text"),
    }
}

#[test]
fn websocket_messages_become_packets() {
    match websocket_message_step(&WsMessage::Text("4hi".to_string())) {
        WsStep::Packet(p) => assert_eq!(p, text("hi")),
        _ => panic!("expected a packet"),
    }
    match websocket_message_step(&WsMessage::Binary(vec![4, 1, 2])) {
        WsStep::Packet(p) => assert_eq!(p.data, PacketData::Binary(vec![1, 2])),
        _ => panic!("expected a packet"),
    }
    assert!(matches!(websocket_message_step(&WsMessage::Text("x".to_string())), WsStep::Skip));
    assert!(matches!(websocket_message_step(&WsMessage::Close), WsStep::Stop));
    assert!(matches!(websocket_message_step(&WsMessage::Other), WsStep::Skip));
}

#[test]
fn packets_become_websocket_messages() {
    let ms = websocket_messages(&[text("hi")], false);
    assert!(matches!(&ms[0], WsOutgoing::Text(t) if t == "4hi"));
    let ms = websocket_messages(&[text("hi")], true);
    assert!(matches!(&ms[0], WsOutgoing::Binary(b) if b == &vec![52u8, 104, 105]));
}

#[test]
fn paths_and_transports() {
    assert!(path_matches("/engine.io", "/engine.io/?EIO=3"));
    assert!(path_matches("/engine.io&x", "/engine.io"));
    assert!(!path_matches("/engine.io", "/socket.io/"));
    assert!(!path_matches("/engine.io", "/e"));
    let mut q = StringMap::new();
    assert_eq!(transport_kind_of_query(&q), Ok(TransportKind::Polling));
    q.insert("transport".to_string(), "websocket".to_string());
    assert_eq!(transport_kind_of_query(&q), Ok(TransportKind::WebSocket));
    q.insert("transport".to_string(), "carrier-pigeon".to_string());
    assert_eq!(transport_kind_of_query(&q), Err(ServerError::UnknownTransport));
}

#[test]
fn requests_are_routed() {
    assert!(websocket_enabled(&[TransportKind::Polling, TransportKind::WebSocket]));
    assert!(!websocket_enabled(&[TransportKind::Polling]));
    assert_eq!(route_request(true, true, true, HttpMethod::Get), Some(Route::WebSocket));
    assert_eq!(route_request(false, true, true, HttpMethod::Get), Some(Route::Poll));
    assert_eq!(route_request(true, true, false, HttpMethod::Post), Some(Route::Data));
    assert_eq!(route_request(true, true, false, HttpMethod::Options), None);
    assert_eq!(route_request(true, false, true, HttpMethod::Get), None);
}
