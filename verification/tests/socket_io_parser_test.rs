use engine_io::engine_io_parser::packet::{PacketData as EngineData, PacketType as EngineType};
use engine_io::socket_io_parser::decoder::{
    digits_outcome, digits_to_u32, digits_to_u64, finish_proto_packet, is_payload_valid,
    parse_proto_packet_prefix, DefaultDecoder, DigitsOutcome,
    HandleEngineMessageError, ProtoPacketPrefix,
};
use engine_io::socket_io_parser::encoder::{make_placeholder, DefaultEncoder};
use engine_io::socket_io_parser::packet::{
    get_attachment_index_if_placeholder, BinaryPacketType, JsonNumber, JsonValue,
    MultipartPacketHeader, Packet, PacketDataValue, PacketType, ProtoPacket,
};

fn s(x: &str) -> JsonValue {
    JsonValue::String(x.to_string())
}

#[test]
fn packet_type_numbers() {
    assert_eq!(PacketType::parse_from_u8(4), Ok(PacketType::ConnectError));
    assert!(PacketType::parse_from_u8(7).is_err());
    assert_eq!(PacketType::BinaryAck.to_u8(), 6);
    assert_eq!(PacketType::from(BinaryPacketType::BinaryEvent), PacketType::BinaryEvent);
    assert_eq!(BinaryPacketType::try_from_packet_type(PacketType::Event), None);
    assert_eq!(
        BinaryPacketType::try_from_packet_type(PacketType::BinaryAck),
        Some(BinaryPacketType::BinaryAck)
    );
}

#[test]
fn digits_read_as_decimal_numbers() {
    assert_eq!(digits_to_u32("12"), Ok(12));
    assert_eq!(digits_to_u32("7"), Ok(7));
    assert_eq!(digits_to_u32("0"), Ok(0));
    assert_eq!(digits_to_u32(""), Ok(0));
    assert_eq!(digits_to_u32("x"), Err(()));
    assert_eq!(digits_to_u32("1a"), Err(()));
    assert_eq!(digits_to_u32("4294967295"), Ok(4294967295));
    assert_eq!(digits_to_u32("4294967296"), Err(()));
    assert_eq!(digits_to_u64("3"), Ok(3));
    assert!(matches!(digits_outcome("9999999999"), DigitsOutcome::TooLarge));
    assert!(matches!(digits_outcome("5"), DigitsOutcome::Value(5)));
    assert!(matches!(digits_outcome("5x"), DigitsOutcome::NotDigit));
}

#[test]
fn packet_heads_are_read() {
    let p = parse_proto_packet_prefix("2/chat,[\"hi\"]").unwrap();
    assert_eq!(p.packet_type, PacketType::Event);
    assert_eq!(p.nsp, "/chat");
    assert_eq!(p.id, None);
    assert_eq!(p.rest, "[\"hi\"]");
    let p = parse_proto_packet_prefix("51-[\"a\",{\"_placeholder\":true,\"num\":0}]").unwrap();
    assert_eq!(p.packet_type, PacketType::BinaryEvent);
    assert_eq!(p.attachments_count, 1);
    assert_eq!(p.nsp, "/");
    assert_eq!(p.id, None);
    assert_eq!(p.rest, "[\"a\",{\"_placeholder\":true,\"num\":0}]");
    let p = parse_proto_packet_prefix("3/chat,12[\"ok\"]").unwrap();
    assert_eq!(p.packet_type, PacketType::Ack);
    assert_eq!(p.nsp, "/chat");
    assert_eq!(p.id, Some(12));
    assert_eq!(p.rest, "[\"ok\"]");
    let p = parse_proto_packet_prefix("31[]").unwrap();
    assert_eq!(p.id, Some(1));
    assert!(matches!(parse_proto_packet_prefix(""), Err(HandleEngineMessageError::PacketParseError)));
    assert!(matches!(parse_proto_packet_prefix("x"), Err(HandleEngineMessageError::PacketParseError)));
    assert!(matches!(parse_proto_packet_prefix("9"), Err(HandleEngineMessageError::PacketParseError)));
    assert!(matches!(parse_proto_packet_prefix("5[]"), Err(HandleEngineMessageError::PacketParseError)));
    assert!(matches!(parse_proto_packet_prefix("5-[]"), Err(HandleEngineMessageError::PacketParseError)));
    assert!(matches!(parse_proto_packet_prefix("2/chat"), Err(HandleEngineMessageError::PacketParseError)));
    assert!(matches!(parse_proto_packet_prefix("2/a,99999999999[]"), Err(HandleEngineMessageError::PacketParseError)));
}

#[test]
fn payloads_must_suit_their_packet_type() {
    assert!(is_payload_valid(PacketType::Connect, &JsonValue::Object(vec![])));
    assert!(!is_payload_valid(PacketType::Connect, &JsonValue::Null));
    assert!(is_payload_valid(PacketType::Disconnect, &JsonValue::Null));
    assert!(is_payload_valid(PacketType::ConnectError, &s("nope")));
    assert!(is_payload_valid(PacketType::Event, &JsonValue::Array(vec![s("ev")])));
    assert!(!is_payload_valid(PacketType::Event, &JsonValue::Array(vec![])));
    assert!(is_payload_valid(PacketType::Ack, &JsonValue::Array(vec![])));
}

#[test]
fn finishing_a_packet() {
    let prefix = parse_proto_packet_prefix("2[\"ev\"]").unwrap();
    match finish_proto_packet(prefix, JsonValue::Array(vec![s("ev")])) {
        Ok(ProtoPacket::Plain(p)) => {
            assert_eq!(p.packet_type, PacketType::Event);
            assert_eq!(p.data, PacketDataValue::Array(vec![PacketDataValue::String("ev".to_string())]));
        }
        _ => panic!("expected a plain packet"),
    }
    let prefix = parse_proto_packet_prefix("0").unwrap();
    assert!(matches!(finish_proto_packet(prefix, JsonValue::Null), Err(HandleEngineMessageError::PacketParseError)));
    let prefix = ProtoPacketPrefix {
        packet_type: PacketType::BinaryEvent,
        attachments_count: 10,
        nsp: "/".to_string(),
        id: None,
        rest: "[\"ev\"]".to_string(),
    };
    match finish_proto_packet(prefix, JsonValue::Array(vec![s("ev")])) {
        Ok(ProtoPacket::Multipart(h)) => {
            assert_eq!(h.attachments_count, 10);
            assert!(h.has_attachments());
        }
        _ => panic!("expected a header"),
    }
}

#[test]
fn placeholders() {
    let p = make_placeholder(3);
    match &p {
        JsonValue::Object(entries) => assert_eq!(get_attachment_index_if_placeholder(entries), Some(3)),
        _ => panic!("expected an object"),
    }
    let not = vec![("num".to_string(), JsonValue::Number(JsonNumber::PosInt(1)))];
    assert_eq!(get_attachment_index_if_placeholder(&not), None);
}

#[test]
fn decoder_refuses_extra_attachments() {
    let header = MultipartPacketHeader {
        packet_type: BinaryPacketType::BinaryEvent,
        id: None,
        nsp: None,
        data: JsonValue::Array(vec![s("ev")]),
        attachments_count: 1,
    };
    let mut d = DefaultDecoder::new(header);
    assert!(!d.can_collect());
    assert_eq!(d.decode_binary_data(vec![1]).ok(), Some(true));
    assert!(matches!(d.decode_binary_data(vec![2]), Err(HandleEngineMessageError::TooManyAttachments)));
    let p = d.collect_packet().unwrap();
    assert_eq!(p.nsp, "/");
    assert!(matches!(DefaultDecoder::make_err(), HandleEngineMessageError::InvalidPayload));
}

#[test]
fn encoding_a_packet() {
    let packet = Packet {
        packet_type: PacketType::BinaryEvent,
        id: Some(7),
        nsp: "/chat".to_string(),
        data: PacketDataValue::Array(vec![
            PacketDataValue::String("up".to_string()),
            PacketDataValue::Binary(vec![9, 9]),
        ]),
    };
    let prepared = DefaultEncoder::prepare(&packet);
    assert_eq!(
        prepared.header,
        JsonValue::Array(vec![s("up"), make_placeholder(0)])
    );
    let encoded = DefaultEncoder::assemble(&packet, prepared, "HEADER");
    assert_eq!(encoded.packet, "51-/chat,7HEADER");
    let engine_packets = encoded.into_engine_packets();
    assert_eq!(engine_packets.len(), 2);
    assert_eq!(engine_packets[0].packet_type, EngineType::Message);
    assert_eq!(engine_packets[0].data, EngineData::Plaintext("51-/chat,7HEADER".to_string()));
    assert_eq!(engine_packets[1].data, EngineData::Binary(vec![9, 9]));
    let plain = Packet { packet_type: PacketType::Disconnect, id: None, nsp: "/".to_string(), data: PacketDataValue::Null };
    let prepared = DefaultEncoder::prepare(&plain);
    assert_eq!(DefaultEncoder::assemble(&plain, prepared, "null").packet, "1");
}

fn num(n: u64) -> JsonValue {
    JsonValue::Number(JsonNumber::PosInt(n))
}

fn entries<T>(items: Vec<(&str, T)>) -> Vec<(String, T)> {
    items.into_iter().map(|(k, v)| (k.to_string(), v)).collect()
}

#[test]
fn can_serialize_simple_json() {
    let left = PacketDataValue::Object(entries(vec![
        ("foo", PacketDataValue::String("bar".to_string())),
        ("value", PacketDataValue::Number(JsonNumber::PosInt(42))),
    ]));
    let right = PacketDataValue::from_json(&JsonValue::Object(entries(vec![
        ("foo", s("bar")),
        ("value", num(42)),
    ])));
    assert_eq!(left, right);
}

#[test]
fn can_serialize_nested_json() {
    let left = PacketDataValue::Object(entries(vec![
        ("foo", PacketDataValue::String("bar".to_string())),
        ("value", PacketDataValue::Number(JsonNumber::PosInt(42))),
        (
            "sub",
            PacketDataValue::Object(entries(vec![
                ("key", PacketDataValue::String("value".to_string())),
                (
                    "items",
                    PacketDataValue::Array(vec![
                        PacketDataValue::Number(JsonNumber::PosInt(1)),
                        PacketDataValue::Number(JsonNumber::PosInt(2)),
                        PacketDataValue::Number(JsonNumber::PosInt(4)),
                        PacketDataValue::Number(JsonNumber::PosInt(8)),
                        PacketDataValue::String("yo!".to_string()),
                    ]),
                ),
            ])),
        ),
    ]));
    let right = PacketDataValue::from_json(&JsonValue::Object(entries(vec![
        ("foo", s("bar")),
        ("value", num(42)),
        (
            "sub",
            JsonValue::Object(entries(vec![
                ("key", s("value")),
                ("items", JsonValue::Array(vec![num(1), num(2), num(4), num(8), s("yo!")])),
            ])),
        ),
    ])));
    assert_eq!(left, right);
}

#[test]
fn can_serialize_packet_data_with_binary_bytes() {
    let data: &[u8] = b"abcdef!\x01\x02 q";
    let left = PacketDataValue::Object(entries(vec![
        ("foo", PacketDataValue::from_json(&s("bar"))),
        ("value", PacketDataValue::from_json(&num(42))),
        ("data", PacketDataValue::from_bytes(data)),
    ]));
    let right = PacketDataValue::Object(entries(vec![
        ("foo", PacketDataValue::String("bar".to_string())),
        ("value", PacketDataValue::Number(JsonNumber::PosInt(42))),
        ("data", PacketDataValue::Binary(b"abcdef!\x01\x02 q".to_vec())),
    ]));
    assert_eq!(left, right);
}

#[test]
fn plain_packet_head_reads_back() {
    let packet = Packet {
        packet_type: PacketType::Event,
        id: None,
        nsp: "/chat".to_string(),
        data: PacketDataValue::Array(vec![PacketDataValue::String("hello".to_string())]),
    };
    let prepared = DefaultEncoder::prepare(&packet);
    assert_eq!(prepared.header, JsonValue::Array(vec![s("hello")]));
    let encoded = DefaultEncoder::assemble(&packet, prepared, "[\"hello\"]");
    assert_eq!(encoded.packet, "2/chat,[\"hello\"]");
    let head = parse_proto_packet_prefix(&encoded.packet).unwrap();
    assert_eq!(head.packet_type, PacketType::Event);
    assert_eq!(head.attachments_count, 0);
    assert_eq!(head.nsp, "/chat");
    assert_eq!(head.id, None);
    assert_eq!(head.rest, "[\"hello\"]");
}

#[test]
fn plain_data_reads_back_from_its_json() {
    let data = PacketDataValue::Array(vec![
        PacketDataValue::String("hello".to_string()),
        PacketDataValue::Number(JsonNumber::PosInt(1)),
        PacketDataValue::Array(vec![PacketDataValue::Bool(true), PacketDataValue::Null]),
    ]);
    let packet = Packet { packet_type: PacketType::Event, id: None, nsp: "/".to_string(), data };
    let prepared = DefaultEncoder::prepare(&packet);
    assert!(prepared.attachments.is_empty());
    assert_eq!(PacketDataValue::from_json(&prepared.header), packet.data);
}

#[test]
fn objects_keep_their_keys_when_encoded() {
    let packet = Packet {
        packet_type: PacketType::Connect,
        id: None,
        nsp: "/".to_string(),
        data: PacketDataValue::Object(entries(vec![("sid", PacketDataValue::String("abc".to_string()))])),
    };
    let prepared = DefaultEncoder::prepare(&packet);
    assert_eq!(prepared.header, JsonValue::Object(entries(vec![("sid", s("abc"))])));
    assert!(prepared.attachments.is_empty());
    let encoded = DefaultEncoder::assemble(&packet, prepared, "{\"sid\":\"abc\"}");
    assert_eq!(encoded.packet, "0{\"sid\":\"abc\"}");
    assert!(encoded.attachments.is_empty());
}

#[test]
fn multipart_packets_round_trip() {
    let make = || Packet {
        packet_type: PacketType::BinaryEvent,
        id: Some(7),
        nsp: "/chat".to_string(),
        data: PacketDataValue::Array(vec![
            PacketDataValue::String("up".to_string()),
            PacketDataValue::Binary(vec![1, 2]),
            PacketDataValue::Object(entries(vec![("k", PacketDataValue::Binary(vec![3]))])),
        ]),
    };
    let packet = make();
    let header = DefaultEncoder::prepare(&packet).header;
    let encoded = DefaultEncoder::assemble(&packet, DefaultEncoder::prepare(&packet), "[\"up\"]");
    assert_eq!(encoded.packet, "52-/chat,7[\"up\"]");
    let prefix = parse_proto_packet_prefix(&encoded.packet).unwrap();
    assert_eq!(prefix.attachments_count, 2);
    assert_eq!(prefix.id, Some(7));
    let h = match finish_proto_packet(prefix, header) {
        Ok(ProtoPacket::Multipart(h)) => h,
        _ => panic!("expected a multipart header"),
    };
    let mut decoder = DefaultDecoder::new(h);
    assert!(matches!(decoder.decode_binary_data(encoded.attachments[0].clone()), Ok(false)));
    assert!(matches!(decoder.decode_binary_data(encoded.attachments[1].clone()), Ok(true)));
    assert_eq!(decoder.collect_packet(), Some(make()));
}
