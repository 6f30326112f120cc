use engine_io::engine_io_parser::binary::decoder as binary_decoder;
use engine_io::engine_io_parser::binary::encoder as binary_encoder;
use engine_io::engine_io_parser::binary::{length_field_undefined, parse_packet_length};
use engine_io::engine_io_parser::packet::{Packet, PacketData, PacketType};
use engine_io::engine_io_parser::string::decoder as string_decoder;
use engine_io::engine_io_parser::string::encoder as string_encoder;
use engine_io::engine_io_server::transport::TransportKind;
use engine_io::engine_io_server::util::ServerError;
use engine_io::socket_io_parser::decoder::reconstruct_packet_data;
use engine_io::socket_io_parser::encoder::DefaultEncoder;
use engine_io::socket_io_parser::packet::{Packet as SioPacket, PacketDataValue, PacketType as SioType};

#[test]
fn text_packet_round_trip() {
    let p = Packet { packet_type: PacketType::Message, data: PacketData::Plaintext("hi there".to_string()) };
    let s = string_encoder::encode_packet(&p);
    assert_eq!(string_decoder::decode_packet(&s).unwrap(), p);
    assert_eq!(string_encoder::encode_packet(&string_decoder::decode_packet("4abc").unwrap()), "4abc");
}

#[test]
fn text_packet_starting_with_a_digit_round_trips() {
    let p = Packet { packet_type: PacketType::Message, data: PacketData::Plaintext("7up".to_string()) };
    let s = string_encoder::encode_packet(&p);
    assert_eq!(s, "47up");
    assert_eq!(string_decoder::decode_packet(&s).unwrap(), p);
}

#[test]
fn binary_packet_round_trip() {
    let p = Packet { packet_type: PacketType::Ping, data: PacketData::Binary(vec![0, 255, 7]) };
    let b = binary_encoder::encode_packet(&p);
    assert_eq!(binary_decoder::decode_packet(&b).unwrap(), p);
    assert_eq!(binary_encoder::encode_packet(&binary_decoder::decode_packet(&[2, 9, 9]).unwrap()), vec![2, 9, 9]);
}

#[test]
fn payload_round_trips() {
    let ps = vec![
        Packet { packet_type: PacketType::Message, data: PacketData::Plaintext("a".to_string()) },
        Packet { packet_type: PacketType::Message, data: PacketData::Binary(vec![1, 2, 3]) },
    ];
    let s = string_encoder::encode_payload(&ps);
    assert_eq!(string_decoder::decode_payload(&s).unwrap(), ps);
    let b = binary_encoder::encode_payload(&ps);
    assert_eq!(binary_decoder::decode_payload(&b).unwrap(), ps);
}

#[test]
fn attachments_round_trip() {
    let data = PacketDataValue::Array(vec![
        PacketDataValue::String("upload".to_string()),
        PacketDataValue::Binary(vec![1, 2]),
        PacketDataValue::Array(vec![PacketDataValue::Binary(vec![3]), PacketDataValue::Null]),
    ]);
    let packet = SioPacket { packet_type: SioType::BinaryEvent, id: None, nsp: "/".to_string(), data: data.copy() };
    let prepared = DefaultEncoder::prepare(&packet);
    assert_eq!(prepared.attachments, vec![vec![1, 2], vec![3]]);
    let mut attachments: Vec<Option<Vec<u8>>> = prepared.attachments.iter().cloned().map(Some).collect();
    let back = reconstruct_packet_data(&prepared.header, &mut attachments);
    assert_eq!(back, data);
    assert_eq!(attachments, vec![None, None]);
}

#[test]
fn every_server_error_message_names_its_error() {
    let all = [
        ServerError::UnknownTransport,
        ServerError::UnknownSid,
        ServerError::BadHandshakeMethod,
        ServerError::BadRequest,
        ServerError::Forbidden,
        ServerError::Unknown,
        ServerError::ShuttingDown,
    ];
    for e in all.iter() {
        assert_eq!(ServerError::from_message(e.message()), Some(*e));
    }
}

#[test]
fn transport_names_parse_back() {
    for k in [TransportKind::WebSocket, TransportKind::Polling].iter() {
        assert_eq!(TransportKind::parse(k.name()), Ok(*k));
    }
}

#[test]
fn packet_length_reads_back() {
    for n in [0usize, 1, 9, 10, 42, 8214, 918214, 4294967295] {
        let rest: Vec<u8> = vec![7, 255, 3];
        let input = [binary_encoder::encode_packet_length(n), vec![255u8], rest.clone()].concat();
        let (left, m) = parse_packet_length(&input).unwrap();
        assert_eq!(m, n);
        assert_eq!(left, &[vec![255u8], rest].concat()[..]);
    }
}

#[test]
fn payload_encoding_splits() {
    let a = vec![Packet { packet_type: PacketType::Message, data: PacketData::Plaintext("hi".to_string()) }];
    let b = vec![
        Packet { packet_type: PacketType::Message, data: PacketData::Binary(vec![1, 2, 3]) },
        Packet { packet_type: PacketType::Ping, data: PacketData::Empty },
    ];
    let both = [a.clone(), b.clone()].concat();
    assert_eq!(
        binary_encoder::encode_payload(&both),
        [binary_encoder::encode_payload(&a), binary_encoder::encode_payload(&b)].concat()
    );
    assert_eq!(binary_encoder::encode_payload(&[]), Vec::<u8>::new());
    assert_eq!(
        string_encoder::encode_payload(&both),
        string_encoder::encode_payload(&a) + &string_encoder::encode_payload(&b)
    );
}

#[test]
fn text_payload_keeps_packets_without_data_and_leading_digits() {
    let ps = vec![
        Packet { packet_type: PacketType::Ping, data: PacketData::Empty },
        Packet { packet_type: PacketType::Message, data: PacketData::Plaintext("7up".to_string()) },
    ];
    let s = string_encoder::encode_payload(&ps);
    assert_eq!(s, "1:24:47up");
    let back = string_decoder::decode_payload(&s).unwrap();
    assert_eq!(back.len(), 2);
    assert_eq!(back[0], Packet { packet_type: PacketType::Ping, data: PacketData::Plaintext(String::new()) });
    assert_eq!(back[1], ps[1]);
}

#[test]
fn binary_payload_packets_without_data_and_leading_digits() {
    let empty = vec![Packet { packet_type: PacketType::Ping, data: PacketData::Empty }];
    let b = binary_encoder::encode_payload(&empty);
    assert_eq!(b, vec![1, b'0', 255, b'2']);
    // the length byte '0' reads as 48, more than what follows: nothing is read
    assert_eq!(binary_decoder::decode_payload(&b).unwrap(), vec![]);
    let text = vec![Packet { packet_type: PacketType::Message, data: PacketData::Plaintext("7up".to_string()) }];
    let b = binary_encoder::encode_payload(&text);
    assert_eq!(b, vec![0, 4, 255, b'4', b'7', b'u', b'p']);
    assert_eq!(binary_decoder::decode_payload(&b).unwrap(), text);
}

#[test]
fn undefined_inputs_are_recognised() {
    assert!(binary_decoder::decode_payload_undefined(&[0, 0, 255, b'4']));
    assert!(!binary_decoder::decode_payload_undefined(&[0, 3, 255, b'4', b'h', b'i']));
    assert!(!binary_decoder::decode_payload_undefined(&[]));
    assert!(string_decoder::decode_payload_undefined("0:"));
    assert!(string_decoder::decode_payload_undefined("3:4hi1:b"));
    assert!(!string_decoder::decode_payload_undefined("3:4hi"));
    assert!(length_field_undefined(&[1; 11], 0));
    assert!(length_field_undefined(&[9, 9, 9, 9, 9, 9, 9, 9, 9, 9, 255], 0));
    assert!(!length_field_undefined(&[5, 255], 0));
    assert!(engine_io::engine_io_warp::data_request_undefined("text/plain", b"0:"));
    assert!(!engine_io::engine_io_warp::data_request_undefined("text/plain", b"3:4hi"));
    assert!(engine_io::engine_io_warp::data_request_undefined("application/octet-stream", &[1, 0, 255]));
}
