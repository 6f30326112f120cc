use engine_io::engine_io_parser::binary::encoder::encode_packet_length;
use engine_io::engine_io_parser::binary::parse_packet_length;
use engine_io::engine_io_parser::string::{take_u8, take_usize, TakeError};

#[test]
fn test_encode_packet_length() {
    assert_eq!(encode_packet_length(0), &[0]);
    assert_eq!(encode_packet_length(1), &[1]);
    assert_eq!(encode_packet_length(5), &[5]);
    assert_eq!(encode_packet_length(10), &[0, 1]);
    assert_eq!(encode_packet_length(42), &[2, 4]);
    assert_eq!(encode_packet_length(190), &[0, 9, 1]);
    assert_eq!(encode_packet_length(190), &[0, 9, 1]);
    assert_eq!(encode_packet_length(8214), &[4, 1, 2, 8]);
    assert_eq!(encode_packet_length(918214), &[4, 1, 2, 8, 1, 9]);
}

#[test]
fn test_parse_packet_length() {
    let input = [4u8, 255u8];
    assert_eq!(parse_packet_length(&input[..]), Some((&input[1..], 4)));
    let input = [0u8, 2u8, 3u8, 255u8];
    assert_eq!(parse_packet_length(&input[..]), Some((&input[3..], 320)));
    let input = [3u8, 0u8, 0u8, 255u8];
    assert_eq!(parse_packet_length(&input[..]), Some((&input[3..], 3)));
    let input = [9u8, 9u8, 4u8, 2u8, 5u8, 255u8];
    assert_eq!(parse_packet_length(&input[..]), Some((&input[5..], 52499)));
    let input: Vec<u8> = Vec::new();
    assert_eq!(None, parse_packet_length(&input[..]));
}

#[test]
fn string_test_take_u8() {
    assert_eq!(take_u8("0"), Ok(("", 0u8)));
    assert_eq!(take_u8("254"), Ok(("", 254u8)));
    assert_eq!(take_u8("hello"), Err(TakeError::Error));
}

#[test]
fn test_take_usize() {
    assert_eq!(take_usize("0"), Ok(("", 0)));
    assert_eq!(take_usize("424242"), Ok(("", 424242)));
    assert_eq!(take_usize("0h2"), Ok(("h2", 0)));
}

#[test]
fn lib_it_works() {
    assert_eq!(2 + 2, 4);
}

#[test]
fn decoder_test_take_u8() {
    assert_eq!(engine_io::socket_io_parser::decoder::take_u8("0"), Ok(("", 0u8)));
    assert_eq!(engine_io::socket_io_parser::decoder::take_u8("254"), Ok(("", 254u8)));
    assert_eq!(engine_io::socket_io_parser::decoder::take_u8("hello"), Err(TakeError::Error));
}
