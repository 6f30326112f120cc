//! Decoding a packet in whichever format it came.
use vstd::prelude::*;
use crate::engine_io_parser::binary::bin_packet_decoding;
use crate::engine_io_parser::binary::decoder as binary_decoder;
use crate::engine_io_parser::packet::{Packet, ParsePacketError, PacketView};
use crate::engine_io_parser::string::decoder as string_decoder;
use crate::engine_io_parser::string::text_packet_decoding;

verus! {

/// The format of a whole encoded packet.
#[derive(Debug, Clone, PartialEq)]
pub enum Encoded<'a> {
    Text(&'a str),
    Binary(&'a [u8]),
}

/// What decoding an encoded packet gives, by its format.
pub open spec fn encoded_packet_decoding(input: Encoded) -> Option<PacketView> {
    match input {
        Encoded::Text(text) => text_packet_decoding(text@),
        Encoded::Binary(binary) => bin_packet_decoding(binary@),
    }
}

/// Decodes a packet with the decoder of its format.
pub fn decode_packet(input: Encoded) -> (res: Result<Packet, ParsePacketError>)
    ensures
        match encoded_packet_decoding(input) {
            Some(p) => res matches Ok(q) && q@ == p,
            None => res matches Err(e) && e.message@ == "Unable to decode packet"@,
        },
{
    match input {
        Encoded::Text(text) => string_decoder::decode_packet(text),
        Encoded::Binary(binary) => binary_decoder::decode_packet(binary),
    }
}

} // verus!
