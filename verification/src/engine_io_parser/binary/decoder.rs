//! Decoding binary-encoded packets and payloads.
use vstd::prelude::*;
use crate::engine_io_parser::binary::{
    bin_packet_decoding, bin_packet_encoding, bin_payload_decoding, bin_payload_from,
    bin_payload_item, parse_payload_item, payload_item_undefined,
};
use crate::engine_io_parser::packet::{
    packets_view, prepend, Packet, PacketData, ParsePacketError, PayloadOutcome,
};
use crate::engine_io_parser::string::{packet_type_of, ParsedItem};

verus! {

/// Decodes a packet with binary data: the first byte is the type number,
/// the rest is the data. Fails with "Unable to decode packet" on empty input
/// or a type number above 6.
pub fn decode_packet(input: &[u8]) -> (res: Result<Packet, ParsePacketError>)
    ensures
        match bin_packet_decoding(input@) {
            Some(p) => res matches Ok(q) && q@ == p,
            None => res matches Err(e) && e.message@ == "Unable to decode packet"@,
        },
        // Encoding the decoded packet gives the input back.
        res matches Ok(q) ==> bin_packet_encoding(q@) == input@,
{
    if input.len() == 0 || input[0] > 6 {
        return Err(ParsePacketError::packet());
    }
    let data = vstd::slice::slice_to_vec(&input[1..input.len()]);
    let p = Packet { packet_type: packet_type_of(input[0]), data: PacketData::Binary(data) };
    proof {
        crate::engine_io_parser::string::lemma_code_from_code(p.packet_type);
        assert(bin_packet_encoding(p@) =~= input@);
    }
    Ok(p)
}

/// Decodes a binary payload: packets are read one after another (see
/// [`bin_payload_item`]) until one cannot start, and the packets read so far
/// are returned; a failing packet fails the whole payload with "Unable to
/// decode payload". Inputs on which decoding is undefined (a length field of
/// more than ten bytes, above `u32::MAX`, or of value 0) are not accepted.
pub fn decode_payload(input: &[u8]) -> (res: Result<Vec<Packet>, ParsePacketError>)
    requires
        !(bin_payload_decoding(input@) is Panics),
    ensures
        match bin_payload_decoding(input@) {
            PayloadOutcome::Done(ps) => res matches Ok(v) && packets_view(v@) == ps,
            _ => res matches Err(e) && e.message@ == "Unable to decode payload"@,
        },
{
    let mut out: Vec<Packet> = Vec::new();
    let mut i: usize = 0;
    assert(packets_view(out@) =~= Seq::empty());
    assert(prepend(packets_view(out@), bin_payload_from(input@, 0)) =~= bin_payload_from(input@, 0));
    loop
        invariant
            0 <= i <= input@.len(),
            bin_payload_decoding(input@) == prepend(packets_view(out@), bin_payload_from(input@, i as int)),
            !(bin_payload_decoding(input@) is Panics),
        decreases input@.len() - i,
    {
        assert(!(bin_payload_item(input@, i as int) is Panic));
        match parse_payload_item(input, i) {
            ParsedItem::Stop => {
                assert(packets_view(out@) + Seq::empty() =~= packets_view(out@));
                return Ok(out);
            },
            ParsedItem::Fail => {
                return Err(ParsePacketError::payload());
            },
            ParsedItem::Item(p, j) => {
                let ghost before = packets_view(out@);
                out.push(p);
                proof {
                    assert(packets_view(out@) =~= before.push(p@));
                    match bin_payload_from(input@, j as int) {
                        PayloadOutcome::Done(q) => {
                            assert(before + (seq![p@] + q) =~= before.push(p@) + q);
                        },
                        _ => {},
                    }
                }
                i = j;
            },
        }
    }
}

/// Whether decoding the payload is undefined (see [`decode_payload`], which
/// does not accept such inputs): some packet read on the way has a length
/// field that is undefined or 0.
pub fn decode_payload_undefined(input: &[u8]) -> (r: bool)
    ensures
        r == (bin_payload_decoding(input@) is Panics),
{
    let mut i: usize = 0;
    loop
        invariant
            0 <= i <= input@.len(),
            (bin_payload_decoding(input@) is Panics) == (bin_payload_from(input@, i as int) is Panics),
        decreases input@.len() - i,
    {
        if payload_item_undefined(input, i) {
            return true;
        }
        match parse_payload_item(input, i) {
            ParsedItem::Stop => {
                return false;
            },
            ParsedItem::Fail => {
                return false;
            },
            ParsedItem::Item(_, j) => {
                i = j;
            },
        }
    }
}

} // verus!
