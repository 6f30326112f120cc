//! Decoding text-encoded packets and payloads.
use vstd::prelude::*;
use crate::digits::{decimal_value, digit_value, digits_end, lemma_digits_end, parse_decimal_bounded, scan_digits};
use crate::engine_io_parser::packet::{
    packets_view, prepend, Packet, PacketData, PacketType, ParsePacketError, PayloadOutcome,
};
use crate::engine_io_parser::string::{
    packet_type_of, parse_payload_item, payload_item_undefined, text_packet_decoding, text_packet_encoding,
    text_payload_decoding, text_payload_from, text_payload_item, ParsedItem,
};
use crate::strings::{chars_to_string, str_chars};

verus! {

/// Decodes a packet with text data: the type's digit, then the rest of the
/// input as the data. Fails with "Unable to decode packet" when the input does
/// not start with a digit of at most 6.
pub fn decode_packet(input: &str) -> (res: Result<Packet, ParsePacketError>)
    ensures
        match text_packet_decoding(input@) {
            Some(p) => res matches Ok(q) && q@ == p,
            None => res matches Err(e) && e.message@ == "Unable to decode packet"@,
        },
        // Encoding a decoded packet gives the input back.
        res is Ok ==> text_packet_encoding(res->Ok_0@) == input@,
{
    let s = str_chars(input);
    if s.len() == 0 {
        return Err(ParsePacketError::packet());
    }
    let c = s[0];
    if !(48 <= c as u32 && c as u32 <= 54) {
        return Err(ParsePacketError::packet());
    }
    let v = (c as u32 - 48) as u8;
    let data = chars_to_string(s.as_slice(), 1, s.len());
    let p = Packet { packet_type: packet_type_of(v), data: PacketData::Plaintext(data) };
    proof {
        assert(s@.subrange(0, 1) =~= seq![s@[0]]);
        crate::digits::lemma_decimal_value_single(s@[0]);
        crate::engine_io_parser::string::lemma_single_digit(s@[0], v as nat);
        assert(text_packet_encoding(p@) =~= input@);
    }
    Ok(p)
}

/// Decodes a text payload: packets are read one after another (see
/// [`text_payload_item`]) until one cannot start, and the packets read so far
/// are returned; a failing packet fails the whole payload with "Unable to
/// decode payload". Inputs on which decoding is undefined (a length of 0, or
/// a `b` packet of length 1) are not accepted.
pub fn decode_payload(input: &str) -> (res: Result<Vec<Packet>, ParsePacketError>)
    requires
        !(text_payload_decoding(input@) is Panics),
    ensures
        match text_payload_decoding(input@) {
            PayloadOutcome::Done(ps) => res matches Ok(v) && packets_view(v@) == ps,
            _ => res matches Err(e) && e.message@ == "Unable to decode payload"@,
        },
{
    let s = str_chars(input);
    let mut out: Vec<Packet> = Vec::new();
    let mut i: usize = 0;
    assert(packets_view(out@) =~= Seq::empty());
    assert(prepend(packets_view(out@), text_payload_from(s@, 0)) =~= text_payload_from(s@, 0));
    loop
        invariant
            s@ == input@,
            0 <= i <= s@.len(),
            text_payload_decoding(s@) == prepend(packets_view(out@), text_payload_from(s@, i as int)),
            !(text_payload_decoding(s@) is Panics),
        decreases s@.len() - i,
    {
        assert(!(text_payload_item(s@, i as int) is Panic));
        match parse_payload_item(s.as_slice(), i) {
            ParsedItem::Stop => {
                assert(packets_view(out@) + Seq::empty() =~= packets_view(out@));
                return Ok(out);
            },
            ParsedItem::Fail => {
                return Err(ParsePacketError::payload());
            },
            ParsedItem::Item(p, j) => {
                let ghost before = packets_view(out@);
                out.push(p);
                proof {
                    assert(packets_view(out@) =~= before.push(p@));
                    match text_payload_from(s@, j as int) {
                        PayloadOutcome::Done(q) => {
                            assert(before + (seq![p@] + q) =~= before.push(p@) + q);
                        },
                        _ => {},
                    }
                }
                i = j;
            },
        }
    }
}

/// Whether decoding the payload is undefined (see [`decode_payload`], which
/// does not accept such inputs): some packet read on the way has a length
/// of 0, or a length of 1 before `b`.
pub fn decode_payload_undefined(input: &str) -> (r: bool)
    ensures
        r == (text_payload_decoding(input@) is Panics),
{
    let s = str_chars(input);
    let mut i: usize = 0;
    loop
        invariant
            s@ == input@,
            0 <= i <= s@.len(),
            (text_payload_decoding(s@) is Panics) == (text_payload_from(s@, i as int) is Panics),
        decreases s@.len() - i,
    {
        if payload_item_undefined(s.as_slice(), i) {
            return true;
        }
        match parse_payload_item(s.as_slice(), i) {
            ParsedItem::Stop => {
                return false;
            },
            ParsedItem::Fail => {
                return false;
            },
            ParsedItem::Item(_, j) => {
                i = j;
            },
        }
    }
}

} // verus!
