//! Encoding packets and payloads as text.
use vstd::prelude::*;
use vstd::string::*;
use crate::digits::digit_to_char;
use crate::engine_io_parser::base64_codec::base64_encode;
use crate::engine_io_parser::packet::{packets_view, Packet, PacketData};
use crate::digits::is_digit_char;
use crate::engine_io_parser::packet::{PacketDataView, PayloadOutcome};
use crate::engine_io_parser::string::{
    base64_inverts, lemma_code_from_code, lemma_text_payload_roundtrip, text_packet_decoding,
    text_packet_encoding, text_payload_decoding, text_payload_encoding, text_payload_part,
    text_payload_roundtrip_ok,
};
use crate::digits::{lemma_digit_char, lemma_digits_end_exact};
use crate::strings::{push_char, push_decimal, push_str};

verus! {

/// The text encoding of a packet: its type's digit, then its text, or its
/// bytes as base64, or nothing.
pub fn serialize_packet(packet: &Packet) -> (s: String)
    ensures
        s@ == text_packet_encoding(packet@),
        base64_inverts(packet@),
{
    let mut s = String::new();
    push_char(&mut s, digit_to_char(packet.packet_type.to_u8()));
    match &packet.data {
        PacketData::Plaintext(data) => push_str(&mut s, data.as_str()),
        PacketData::Binary(data) => {
            let b64 = base64_encode(data.as_slice());
            push_str(&mut s, b64.as_str());
        },
        PacketData::Empty => {},
    }
    assert(s@ =~= text_packet_encoding(packet@));
    s
}

/// Encodes a packet with text data (bytes go as base64).
pub fn encode_packet(input: &Packet) -> (s: String)
    ensures
        s@ == text_packet_encoding(input@),
        // Decoding the encoding of a text packet gives it back.
        input@.data is Plaintext ==> text_packet_decoding(s@) == Some(input@),
{
    let s = serialize_packet(input);
    proof {
        if let PacketDataView::Plaintext(t) = input@.data {
            lemma_code_from_code(input.packet_type);
            lemma_digit_char(input.packet_type.code() as nat);
            assert(s@.subrange(1, s@.len() as int) =~= t);
        }
    }
    s
}

/// Encodes a packet with binary data as text: its bytes go as base64.
pub fn encode_base64_packet(input: &Packet) -> (s: String)
    ensures
        s@ == text_packet_encoding(input@),
{
    serialize_packet(input)
}

/// Encodes a payload as text: each packet as its length in characters, `:`,
/// and its encoding; binary packets as their length plus one, `:b`, and their
/// encoding; a packet without data is its type's digit alone (`1:2` for a
/// ping).
pub fn encode_payload(input: &[Packet]) -> (s: String)
    ensures
        s@ == text_payload_encoding(packets_view(input@)),
        // Decoding the payload gives the packets back, when each of them
        // survives the trip (see `text_payload_roundtrip_ok`).
        (forall|k: int| 0 <= k < input@.len() ==> text_payload_roundtrip_ok(#[trigger] input@[k]@))
            ==> text_payload_decoding(s@) == PayloadOutcome::Done(packets_view(input@)),
{
    let mut s = String::new();
    let n = input.len();
    let mut i: usize = 0;
    assert(packets_view(input@).subrange(0, n as int) =~= packets_view(input@));
    assert(s@ =~= Seq::<char>::empty());
    while i < n
        invariant
            i <= n == input@.len(),
            s@ + text_payload_encoding(packets_view(input@).subrange(i as int, n as int))
                == text_payload_encoding(packets_view(input@)),
            forall|k: int| 0 <= k < i ==> base64_inverts(#[trigger] packets_view(input@)[k]),
        decreases n - i,
    {
        let packet = &input[i];
        let serialized = serialize_packet(packet);
        let count = serialized.as_str().unicode_len();
        proof {
            let vs = packets_view(input@);
            assert(vs.subrange(i as int, n as int).drop_first() =~= vs.subrange(i + 1, n as int));
            assert(vs.subrange(i as int, n as int)[0] == packet@);
        }
        let ghost before = s@;
        match &packet.data {
            PacketData::Binary(_) => {
                push_decimal(&mut s, count as u128 + 1);
                push_char(&mut s, ':');
                push_char(&mut s, 'b');
                push_str(&mut s, serialized.as_str());
            },
            _ => {
                push_decimal(&mut s, count as u128);
                push_char(&mut s, ':');
                push_str(&mut s, serialized.as_str());
            },
        }
        assert(s@ =~= before + text_payload_part(packet@));
        assert(s@ + text_payload_encoding(packets_view(input@).subrange(i + 1, n as int))
            =~= before + text_payload_encoding(packets_view(input@).subrange(i as int, n as int)));
        i = i + 1;
    }
    assert(packets_view(input@).subrange(0, n as int) =~= packets_view(input@));
    assert(s@ + text_payload_encoding(packets_view(input@).subrange(n as int, n as int)) =~= s@);
    proof {
        let vs = packets_view(input@);
        if forall|k: int| 0 <= k < input@.len() ==> text_payload_roundtrip_ok(#[trigger] input@[k]@) {
            assert forall|k: int| 0 <= k < vs.len() implies text_payload_roundtrip_ok(#[trigger] vs[k]) by {
                assert(vs[k] == input@[k]@);
            }
            lemma_text_payload_roundtrip(Seq::empty(), vs);
            assert(Seq::<char>::empty() + s@ =~= s@);
        }
    }
    s
}

} // verus!
