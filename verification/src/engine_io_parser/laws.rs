//! What holds between encoding and decoding, in text and in binary.
use vstd::prelude::*;
use crate::digits::{lemma_decimal_value_single, lemma_digit_char};
use crate::digits::le_value;
use crate::engine_io_parser::binary::{
    bin_packet_decoding, bin_packet_encoding, bin_payload_decoding, bin_payload_encoding, first_255,
    lemma_first_255_exact, length_field_panics, packet_length_encoding,
};
use crate::engine_io_parser::binary::encoder::{
    bin_payload_roundtrip_ok, lemma_bin_payload_roundtrip, lemma_length_field,
};
use crate::engine_io_parser::packet::{PacketDataView, PacketType, PacketView, PayloadOutcome};
use crate::engine_io_parser::string::{
    base64_inverts, lemma_code_from_code, lemma_single_digit, lemma_text_payload_roundtrip,
    text_packet_decoding, text_packet_encoding, text_payload_decoding, text_payload_encoding,
    text_payload_roundtrip_ok,
};

verus! {

/// Decoding the text encoding of a packet with text data gives the packet
/// back.
pub proof fn law_text_packet_roundtrip(p: PacketView)
    requires
        p.data is Plaintext,
    ensures
        text_packet_decoding(text_packet_encoding(p)) == Some(p),
{
    let s = text_packet_encoding(p);
    let t = p.data->Plaintext_0;
    lemma_code_from_code(p.packet_type);
    lemma_digit_char(p.packet_type.code() as nat);
    assert(s.subrange(1, s.len() as int) =~= t);
}

/// Encoding a decoded text packet gives the text back.
pub proof fn law_text_packet_decode_encode(s: Seq<char>)
    requires
        text_packet_decoding(s) is Some,
    ensures
        text_packet_encoding(text_packet_decoding(s)->Some_0) == s,
{
    let p = text_packet_decoding(s)->Some_0;
    lemma_decimal_value_single(s[0]);
    lemma_single_digit(s[0], p.packet_type.code() as nat);
    lemma_code_from_code(p.packet_type);
    assert(text_packet_encoding(p) =~= s);
}

/// Decoding the binary encoding of a packet with binary data gives the
/// packet back.
pub proof fn law_binary_packet_roundtrip(p: PacketView)
    requires
        p.data is Binary,
    ensures
        bin_packet_decoding(bin_packet_encoding(p)) == Some(p),
{
    lemma_code_from_code(p.packet_type);
    let b = bin_packet_encoding(p);
    assert(b.subrange(1, b.len() as int) =~= p.data->Binary_0);
}

/// Encoding a decoded binary packet gives the bytes back.
pub proof fn law_binary_packet_decode_encode(b: Seq<u8>)
    requires
        bin_packet_decoding(b) is Some,
    ensures
        bin_packet_encoding(bin_packet_decoding(b)->Some_0) == b,
{
    let p = bin_packet_decoding(b)->Some_0;
    lemma_code_from_code(p.packet_type);
    assert(PacketType::from_code(b[0] as nat).code() == b[0]) by {
        if b[0] == 0 {} else if b[0] == 1 {} else if b[0] == 2 {} else if b[0] == 3 {}
        else if b[0] == 4 {} else if b[0] == 5 {} else {}
    }
    assert(bin_packet_encoding(p) =~= b);
}

/// Decoding the text encoding of a payload gives its packets back, when
/// each survives the trip (see [`text_payload_roundtrip_ok`]) and `base64`
/// gives back what it encoded.
pub proof fn law_text_payload_roundtrip(ps: Seq<PacketView>)
    requires
        forall|k: int| 0 <= k < ps.len() ==> text_payload_roundtrip_ok(#[trigger] ps[k]),
        forall|k: int| 0 <= k < ps.len() ==> base64_inverts(#[trigger] ps[k]),
    ensures
        text_payload_decoding(text_payload_encoding(ps)) == PayloadOutcome::Done(ps),
{
    lemma_text_payload_roundtrip(Seq::empty(), ps);
    assert(Seq::<char>::empty() + text_payload_encoding(ps) =~= text_payload_encoding(ps));
}

/// Decoding the binary encoding of a payload gives its packets back, when
/// each survives the trip (see [`bin_payload_roundtrip_ok`]).
pub proof fn law_binary_payload_roundtrip(ps: Seq<PacketView>)
    requires
        forall|k: int| 0 <= k < ps.len() ==> bin_payload_roundtrip_ok(#[trigger] ps[k]),
    ensures
        bin_payload_decoding(bin_payload_encoding(ps)) == PayloadOutcome::Done(ps),
{
    lemma_bin_payload_roundtrip(Seq::empty(), ps);
    assert(Seq::<u8>::empty() + bin_payload_encoding(ps) =~= bin_payload_encoding(ps));
}

/// Reading the length field that encoding a length wrote, followed by the
/// byte 255 and anything else, gives the length back and stops at the 255
/// (see `parse_packet_length`), for every length up to `u32::MAX`.
pub proof fn law_packet_length_roundtrip(n: nat, rest: Seq<u8>)
    requires
        n <= u32::MAX,
    ensures
        ({
            let input = packet_length_encoding(n) + seq![255u8] + rest;
            let j = first_255(input, 0);
            &&& !length_field_panics(input, 0)
            &&& j == packet_length_encoding(n).len()
            &&& j > 0
            &&& input.subrange(j, input.len() as int) == seq![255u8] + rest
            &&& le_value(input.subrange(0, j)) == n
        }),
{
    let e = packet_length_encoding(n);
    let input = e + seq![255u8] + rest;
    if n == 0 {
        let z = seq![0u8];
        assert(z.drop_first() =~= Seq::<u8>::empty());
        assert(le_value(Seq::<u8>::empty()) == 0);
        assert(le_value(z) == le_value(z.drop_first()) * 10 + z[0] as nat);
        assert(e == z);
    } else {
        lemma_length_field(n);
    }
    assert forall|k: int| 0 <= k < e.len() implies #[trigger] input[k] != 255 by {
        assert(input[k] == e[k]);
    }
    assert(input[e.len() as int] == 255);
    lemma_first_255_exact(input, 0, e.len() as int);
    assert(input.subrange(0, e.len() as int) =~= e);
    assert(input.subrange(e.len() as int, input.len() as int) =~= seq![255u8] + rest);
}

/// Encoding a payload split in two gives the encodings of the two parts one
/// after the other; the empty payload encodes to nothing.
pub proof fn law_binary_payload_concat(a: Seq<PacketView>, b: Seq<PacketView>)
    ensures
        bin_payload_encoding(a + b) == bin_payload_encoding(a) + bin_payload_encoding(b),
        bin_payload_encoding(Seq::<PacketView>::empty()) == Seq::<u8>::empty(),
    decreases a.len(),
{
    if a.len() > 0 {
        assert((a + b).drop_first() =~= a.drop_first() + b);
        assert((a + b)[0] == a[0]);
        law_binary_payload_concat(a.drop_first(), b);
        assert(bin_payload_encoding(a + b) =~= bin_payload_encoding(a) + bin_payload_encoding(b));
    } else {
        assert(a + b =~= b);
        assert(bin_payload_encoding(a) =~= Seq::<u8>::empty());
        assert(bin_payload_encoding(a) + bin_payload_encoding(b) =~= bin_payload_encoding(b));
    }
}

/// Encoding a text payload split in two gives the encodings of the two parts
/// one after the other; the empty payload encodes to nothing.
pub proof fn law_text_payload_concat(a: Seq<PacketView>, b: Seq<PacketView>)
    ensures
        text_payload_encoding(a + b) == text_payload_encoding(a) + text_payload_encoding(b),
        text_payload_encoding(Seq::<PacketView>::empty()) == Seq::<char>::empty(),
    decreases a.len(),
{
    if a.len() > 0 {
        assert((a + b).drop_first() =~= a.drop_first() + b);
        assert((a + b)[0] == a[0]);
        law_text_payload_concat(a.drop_first(), b);
        assert(text_payload_encoding(a + b) =~= text_payload_encoding(a) + text_payload_encoding(b));
    } else {
        assert(a + b =~= b);
        assert(text_payload_encoding(a) =~= Seq::<char>::empty());
        assert(text_payload_encoding(a) + text_payload_encoding(b) =~= text_payload_encoding(b));
    }
}

} // verus!
