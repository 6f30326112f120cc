//! Encoding packets and payloads as bytes.
use vstd::prelude::*;
use vstd::utf8::{encode_utf8, encode_utf8_decode_utf8, encode_utf8_valid_utf8};
use crate::digits::{
    le_digits, le_value, lemma_le_digits, lemma_le_digits_len, lemma_pow10_ten, pow10,
};
use crate::engine_io_parser::binary::{
    bin_packet_decoding, bin_packet_encoding, bin_payload_decoding, bin_payload_encoding,
    bin_payload_from, bin_payload_item, bin_payload_part, first_255, length_field_panics,
    lemma_first_255_exact, packet_length_encoding,
};
use crate::engine_io_parser::packet::{
    packets_view, Packet, PacketData, PacketDataView, PacketType, PacketView, PayloadOutcome,
    PayloadStep,
};
use crate::engine_io_parser::string::lemma_code_from_code;

verus! {

/// Appends the bytes `b` at the end of `v`.
fn append_bytes(v: &mut Vec<u8>, b: &[u8])
    ensures
        final(v)@ == old(v)@ + b@,
{
    let mut k: usize = 0;
    while k < b.len()
        invariant
            k <= b@.len(),
            v@ == old(v)@ + b@.subrange(0, k as int),
        decreases b@.len() - k,
    {
        v.push(b[k]);
        assert(v@ =~= old(v)@ + b@.subrange(0, k + 1));
        k = k + 1;
    }
    assert(b@.subrange(0, b@.len() as int) =~= b@);
}

/// The length field of a binary payload for the length `input`: its
/// base-ten digits, least significant first, one per byte (`[0]` for zero).
pub fn encode_packet_length(input: usize) -> (digits: Vec<u8>)
    ensures
        digits@ == packet_length_encoding(input as nat),
{
    let mut val = input;
    let mut digits: Vec<u8> = Vec::new();
    if val == 0 {
        digits.push(0u8);
        assert(digits@ =~= seq![0u8]);
        return digits;
    }
    while val > 0
        invariant
            digits@ + le_digits(val as nat) == le_digits(input as nat),
        decreases val,
    {
        let digit = val % 10;
        let ghost before = digits@;
        digits.push(digit as u8);
        assert(le_digits(val as nat) == seq![(val % 10) as u8] + le_digits((val / 10) as nat));
        assert(digits@ + le_digits((val / 10) as nat) =~= before + le_digits(val as nat));
        val = val / 10;
    }
    assert(digits@ + le_digits(0) =~= digits@);
    digits
}

/// The binary encoding of one packet.
pub fn serialize_packet(packet_type: PacketType, data: &PacketData) -> (v: Vec<u8>)
    ensures
        v@ == bin_packet_encoding(PacketView { packet_type, data: data@ }),
{
    let code = packet_type.to_u8();
    let mut v: Vec<u8> = Vec::new();
    match data {
        PacketData::Plaintext(text) => {
            v.push(code + 48);
            append_bytes(&mut v, text.as_str().as_bytes());
        },
        PacketData::Binary(bytes) => {
            v.push(code);
            append_bytes(&mut v, bytes.as_slice());
        },
        PacketData::Empty => {
            v.push(code + 48);
        },
    }
    assert(v@ =~= bin_packet_encoding(PacketView { packet_type, data: data@ }));
    v
}

/// The bytes of one packet in a binary payload.
pub fn serialize_packet_in_payload(packet_type: PacketType, data: &PacketData) -> (v: Vec<u8>)
    requires
        data@ matches PacketDataView::Plaintext(s) ==> encode_utf8(s).len() < usize::MAX,
        data@ matches PacketDataView::Binary(b) ==> b.len() < usize::MAX,
    ensures
        v@ == bin_payload_part(PacketView { packet_type, data: data@ }),
{
    let code = packet_type.to_u8();
    let mut v: Vec<u8> = Vec::new();
    match data {
        PacketData::Plaintext(text) => {
            let bytes = text.as_str().as_bytes();
            let length_bytes = encode_packet_length(bytes.len() + 1);
            v.push(0u8);
            append_bytes(&mut v, length_bytes.as_slice());
            v.push(255u8);
            v.push(code + 48);
            append_bytes(&mut v, bytes);
        },
        PacketData::Binary(bytes) => {
            let length_bytes = encode_packet_length(bytes.len() + 1);
            v.push(1u8);
            append_bytes(&mut v, length_bytes.as_slice());
            v.push(255u8);
            v.push(code);
            append_bytes(&mut v, bytes.as_slice());
        },
        PacketData::Empty => {
            v.push(1u8);
            v.push(48u8);
            v.push(255u8);
            v.push(code + 48);
        },
    }
    assert(v@ =~= bin_payload_part(PacketView { packet_type, data: data@ }));
    v
}

/// Encodes a packet as bytes: the type number as a byte and the bytes of the
/// data (for text data the type as an ASCII digit and the text as UTF-8).
pub fn encode_packet(input: &Packet) -> (v: Vec<u8>)
    ensures
        v@ == bin_packet_encoding(input@),
        // Decoding the encoding of a binary packet gives it back.
        input@.data is Binary ==> bin_packet_decoding(v@) == Some(input@),
{
    let v = serialize_packet(input.packet_type, &input.data);
    proof {
        lemma_code_from_code(input.packet_type);
        if let PacketDataView::Binary(b) = input@.data {
            assert(v@.subrange(1, v@.len() as int) =~= b);
        }
    }
    v
}

/// A packet that survives a trip through a binary payload: it has data, and
/// its length plus one fits a `u32`.
pub open spec fn bin_payload_roundtrip_ok(p: PacketView) -> bool {
    match p.data {
        PacketDataView::Plaintext(s) => encode_utf8(s).len() + 1 <= u32::MAX,
        PacketDataView::Binary(b) => b.len() + 1 <= u32::MAX,
        PacketDataView::Empty => false,
    }
}

/// The length field of a packet that survives the trip is read back.
pub(crate) proof fn lemma_length_field(n: nat)
    requires
        1 <= n <= u32::MAX,
    ensures
        packet_length_encoding(n) == le_digits(n),
        le_digits(n).len() >= 1,
        le_digits(n).len() <= 10,
        le_value(le_digits(n)) == n,
        forall|k: int| 0 <= k < le_digits(n).len() ==> #[trigger] le_digits(n)[k] < 10,
{
    lemma_le_digits(n);
    lemma_pow10_ten();
    lemma_le_digits_len(n, 10);
}

/// Reading a text packet's part of a binary payload gives the packet back.
proof fn lemma_bin_payload_item_text(x: Seq<u8>, p: PacketView, s: Seq<char>, rest: Seq<u8>)
    requires
        bin_payload_roundtrip_ok(p),
        p.data == PacketDataView::Plaintext(s),
        rest.len() == 0 || rest[0] <= 1,
    ensures
        bin_payload_item(x + bin_payload_part(p) + rest, x.len() as int) == PayloadStep::Item(
            p,
            (x.len() + bin_payload_part(p).len()) as int,
        ),
{
    let b = x + bin_payload_part(p) + rest;
    let code = p.packet_type.code();
    let i = x.len() as int;
    lemma_code_from_code(p.packet_type);
    let u = encode_utf8(s);
    let n = (u.len() + 1) as nat;
    lemma_length_field(n);
    let d = le_digits(n);
    assert(b =~= x + seq![0u8] + d + seq![255u8, (code + 48) as u8] + u + rest);
    let p0 = i + 1;
    let j = p0 + d.len();
    assert forall|k: int| p0 <= k < j implies #[trigger] b[k] != 255 by {
        assert(b[k] == d[k - p0]);
    }
    lemma_first_255_exact(b, p0, j);
    assert(b.subrange(p0, j) =~= d);
    let q = j + 1;
    assert(b[q] == (code + 48) as u8);
    encode_utf8_valid_utf8(s);
    encode_utf8_decode_utf8(s);
    assert(b.subrange(q + 1, q + 1 + u.len()) =~= u);
}

/// Reading a binary packet's part of a binary payload gives the packet back.
proof fn lemma_bin_payload_item_binary(x: Seq<u8>, p: PacketView, data: Seq<u8>, rest: Seq<u8>)
    requires
        bin_payload_roundtrip_ok(p),
        p.data == PacketDataView::Binary(data),
    ensures
        bin_payload_item(x + bin_payload_part(p) + rest, x.len() as int) == PayloadStep::Item(
            p,
            (x.len() + bin_payload_part(p).len()) as int,
        ),
{
    let b = x + bin_payload_part(p) + rest;
    let code = p.packet_type.code();
    let i = x.len() as int;
    lemma_code_from_code(p.packet_type);
    let n = (data.len() + 1) as nat;
    lemma_length_field(n);
    let d = le_digits(n);
    assert(b =~= x + seq![1u8] + d + seq![255u8, code] + data + rest);
    let p0 = i + 1;
    let j = p0 + d.len();
    assert forall|k: int| p0 <= k < j implies #[trigger] b[k] != 255 by {
        assert(b[k] == d[k - p0]);
    }
    lemma_first_255_exact(b, p0, j);
    assert(b.subrange(p0, j) =~= d);
    let q = j + 1;
    assert(b[q] == code);
    assert(b.subrange(q + 1, q + 1 + data.len()) =~= data);
}

/// Reading a packet's part of a binary payload gives the packet back,
/// whatever comes before it, when what follows starts with a kind byte.
proof fn lemma_bin_payload_item(x: Seq<u8>, p: PacketView, rest: Seq<u8>)
    requires
        bin_payload_roundtrip_ok(p),
        rest.len() == 0 || rest[0] <= 1,
    ensures
        bin_payload_item(x + bin_payload_part(p) + rest, x.len() as int) == PayloadStep::Item(
            p,
            (x.len() + bin_payload_part(p).len()) as int,
        ),
{
    match p.data {
        PacketDataView::Plaintext(s) => lemma_bin_payload_item_text(x, p, s, rest),
        PacketDataView::Binary(data) => lemma_bin_payload_item_binary(x, p, data, rest),
        PacketDataView::Empty => {},
    }
}

/// Decoding the binary encoding of packets that survive the trip gives them
/// back, whatever bytes come before.
pub(crate) proof fn lemma_bin_payload_roundtrip(x: Seq<u8>, ps: Seq<PacketView>)
    requires
        forall|k: int| 0 <= k < ps.len() ==> bin_payload_roundtrip_ok(#[trigger] ps[k]),
    ensures
        bin_payload_from(x + bin_payload_encoding(ps), x.len() as int) == PayloadOutcome::Done(ps),
    decreases ps.len(),
{
    let b = x + bin_payload_encoding(ps);
    if ps.len() == 0 {
        assert(b =~= x);
        assert(ps =~= Seq::<PacketView>::empty());
    } else {
        let part = bin_payload_part(ps[0]);
        let x2 = x + part;
        let tail = ps.drop_first();
        let rest = bin_payload_encoding(tail);
        assert(b =~= x2 + rest);
        assert(b =~= x + part + rest);
        assert(bin_payload_roundtrip_ok(ps[0]));
        if tail.len() > 0 {
            assert(bin_payload_roundtrip_ok(tail[0]));
            assert(rest == bin_payload_part(tail[0]) + bin_payload_encoding(tail.drop_first()));
        }
        lemma_bin_payload_item(x, ps[0], rest);
        assert forall|k: int| 0 <= k < tail.len() implies bin_payload_roundtrip_ok(#[trigger] tail[k]) by {
            assert(tail[k] == ps[k + 1]);
        }
        lemma_bin_payload_roundtrip(x2, tail);
        assert(seq![ps[0]] + tail =~= ps);
    }
}

/// Encodes a payload as bytes: each packet as a kind byte (0 text, 1
/// binary), its length plus one as base-ten digit bytes (least significant
/// first), the byte 255, and its encoding.
pub fn encode_payload(input: &[Packet]) -> (v: Vec<u8>)
    requires
        forall|k: int| 0 <= k < input@.len() ==> (#[trigger] input@[k]@.data matches PacketDataView::Plaintext(s)
            ==> encode_utf8(s).len() < usize::MAX),
        forall|k: int| 0 <= k < input@.len() ==> (#[trigger] input@[k]@.data matches PacketDataView::Binary(b)
            ==> b.len() < usize::MAX),
    ensures
        v@ == bin_payload_encoding(packets_view(input@)),
        // Decoding the payload gives the packets back, when each of them
        // survives the trip (see `bin_payload_roundtrip_ok`).
        (forall|k: int| 0 <= k < input@.len() ==> bin_payload_roundtrip_ok(#[trigger] input@[k]@))
            ==> bin_payload_decoding(v@) == PayloadOutcome::Done(packets_view(input@)),
{
    let mut v: Vec<u8> = Vec::new();
    let n = input.len();
    let mut i: usize = 0;
    assert(packets_view(input@).subrange(0, n as int) =~= packets_view(input@));
    assert(v@ =~= Seq::<u8>::empty());
    while i < n
        invariant
            i <= n == input@.len(),
            forall|k: int| 0 <= k < input@.len() ==> (#[trigger] input@[k]@.data matches PacketDataView::Plaintext(s)
                ==> encode_utf8(s).len() < usize::MAX),
            forall|k: int| 0 <= k < input@.len() ==> (#[trigger] input@[k]@.data matches PacketDataView::Binary(b)
                ==> b.len() < usize::MAX),
            v@ + bin_payload_encoding(packets_view(input@).subrange(i as int, n as int))
                == bin_payload_encoding(packets_view(input@)),
        decreases n - i,
    {
        let packet = &input[i];
        assert(input@[i as int]@ == packet@);
        let serialized = serialize_packet_in_payload(packet.packet_type, &packet.data);
        proof {
            let vs = packets_view(input@);
            assert(vs.subrange(i as int, n as int).drop_first() =~= vs.subrange(i + 1, n as int));
            assert(vs.subrange(i as int, n as int)[0] == packet@);
        }
        let ghost before = v@;
        append_bytes(&mut v, serialized.as_slice());
        assert(v@ + bin_payload_encoding(packets_view(input@).subrange(i + 1, n as int))
            =~= before + bin_payload_encoding(packets_view(input@).subrange(i as int, n as int)));
        i = i + 1;
    }
    assert(v@ + bin_payload_encoding(packets_view(input@).subrange(n as int, n as int)) =~= v@);
    proof {
        let vs = packets_view(input@);
        if forall|k: int| 0 <= k < input@.len() ==> bin_payload_roundtrip_ok(#[trigger] input@[k]@) {
            assert forall|k: int| 0 <= k < vs.len() implies bin_payload_roundtrip_ok(#[trigger] vs[k]) by {
                assert(vs[k] == input@[k]@);
            }
            lemma_bin_payload_roundtrip(Seq::empty(), vs);
            assert(Seq::<u8>::empty() + v@ =~= v@);
        }
    }
    v
}

} // verus!
