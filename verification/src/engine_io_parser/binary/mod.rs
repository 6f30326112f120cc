//! The binary encoding of engine.io packets and payloads.
//!
//! A packet is its type's number as a byte followed by its bytes (text
//! packets: the type as an ASCII digit followed by UTF-8). In a payload each
//! packet is preceded by a byte telling text (0) from binary (1), its length
//! as base-ten digit bytes (least significant first), and the byte 255.
use vstd::prelude::*;
use vstd::utf8::{decode_utf8, encode_utf8, valid_utf8};
use crate::digits::{
    digits_end_bytes, is_digit_byte, le_digits, le_value, le_value_exec, lemma_digits_end_bytes,
    scan_digits_bytes,
};
use crate::engine_io_parser::packet::{
    Packet, PacketData, PacketDataView, PacketType, PacketView, PayloadOutcome, PayloadStep,
};
use crate::engine_io_parser::string::{packet_type_of, ParsedItem, item_matches};
use crate::strings::str_from_utf8;

pub mod decoder;
pub mod encoder;

verus! {

/// The binary encoding of one packet.
pub open spec fn bin_packet_encoding(p: PacketView) -> Seq<u8> {
    let code = p.packet_type.code();
    match p.data {
        PacketDataView::Plaintext(s) => seq![(code + 48) as u8] + encode_utf8(s),
        PacketDataView::Binary(b) => seq![code] + b,
        PacketDataView::Empty => seq![(code + 48) as u8],
    }
}

/// Decoding a single binary packet: the first byte is the type number (at
/// most 6), the rest is the data.
pub open spec fn bin_packet_decoding(b: Seq<u8>) -> Option<PacketView> {
    if b.len() == 0 || b[0] > 6 {
        None
    } else {
        Some(
            PacketView {
                packet_type: PacketType::from_code(b[0] as nat),
                data: PacketDataView::Binary(b.subrange(1, b.len() as int)),
            },
        )
    }
}

/// The length field of a binary payload: the base-ten digits of `n`, least
/// significant first, one per byte (`[0]` for zero).
pub open spec fn packet_length_encoding(n: nat) -> Seq<u8> {
    if n == 0 {
        seq![0]
    } else {
        le_digits(n)
    }
}

/// How one packet appears in a binary payload: a kind byte (0 text, 1
/// binary), the length of what follows the 255 as digit bytes (least
/// significant first), 255, the type (an ASCII digit for text) and the data.
/// A packet without data is the bytes 1, `'0'`, 255 and its type's digit.
pub open spec fn bin_payload_part(p: PacketView) -> Seq<u8> {
    let code = p.packet_type.code();
    match p.data {
        PacketDataView::Plaintext(s) => seq![0u8] + packet_length_encoding(encode_utf8(s).len() + 1)
            + seq![255u8, (code + 48) as u8] + encode_utf8(s),
        PacketDataView::Binary(b) => seq![1u8] + packet_length_encoding(b.len() + 1) + seq![
            255u8,
            code,
        ] + b,
        PacketDataView::Empty => seq![1u8, 48u8, 255u8, (code + 48) as u8],
    }
}

/// The binary encoding of a payload: its packets' parts, in order.
pub open spec fn bin_payload_encoding(ps: Seq<PacketView>) -> Seq<u8>
    decreases ps.len(),
{
    if ps.len() == 0 {
        seq![]
    } else {
        bin_payload_part(ps[0]) + bin_payload_encoding(ps.drop_first())
    }
}

/// The first index at or after `i` that holds the byte 255 (or `b.len()`).
pub open spec fn first_255(b: Seq<u8>, i: int) -> int
    decreases b.len() - i,
{
    if i < 0 || i >= b.len() || b[i] == 255 {
        i
    } else {
        first_255(b, i + 1)
    }
}

/// Reading a length field at `i`: the bytes up to the next 255 or the end,
/// none of which stops the payload. More than ten bytes or a value above
/// `u32::MAX` leave decoding undefined.
pub open spec fn length_field_panics(b: Seq<u8>, i: int) -> bool {
    let j = first_255(b, i);
    j > i && (j - i > 10 || le_value(b.subrange(i, j)) > u32::MAX)
}

/// Reading one packet of a binary payload at `i`.
pub open spec fn bin_payload_item(b: Seq<u8>, i: int) -> PayloadStep {
    if i >= b.len() {
        PayloadStep::Stop
    } else if b[i] > 1 {
        PayloadStep::Fail
    } else {
        let p = i + 1;
        let j = first_255(b, p);
        if j == p {
            PayloadStep::Stop
        } else if length_field_panics(b, p) {
            PayloadStep::Panic
        } else if j >= b.len() {
            PayloadStep::Stop
        } else if le_value(b.subrange(p, j)) == 0 {
            PayloadStep::Panic
        } else {
            let q = j + 1;
            let dl = le_value(b.subrange(p, j)) - 1;
            if b[i] == 0 {
                if q >= b.len() || !is_digit_byte(b[q]) {
                    PayloadStep::Stop
                } else if q + 1 + dl > b.len() {
                    PayloadStep::Stop
                } else if b[q] - 48 > 6 {
                    PayloadStep::Fail
                } else if !valid_utf8(b.subrange(q + 1, q + 1 + dl)) {
                    PayloadStep::Fail
                } else {
                    PayloadStep::Item(
                        PacketView {
                            packet_type: PacketType::from_code((b[q] - 48) as nat),
                            data: PacketDataView::Plaintext(decode_utf8(b.subrange(q + 1, q + 1 + dl))),
                        },
                        q + 1 + dl,
                    )
                }
            } else {
                if q >= b.len() {
                    PayloadStep::Stop
                } else if q + 1 + dl > b.len() {
                    PayloadStep::Stop
                } else if b[q] > 6 {
                    PayloadStep::Fail
                } else {
                    PayloadStep::Item(
                        PacketView {
                            packet_type: PacketType::from_code(b[q] as nat),
                            data: PacketDataView::Binary(b.subrange(q + 1, q + 1 + dl)),
                        },
                        q + 1 + dl,
                    )
                }
            }
        }
    }
}

/// Decoding a binary payload from position `i`.
pub open spec fn bin_payload_from(b: Seq<u8>, i: int) -> PayloadOutcome
    decreases b.len() - i,
{
    if i < 0 || i > b.len() {
        PayloadOutcome::Failed
    } else {
        match bin_payload_item(b, i) {
            PayloadStep::Stop => PayloadOutcome::Done(seq![]),
            PayloadStep::Fail => PayloadOutcome::Failed,
            PayloadStep::Panic => PayloadOutcome::Panics,
            PayloadStep::Item(p, j) => if i < j <= b.len() {
                match bin_payload_from(b, j) {
                    PayloadOutcome::Done(ps) => PayloadOutcome::Done(seq![p] + ps),
                    other => other,
                }
            } else {
                PayloadOutcome::Failed
            },
        }
    }
}

/// The outcome of decoding a whole binary payload.
pub open spec fn bin_payload_decoding(b: Seq<u8>) -> PayloadOutcome {
    bin_payload_from(b, 0)
}

pub proof fn lemma_first_255(b: Seq<u8>, i: int)
    requires
        0 <= i <= b.len(),
    ensures
        i <= first_255(b, i) <= b.len(),
        forall|k: int| i <= k < first_255(b, i) ==> #[trigger] b[k] != 255,
        first_255(b, i) < b.len() ==> b[first_255(b, i)] == 255,
    decreases b.len() - i,
{
    if i < b.len() && b[i] != 255 {
        lemma_first_255(b, i + 1);
    }
}

pub proof fn lemma_first_255_exact(b: Seq<u8>, i: int, j: int)
    requires
        0 <= i <= j <= b.len(),
        forall|k: int| i <= k < j ==> #[trigger] b[k] != 255,
        j < b.len() ==> b[j] == 255,
    ensures
        first_255(b, i) == j,
    decreases j - i,
{
    if i < j {
        lemma_first_255_exact(b, i + 1, j);
    }
}

/// The index of the first 255 at or after `i`, or the end.
fn scan_255(b: &[u8], i: usize) -> (j: usize)
    requires
        i <= b@.len(),
    ensures
        j as int == first_255(b@, i as int),
        i <= j <= b@.len(),
{
    proof {
        lemma_first_255(b@, i as int);
    }
    let mut j = i;
    while j < b.len() && b[j] != 255
        invariant
            i <= j <= b@.len(),
            first_255(b@, j as int) == first_255(b@, i as int),
        decreases b@.len() - j,
    {
        j = j + 1;
    }
    j
}

/// Reads the length field that starts `input`: the bytes before the first
/// 255 (or all of them) are base-ten digits, least significant first. Returns
/// the input from the first 255 on, and the length; `None` when the input is
/// empty or starts with 255. More than ten digit bytes or a length above
/// `u32::MAX` leave the length undefined; such inputs are not accepted.
pub fn parse_packet_length(input: &[u8]) -> (r: Option<(&[u8], usize)>)
    requires
        !length_field_panics(input@, 0),
    ensures
        first_255(input@, 0) == 0 ==> r is None,
        first_255(input@, 0) > 0 ==> (r matches Some((rest, n)) && rest@ == input@.subrange(
            first_255(input@, 0),
            input@.len() as int,
        ) && n == le_value(input@.subrange(0, first_255(input@, 0)))),
{
    let j = scan_255(input, 0);
    if j == 0 {
        return None;
    }
    let n = le_value_exec(&input[0..j]);
    Some((&input[j..input.len()], n as usize))
}

/// Reads one packet of a binary payload at `i`.
pub fn parse_payload_item(b: &[u8], i: usize) -> (r: ParsedItem)
    requires
        i <= b@.len(),
        !(bin_payload_item(b@, i as int) is Panic),
    ensures
        item_matches(r, bin_payload_item(b@, i as int)),
        r matches ParsedItem::Item(_, j) ==> i < j <= b@.len(),
{
    if i >= b.len() {
        return ParsedItem::Stop;
    }
    let kind = b[i];
    if kind > 1 {
        return ParsedItem::Fail;
    }
    let p = i + 1;
    let j = scan_255(b, p);
    if j == p {
        return ParsedItem::Stop;
    }
    let field = &b[p..j];
    assert(field@ == b@.subrange(p as int, j as int));
    let n = le_value_exec(field);
    if j >= b.len() {
        return ParsedItem::Stop;
    }
    let q = j + 1;
    let dl = (n - 1) as usize;
    if kind == 0 {
        if q >= b.len() || !(48 <= b[q] && b[q] <= 57) {
            return ParsedItem::Stop;
        }
        if dl > b.len() - q - 1 {
            return ParsedItem::Stop;
        }
        let t = b[q] - 48;
        if t > 6 {
            return ParsedItem::Fail;
        }
        match str_from_utf8(&b[q + 1..q + 1 + dl]) {
            Some(text) => {
                let p = Packet {
                    packet_type: packet_type_of(t),
                    data: PacketData::Plaintext(text.to_owned()),
                };
                ParsedItem::Item(p, q + 1 + dl)
            },
            None => ParsedItem::Fail,
        }
    } else {
        if q >= b.len() {
            return ParsedItem::Stop;
        }
        if dl > b.len() - q - 1 {
            return ParsedItem::Stop;
        }
        let t = b[q];
        if t > 6 {
            return ParsedItem::Fail;
        }
        let data = vstd::slice::slice_to_vec(&b[q + 1..q + 1 + dl]);
        let p = Packet { packet_type: packet_type_of(t), data: PacketData::Binary(data) };
        ParsedItem::Item(p, q + 1 + dl)
    }
}

/// Whether reading the length field at `i` is undefined (see
/// [`length_field_panics`]): more than ten bytes before the next 255, or a
/// value above `u32::MAX`.
pub fn length_field_undefined(b: &[u8], i: usize) -> (r: bool)
    requires
        i <= b@.len(),
    ensures
        r == length_field_panics(b@, i as int),
{
    let j = scan_255(b, i);
    if j == i {
        return false;
    }
    if j - i > 10 {
        return true;
    }
    let field = &b[i..j];
    assert(field@ == b@.subrange(i as int, j as int));
    le_value_exec(field) > 0xffff_ffffu64
}

/// Whether reading the packet of a binary payload at `i` is undefined (see
/// [`bin_payload_item`]): its length field is undefined or is 0.
pub fn payload_item_undefined(b: &[u8], i: usize) -> (r: bool)
    requires
        i <= b@.len(),
    ensures
        r == (bin_payload_item(b@, i as int) is Panic),
{
    if i >= b.len() || b[i] > 1 {
        return false;
    }
    let p = i + 1;
    let j = scan_255(b, p);
    if j == p {
        return false;
    }
    if length_field_undefined(b, p) {
        return true;
    }
    if j >= b.len() {
        return false;
    }
    let field = &b[p..j];
    assert(field@ == b@.subrange(p as int, j as int));
    le_value_exec(field) == 0
}

} // verus!
