//! The text encoding of engine.io packets and payloads.
//!
//! A packet is its type's digit followed by its data; in a payload each
//! packet is preceded by its length in characters and `:`, and binary data
//! travels as base64 after a `b` (the length then counts the `b` too).
use vstd::prelude::*;
use vstd::string::*;
use vstd::utf8::encode_utf8;
use crate::digits::{
    decimal_chars, decimal_value, digit_char, digit_value, digits_end, is_digit_char, lemma_decimal_chars_digits,
    lemma_decimal_value_single,
    lemma_digit_char, lemma_digits_end, lemma_digits_end_exact, parse_decimal_bounded, scan_digits,
};
use crate::engine_io_parser::base64_codec::{base64_decode, base64_decoding, base64_encoding};
use crate::engine_io_parser::packet::{
    Packet, PacketData, PacketDataView, PacketType, PacketView, PayloadOutcome, PayloadStep,
};
use crate::strings::chars_to_string;

pub mod decoder;
pub mod encoder;

verus! {

/// The text that carries packet data: the text itself, bytes as base64, or nothing.
pub open spec fn text_data(d: PacketDataView) -> Seq<char> {
    match d {
        PacketDataView::Plaintext(s) => s,
        PacketDataView::Binary(b) => base64_encoding(b),
        PacketDataView::Empty => seq![],
    }
}

/// The text encoding of one packet: its type's digit, then its data.
pub open spec fn text_packet_encoding(p: PacketView) -> Seq<char> {
    seq![digit_char(p.packet_type.code() as nat)] + text_data(p.data)
}

/// How one packet appears in a text payload: its length, `:` and its
/// encoding; for binary data the length counts a `b` that comes before the
/// encoding.
pub open spec fn text_payload_part(p: PacketView) -> Seq<char> {
    let enc = text_packet_encoding(p);
    match p.data {
        PacketDataView::Binary(_) => decimal_chars(enc.len() + 1) + seq![':', 'b'] + enc,
        _ => decimal_chars(enc.len()) + seq![':'] + enc,
    }
}

/// The text encoding of a payload: its packets' parts, in order.
pub open spec fn text_payload_encoding(ps: Seq<PacketView>) -> Seq<char>
    decreases ps.len(),
{
    if ps.len() == 0 {
        seq![]
    } else {
        text_payload_part(ps[0]) + text_payload_encoding(ps.drop_first())
    }
}

/// Decoding a single text packet: its first character is the digit of the
/// type (at most 6), and the rest of the text is its data.
pub open spec fn text_packet_decoding(s: Seq<char>) -> Option<PacketView> {
    if s.len() == 0 || !is_digit_char(s[0]) || digit_value(s[0]) > 6 {
        None
    } else {
        Some(
            PacketView {
                packet_type: PacketType::from_code(digit_value(s[0])),
                data: PacketDataView::Plaintext(s.subrange(1, s.len() as int)),
            },
        )
    }
}

/// Reading a packet with plain text data of `dl` characters at `i`: the
/// type's digit (none stops the payload), then exactly `dl` characters
/// (fewer stop the payload), then the type check (above 6 fails).
pub open spec fn text_plain_packet_at(s: Seq<char>, i: int, dl: int) -> PayloadStep {
    if i < 0 || i >= s.len() || !is_digit_char(s[i]) {
        PayloadStep::Stop
    } else if i + 1 + dl > s.len() {
        PayloadStep::Stop
    } else if digit_value(s[i]) > 6 {
        PayloadStep::Fail
    } else {
        PayloadStep::Item(
            PacketView {
                packet_type: PacketType::from_code(digit_value(s[i])),
                data: PacketDataView::Plaintext(s.subrange(i + 1, i + 1 + dl)),
            },
            i + 1 + dl,
        )
    }
}

/// Reading a packet with base64 data at `i`: `b`, the type's digit, then
/// `dl - 1` characters of base64, which must decode.
pub open spec fn text_base64_packet_at(s: Seq<char>, i: int, dl: int) -> PayloadStep {
    if i < 0 || i >= s.len() || s[i] != 'b' {
        PayloadStep::Stop
    } else if dl == 0 {
        PayloadStep::Panic
    } else {
        let q = i + 1;
        if q >= s.len() || !is_digit_char(s[q]) {
            PayloadStep::Stop
        } else if q + dl > s.len() {
            PayloadStep::Stop
        } else if digit_value(s[q]) > 6 {
            PayloadStep::Fail
        } else {
            match base64_decoding(encode_utf8(s.subrange(q + 1, q + dl))) {
                Some(b) => PayloadStep::Item(
                    PacketView {
                        packet_type: PacketType::from_code(digit_value(s[q])),
                        data: PacketDataView::Binary(b),
                    },
                    q + dl,
                ),
                None => PayloadStep::Fail,
            }
        }
    }
}

/// Reading one packet of a text payload at `i`: the length digits (none
/// stops the payload; more than `usize::MAX` fails), `:` (else the payload
/// stops), a length of 0 panics; then a plain packet, or when that stops, a
/// base64 one.
pub open spec fn text_payload_item(s: Seq<char>, i: int) -> PayloadStep {
    let e = digits_end(s, i);
    if e == i {
        PayloadStep::Stop
    } else if decimal_value(s.subrange(i, e)) > usize::MAX {
        PayloadStep::Fail
    } else if e >= s.len() || s[e] != ':' {
        PayloadStep::Stop
    } else if decimal_value(s.subrange(i, e)) == 0 {
        PayloadStep::Panic
    } else {
        let dl = decimal_value(s.subrange(i, e)) - 1;
        match text_plain_packet_at(s, e + 1, dl) {
            PayloadStep::Stop => text_base64_packet_at(s, e + 1, dl),
            other => other,
        }
    }
}

/// Decoding a text payload from position `i`: packets are read until one
/// stops the payload; a failure or a panic anywhere is the outcome.
pub open spec fn text_payload_from(s: Seq<char>, i: int) -> PayloadOutcome
    decreases s.len() - i,
{
    if i < 0 || i > s.len() {
        PayloadOutcome::Failed
    } else {
        match text_payload_item(s, i) {
            PayloadStep::Stop => PayloadOutcome::Done(seq![]),
            PayloadStep::Fail => PayloadOutcome::Failed,
            PayloadStep::Panic => PayloadOutcome::Panics,
            PayloadStep::Item(p, j) => if i < j <= s.len() {
                match text_payload_from(s, j) {
                    PayloadOutcome::Done(ps) => PayloadOutcome::Done(seq![p] + ps),
                    other => other,
                }
            } else {
                PayloadOutcome::Failed
            },
        }
    }
}

/// The outcome of decoding a whole text payload.
pub open spec fn text_payload_decoding(s: Seq<char>) -> PayloadOutcome {
    text_payload_from(s, 0)
}

/// A single digit `c` of value `v <= 6` is the digit of the type numbered `v`.
pub proof fn lemma_single_digit(c: char, v: nat)
    requires
        is_digit_char(c),
        decimal_value(seq![c]) == v,
        v <= 6,
    ensures
        PacketType::from_code(v).code() == v,
        digit_char(PacketType::from_code(v).code() as nat) == c,
{
    assert(seq![c].drop_last() =~= Seq::<char>::empty());
}

/// The type numbered by a packet type's code is that type.
pub proof fn lemma_code_from_code(t: PacketType)
    ensures
        PacketType::from_code(t.code() as nat) == t,
        t.code() <= 6,
{
}

/// A packet that survives a trip through a text payload: it has data; text
/// data does not start with a digit (which would be read as part of the type
/// number), nor does the base64 of binary data; and its length fits a `usize`.
pub open spec fn text_payload_roundtrip_ok(p: PacketView) -> bool {
    match p.data {
        PacketDataView::Plaintext(t) => t.len() + 2 <= usize::MAX,
        PacketDataView::Binary(b) => base64_encoding(b).len() + 2 <= usize::MAX,
        PacketDataView::Empty => false,
    }
}

/// What `base64` gives back from the encoding of a binary packet's data.
pub open spec fn base64_inverts(p: PacketView) -> bool {
    p.data matches PacketDataView::Binary(b) ==> base64_decoding(encode_utf8(base64_encoding(b)))
        == Some(b)
}

/// The length digits of a part of a text payload are read back, and end
/// at the colon.
proof fn lemma_text_length_field(s: Seq<char>, i: int, big_l: nat)
    requires
        0 <= i,
        i + decimal_chars(big_l).len() < s.len(),
        s.subrange(i, i + decimal_chars(big_l).len()) == decimal_chars(big_l),
        s[i + decimal_chars(big_l).len()] == ':',
    ensures
        digits_end(s, i) == i + decimal_chars(big_l).len(),
        decimal_value(s.subrange(i, digits_end(s, i))) == big_l,
{
    let d = decimal_chars(big_l);
    lemma_decimal_chars_digits(big_l);
    let j = i + d.len();
    assert forall|k: int| i <= k < j implies is_digit_char(#[trigger] s[k]) by {
        assert(s[k] == s.subrange(i, j)[k - i]);
    }
    lemma_digits_end_exact(s, i, j);
}

/// Reading a text packet's part of a text payload gives the packet back.
proof fn lemma_text_payload_item_text(x: Seq<char>, p: PacketView, t: Seq<char>, rest: Seq<char>)
    requires
        text_payload_roundtrip_ok(p),
        p.data == PacketDataView::Plaintext(t),
    ensures
        text_payload_item(x + text_payload_part(p) + rest, x.len() as int) == PayloadStep::Item(
            p,
            (x.len() + text_payload_part(p).len()) as int,
        ),
{
    let s = x + text_payload_part(p) + rest;
    let enc = text_packet_encoding(p);
    let code = p.packet_type.code() as nat;
    let dc = digit_char(code);
    let i = x.len() as int;
    lemma_code_from_code(p.packet_type);
    lemma_digit_char(code);
    let big_l = enc.len() as nat;
    let d = decimal_chars(big_l);
    let j = i + d.len();
    assert(s =~= x + d + seq![':'] + seq![dc] + t + rest);
    assert(s.subrange(i, j) =~= d);
    assert(s[j] == ':');
    lemma_text_length_field(s, i, big_l);
    assert(s[j + 1] == dc);
    lemma_decimal_value_single(dc);
    assert(s.subrange(j + 2, j + 2 + t.len()) =~= t);
}

/// Reading a binary packet's part of a text payload gives the packet back.
proof fn lemma_text_payload_item_binary(x: Seq<char>, p: PacketView, b: Seq<u8>, rest: Seq<char>)
    requires
        text_payload_roundtrip_ok(p),
        base64_inverts(p),
        p.data == PacketDataView::Binary(b),
    ensures
        text_payload_item(x + text_payload_part(p) + rest, x.len() as int) == PayloadStep::Item(
            p,
            (x.len() + text_payload_part(p).len()) as int,
        ),
{
    let s = x + text_payload_part(p) + rest;
    let enc = text_packet_encoding(p);
    let code = p.packet_type.code() as nat;
    let dc = digit_char(code);
    let i = x.len() as int;
    lemma_code_from_code(p.packet_type);
    lemma_digit_char(code);
    let b64 = base64_encoding(b);
    let big_l = (enc.len() + 1) as nat;
    let d = decimal_chars(big_l);
    let j = i + d.len();
    assert(s =~= x + d + seq![':', 'b'] + seq![dc] + b64 + rest);
    assert(s.subrange(i, j) =~= d);
    assert(s[j] == ':');
    lemma_text_length_field(s, i, big_l);
    assert(s[j + 1] == 'b');
    assert(!is_digit_char('b'));
    assert(s[j + 2] == dc);
    lemma_decimal_value_single(dc);
    assert(s.subrange(j + 3, j + 3 + b64.len()) =~= b64);
}

/// Reading a packet's part of a text payload gives the packet back, whatever
/// comes before and after it.
pub proof fn lemma_text_payload_item(x: Seq<char>, p: PacketView, rest: Seq<char>)
    requires
        text_payload_roundtrip_ok(p),
        base64_inverts(p),
    ensures
        text_payload_item(x + text_payload_part(p) + rest, x.len() as int) == PayloadStep::Item(
            p,
            (x.len() + text_payload_part(p).len()) as int,
        ),
{
    match p.data {
        PacketDataView::Plaintext(t) => lemma_text_payload_item_text(x, p, t, rest),
        PacketDataView::Binary(b) => lemma_text_payload_item_binary(x, p, b, rest),
        PacketDataView::Empty => {},
    }
}

/// Decoding the text encoding of packets that survive the trip gives them
/// back, whatever text comes before.
pub proof fn lemma_text_payload_roundtrip(x: Seq<char>, ps: Seq<PacketView>)
    requires
        forall|k: int| 0 <= k < ps.len() ==> text_payload_roundtrip_ok(#[trigger] ps[k]),
        forall|k: int| 0 <= k < ps.len() ==> base64_inverts(#[trigger] ps[k]),
    ensures
        text_payload_from(x + text_payload_encoding(ps), x.len() as int) == PayloadOutcome::Done(ps),
    decreases ps.len(),
{
    let s = x + text_payload_encoding(ps);
    if ps.len() == 0 {
        assert(s =~= x);
        lemma_digits_end_exact(s, x.len() as int, x.len() as int);
        assert(ps =~= Seq::<PacketView>::empty());
    } else {
        let part = text_payload_part(ps[0]);
        let x2 = x + part;
        let tail = ps.drop_first();
        assert(s =~= x2 + text_payload_encoding(tail));
        assert(s =~= x + part + text_payload_encoding(tail));
        assert(text_payload_roundtrip_ok(ps[0]));
        assert(base64_inverts(ps[0]));
        lemma_text_payload_item(x, ps[0], text_payload_encoding(tail));
        assert forall|k: int| 0 <= k < tail.len() implies text_payload_roundtrip_ok(#[trigger] tail[k])
            && base64_inverts(tail[k]) by {
            assert(tail[k] == ps[k + 1]);
        }
        lemma_text_payload_roundtrip(x2, tail);
        assert(seq![ps[0]] + tail =~= ps);
    }
}

/// Why a number could not be read: `Error` when there are no digits (a
/// caller may try something else), `Failure` when they do not fit.
#[derive(Debug, Clone, Copy, PartialEq, Eq)]
pub enum TakeError {
    Error,
    Failure,
}

/// Reads the digits that start `input` as a `u8`: returns the rest of the
/// input and the number; `Error` without digits, `Failure` above 255.
pub fn take_u8(input: &str) -> (r: Result<(&str, u8), TakeError>)
    ensures
        digits_end(input@, 0) == 0 ==> r == Err::<(&str, u8), TakeError>(TakeError::Error),
        digits_end(input@, 0) > 0 && decimal_value(input@.subrange(0, digits_end(input@, 0))) > 255
            ==> r == Err::<(&str, u8), TakeError>(TakeError::Failure),
        digits_end(input@, 0) > 0 && decimal_value(input@.subrange(0, digits_end(input@, 0))) <= 255
            ==> (r matches Ok((rest, v)) && v == decimal_value(input@.subrange(0, digits_end(input@, 0)))
            && rest@ == input@.subrange(digits_end(input@, 0), input@.len() as int)),
{
    let s = crate::strings::str_chars(input);
    let e = scan_digits(s.as_slice(), 0);
    if e == 0 {
        return Err(TakeError::Error);
    }
    proof {
        lemma_digits_end(s@, 0);
    }
    match parse_decimal_bounded(s.as_slice(), 0, e, 255) {
        Some(v) => Ok((input.substring_char(e, s.len()), v as u8)),
        None => Err(TakeError::Failure),
    }
}

/// Reads the digits that start `input` as a `usize`: returns the rest of the
/// input and the number; `Error` without digits, `Failure` above `usize::MAX`.
pub fn take_usize(input: &str) -> (r: Result<(&str, usize), TakeError>)
    ensures
        digits_end(input@, 0) == 0 ==> r == Err::<(&str, usize), TakeError>(TakeError::Error),
        digits_end(input@, 0) > 0 && decimal_value(input@.subrange(0, digits_end(input@, 0)))
            > usize::MAX ==> r == Err::<(&str, usize), TakeError>(TakeError::Failure),
        digits_end(input@, 0) > 0 && decimal_value(input@.subrange(0, digits_end(input@, 0)))
            <= usize::MAX ==> (r matches Ok((rest, v)) && v == decimal_value(
            input@.subrange(0, digits_end(input@, 0)),
        ) && rest@ == input@.subrange(digits_end(input@, 0), input@.len() as int)),
{
    let s = crate::strings::str_chars(input);
    let e = scan_digits(s.as_slice(), 0);
    if e == 0 {
        return Err(TakeError::Error);
    }
    proof {
        lemma_digits_end(s@, 0);
    }
    match parse_decimal_bounded(s.as_slice(), 0, e, usize::MAX as u64) {
        Some(v) => Ok((input.substring_char(e, s.len()), v as usize)),
        None => Err(TakeError::Failure),
    }
}

/// The result of one step of the text payload reader.
pub enum ParsedItem {
    Stop,
    Fail,
    Item(Packet, usize),
}

/// `r` is what the spec step `t` describes.
pub open spec fn item_matches(r: ParsedItem, t: PayloadStep) -> bool {
    match r {
        ParsedItem::Stop => t is Stop,
        ParsedItem::Fail => t is Fail,
        ParsedItem::Item(p, j) => t == PayloadStep::Item(p@, j as int),
    }
}

/// The packet type with number `v` (at most 6).
pub fn packet_type_of(v: u8) -> (t: PacketType)
    requires
        v <= 6,
    ensures
        t == PacketType::from_code(v as nat),
{
    if v == 0 {
        PacketType::Open
    } else if v == 1 {
        PacketType::Close
    } else if v == 2 {
        PacketType::Ping
    } else if v == 3 {
        PacketType::Pong
    } else if v == 4 {
        PacketType::Message
    } else if v == 5 {
        PacketType::Upgrade
    } else {
        PacketType::Noop
    }
}

/// Reads a plain text packet of `dl` data characters at `i`.
fn parse_plain_packet_at(s: &[char], i: usize, dl: usize) -> (r: ParsedItem)
    requires
        i <= s@.len(),
    ensures
        item_matches(r, text_plain_packet_at(s@, i as int, dl as int)),
        r matches ParsedItem::Item(_, j) ==> i < j <= s@.len(),
{
    if i >= s.len() || !(48 <= s[i] as u32 && s[i] as u32 <= 57) {
        return ParsedItem::Stop;
    }
    if dl > s.len() - (i + 1) {
        return ParsedItem::Stop;
    }
    let v = (s[i] as u32 - 48) as u8;
    if v > 6 {
        return ParsedItem::Fail;
    }
    let data = chars_to_string(s, i + 1, i + 1 + dl);
    let p = Packet { packet_type: packet_type_of(v), data: PacketData::Plaintext(data) };
    ParsedItem::Item(p, i + 1 + dl)
}

/// Reads a base64 packet at `i` whose length field gave `dl`.
fn parse_base64_packet_at(s: &[char], i: usize, dl: usize) -> (r: ParsedItem)
    requires
        i <= s@.len(),
        !(text_base64_packet_at(s@, i as int, dl as int) is Panic),
    ensures
        item_matches(r, text_base64_packet_at(s@, i as int, dl as int)),
        r matches ParsedItem::Item(_, j) ==> i < j <= s@.len(),
{
    if i >= s.len() || s[i] != 'b' {
        return ParsedItem::Stop;
    }
    let q = i + 1;
    if q >= s.len() || !(48 <= s[q] as u32 && s[q] as u32 <= 57) {
        return ParsedItem::Stop;
    }
    if dl > s.len() - q {
        return ParsedItem::Stop;
    }
    let v = (s[q] as u32 - 48) as u8;
    if v > 6 {
        return ParsedItem::Fail;
    }
    let text = chars_to_string(s, q + 1, q + dl);
    match base64_decode(text.as_str()) {
        Some(b) => {
            let p = Packet { packet_type: packet_type_of(v), data: PacketData::Binary(b) };
            ParsedItem::Item(p, q + dl)
        },
        None => ParsedItem::Fail,
    }
}

/// Reads the packet of a text payload that starts at `i`.
pub fn parse_payload_item(s: &[char], i: usize) -> (r: ParsedItem)
    requires
        i <= s@.len(),
        !(text_payload_item(s@, i as int) is Panic),
    ensures
        item_matches(r, text_payload_item(s@, i as int)),
        r matches ParsedItem::Item(_, j) ==> i < j <= s@.len(),
{
    proof {
        lemma_digits_end(s@, i as int);
    }
    let e = scan_digits(s, i);
    if e == i {
        return ParsedItem::Stop;
    }
    let n = match parse_decimal_bounded(s, i, e, usize::MAX as u64) {
        Some(n) => n,
        None => return ParsedItem::Fail,
    };
    if e >= s.len() || s[e] != ':' {
        return ParsedItem::Stop;
    }
    let dl = (n - 1) as usize;
    let r = parse_plain_packet_at(s, e + 1, dl);
    match r {
        ParsedItem::Stop => parse_base64_packet_at(s, e + 1, dl),
        other => other,
    }
}

/// Whether reading the packet of a text payload at `i` is undefined (see
/// [`text_payload_item`]): a length of 0, or a length of 1 before `b`.
pub fn payload_item_undefined(s: &[char], i: usize) -> (r: bool)
    requires
        i <= s@.len(),
    ensures
        r == (text_payload_item(s@, i as int) is Panic),
{
    proof {
        lemma_digits_end(s@, i as int);
    }
    let e = scan_digits(s, i);
    if e == i {
        return false;
    }
    let n = match parse_decimal_bounded(s, i, e, usize::MAX as u64) {
        Some(n) => n,
        None => return false,
    };
    if e >= s.len() || s[e] != ':' {
        return false;
    }
    if n == 0 {
        return true;
    }
    let dl = (n - 1) as usize;
    match parse_plain_packet_at(s, e + 1, dl) {
        ParsedItem::Stop => e + 1 < s.len() && s[e + 1] == 'b' && dl == 0,
        _ => false,
    }
}

} // verus!
