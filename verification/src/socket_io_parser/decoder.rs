//! Decoding socket.io packet texts, and collecting the binary attachments
//! that follow a multipart packet's header.
//!
//! A packet text is its type's digit; for binary types the number of
//! attachments and `-`; a namespace starting with `/` and ending with `,`
//! (else the namespace is `/`); the digits of an ack id, if any; and the
//! JSON data, which the caller parses (see [`finish_proto_packet`]).
use vstd::prelude::*;
use crate::digits::{
    decimal_value, digit_value, digits_end, is_digit_char, lemma_digits_end, parse_decimal_bounded,
    scan_digits,
};
use crate::socket_io_parser::packet::{
    binary_to_packet_type, data_view, json_to_data, json_view, placeholder_index, BinaryPacketType,
    DataView, JsonValue, JsonView, MultipartPacketHeader, Packet, PacketDataValue, PacketType,
    ProtoPacket, get_attachment_index_if_placeholder, packet_to_binary_type,
};
use crate::strings::{chars_to_string, str_chars};
use crate::string_map::{copy_string, owned};
pub use crate::engine_io_parser::string::take_u8;

verus! {

/// The error of a failed JSON parse, from `serde_json`.
#[verifier::external_type_specification]
#[verifier::external_body]
pub struct ExJsonError(serde_json::Error);

/// Why handling a message from the engine.io layer failed.
#[derive(Debug)]
pub enum HandleEngineMessageError {
    InvalidPacketType,
    PacketParseError,
    InvalidPayload,
    JsonParseError(serde_json::Error),
    TooManyAttachments,
}

/// The outcome of reading a run of digits with [`digits_to_u32`].
pub enum DigitsOutcome {
    Value(u32),
    NotDigit,
    TooLarge,
}

/// What [`digits_to_u32`] gives for `ds`: a character that is not a digit
/// is an error; else the decimal value of the digits, when it fits in a
/// `u32`.
pub open spec fn digits_to_u32_spec(ds: Seq<char>) -> DigitsOutcome {
    if digits_end(ds, 0) < ds.len() {
        DigitsOutcome::NotDigit
    } else if decimal_value(ds) > u32::MAX {
        DigitsOutcome::TooLarge
    } else {
        DigitsOutcome::Value(decimal_value(ds) as u32)
    }
}

/// What [`digits_to_u32`] makes of `digits`, telling a value too large for
/// a `u32` apart from a character that is not a digit.
pub fn digits_outcome(digits: &str) -> (r: DigitsOutcome)
    ensures
        r == digits_to_u32_spec(digits@),
{
    let ds = str_chars(digits);
    let e = scan_digits(ds.as_slice(), 0);
    if e < ds.len() {
        return DigitsOutcome::NotDigit;
    }
    proof {
        lemma_digits_end(ds@, 0);
        assert(ds@.subrange(0, ds@.len() as int) =~= ds@);
    }
    match parse_decimal_bounded(ds.as_slice(), 0, ds.len(), 0xffff_ffffu64) {
        Some(v) => DigitsOutcome::Value(v as u32),
        None => DigitsOutcome::TooLarge,
    }
}

/// Reads a run of decimal digits as a number: "7" is 7, "12" is 12, and no
/// digits at all is 0. A character that is not a digit, or a value above
/// `u32::MAX`, is an error.
pub fn digits_to_u32(digits: &str) -> (r: Result<u32, ()>)
    ensures
        match digits_to_u32_spec(digits@) {
            DigitsOutcome::Value(v) => r == Ok::<u32, ()>(v),
            _ => r == Err::<u32, ()>(()),
        },
{
    match digits_outcome(digits) {
        DigitsOutcome::Value(v) => Ok(v),
        _ => Err(()),
    }
}

/// [`digits_to_u32`], widened.
pub fn digits_to_u64(digits: &str) -> (r: Result<u64, ()>)
    ensures
        match digits_to_u32_spec(digits@) {
            DigitsOutcome::Value(v) => r == Ok::<u64, ()>(v as u64),
            _ => r == Err::<u64, ()>(()),
        },
{
    match digits_to_u32(digits) {
        Ok(v) => Ok(v as u64),
        Err(e) => Err(e),
    }
}

/// The head of a packet text: everything before its JSON data.
pub struct ProtoPrefixView {
    pub packet_type: PacketType,
    pub attachments_count: u32,
    pub nsp: Seq<char>,
    pub id: Option<u64>,
    pub rest: Seq<char>,
}

/// The outcome of reading the head of a packet text.
pub enum PrefixOutcome {
    Fail,
    Read(ProtoPrefixView),
}

/// The index of the first `,` at or after `i` (or `s.len()`).
pub open spec fn first_comma(s: Seq<char>, i: int) -> int
    decreases s.len() - i,
{
    if i < 0 || i >= s.len() || s[i] == ',' {
        i
    } else {
        first_comma(s, i + 1)
    }
}

/// Reads the namespace and the id at `pos1`, after the type and the
/// attachment count: a namespace starts with `/` and runs to a `,` (which
/// must be there), else it is `/`; the id is the digits that follow, when
/// there are any and their value fits in a `u32`.
pub open spec fn proto_prefix_tail(s: Seq<char>, t: PacketType, count: u32, pos1: int) -> PrefixOutcome {
    let has_nsp = pos1 < s.len() && s[pos1] == '/';
    let k = first_comma(s, pos1);
    if has_nsp && k >= s.len() {
        PrefixOutcome::Fail
    } else {
        let nsp = if has_nsp {
            s.subrange(pos1, k)
        } else {
            "/"@
        };
        let pos2 = if has_nsp {
            k + 1
        } else {
            pos1
        };
        let e3 = digits_end(s, pos2);
        if e3 == pos2 {
            PrefixOutcome::Read(
                ProtoPrefixView {
                    packet_type: t,
                    attachments_count: count,
                    nsp,
                    id: None,
                    rest: s.subrange(pos2, s.len() as int),
                },
            )
        } else if decimal_value(s.subrange(pos2, e3)) > u32::MAX {
            PrefixOutcome::Fail
        } else {
            PrefixOutcome::Read(
                ProtoPrefixView {
                    packet_type: t,
                    attachments_count: count,
                    nsp,
                    id: Some(decimal_value(s.subrange(pos2, e3)) as u64),
                    rest: s.subrange(e3, s.len() as int),
                },
            )
        }
    }
}

/// Reading the head of a packet text: the type is its first character, a
/// digit up to 6; a binary type is followed by the number of attachments
/// and `-`; then come the namespace and the id (see [`proto_prefix_tail`]).
pub open spec fn proto_prefix(s: Seq<char>) -> PrefixOutcome {
    if s.len() == 0 || !is_digit_char(s[0]) || digit_value(s[0]) > 6 {
        PrefixOutcome::Fail
    } else {
        let t = PacketType::from_code(digit_value(s[0]));
        if t.is_binary() {
            let e2 = digits_end(s, 1);
            if e2 == 1 || e2 >= s.len() || s[e2] != '-' || decimal_value(s.subrange(1, e2)) > u32::MAX {
                PrefixOutcome::Fail
            } else {
                proto_prefix_tail(s, t, decimal_value(s.subrange(1, e2)) as u32, e2 + 1)
            }
        } else {
            proto_prefix_tail(s, t, 0, 1)
        }
    }
}

/// The head of a packet text, and the text of its JSON data.
#[derive(Debug)]
pub struct ProtoPacketPrefix {
    pub packet_type: PacketType,
    pub attachments_count: u32,
    pub nsp: String,
    pub id: Option<u64>,
    pub rest: String,
}

impl ProtoPacketPrefix {
    /// The view of the head.
    pub open spec fn view_prefix(&self) -> ProtoPrefixView {
        ProtoPrefixView {
            packet_type: self.packet_type,
            attachments_count: self.attachments_count,
            nsp: self.nsp@,
            id: self.id,
            rest: self.rest@,
        }
    }
}

/// The index of the first `,` at or after `i`.
fn scan_comma(s: &[char], i: usize) -> (k: usize)
    requires
        i <= s@.len(),
    ensures
        k as int == first_comma(s@, i as int),
        i <= k <= s@.len(),
        k < s@.len() ==> s@[k as int] == ',',
{
    let mut k = i;
    while k < s.len() && s[k] != ','
        invariant
            i <= k <= s@.len(),
            first_comma(s@, k as int) == first_comma(s@, i as int),
        decreases s@.len() - k,
    {
        k = k + 1;
    }
    k
}

/// Reads the namespace and the id (see [`proto_prefix_tail`]).
fn parse_prefix_tail(s: &[char], t: PacketType, count: u32, pos1: usize) -> (r: Result<
    ProtoPacketPrefix,
    HandleEngineMessageError,
>)
    requires
        pos1 <= s@.len(),
    ensures
        match proto_prefix_tail(s@, t, count, pos1 as int) {
            PrefixOutcome::Read(v) => r matches Ok(p) && p.view_prefix() == v,
            PrefixOutcome::Fail => r matches Err(HandleEngineMessageError::PacketParseError),
        },
{
    let has_nsp = pos1 < s.len() && s[pos1] == '/';
    let k = scan_comma(s, pos1);
    if has_nsp && k >= s.len() {
        return Err(HandleEngineMessageError::PacketParseError);
    }
    let nsp = if has_nsp {
        chars_to_string(s, pos1, k)
    } else {
        owned("/")
    };
    let pos2 = if has_nsp {
        k + 1
    } else {
        pos1
    };
    proof {
        lemma_digits_end(s@, pos2 as int);
    }
    let e3 = scan_digits(s, pos2);
    if e3 == pos2 {
        return Ok(
            ProtoPacketPrefix {
                packet_type: t,
                attachments_count: count,
                nsp,
                id: None,
                rest: chars_to_string(s, pos2, s.len()),
            },
        );
    }
    match parse_decimal_bounded(s, pos2, e3, 0xffff_ffffu64) {
        Some(id) => Ok(
            ProtoPacketPrefix {
                packet_type: t,
                attachments_count: count,
                nsp,
                id: Some(id),
                rest: chars_to_string(s, e3, s.len()),
            },
        ),
        None => Err(HandleEngineMessageError::PacketParseError),
    }
}

/// Reads the head of a packet text (see [`proto_prefix`]), as socket.io's
/// own parser does; any failure is a `PacketParseError`. The JSON data is
/// left as text in `rest`.
pub fn parse_proto_packet_prefix(text: &str) -> (r: Result<ProtoPacketPrefix, HandleEngineMessageError>)
    ensures
        match proto_prefix(text@) {
            PrefixOutcome::Read(v) => r matches Ok(p) && p.view_prefix() == v,
            PrefixOutcome::Fail => r matches Err(HandleEngineMessageError::PacketParseError),
        },
{
    let s = str_chars(text);
    if s.len() == 0 {
        return Err(HandleEngineMessageError::PacketParseError);
    }
    let c = s[0];
    if !(48 <= c as u32 && c as u32 <= 54) {
        return Err(HandleEngineMessageError::PacketParseError);
    }
    let t = match PacketType::parse_from_u8((c as u32 - 48) as u8) {
        Ok(t) => t,
        Err(_) => return Err(HandleEngineMessageError::PacketParseError),
    };
    if t == PacketType::BinaryEvent || t == PacketType::BinaryAck {
        proof {
            lemma_digits_end(s@, 1);
        }
        let e2 = scan_digits(s.as_slice(), 1);
        if e2 == 1 || e2 >= s.len() || s[e2] != '-' {
            return Err(HandleEngineMessageError::PacketParseError);
        }
        match parse_decimal_bounded(s.as_slice(), 1, e2, 0xffff_ffffu64) {
            Some(count) => parse_prefix_tail(s.as_slice(), t, count as u32, e2 + 1),
            None => Err(HandleEngineMessageError::PacketParseError),
        }
    } else {
        parse_prefix_tail(s.as_slice(), t, 0, 1)
    }
}

/// Whether the JSON data suits the packet type: an object to connect,
/// nothing to disconnect, a string or an object for a connection error, an
/// array starting with the event's name for events, an array for acks.
pub open spec fn payload_valid(packet_type: PacketType, payload: JsonView) -> bool {
    match packet_type {
        PacketType::Connect => payload is Object,
        PacketType::Disconnect => payload is Null,
        PacketType::ConnectError => payload is String || payload is Object,
        PacketType::Event | PacketType::BinaryEvent => match payload {
            JsonView::Array(items) => items.len() > 0 && items[0] is String,
            _ => false,
        },
        PacketType::Ack | PacketType::BinaryAck => payload is Array,
    }
}

/// Whether the JSON data suits the packet type (see [`payload_valid`]).
pub fn is_payload_valid(packet_type: PacketType, payload: &JsonValue) -> (r: bool)
    ensures
        r == payload_valid(packet_type, payload@),
{
    match packet_type {
        PacketType::Connect => match payload {
            JsonValue::Object(_) => true,
            _ => false,
        },
        PacketType::Disconnect => match payload {
            JsonValue::Null => true,
            _ => false,
        },
        PacketType::ConnectError => match payload {
            JsonValue::String(_) | JsonValue::Object(_) => true,
            _ => false,
        },
        PacketType::Event | PacketType::BinaryEvent => match payload {
            JsonValue::Array(items) => {
                proof {
                    if items@.len() > 0 {
                        assert(payload@->Array_0[0] == json_view(items@[0]));
                    }
                }
                if items.len() > 0 {
                    match &items[0] {
                        JsonValue::String(_) => true,
                        _ => false,
                    }
                } else {
                    false
                }
            },
            _ => false,
        },
        PacketType::Ack | PacketType::BinaryAck => match payload {
            JsonValue::Array(_) => true,
            _ => false,
        },
    }
}

/// The proto packet that a head and its JSON data make: when the data does
/// not suit the type, a `PacketParseError`; with attachments to come, a
/// multipart header; else the whole packet.
pub fn finish_proto_packet(prefix: ProtoPacketPrefix, payload: JsonValue) -> (r: Result<
    ProtoPacket,
    HandleEngineMessageError,
>)
    requires
        prefix.attachments_count > 0 ==> prefix.packet_type.is_binary(),
    ensures
        !payload_valid(prefix.packet_type, payload@) ==> r matches Err(
            HandleEngineMessageError::PacketParseError,
        ),
        payload_valid(prefix.packet_type, payload@) && prefix.attachments_count > 0 ==> (r matches Ok(
            ProtoPacket::Multipart(h),
        ) && binary_to_packet_type(h.packet_type) == prefix.packet_type && h.id == prefix.id && h.nsp
            == Some(prefix.nsp) && h.data == payload && h.attachments_count
            == prefix.attachments_count),
        payload_valid(prefix.packet_type, payload@) && prefix.attachments_count == 0 ==> (r matches Ok(
            ProtoPacket::Plain(p),
        ) && p.packet_type == prefix.packet_type && p.id == prefix.id && p.nsp == prefix.nsp
            && p.data@ == json_to_data(payload@)),
{
    if !is_payload_valid(prefix.packet_type, &payload) {
        return Err(HandleEngineMessageError::PacketParseError);
    }
    if prefix.attachments_count > 0 {
        let binary_type = if prefix.packet_type == PacketType::BinaryEvent {
            BinaryPacketType::BinaryEvent
        } else {
            BinaryPacketType::BinaryAck
        };
        Ok(
            ProtoPacket::Multipart(
                MultipartPacketHeader {
                    packet_type: binary_type,
                    id: prefix.id,
                    nsp: Some(prefix.nsp),
                    data: payload,
                    attachments_count: prefix.attachments_count,
                },
            ),
        )
    } else {
        let data = PacketDataValue::from_json(&payload);
        Ok(
            ProtoPacket::Plain(
                Packet { packet_type: prefix.packet_type, id: prefix.id, nsp: prefix.nsp, data },
            ),
        )
    }
}

/// The attachments that are still to be placed, by index.
pub open spec fn att_view(a: Seq<Option<Vec<u8>>>) -> Seq<Option<Seq<u8>>> {
    Seq::new(
        a.len(),
        |i: int|
            match a[i] {
                Some(v) => Some(v@),
                None => None,
            },
    )
}

/// Rebuilding packet data from JSON and attachments: each placeholder takes
/// its attachment out of `att` (a placeholder whose attachment is missing or
/// was taken already gives `null`); everything else is kept, in order.
pub open spec fn reconstruct(v: JsonView, att: Seq<Option<Seq<u8>>>) -> (DataView, Seq<
    Option<Seq<u8>>,
>)
    decreases v, 0int,
{
    match v {
        JsonView::Null => (DataView::Null, att),
        JsonView::Bool(b) => (DataView::Bool(b), att),
        JsonView::Number(n) => (DataView::Number(n), att),
        JsonView::String(s) => (DataView::String(s), att),
        JsonView::Array(items) => {
            let r = reconstruct_items(items, 0, att);
            (DataView::Array(r.0), r.1)
        },
        JsonView::Object(entries) => match placeholder_index(entries) {
            Some(index) => if index < att.len() && att[index as int] is Some {
                (DataView::Binary(att[index as int]->Some_0), att.update(index as int, None))
            } else {
                (DataView::Null, att)
            },
            None => {
                let r = reconstruct_entries(entries, 0, att);
                (DataView::Object(r.0), r.1)
            },
        },
    }
}

/// [`reconstruct`] over the items `items[i..]`, in order.
pub open spec fn reconstruct_items(items: Seq<JsonView>, i: int, att: Seq<Option<Seq<u8>>>) -> (Seq<
    DataView,
>, Seq<Option<Seq<u8>>>)
    decreases items, items.len() - i,
{
    if i < 0 || i >= items.len() {
        (seq![], att)
    } else {
        let r = reconstruct(items[i], att);
        let rest = reconstruct_items(items, i + 1, r.1);
        (seq![r.0] + rest.0, rest.1)
    }
}

/// [`reconstruct`] over the values of the entries `entries[i..]`, in order.
pub open spec fn reconstruct_entries(
    entries: Seq<(Seq<char>, JsonView)>,
    i: int,
    att: Seq<Option<Seq<u8>>>,
) -> (Seq<(Seq<char>, DataView)>, Seq<Option<Seq<u8>>>)
    decreases entries, entries.len() - i,
{
    if i < 0 || i >= entries.len() {
        (seq![], att)
    } else {
        let r = reconstruct(entries[i].1, att);
        let rest = reconstruct_entries(entries, i + 1, r.1);
        (seq![(entries[i].0, r.0)] + rest.0, rest.1)
    }
}

/// Rebuilds packet data from its JSON and its attachments (see
/// [`reconstruct`]); the attachments placed are taken out.
pub fn reconstruct_packet_data(proto_data: &JsonValue, attachments: &mut Vec<Option<Vec<u8>>>) -> (r:
    PacketDataValue)
    ensures
        (r@, att_view(final(attachments)@)) == reconstruct(proto_data@, att_view(old(attachments)@)),
    decreases proto_data,
{
    match proto_data {
        JsonValue::Null => PacketDataValue::Null,
        JsonValue::Bool(b) => PacketDataValue::Bool(*b),
        JsonValue::Number(n) => PacketDataValue::Number(*n),
        JsonValue::String(s) => PacketDataValue::String(copy_string(s)),
        JsonValue::Array(array) => {
            let ghost items = proto_data@->Array_0;
            let ghost att0 = att_view(attachments@);
            let mut out: Vec<PacketDataValue> = Vec::new();
            let mut i: usize = 0;
            assert(items.len() == array@.len());
            while i < array.len()
                invariant
                    *proto_data == JsonValue::Array(*array),
                    items == proto_data@->Array_0,
                    items.len() == array@.len(),
                    forall|j: int| 0 <= j < items.len() ==> items[j] == #[trigger] array@[j]@,
                    i <= array@.len(),
                    out@.len() == i,
                    reconstruct_items(items, 0, att0) == ({
                        let rest = reconstruct_items(items, i as int, att_view(attachments@));
                        (Seq::new(out@.len(), |j: int| out@[j]@) + rest.0, rest.1)
                    }),
                decreases array@.len() - i,
            {
                assert(decreases_to!(*proto_data => proto_data->Array_0));
                assert(decreases_to!(*array => array@));
                assert(decreases_to!(array@ => array@[i as int]));
                assert(items[i as int] == array@[i as int]@);
                let ghost before_out = Seq::new(out@.len(), |j: int| out@[j]@);
                let ghost cur = att_view(attachments@);
                let d = reconstruct_packet_data(&array[i], attachments);
                out.push(d);
                proof {
                    let r = reconstruct(items[i as int], cur);
                    assert(r == (d@, att_view(attachments@)));
                    let rest = reconstruct_items(items, i + 1, r.1);
                    assert(reconstruct_items(items, i as int, cur) == (seq![r.0] + rest.0, rest.1));
                    assert(Seq::new(out@.len(), |j: int| out@[j]@) =~= before_out.push(d@));
                    assert(before_out + (seq![r.0] + rest.0) =~= before_out.push(d@) + rest.0);
                }
                i = i + 1;
            }
            let r = PacketDataValue::Array(out);
            proof {
                let rest = reconstruct_items(items, i as int, att_view(attachments@));
                assert(rest.0 =~= Seq::<DataView>::empty());
                let rv = data_view(r);
                assert(rv is Array);
                assert(rv->Array_0 =~= Seq::new(out@.len(), |j: int| out@[j]@) + rest.0);
            }
            r
        },
        JsonValue::Object(obj) => {
            let ghost entries = proto_data@->Object_0;
            assert(entries =~= Seq::new(obj@.len(), |i: int| (obj@[i].0@, obj@[i].1@)));
            match get_attachment_index_if_placeholder(obj) {
                Some(index) => {
                    if index < attachments.len() {
                        match &attachments[index] {
                            Some(data) => {
                                let copy = vstd::slice::slice_to_vec(data.as_slice());
                                attachments.set(index, None);
                                proof {
                                    assert(att_view(attachments@) =~= att_view(old(attachments)@).update(
                                        index as int,
                                        None,
                                    ));
                                }
                                PacketDataValue::Binary(copy)
                            },
                            None => PacketDataValue::Null,
                        }
                    } else {
                        PacketDataValue::Null
                    }
                },
                None => {
                    let ghost att0 = att_view(attachments@);
                    let mut out: Vec<(String, PacketDataValue)> = Vec::new();
                    let mut i: usize = 0;
                    while i < obj.len()
                        invariant
                            *proto_data == JsonValue::Object(*obj),
                            entries == proto_data@->Object_0,
                            entries.len() == obj@.len(),
                            forall|j: int| 0 <= j < entries.len() ==> entries[j] == (
                                #[trigger] obj@[j].0@,
                                obj@[j].1@,
                            ),
                            i <= obj@.len(),
                            out@.len() == i,
                            reconstruct_entries(entries, 0, att0) == ({
                                let rest = reconstruct_entries(entries, i as int, att_view(attachments@));
                                (Seq::new(out@.len(), |j: int| (out@[j].0@, out@[j].1@)) + rest.0, rest.1)
                            }),
                        decreases obj@.len() - i,
                    {
                        assert(decreases_to!(*proto_data => proto_data->Object_0));
                        assert(decreases_to!(*obj => obj@));
                        assert(decreases_to!(obj@ => obj@[i as int]));
                        assert(decreases_to!(obj@[i as int] => obj@[i as int].1));
                        assert(entries[i as int] == (obj@[i as int].0@, obj@[i as int].1@));
                        let ghost before_out = Seq::new(out@.len(), |j: int| (out@[j].0@, out@[j].1@));
                        let ghost cur = att_view(attachments@);
                        let entry = &obj[i];
                        let d = reconstruct_packet_data(&entry.1, attachments);
                        let key = copy_string(&entry.0);
                        out.push((key, d));
                        proof {
                            let r = reconstruct(entries[i as int].1, cur);
                            assert(r == (d@, att_view(attachments@)));
                            let rest = reconstruct_entries(entries, i + 1, r.1);
                            assert(reconstruct_entries(entries, i as int, cur) == (
                                seq![(entries[i as int].0, r.0)] + rest.0,
                                rest.1,
                            ));
                            assert(Seq::new(out@.len(), |j: int| (out@[j].0@, out@[j].1@)) =~= before_out.push(
                                (key@, d@),
                            ));
                            assert(before_out + (seq![(entries[i as int].0, r.0)] + rest.0)
                                =~= before_out.push((key@, d@)) + rest.0);
                        }
                        i = i + 1;
                    }
                    let r = PacketDataValue::Object(out);
                    proof {
                        let rest = reconstruct_entries(entries, i as int, att_view(attachments@));
                        assert(rest.0 =~= Seq::<(Seq<char>, DataView)>::empty());
                        let rv = data_view(r);
                        assert(rv is Object);
                        assert(rv->Object_0 =~= Seq::new(out@.len(), |j: int| (out@[j].0@, out@[j].1@))
                            + rest.0);
                    }
                    r
                },
            }
        },
    }
}

/// Collects the binary attachments that follow a multipart packet's header.
#[derive(Debug)]
pub struct DefaultDecoder {
    header: MultipartPacketHeader,
    buffer: Vec<Vec<u8>>,
}

/// All the attachments, none placed yet.
pub open spec fn all_attachments(buffer: Seq<Seq<u8>>) -> Seq<Option<Seq<u8>>> {
    Seq::new(buffer.len(), |i: int| Some(buffer[i]))
}

impl DefaultDecoder {
    /// The header of the packet being collected.
    pub closed spec fn spec_header(&self) -> MultipartPacketHeader {
        self.header
    }

    /// The attachments received so far, in order.
    pub closed spec fn spec_buffer(&self) -> Seq<Seq<u8>> {
        Seq::new(self.buffer@.len(), |i: int| self.buffer@[i]@)
    }

    /// No more attachments were received than the header announced.
    pub open spec fn wf(&self) -> bool {
        self.spec_buffer().len() <= self.spec_header().attachments_count
    }

    /// A decoder for the attachments of the packet with this header.
    pub fn new(packet_header: MultipartPacketHeader) -> (d: DefaultDecoder)
        ensures
            d.wf(),
            d.spec_header() == packet_header,
            d.spec_buffer() == Seq::<Seq<u8>>::empty(),
    {
        let d = DefaultDecoder { header: packet_header, buffer: Vec::new() };
        assert(d.spec_buffer() =~= Seq::<Seq<u8>>::empty());
        d
    }

    /// Whether all the announced attachments were received.
    pub fn can_collect(&self) -> (r: bool)
        ensures
            r == (self.spec_buffer().len() == self.spec_header().attachments_count),
    {
        (self.header.attachments_count as usize) == self.buffer.len()
    }

    /// Receives the next attachment; returns whether it was the last one.
    /// Once all announced attachments were received, a further one is
    /// refused with `TooManyAttachments` and changes nothing.
    pub fn decode_binary_data(&mut self, data: Vec<u8>) -> (r: Result<bool, HandleEngineMessageError>)
        requires
            old(self).wf(),
        ensures
            final(self).wf(),
            final(self).spec_header() == old(self).spec_header(),
            old(self).spec_buffer().len() == old(self).spec_header().attachments_count ==> (r matches Err(
                HandleEngineMessageError::TooManyAttachments,
            ) && final(self).spec_buffer() == old(self).spec_buffer()),
            old(self).spec_buffer().len() < old(self).spec_header().attachments_count ==> (r matches Ok(
                done,
            ) && final(self).spec_buffer() == old(self).spec_buffer().push(data@) && done == (
            final(self).spec_buffer().len() == final(self).spec_header().attachments_count)),
    {
        if self.can_collect() {
            return Err(HandleEngineMessageError::TooManyAttachments);
        }
        let ghost data_view = data@;
        self.buffer.push(data);
        assert(self.spec_buffer() =~= old(self).spec_buffer().push(data_view));
        Ok(self.can_collect())
    }

    /// The packet, once all its attachments were received: its data is the
    /// header's JSON with each placeholder replaced by its attachment (see
    /// [`reconstruct`]), its namespace the header's or `/`.
    pub fn collect_packet(self) -> (r: Option<Packet>)
        requires
            self.wf(),
        ensures
            self.spec_buffer().len() != self.spec_header().attachments_count ==> r is None,
            self.spec_buffer().len() == self.spec_header().attachments_count ==> (r matches Some(p)
                && p.packet_type == binary_to_packet_type(self.spec_header().packet_type) && p.id
                == self.spec_header().id && p.nsp@ == match self.spec_header().nsp {
                Some(n) => n@,
                None => "/"@,
            } && p.data@ == reconstruct(
                self.spec_header().data@,
                all_attachments(self.spec_buffer()),
            ).0),
    {
        if self.can_collect() {
            let ghost buf = self.spec_buffer();
            let DefaultDecoder { header, buffer } = self;
            let mut attachments: Vec<Option<Vec<u8>>> = Vec::new();
            let mut buffer = buffer;
            let mut rev: Vec<Vec<u8>> = Vec::new();
            let n = buffer.len();
            while buffer.len() > 0
                invariant
                    buffer@.len() + rev@.len() == n,
                    n == buf.len(),
                    forall|j: int| 0 <= j < buffer@.len() ==> #[trigger] buffer@[j]@ == buf[j],
                    forall|j: int| 0 <= j < rev@.len() ==> #[trigger] rev@[j]@ == buf[n - 1 - j],
                decreases buffer@.len(),
            {
                let b = buffer.pop().unwrap();
                rev.push(b);
            }
            while rev.len() > 0
                invariant
                    attachments@.len() + rev@.len() == n,
                    n == buf.len(),
                    forall|j: int| 0 <= j < rev@.len() ==> #[trigger] rev@[j]@ == buf[n - 1 - j],
                    forall|j: int| 0 <= j < attachments@.len() ==> (#[trigger] attachments@[j] matches Some(v)
                        && v@ == buf[j]),
                decreases rev@.len(),
            {
                let b = rev.pop().unwrap();
                attachments.push(Some(b));
            }
            assert(att_view(attachments@) =~= all_attachments(buf));
            let data = reconstruct_packet_data(&header.data, &mut attachments);
            let packet_type = PacketType::from(header.packet_type);
            let nsp = match header.nsp {
                Some(n) => n,
                None => owned("/"),
            };
            Some(Packet { packet_type, id: header.id, nsp, data })
        } else {
            None
        }
    }

    /// The error of an invalid payload.
    pub fn make_err() -> (e: HandleEngineMessageError)
        ensures
            e matches HandleEngineMessageError::InvalidPayload,
    {
        HandleEngineMessageError::InvalidPayload
    }
}

} // verus!
