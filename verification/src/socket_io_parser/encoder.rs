//! Encoding socket.io packets: the packet text, with binary data moved out
//! into attachments.
use vstd::prelude::*;
use crate::digits::{decimal_chars, digit_char};
use crate::engine_io_parser::packet::{
    Packet as EnginePacket, PacketData as EnginePacketData, PacketDataView as EnginePacketDataView,
    PacketType as EnginePacketType,
};
use crate::socket_io_parser::packet::{
    data_view, json_view, DataView, JsonNumber, JsonValue, JsonView, Packet, PacketDataValue,
    PacketType,
};
use crate::strings::{push_char, push_decimal, push_str};
use crate::string_map::{copy_string, owned, str_eq};

verus! {

/// The placeholder of attachment `index`: `{"_placeholder": true, "num": index}`.
pub open spec fn placeholder_view(index: nat) -> JsonView {
    JsonView::Object(
        seq![
            ("_placeholder"@, JsonView::Bool(true)),
            ("num"@, JsonView::Number(JsonNumber::PosInt(index as u64))),
        ],
    )
}

/// Taking binary data out of packet data, given `n` attachments so far:
/// each binary value becomes the placeholder of the next attachment; arrays
/// and objects keep their order (objects their keys too); the rest stays.
/// Returns the JSON and the new attachments.
pub open spec fn deconstruct(v: DataView, n: nat) -> (JsonView, Seq<Seq<u8>>)
    decreases v, 0int,
{
    match v {
        DataView::Null => (JsonView::Null, seq![]),
        DataView::Bool(b) => (JsonView::Bool(b), seq![]),
        DataView::Number(x) => (JsonView::Number(x), seq![]),
        DataView::String(s) => (JsonView::String(s), seq![]),
        DataView::Array(items) => {
            let r = deconstruct_items(items, 0, n);
            (JsonView::Array(r.0), r.1)
        },
        DataView::Object(entries) => {
            let r = deconstruct_entries(entries, 0, n);
            (JsonView::Object(r.0), r.1)
        },
        DataView::Binary(b) => (placeholder_view(n), seq![b]),
    }
}

/// [`deconstruct`] over `items[i..]`, in order.
pub open spec fn deconstruct_items(items: Seq<DataView>, i: int, n: nat) -> (Seq<JsonView>, Seq<
    Seq<u8>,
>)
    decreases items, items.len() - i,
{
    if i < 0 || i >= items.len() {
        (seq![], seq![])
    } else {
        let r = deconstruct(items[i], n);
        let rest = deconstruct_items(items, i + 1, n + r.1.len());
        (seq![r.0] + rest.0, r.1 + rest.1)
    }
}

/// [`deconstruct`] over the values of `entries[i..]`, in order, each kept
/// under its key.
pub open spec fn deconstruct_entries(entries: Seq<(Seq<char>, DataView)>, i: int, n: nat) -> (Seq<
    (Seq<char>, JsonView),
>, Seq<Seq<u8>>)
    decreases entries, entries.len() - i,
{
    if i < 0 || i >= entries.len() {
        (seq![], seq![])
    } else {
        let r = deconstruct(entries[i].1, n);
        let rest = deconstruct_entries(entries, i + 1, n + r.1.len());
        (seq![(entries[i].0, r.0)] + rest.0, r.1 + rest.1)
    }
}

/// The views of some attachments.
pub open spec fn bytes_views(a: Seq<Vec<u8>>) -> Seq<Seq<u8>> {
    Seq::new(a.len(), |i: int| a[i]@)
}

/// The placeholder of attachment `index`.
pub fn make_placeholder(index: usize) -> (v: JsonValue)
    ensures
        v@ == placeholder_view(index as nat),
{
    let marker_key = owned("_placeholder");
    let index_key = owned("num");
    let mut entries: Vec<(String, JsonValue)> = Vec::new();
    entries.push((marker_key, JsonValue::Bool(true)));
    entries.push((index_key, JsonValue::Number(JsonNumber::PosInt(index as u64))));
    let ghost e = entries@;
    let v = JsonValue::Object(entries);
    proof {
        let vv = json_view(v);
        assert(e.len() == 2);
        assert(e[0].0@ == "_placeholder"@);
        assert(e[1].0@ == "num"@);
        assert(json_view(e[0].1) == JsonView::Bool(true));
        assert(json_view(e[1].1) == JsonView::Number(JsonNumber::PosInt(index as u64)));
        assert(vv is Object);
        assert(vv->Object_0.len() == 2);
        assert(vv->Object_0[0] == ("_placeholder"@, JsonView::Bool(true)));
        assert(vv->Object_0[1] == ("num"@, JsonView::Number(JsonNumber::PosInt(index as u64))));
        assert(vv->Object_0 =~= placeholder_view(index as nat)->Object_0);
    }
    v
}

/// The encoding of a packet: its text, and its attachments in order.
#[derive(Debug)]
pub struct EncodedPacket {
    /// JSON encoded to String
    pub packet: String,
    /// Optional list of binary attachments that cannot be sent in JSON
    pub attachments: Vec<Vec<u8>>,
}

/// The text of a packet: the type's digit; for binary types the number of
/// attachments and `-`; the namespace and `,` unless it is `/`; the id; and
/// the JSON of the data unless it is `null`.
pub open spec fn packet_text(
    packet_type: PacketType,
    attachments_count: nat,
    nsp: Seq<char>,
    id: Option<u64>,
    header: JsonView,
    serialized_header: Seq<char>,
) -> Seq<char> {
    seq![digit_char(packet_type.code() as nat)] + (if packet_type.is_binary() {
        decimal_chars(attachments_count) + seq!['-']
    } else {
        seq![]
    }) + (if nsp != "/"@ {
        nsp + seq![',']
    } else {
        seq![]
    }) + (match id {
        Some(i) => decimal_chars(i as nat),
        None => seq![],
    }) + (if header is Null {
        seq![]
    } else {
        serialized_header
    })
}

/// The JSON of a packet's data and its attachments, before the JSON is
/// serialised.
#[derive(Debug)]
pub struct PreparedPacket {
    pub header: JsonValue,
    pub attachments: Vec<Vec<u8>>,
}

/// Encodes socket.io packets.
pub struct DefaultEncoder;

impl DefaultEncoder {
    /// Takes the binary data out of `packet_data` into `attachments` (see
    /// [`deconstruct`]) and returns the JSON left.
    pub fn deconstruct_packet_data(packet_data: &PacketDataValue, attachments: &mut Vec<Vec<u8>>) -> (r:
        JsonValue)
        ensures
            r@ == deconstruct(packet_data@, old(attachments)@.len()).0,
            bytes_views(final(attachments)@) == bytes_views(old(attachments)@) + deconstruct(
                packet_data@,
                old(attachments)@.len(),
            ).1,
        decreases packet_data,
    {
        let ghost n0 = attachments@.len();
        match packet_data {
            PacketDataValue::Null => {
                assert(bytes_views(attachments@) =~= bytes_views(old(attachments)@) + Seq::empty());
                JsonValue::Null
            },
            PacketDataValue::Bool(b) => {
                assert(bytes_views(attachments@) =~= bytes_views(old(attachments)@) + Seq::empty());
                JsonValue::Bool(*b)
            },
            PacketDataValue::Number(x) => {
                assert(bytes_views(attachments@) =~= bytes_views(old(attachments)@) + Seq::empty());
                JsonValue::Number(*x)
            },
            PacketDataValue::String(s) => {
                assert(bytes_views(attachments@) =~= bytes_views(old(attachments)@) + Seq::empty());
                JsonValue::String(copy_string(s))
            },
            PacketDataValue::Binary(data) => {
                let map = make_placeholder(attachments.len());
                attachments.push(vstd::slice::slice_to_vec(data.as_slice()));
                assert(bytes_views(attachments@) =~= bytes_views(old(attachments)@) + seq![data@]);
                map
            },
            PacketDataValue::Array(array) => {
                let ghost items = packet_data@->Array_0;
                let mut out: Vec<JsonValue> = Vec::new();
                let mut i: usize = 0;
                let ghost whole = deconstruct_items(items, 0, n0 as nat);
                assert(bytes_views(attachments@) =~= bytes_views(old(attachments)@) + Seq::empty());
                while i < array.len()
                    invariant
                        *packet_data == PacketDataValue::Array(*array),
                        items == packet_data@->Array_0,
                        items.len() == array@.len(),
                        forall|j: int| 0 <= j < items.len() ==> items[j] == #[trigger] array@[j]@,
                        i <= array@.len(),
                        out@.len() == i,
                        attachments@.len() >= n0,
                        whole == deconstruct_items(items, 0, n0 as nat),
                        whole == ({
                            let rest = deconstruct_items(items, i as int, attachments@.len() as nat);
                            (
                                Seq::new(out@.len(), |j: int| out@[j]@) + rest.0,
                                bytes_views(attachments@).subrange(n0 as int, attachments@.len() as int)
                                    + rest.1,
                            )
                        }),
                        bytes_views(attachments@).subrange(0, n0 as int) == bytes_views(old(attachments)@),
                    decreases array@.len() - i,
                {
                    assert(decreases_to!(*packet_data => packet_data->Array_0));
                    assert(decreases_to!(*array => array@));
                    assert(decreases_to!(array@ => array@[i as int]));
                    assert(items[i as int] == array@[i as int]@);
                    let ghost before_out = Seq::new(out@.len(), |j: int| out@[j]@);
                    let ghost before_att = attachments@;
                    let d = DefaultEncoder::deconstruct_packet_data(&array[i], attachments);
                    out.push(d);
                    proof {
                        let r = deconstruct(items[i as int], before_att.len() as nat);
                        let rest = deconstruct_items(items, i + 1, before_att.len() + r.1.len());
                        assert(deconstruct_items(items, i as int, before_att.len() as nat) == (
                            seq![r.0] + rest.0,
                            r.1 + rest.1,
                        ));
                        assert(bytes_views(attachments@) =~= bytes_views(before_att) + r.1);
                        assert(Seq::new(out@.len(), |j: int| out@[j]@) =~= before_out.push(d@));
                        assert(before_out + (seq![r.0] + rest.0) =~= before_out.push(d@) + rest.0);
                        let bb = bytes_views(before_att);
                        let ba = bytes_views(attachments@);
                        let a = bb.subrange(n0 as int, before_att.len() as int);
                        assert(ba == bb + r.1);
                        assert(n0 <= before_att.len());
                        assert forall|k: int| 0 <= k < ba.len() - n0 implies #[trigger] ba.subrange(
                            n0 as int,
                            ba.len() as int,
                        )[k] == (a + r.1)[k] by {
                            assert(ba[n0 + k] == (bb + r.1)[n0 + k]);
                            if k < a.len() {
                                assert(a[k] == bb[n0 + k]);
                            }
                        }
                        assert(ba.subrange(n0 as int, ba.len() as int) =~= a + r.1);
                        assert(a + (r.1 + rest.1) =~= (a + r.1) + rest.1);
                        assert(bytes_views(attachments@).subrange(0, n0 as int) =~= bytes_views(
                            before_att,
                        ).subrange(0, n0 as int));
                    }
                    i = i + 1;
                }
                let r = JsonValue::Array(out);
                proof {
                    let rest = deconstruct_items(items, i as int, attachments@.len() as nat);
                    assert(rest.0 =~= Seq::<JsonView>::empty());
                    assert(rest.1 =~= Seq::<Seq<u8>>::empty());
                    let rv = json_view(r);
                    assert(rv is Array);
                    assert(rv->Array_0 =~= Seq::new(out@.len(), |j: int| out@[j]@) + rest.0);
                    assert(bytes_views(attachments@) =~= bytes_views(attachments@).subrange(0, n0 as int)
                        + bytes_views(attachments@).subrange(n0 as int, attachments@.len() as int));
                }
                r
            },
            PacketDataValue::Object(obj) => {
                let ghost entries = packet_data@->Object_0;
                let mut out: Vec<(String, JsonValue)> = Vec::new();
                let mut i: usize = 0;
                let ghost whole = deconstruct_entries(entries, 0, n0 as nat);
                assert(bytes_views(attachments@) =~= bytes_views(old(attachments)@) + Seq::empty());
                while i < obj.len()
                    invariant
                        *packet_data == PacketDataValue::Object(*obj),
                        entries == packet_data@->Object_0,
                        entries.len() == obj@.len(),
                        forall|j: int| 0 <= j < entries.len() ==> entries[j] == (
                            #[trigger] obj@[j].0@,
                            obj@[j].1@,
                        ),
                        i <= obj@.len(),
                        out@.len() == i,
                        attachments@.len() >= n0,
                        whole == deconstruct_entries(entries, 0, n0 as nat),
                        whole == ({
                            let rest = deconstruct_entries(entries, i as int, attachments@.len() as nat);
                            (
                                Seq::new(out@.len(), |j: int| (out@[j].0@, out@[j].1@)) + rest.0,
                                bytes_views(attachments@).subrange(n0 as int, attachments@.len() as int)
                                    + rest.1,
                            )
                        }),
                        bytes_views(attachments@).subrange(0, n0 as int) == bytes_views(old(attachments)@),
                    decreases obj@.len() - i,
                {
                    assert(decreases_to!(*packet_data => packet_data->Object_0));
                    assert(decreases_to!(*obj => obj@));
                    assert(decreases_to!(obj@ => obj@[i as int]));
                    assert(decreases_to!(obj@[i as int] => obj@[i as int].1));
                    assert(entries[i as int] == (obj@[i as int].0@, obj@[i as int].1@));
                    let ghost before_out = Seq::new(out@.len(), |j: int| (out@[j].0@, out@[j].1@));
                    let ghost before_att = attachments@;
                    let d = DefaultEncoder::deconstruct_packet_data(&obj[i].1, attachments);
                    let key = copy_string(&obj[i].0);
                    out.push((key, d));
                    proof {
                        let r = deconstruct(entries[i as int].1, before_att.len() as nat);
                        let rest = deconstruct_entries(entries, i + 1, before_att.len() + r.1.len());
                        assert(deconstruct_entries(entries, i as int, before_att.len() as nat) == (
                            seq![(entries[i as int].0, r.0)] + rest.0,
                            r.1 + rest.1,
                        ));
                        assert(bytes_views(attachments@) =~= bytes_views(before_att) + r.1);
                        assert(Seq::new(out@.len(), |j: int| (out@[j].0@, out@[j].1@)) =~= before_out.push(
                            (key@, d@),
                        ));
                        assert(before_out + (seq![(entries[i as int].0, r.0)] + rest.0) =~= before_out.push(
                            (key@, d@),
                        ) + rest.0);
                        let bb = bytes_views(before_att);
                        let ba = bytes_views(attachments@);
                        let a = bb.subrange(n0 as int, before_att.len() as int);
                        assert(ba == bb + r.1);
                        assert(n0 <= before_att.len());
                        assert forall|k: int| 0 <= k < ba.len() - n0 implies #[trigger] ba.subrange(
                            n0 as int,
                            ba.len() as int,
                        )[k] == (a + r.1)[k] by {
                            assert(ba[n0 + k] == (bb + r.1)[n0 + k]);
                            if k < a.len() {
                                assert(a[k] == bb[n0 + k]);
                            }
                        }
                        assert(ba.subrange(n0 as int, ba.len() as int) =~= a + r.1);
                        assert(a + (r.1 + rest.1) =~= (a + r.1) + rest.1);
                        assert(bytes_views(attachments@).subrange(0, n0 as int) =~= bytes_views(
                            before_att,
                        ).subrange(0, n0 as int));
                    }
                    i = i + 1;
                }
                let r = JsonValue::Object(out);
                proof {
                    let rest = deconstruct_entries(entries, i as int, attachments@.len() as nat);
                    assert(rest.0 =~= Seq::<(Seq<char>, JsonView)>::empty());
                    assert(rest.1 =~= Seq::<Seq<u8>>::empty());
                    let rv = json_view(r);
                    assert(rv is Object);
                    assert(rv->Object_0 =~= Seq::new(out@.len(), |j: int| (out@[j].0@, out@[j].1@)) + rest.0);
                    assert(bytes_views(attachments@) =~= bytes_views(attachments@).subrange(0, n0 as int)
                        + bytes_views(attachments@).subrange(n0 as int, attachments@.len() as int));
                }
                r
            },
        }
    }

    /// The JSON of a packet's data and its attachments (see [`deconstruct`]).
    pub fn prepare(packet: &Packet) -> (r: PreparedPacket)
        ensures
            r.header@ == deconstruct(packet.data@, 0).0,
            bytes_views(r.attachments@) == deconstruct(packet.data@, 0).1,
    {
        let mut attachments: Vec<Vec<u8>> = Vec::new();
        let header = DefaultEncoder::deconstruct_packet_data(&packet.data, &mut attachments);
        assert(bytes_views(Seq::<Vec<u8>>::empty()) =~= Seq::<Seq<u8>>::empty());
        assert(Seq::<Seq<u8>>::empty() + deconstruct(packet.data@, 0).1 =~= deconstruct(
            packet.data@,
            0,
        ).1);
        PreparedPacket { header, attachments }
    }

    /// The encoding of a packet from its prepared JSON and the serialisation
    /// of that JSON (see [`packet_text`]); the attachments follow.
    pub fn assemble(packet: &Packet, prepared: PreparedPacket, serialized_header: &str) -> (r:
        EncodedPacket)
        ensures
            r.packet@ == packet_text(
                packet.packet_type,
                prepared.attachments@.len() as nat,
                packet.nsp@,
                packet.id,
                prepared.header@,
                serialized_header@,
            ),
            r.attachments == prepared.attachments,
    {
        let mut buffer = String::new();
        push_char(&mut buffer, crate::digits::digit_to_char(packet.packet_type.to_u8()));
        let ghost p0 = buffer@;
        if packet.packet_type == PacketType::BinaryEvent || packet.packet_type == PacketType::BinaryAck {
            push_decimal(&mut buffer, prepared.attachments.len() as u128);
            push_char(&mut buffer, '-');
        }
        let ghost p1 = buffer@;
        if !str_eq(packet.nsp.as_str(), "/") {
            push_str(&mut buffer, packet.nsp.as_str());
            push_char(&mut buffer, ',');
        }
        let ghost p2 = buffer@;
        match packet.id {
            Some(id) => push_decimal(&mut buffer, id as u128),
            None => {},
        }
        let ghost p3 = buffer@;
        let is_null = match &prepared.header {
            JsonValue::Null => true,
            _ => false,
        };
        if !is_null {
            push_str(&mut buffer, serialized_header);
        }
        assert(buffer@ =~= packet_text(
            packet.packet_type,
            prepared.attachments@.len() as nat,
            packet.nsp@,
            packet.id,
            prepared.header@,
            serialized_header@,
        ));
        EncodedPacket { packet: buffer, attachments: prepared.attachments }
    }
}

impl EncodedPacket {
    /// The engine.io packets that carry this encoding: a text message with
    /// the packet text, then a binary message per attachment.
    pub fn into_engine_packets(self) -> (r: Vec<EnginePacket>)
        ensures
            r@.len() == self.attachments@.len() + 1,
            r@[0].packet_type == EnginePacketType::Message,
            r@[0].data@ == EnginePacketDataView::Plaintext(self.packet@),
            forall|i: int| 1 <= i < r@.len() ==> #[trigger] r@[i].packet_type == EnginePacketType::Message
                && r@[i].data@ == EnginePacketDataView::Binary(self.attachments@[i - 1]@),
    {
        let EncodedPacket { packet, attachments } = self;
        let ghost atts = attachments@;
        let mut packets: Vec<EnginePacket> = Vec::new();
        packets.push(
            EnginePacket {
                packet_type: EnginePacketType::Message,
                data: EnginePacketData::Plaintext(packet),
            },
        );
        let mut i: usize = 0;
        while i < attachments.len()
            invariant
                atts == attachments@,
                i <= attachments@.len(),
                packets@.len() == i + 1,
                packets@[0].packet_type == EnginePacketType::Message,
                packets@[0].data@ == EnginePacketDataView::Plaintext(packet@),
                forall|k: int| 1 <= k < packets@.len() ==> #[trigger] packets@[k].packet_type
                    == EnginePacketType::Message && packets@[k].data@ == EnginePacketDataView::Binary(
                    atts[k - 1]@,
                ),
            decreases attachments@.len() - i,
        {
            let data = vstd::slice::slice_to_vec(attachments[i].as_slice());
            packets.push(
                EnginePacket { packet_type: EnginePacketType::Message, data: EnginePacketData::Binary(data) },
            );
            i = i + 1;
        }
        packets
    }
}

} // verus!
