//! Socket.io packets and the values they carry.
use vstd::prelude::*;
use crate::string_map::{copy_string, owned, str_eq};

verus! {

/// The type of a socket.io packet; its number on the wire is [`PacketType::code`].
#[derive(Debug, Clone, Copy, PartialEq, Eq, Structural)]
pub enum PacketType {
    Connect,
    Disconnect,
    Event,
    Ack,
    ConnectError,
    BinaryEvent,
    BinaryAck,
}

/// The packet types that carry binary attachments.
#[derive(Debug, Clone, Copy, PartialEq, Eq, Structural)]
pub enum BinaryPacketType {
    BinaryEvent,
    BinaryAck,
}

/// A number could not be read as a packet type.
#[derive(Debug, Clone, Copy, PartialEq, Eq, Structural)]
pub struct PacketParseError;

impl PacketType {
    /// The number of the packet type on the wire.
    pub open spec fn code(self) -> u8 {
        match self {
            PacketType::Connect => 0,
            PacketType::Disconnect => 1,
            PacketType::Event => 2,
            PacketType::Ack => 3,
            PacketType::ConnectError => 4,
            PacketType::BinaryEvent => 5,
            PacketType::BinaryAck => 6,
        }
    }

    /// The packet type with the number `c`, for `c <= 6`.
    pub open spec fn from_code(c: nat) -> PacketType {
        if c == 0 {
            PacketType::Connect
        } else if c == 1 {
            PacketType::Disconnect
        } else if c == 2 {
            PacketType::Event
        } else if c == 3 {
            PacketType::Ack
        } else if c == 4 {
            PacketType::ConnectError
        } else if c == 5 {
            PacketType::BinaryEvent
        } else {
            PacketType::BinaryAck
        }
    }

    /// Whether the type carries binary attachments.
    pub open spec fn is_binary(self) -> bool {
        self == PacketType::BinaryEvent || self == PacketType::BinaryAck
    }

    /// The number of this packet type on the wire.
    pub fn to_u8(self) -> (c: u8)
        ensures
            c == self.code(),
            c <= 6,
            PacketType::from_code(c as nat) == self,
    {
        match self {
            PacketType::Connect => 0,
            PacketType::Disconnect => 1,
            PacketType::Event => 2,
            PacketType::Ack => 3,
            PacketType::ConnectError => 4,
            PacketType::BinaryEvent => 5,
            PacketType::BinaryAck => 6,
        }
    }

    /// The packet type with the number `value`; numbers above 6 are refused.
    pub fn parse_from_u8(value: u8) -> (r: Result<PacketType, PacketParseError>)
        ensures
            value <= 6 ==> r == Ok::<PacketType, PacketParseError>(PacketType::from_code(value as nat)),
            value > 6 ==> r == Err::<PacketType, PacketParseError>(PacketParseError),
    {
        if value == 0 {
            Ok(PacketType::Connect)
        } else if value == 1 {
            Ok(PacketType::Disconnect)
        } else if value == 2 {
            Ok(PacketType::Event)
        } else if value == 3 {
            Ok(PacketType::Ack)
        } else if value == 4 {
            Ok(PacketType::ConnectError)
        } else if value == 5 {
            Ok(PacketType::BinaryEvent)
        } else if value == 6 {
            Ok(PacketType::BinaryAck)
        } else {
            Err(PacketParseError)
        }
    }
}

/// The packet type of a binary packet type.
pub open spec fn binary_to_packet_type(t: BinaryPacketType) -> PacketType {
    match t {
        BinaryPacketType::BinaryAck => PacketType::BinaryAck,
        BinaryPacketType::BinaryEvent => PacketType::BinaryEvent,
    }
}

impl From<BinaryPacketType> for PacketType {
    fn from(packet_type: BinaryPacketType) -> (r: PacketType) {
        match packet_type {
            BinaryPacketType::BinaryAck => PacketType::BinaryAck,
            BinaryPacketType::BinaryEvent => PacketType::BinaryEvent,
        }
    }
}

impl vstd::std_specs::convert::FromSpecImpl<BinaryPacketType> for PacketType {
    open spec fn obeys_from_spec() -> bool {
        true
    }

    open spec fn from_spec(packet_type: BinaryPacketType) -> PacketType {
        binary_to_packet_type(packet_type)
    }
}

/// The binary packet type of a packet type, if it is one.
pub open spec fn packet_to_binary_type(t: PacketType) -> Option<BinaryPacketType> {
    match t {
        PacketType::BinaryAck => Some(BinaryPacketType::BinaryAck),
        PacketType::BinaryEvent => Some(BinaryPacketType::BinaryEvent),
        _ => None,
    }
}

impl BinaryPacketType {
    /// The binary packet type of `value`, if it is one.
    pub fn try_from_packet_type(value: PacketType) -> (r: Option<BinaryPacketType>)
        ensures
            r == packet_to_binary_type(value),
    {
        match value {
            PacketType::BinaryAck => Some(BinaryPacketType::BinaryAck),
            PacketType::BinaryEvent => Some(BinaryPacketType::BinaryEvent),
            _ => None,
        }
    }
}

/// A JSON number: a non-negative integer, a negative integer, or a float,
/// which stands here by the bits of its IEEE 754 double.
#[derive(Debug, Clone, Copy, PartialEq, Eq, Structural)]
pub enum JsonNumber {
    PosInt(u64),
    NegInt(i64),
    Float(u64),
}

impl JsonNumber {
    /// The number as a `u64`, when it is a non-negative integer.
    pub open spec fn spec_as_u64(self) -> Option<u64> {
        match self {
            JsonNumber::PosInt(n) => Some(n),
            JsonNumber::NegInt(n) => if n >= 0 {
                Some(n as u64)
            } else {
                None
            },
            JsonNumber::Float(_) => None,
        }
    }

    /// The number as a `u64`, when it is a non-negative integer.
    pub fn as_u64(&self) -> (r: Option<u64>)
        ensures
            r == self.spec_as_u64(),
    {
        match self {
            JsonNumber::PosInt(n) => Some(*n),
            JsonNumber::NegInt(n) => if *n >= 0 {
                Some(*n as u64)
            } else {
                None
            },
            JsonNumber::Float(_) => None,
        }
    }
}

/// A JSON value, with the entries of an object in their order.
#[derive(Debug, PartialEq)]
pub enum JsonValue {
    Null,
    Bool(bool),
    Number(JsonNumber),
    String(String),
    Array(Vec<JsonValue>),
    Object(Vec<(String, JsonValue)>),
}

/// The mathematical value of a [`JsonValue`].
pub enum JsonView {
    Null,
    Bool(bool),
    Number(JsonNumber),
    String(Seq<char>),
    Array(Seq<JsonView>),
    Object(Seq<(Seq<char>, JsonView)>),
}

/// The view of a JSON value.
pub open spec fn json_view(v: JsonValue) -> JsonView
    decreases v,
{
    match v {
        JsonValue::Null => JsonView::Null,
        JsonValue::Bool(b) => JsonView::Bool(b),
        JsonValue::Number(n) => JsonView::Number(n),
        JsonValue::String(s) => JsonView::String(s@),
        JsonValue::Array(a) => JsonView::Array(
            Seq::new(
                a@.len(),
                |i: int|
                    {
                        if 0 <= i < a@.len() {
                            proof {
                                assert(decreases_to!(a => a@[i]));
                            }
                            json_view(a@[i])
                        } else {
                            JsonView::Null
                        }
                    },
            ),
        ),
        JsonValue::Object(o) => JsonView::Object(
            Seq::new(
                o@.len(),
                |i: int|
                    {
                        if 0 <= i < o@.len() {
                            proof {
                                assert(decreases_to!(o => o@[i]));
                                assert(decreases_to!(o@[i] => o@[i].1));
                            }
                            (o@[i].0@, json_view(o@[i].1))
                        } else {
                            (Seq::empty(), JsonView::Null)
                        }
                    },
            ),
        ),
    }
}

impl View for JsonValue {
    type V = JsonView;

    open spec fn view(&self) -> JsonView {
        json_view(*self)
    }
}

/// A value like JSON's, that may also hold binary data anywhere in it; in
/// JSON such data travels as an attachment, with the placeholder
/// `{ "_placeholder": true, "num": i }` where it stood.
#[derive(Debug, PartialEq)]
pub enum PacketDataValue {
    Null,
    Bool(bool),
    Number(JsonNumber),
    String(String),
    Array(Vec<PacketDataValue>),
    Object(Vec<(String, PacketDataValue)>),
    Binary(Vec<u8>),
}

/// The mathematical value of a [`PacketDataValue`].
pub enum DataView {
    Null,
    Bool(bool),
    Number(JsonNumber),
    String(Seq<char>),
    Array(Seq<DataView>),
    Object(Seq<(Seq<char>, DataView)>),
    Binary(Seq<u8>),
}

/// The view of a packet data value.
pub open spec fn data_view(v: PacketDataValue) -> DataView
    decreases v,
{
    match v {
        PacketDataValue::Null => DataView::Null,
        PacketDataValue::Bool(b) => DataView::Bool(b),
        PacketDataValue::Number(n) => DataView::Number(n),
        PacketDataValue::String(s) => DataView::String(s@),
        PacketDataValue::Array(a) => DataView::Array(
            Seq::new(
                a@.len(),
                |i: int|
                    {
                        if 0 <= i < a@.len() {
                            proof {
                                assert(decreases_to!(a => a@[i]));
                            }
                            data_view(a@[i])
                        } else {
                            DataView::Null
                        }
                    },
            ),
        ),
        PacketDataValue::Object(o) => DataView::Object(
            Seq::new(
                o@.len(),
                |i: int|
                    {
                        if 0 <= i < o@.len() {
                            proof {
                                assert(decreases_to!(o => o@[i]));
                                assert(decreases_to!(o@[i] => o@[i].1));
                            }
                            (o@[i].0@, data_view(o@[i].1))
                        } else {
                            (Seq::empty(), DataView::Null)
                        }
                    },
            ),
        ),
        PacketDataValue::Binary(b) => DataView::Binary(b@),
    }
}

impl View for PacketDataValue {
    type V = DataView;

    open spec fn view(&self) -> DataView {
        data_view(*self)
    }
}

/// A JSON value as packet data.
pub open spec fn json_to_data(v: JsonView) -> DataView
    decreases v,
{
    match v {
        JsonView::Null => DataView::Null,
        JsonView::Bool(b) => DataView::Bool(b),
        JsonView::Number(n) => DataView::Number(n),
        JsonView::String(s) => DataView::String(s),
        JsonView::Array(a) => DataView::Array(
            Seq::new(
                a.len(),
                |i: int|
                    {
                        if 0 <= i < a.len() {
                            json_to_data(a[i])
                        } else {
                            DataView::Null
                        }
                    },
            ),
        ),
        JsonView::Object(o) => DataView::Object(
            Seq::new(
                o.len(),
                |i: int|
                    {
                        if 0 <= i < o.len() {
                            proof {
                                assert(decreases_to!(o[i] => o[i].1));
                            }
                            (o[i].0, json_to_data(o[i].1))
                        } else {
                            (Seq::empty(), DataView::Null)
                        }
                    },
            ),
        ),
    }
}

impl PacketDataValue {
    /// The packet data of a JSON value.
    pub fn from_json(value: &JsonValue) -> (r: PacketDataValue)
        ensures
            r@ == json_to_data(value@),
        decreases value,
    {
        match value {
            JsonValue::Null => PacketDataValue::Null,
            JsonValue::Bool(b) => PacketDataValue::Bool(*b),
            JsonValue::Number(n) => PacketDataValue::Number(*n),
            JsonValue::String(s) => PacketDataValue::String(copy_string(s)),
            JsonValue::Array(array) => {
                let mut out: Vec<PacketDataValue> = Vec::new();
                let mut i: usize = 0;
                while i < array.len()
                    invariant
                        *value == JsonValue::Array(*array),
                        i <= array@.len(),
                        out@.len() == i,
                        forall|j: int| 0 <= j < i ==> #[trigger] out@[j]@ == json_to_data(array@[j]@),
                    decreases array@.len() - i,
                {
                    assert(decreases_to!(*value => value->Array_0));
                    assert(decreases_to!(*array => array@));
                    assert(decreases_to!(array@ => array@[i as int]));
                    out.push(PacketDataValue::from_json(&array[i]));
                    i = i + 1;
                }
                let r = PacketDataValue::Array(out);
                proof {
                    let sv = Seq::new(
                        out@.len(),
                        |j: int|
                            if 0 <= j < out@.len() {
                                data_view(out@[j])
                            } else {
                                DataView::Null
                            },
                    );
                    let ja = Seq::new(
                        array@.len(),
                        |j: int|
                            if 0 <= j < array@.len() {
                                json_view(array@[j])
                            } else {
                                JsonView::Null
                            },
                    );
                    let jv = json_view(*value);
                    assert(jv is Array);
                    assert(jv->Array_0.len() == ja.len());
                    assert forall|j: int| 0 <= j < ja.len() implies jv->Array_0[j] == ja[j] by {}
                    assert(jv->Array_0 =~= ja);
                    assert(json_view(*value) == JsonView::Array(ja));
                    let dv = Seq::new(
                        ja.len(),
                        |j: int|
                            if 0 <= j < ja.len() {
                                json_to_data(ja[j])
                            } else {
                                DataView::Null
                            },
                    );
                    let jd = json_to_data(JsonView::Array(ja));
                    assert(jd is Array);
                    assert(jd->Array_0 =~= dv);
                    assert forall|j: int| 0 <= j < sv.len() implies sv[j] == dv[j] by {
                        assert(out@[j]@ == json_to_data(array@[j]@));
                    }
                    assert(sv =~= dv);
                    let rv = data_view(r);
                    assert(rv is Array);
                    assert(rv->Array_0 =~= sv);
                }
                r
            },
            JsonValue::Object(obj) => {
                let mut out: Vec<(String, PacketDataValue)> = Vec::new();
                let mut i: usize = 0;
                while i < obj.len()
                    invariant
                        *value == JsonValue::Object(*obj),
                        i <= obj@.len(),
                        out@.len() == i,
                        forall|j: int| 0 <= j < i ==> #[trigger] out@[j].0@ == obj@[j].0@ && out@[j].1@
                            == json_to_data(obj@[j].1@),
                    decreases obj@.len() - i,
                {
                    assert(decreases_to!(*value => value->Object_0));
                    assert(decreases_to!(*obj => obj@));
                    assert(decreases_to!(obj@ => obj@[i as int]));
                    assert(decreases_to!(obj@[i as int] => obj@[i as int].1));
                    let entry = &obj[i];
                    out.push((copy_string(&entry.0), PacketDataValue::from_json(&entry.1)));
                    i = i + 1;
                }
                let r = PacketDataValue::Object(out);
                proof {
                    let sv = Seq::new(
                        out@.len(),
                        |j: int|
                            if 0 <= j < out@.len() {
                                (out@[j].0@, data_view(out@[j].1))
                            } else {
                                (Seq::empty(), DataView::Null)
                            },
                    );
                    let jo = Seq::new(
                        obj@.len(),
                        |j: int|
                            if 0 <= j < obj@.len() {
                                (obj@[j].0@, json_view(obj@[j].1))
                            } else {
                                (Seq::empty(), JsonView::Null)
                            },
                    );
                    let jv = json_view(*value);
                    assert(jv is Object);
                    assert(jv->Object_0 =~= jo);
                    assert(json_view(*value) == JsonView::Object(jo));
                    let dv = Seq::new(
                        jo.len(),
                        |j: int|
                            if 0 <= j < jo.len() {
                                (jo[j].0, json_to_data(jo[j].1))
                            } else {
                                (Seq::empty(), DataView::Null)
                            },
                    );
                    let jd = json_to_data(JsonView::Object(jo));
                    assert(jd is Object);
                    assert(jd->Object_0 =~= dv);
                    assert forall|j: int| 0 <= j < sv.len() implies sv[j] == dv[j] by {
                        assert(out@[j].0@ == obj@[j].0@);
                        assert(out@[j].1@ == json_to_data(obj@[j].1@));
                    }
                    assert(sv =~= dv);
                    let rv = data_view(r);
                    assert(rv is Object);
                    assert(rv->Object_0 =~= sv);
                }
                r
            },
        }
    }

    /// Binary data as packet data.
    pub fn from_bytes(data: &[u8]) -> (r: PacketDataValue)
        ensures
            r@ == DataView::Binary(data@),
    {
        PacketDataValue::Binary(vstd::slice::slice_to_vec(data))
    }
}

/// The key that marks an attachment placeholder.
pub open spec fn attachment_marker_key() -> Seq<char> {
    "_placeholder"@
}

/// The key of an attachment placeholder's index.
pub open spec fn attachment_index_key() -> Seq<char> {
    "num"@
}

impl PacketDataValue {
    /// A copy of the value.
    pub fn copy(&self) -> (r: PacketDataValue)
        ensures
            r@ == self@,
        decreases self,
    {
        match self {
            PacketDataValue::Null => PacketDataValue::Null,
            PacketDataValue::Bool(b) => PacketDataValue::Bool(*b),
            PacketDataValue::Number(n) => PacketDataValue::Number(*n),
            PacketDataValue::String(s) => PacketDataValue::String(copy_string(s)),
            PacketDataValue::Binary(b) => PacketDataValue::Binary(vstd::slice::slice_to_vec(b.as_slice())),
            PacketDataValue::Array(array) => {
                let mut out: Vec<PacketDataValue> = Vec::new();
                let mut i: usize = 0;
                while i < array.len()
                    invariant
                        *self == PacketDataValue::Array(*array),
                        i <= array@.len(),
                        out@.len() == i,
                        forall|j: int| 0 <= j < i ==> #[trigger] out@[j]@ == array@[j]@,
                    decreases array@.len() - i,
                {
                    assert(decreases_to!(*self => self->Array_0));
                    assert(decreases_to!(*array => array@));
                    assert(decreases_to!(array@ => array@[i as int]));
                    out.push(array[i].copy());
                    i = i + 1;
                }
                let r = PacketDataValue::Array(out);
                proof {
                    let rv = data_view(r);
                    let sv = data_view(*self);
                    assert(rv->Array_0.len() == sv->Array_0.len());
                    assert forall|j: int| 0 <= j < rv->Array_0.len() implies rv->Array_0[j]
                        == sv->Array_0[j] by {
                        assert(out@[j]@ == array@[j]@);
                    }
                    assert(rv->Array_0 =~= sv->Array_0);
                }
                r
            },
            PacketDataValue::Object(object) => {
                let mut out: Vec<(String, PacketDataValue)> = Vec::new();
                let mut i: usize = 0;
                while i < object.len()
                    invariant
                        *self == PacketDataValue::Object(*object),
                        i <= object@.len(),
                        out@.len() == i,
                        forall|j: int| 0 <= j < i ==> #[trigger] out@[j].0@ == object@[j].0@
                            && out@[j].1@ == object@[j].1@,
                    decreases object@.len() - i,
                {
                    assert(decreases_to!(*self => self->Object_0));
                    assert(decreases_to!(*object => object@));
                    assert(decreases_to!(object@ => object@[i as int]));
                    assert(decreases_to!(object@[i as int] => object@[i as int].1));
                    let key = copy_string(&object[i].0);
                    let value = object[i].1.copy();
                    out.push((key, value));
                    i = i + 1;
                }
                let r = PacketDataValue::Object(out);
                proof {
                    let rv = data_view(r);
                    let sv = data_view(*self);
                    assert(rv->Object_0 =~= sv->Object_0);
                }
                r
            },
        }
    }
}

/// The value of the first entry with key `key`, if any.
pub open spec fn object_get(obj: Seq<(Seq<char>, JsonView)>, key: Seq<char>) -> Option<JsonView>
    decreases obj.len(),
{
    if obj.len() == 0 {
        None
    } else if obj[0].0 == key {
        Some(obj[0].1)
    } else {
        object_get(obj.drop_first(), key)
    }
}

/// The attachment index that an object holds, when it is a placeholder: its
/// marker is `true` and its index is a non-negative integer.
pub open spec fn placeholder_index(obj: Seq<(Seq<char>, JsonView)>) -> Option<usize> {
    match (object_get(obj, attachment_marker_key()), object_get(obj, attachment_index_key())) {
        (Some(JsonView::Bool(true)), Some(JsonView::Number(n))) => match n.spec_as_u64() {
            Some(num) => Some(num as usize),
            None => None,
        },
        _ => None,
    }
}

/// The index of the first entry of `obj` with key `key`.
fn find_entry(obj: &Vec<(String, JsonValue)>, key: &str) -> (r: Option<usize>)
    ensures
        match object_get(
            Seq::new(obj@.len(), |i: int| (obj@[i].0@, obj@[i].1@)),
            key@,
        ) {
            Some(v) => r matches Some(i) && i < obj@.len() && obj@[i as int].1@ == v,
            None => r is None,
        },
{
    let ghost entries = Seq::new(obj@.len(), |i: int| (obj@[i].0@, obj@[i].1@));
    let mut i: usize = 0;
    assert(entries.subrange(0, entries.len() as int) =~= entries);
    while i < obj.len()
        invariant
            i <= obj@.len(),
            entries == Seq::new(obj@.len(), |j: int| (obj@[j].0@, obj@[j].1@)),
            object_get(entries, key@) == object_get(entries.subrange(i as int, entries.len() as int), key@),
        decreases obj@.len() - i,
    {
        let ghost rest = entries.subrange(i as int, entries.len() as int);
        assert(rest[0] == (obj@[i as int].0@, obj@[i as int].1@));
        if str_eq(obj[i].0.as_str(), key) {
            return Some(i);
        }
        assert(rest.drop_first() =~= entries.subrange(i + 1, entries.len() as int));
        i = i + 1;
    }
    None
}

/// The attachment index of a placeholder object (`{"_placeholder": true,
/// "num": i}`), or `None` for any other object.
pub fn get_attachment_index_if_placeholder(obj: &Vec<(String, JsonValue)>) -> (r: Option<usize>)
    ensures
        r == placeholder_index(Seq::new(obj@.len(), |i: int| (obj@[i].0@, obj@[i].1@))),
{
    let marker = find_entry(obj, "_placeholder");
    let index = find_entry(obj, "num");
    match (marker, index) {
        (Some(m), Some(k)) => match (&obj[m].1, &obj[k].1) {
            (JsonValue::Bool(true), JsonValue::Number(n)) => match n.as_u64() {
                Some(num) => Some(num as usize),
                None => None,
            },
            _ => None,
        },
        _ => None,
    }
}

/// A socket.io packet.
#[derive(Debug, PartialEq)]
pub struct Packet {
    pub packet_type: PacketType,
    pub id: Option<u64>,
    pub nsp: String,
    pub data: PacketDataValue,
}

/// The header of a packet whose binary attachments follow it.
#[derive(Debug, PartialEq)]
pub struct MultipartPacketHeader {
    pub packet_type: BinaryPacketType,
    pub id: Option<u64>,
    pub nsp: Option<String>,
    pub data: JsonValue,
    pub attachments_count: u32,
}

impl MultipartPacketHeader {
    /// Whether attachments follow the header.
    pub fn has_attachments(&self) -> (r: bool)
        ensures
            r == (self.attachments_count > 0),
    {
        self.attachments_count > 0
    }
}

/// A decoded packet text: a whole packet, or the header of a packet whose
/// attachments follow.
#[derive(Debug, PartialEq)]
pub enum ProtoPacket {
    Multipart(MultipartPacketHeader),
    Plain(Packet),
}

impl ProtoPacket {
    /// Whether attachments follow.
    pub fn has_attachments(&self) -> (r: bool)
        ensures
            r == (self matches ProtoPacket::Multipart(h) && h.attachments_count > 0),
    {
        match self {
            ProtoPacket::Multipart(header) => header.has_attachments(),
            ProtoPacket::Plain(_) => false,
        }
    }

    /// The packet's type.
    pub fn packet_type(&self) -> (t: PacketType)
        ensures
            t == match self {
                ProtoPacket::Multipart(h) => binary_to_packet_type(h.packet_type),
                ProtoPacket::Plain(p) => p.packet_type,
            },
    {
        match self {
            ProtoPacket::Multipart(header) => PacketType::from(header.packet_type),
            ProtoPacket::Plain(packet) => packet.packet_type,
        }
    }
}

} // verus!
