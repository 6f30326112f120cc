//! What holds between taking binary data out of packet data and putting it
//! back, and between writing the head of a packet text and reading it.
use vstd::prelude::*;
use crate::digits::{
    decimal_chars, decimal_value, digit_char, digit_value, is_digit_char, lemma_decimal_chars_digits,
    lemma_digits_end_exact,
};
use crate::socket_io_parser::decoder::{
    payload_valid, all_attachments, first_comma, proto_prefix, proto_prefix_tail, reconstruct, reconstruct_entries, reconstruct_items,
    PrefixOutcome, ProtoPrefixView,
};
use crate::socket_io_parser::encoder::{
    deconstruct, deconstruct_entries, deconstruct_items, packet_text, placeholder_view,
};
use crate::socket_io_parser::packet::{
    attachment_index_key, attachment_marker_key, json_to_data, object_get, placeholder_index,
    DataView, JsonNumber, JsonView, PacketType,
};

verus! {

/// Whether packet data holds no object with a `_placeholder` key, at any
/// depth: such an object would read back as an attachment's placeholder.
pub open spec fn object_free(v: DataView) -> bool
    decreases v, 0int,
{
    match v {
        DataView::Object(entries) => entries_keys_free(entries) && entries_object_free(entries, 0),
        DataView::Array(items) => items_object_free(items, 0),
        _ => true,
    }
}

/// No entry has the key `_placeholder`.
pub open spec fn entries_keys_free(entries: Seq<(Seq<char>, DataView)>) -> bool {
    forall|k: int| 0 <= k < entries.len() ==> #[trigger] entries[k].0 != attachment_marker_key()
}

/// [`object_free`] over `items[i..]`.
pub open spec fn items_object_free(items: Seq<DataView>, i: int) -> bool
    decreases items, items.len() - i,
{
    if i < 0 || i >= items.len() {
        true
    } else {
        object_free(items[i]) && items_object_free(items, i + 1)
    }
}

/// [`object_free`] over the values of `entries[i..]`.
pub open spec fn entries_object_free(entries: Seq<(Seq<char>, DataView)>, i: int) -> bool
    decreases entries, entries.len() - i,
{
    if i < 0 || i >= entries.len() {
        true
    } else {
        object_free(entries[i].1) && entries_object_free(entries, i + 1)
    }
}

/// An object without the key has no value under it.
proof fn lemma_object_get_absent(obj: Seq<(Seq<char>, JsonView)>, key: Seq<char>)
    requires
        forall|k: int| 0 <= k < obj.len() ==> #[trigger] obj[k].0 != key,
    ensures
        object_get(obj, key) is None,
    decreases obj.len(),
{
    if obj.len() > 0 {
        assert(obj[0].0 != key);
        assert forall|k: int| 0 <= k < obj.drop_first().len() implies #[trigger] obj.drop_first()[k].0 != key by {
            assert(obj.drop_first()[k] == obj[k + 1]);
        }
        lemma_object_get_absent(obj.drop_first(), key);
    }
}

/// The attachments with those at `a..b` taken out.
pub open spec fn taken(att: Seq<Option<Seq<u8>>>, a: int, b: int) -> Seq<Option<Seq<u8>>> {
    Seq::new(att.len(), |i: int| if a <= i < b { None } else { att[i] })
}

/// The attachments `bs` stand at `n..` in `att`.
pub open spec fn placed_at(att: Seq<Option<Seq<u8>>>, n: int, bs: Seq<Seq<u8>>) -> bool {
    &&& 0 <= n
    &&& n + bs.len() <= att.len()
    &&& forall|j: int| 0 <= j < bs.len() ==> #[trigger] att[n + j] == Some(bs[j])
}

/// The placeholder of attachment `n` reads back as `n`.
proof fn lemma_placeholder_index(n: nat)
    requires
        n <= usize::MAX,
    ensures
        placeholder_index(placeholder_view(n)->Object_0) == Some(n as usize),
{
    reveal_strlit("_placeholder");
    reveal_strlit("num");
    let entries = placeholder_view(n)->Object_0;
    assert(entries[0].0 == attachment_marker_key());
    assert(entries[1].0 == attachment_index_key());
    assert(entries[0].0 != attachment_index_key());
    assert(entries.drop_first()[0] == entries[1]);
    assert(entries.drop_first().len() == 1);
    assert(object_get(entries.drop_first(), attachment_index_key()) == Some(
        JsonView::Number(JsonNumber::PosInt(n as u64)),
    ));
    assert(object_get(entries, attachment_marker_key()) == Some(JsonView::Bool(true)));
    assert(object_get(entries, attachment_index_key()) == Some(
        JsonView::Number(JsonNumber::PosInt(n as u64)),
    ));
}

/// Reading items from a later place of a longer sequence.
proof fn lemma_reconstruct_items_shift(pre: Seq<JsonView>, ys: Seq<JsonView>, k: int, att: Seq<Option<Seq<u8>>>)
    requires
        0 <= k <= ys.len(),
    ensures
        reconstruct_items(pre + ys, pre.len() + k, att) == reconstruct_items(ys, k, att),
    decreases ys.len() - k,
{
    let s = pre + ys;
    if k < ys.len() {
        assert(s[pre.len() + k] == ys[k]);
        let r = reconstruct(ys[k], att);
        lemma_reconstruct_items_shift(pre, ys, k + 1, r.1);
    }
}

/// Putting back the binary data of data without `_placeholder` keys gives
/// the data back, and takes its attachments out.
proof fn lemma_roundtrip(v: DataView, n: nat, att: Seq<Option<Seq<u8>>>)
    requires
        object_free(v),
        placed_at(att, n as int, deconstruct(v, n).1),
        att.len() <= usize::MAX,
    ensures
        reconstruct(deconstruct(v, n).0, att) == (v, taken(att, n as int, (n + deconstruct(v, n).1.len()) as int)),
    decreases v, 0int,
{
    match v {
        DataView::Array(items) => {
            lemma_roundtrip_items(items, 0, n, att);
            let d = deconstruct_items(items, 0, n);
            assert(items.subrange(0, items.len() as int) =~= items);
        },
        DataView::Binary(b) => {
            lemma_placeholder_index(n);
            assert(att[n as int + 0] == Some(seq![b][0]));
            assert(att.update(n as int, None) =~= taken(att, n as int, n + 1int));
        },
        DataView::Object(entries) => {
            lemma_roundtrip_entries(entries, 0, n, att);
            let d = deconstruct_entries(entries, 0, n).0;
            assert(entries.subrange(0, entries.len() as int) =~= entries);
            assert forall|k: int| 0 <= k < d.len() implies #[trigger] d[k].0 != attachment_marker_key() by {
                assert(d[k].0 == entries[k].0);
            }
            lemma_object_get_absent(d, attachment_marker_key());
        },
        _ => {
            assert(taken(att, n as int, n as int) =~= att);
        },
    }
}

/// [`lemma_roundtrip`] over `items[i..]`.
proof fn lemma_roundtrip_items(items: Seq<DataView>, i: int, n: nat, att: Seq<Option<Seq<u8>>>)
    requires
        0 <= i <= items.len(),
        items_object_free(items, i),
        placed_at(att, n as int, deconstruct_items(items, i, n).1),
        att.len() <= usize::MAX,
    ensures
        reconstruct_items(deconstruct_items(items, i, n).0, 0, att) == (
            items.subrange(i, items.len() as int),
            taken(att, n as int, (n + deconstruct_items(items, i, n).1.len()) as int),
        ),
    decreases items, items.len() - i,
{
    if i >= items.len() {
        assert(items.subrange(i, items.len() as int) =~= Seq::<DataView>::empty());
        assert(taken(att, n as int, n as int) =~= att);
    } else {
        let r = deconstruct(items[i], n);
        let n2 = (n + r.1.len()) as nat;
        let rest = deconstruct_items(items, i + 1, n2);
        let d = deconstruct_items(items, i, n);
        assert(d.0 == seq![r.0] + rest.0);
        assert(d.1 == r.1 + rest.1);
        assert(placed_at(att, n as int, r.1)) by {
            assert forall|j: int| 0 <= j < r.1.len() implies #[trigger] att[n + j] == Some(r.1[j]) by {
                assert(d.1[j] == r.1[j]);
            }
        }
        assert(decreases_to!(items => items[i]));
        lemma_roundtrip(items[i], n, att);
        let att1 = taken(att, n as int, n2 as int);
        assert(placed_at(att1, n2 as int, rest.1)) by {
            assert forall|j: int| 0 <= j < rest.1.len() implies #[trigger] att1[n2 + j] == Some(rest.1[j]) by {
                assert(d.1[r.1.len() + j] == rest.1[j]);
                assert(att[n + (r.1.len() + j)] == Some(d.1[r.1.len() + j]));
            }
        }
        lemma_roundtrip_items(items, i + 1, n2, att1);
        let first = reconstruct(d.0[0], att);
        assert(d.0[0] == r.0);
        lemma_reconstruct_items_shift(seq![r.0], rest.0, 0, att1);
        assert(seq![r.0] + rest.0 == d.0);
        assert(taken(att1, n2 as int, (n2 + rest.1.len()) as int) =~= taken(att, n as int, (n + d.1.len()) as int));
        assert(seq![items[i]] + items.subrange(i + 1, items.len() as int) =~= items.subrange(
            i,
            items.len() as int,
        ));
    }
}

/// Reading entries from a later place of a longer sequence.
proof fn lemma_reconstruct_entries_shift(
    pre: Seq<(Seq<char>, JsonView)>,
    ys: Seq<(Seq<char>, JsonView)>,
    k: int,
    att: Seq<Option<Seq<u8>>>,
)
    requires
        0 <= k <= ys.len(),
    ensures
        reconstruct_entries(pre + ys, pre.len() + k, att) == reconstruct_entries(ys, k, att),
    decreases ys.len() - k,
{
    let s = pre + ys;
    if k < ys.len() {
        assert(s[pre.len() + k] == ys[k]);
        let r = reconstruct(ys[k].1, att);
        lemma_reconstruct_entries_shift(pre, ys, k + 1, r.1);
    }
}

/// [`lemma_roundtrip`] over the values of `entries[i..]`, keys kept.
proof fn lemma_roundtrip_entries(entries: Seq<(Seq<char>, DataView)>, i: int, n: nat, att: Seq<Option<Seq<u8>>>)
    requires
        0 <= i <= entries.len(),
        entries_object_free(entries, i),
        placed_at(att, n as int, deconstruct_entries(entries, i, n).1),
        att.len() <= usize::MAX,
    ensures
        reconstruct_entries(deconstruct_entries(entries, i, n).0, 0, att) == (
            entries.subrange(i, entries.len() as int),
            taken(att, n as int, (n + deconstruct_entries(entries, i, n).1.len()) as int),
        ),
        deconstruct_entries(entries, i, n).0.len() == entries.len() - i,
        forall|k: int| 0 <= k < entries.len() - i ==> (#[trigger] deconstruct_entries(entries, i, n).0[k]).0
            == entries[i + k].0,
    decreases entries, entries.len() - i,
{
    if i >= entries.len() {
        assert(entries.subrange(i, entries.len() as int) =~= Seq::<(Seq<char>, DataView)>::empty());
        assert(taken(att, n as int, n as int) =~= att);
    } else {
        let r = deconstruct(entries[i].1, n);
        let n2 = (n + r.1.len()) as nat;
        let rest = deconstruct_entries(entries, i + 1, n2);
        let d = deconstruct_entries(entries, i, n);
        assert(d.0 == seq![(entries[i].0, r.0)] + rest.0);
        assert(d.1 == r.1 + rest.1);
        assert(placed_at(att, n as int, r.1)) by {
            assert forall|j: int| 0 <= j < r.1.len() implies #[trigger] att[n + j] == Some(r.1[j]) by {
                assert(d.1[j] == r.1[j]);
            }
        }
        assert(decreases_to!(entries => entries[i]));
        assert(decreases_to!(entries[i] => entries[i].1));
        lemma_roundtrip(entries[i].1, n, att);
        let att1 = taken(att, n as int, n2 as int);
        assert(placed_at(att1, n2 as int, rest.1)) by {
            assert forall|j: int| 0 <= j < rest.1.len() implies #[trigger] att1[n2 + j] == Some(rest.1[j]) by {
                assert(d.1[r.1.len() + j] == rest.1[j]);
                assert(att[n + (r.1.len() + j)] == Some(d.1[r.1.len() + j]));
            }
        }
        lemma_roundtrip_entries(entries, i + 1, n2, att1);
        assert(d.0[0] == (entries[i].0, r.0));
        lemma_reconstruct_entries_shift(seq![(entries[i].0, r.0)], rest.0, 0, att1);
        assert(taken(att1, n2 as int, (n2 + rest.1.len()) as int) =~= taken(att, n as int, (n + d.1.len()) as int));
        assert(seq![entries[i]] + entries.subrange(i + 1, entries.len() as int) =~= entries.subrange(
            i,
            entries.len() as int,
        ));
        assert forall|k: int| 0 <= k < entries.len() - i implies (#[trigger] d.0[k]).0 == entries[i + k].0 by {
            if k > 0 {
                assert(d.0[k] == rest.0[k - 1]);
            }
        }
    }
}

/// Putting back the binary data that was taken out of packet data gives the
/// data back, and every attachment is used, when no object of the data has
/// a `_placeholder` key (it would be read as a placeholder).
pub proof fn law_attachments_roundtrip(v: DataView)
    requires
        object_free(v),
        deconstruct(v, 0).1.len() <= usize::MAX,
    ensures
        reconstruct(
            deconstruct(v, 0).0,
            Seq::new(deconstruct(v, 0).1.len(), |i: int| Some(deconstruct(v, 0).1[i])),
        ) == (v, Seq::new(deconstruct(v, 0).1.len(), |i: int| None::<Seq<u8>>)),
{
    let d = deconstruct(v, 0);
    let att = Seq::new(d.1.len(), |i: int| Some(d.1[i]));
    assert(placed_at(att, 0, d.1)) by {
        assert forall|j: int| 0 <= j < d.1.len() implies #[trigger] att[0 + j] == Some(d.1[j]) by {}
    }
    lemma_roundtrip(v, 0, att);
    assert(taken(att, 0, d.1.len() as int) =~= Seq::new(d.1.len(), |i: int| None::<Seq<u8>>));
}

/// The first `,` at or after `i` is at `j` when `s[i..j]` has none and
/// `s[j]` is one.
proof fn lemma_first_comma_exact(s: Seq<char>, i: int, j: int)
    requires
        0 <= i <= j < s.len(),
        forall|k: int| i <= k < j ==> #[trigger] s[k] != ',',
        s[j] == ',',
    ensures
        first_comma(s, i) == j,
    decreases j - i,
{
    if i < j {
        lemma_first_comma_exact(s, i + 1, j);
    }
}

/// The digit of a packet type reads back as its number.
proof fn lemma_type_digit(t: PacketType)
    ensures
        is_digit_char(digit_char(t.code() as nat)),
        decimal_value(seq![digit_char(t.code() as nat)]) == t.code(),
        digit_value(digit_char(t.code() as nat)) == t.code(),
        PacketType::from_code(t.code() as nat) == t,
{
    let d = seq![digit_char(t.code() as nat)];
    assert(d.drop_last() =~= Seq::<char>::empty());
    assert(decimal_value(Seq::<char>::empty()) == 0);
    assert(d.last() == digit_char(t.code() as nat));
    assert(decimal_value(d) == digit_value(d.last()));
    match t {
        PacketType::Connect => assert(digit_value('0') == 0),
        PacketType::Disconnect => assert(digit_value('1') == 1),
        PacketType::Event => assert(digit_value('2') == 2),
        PacketType::Ack => assert(digit_value('3') == 3),
        PacketType::ConnectError => assert(digit_value('4') == 4),
        PacketType::BinaryEvent => assert(digit_value('5') == 5),
        PacketType::BinaryAck => assert(digit_value('6') == 6),
    }
}

/// The namespace and the id written from `p1` on read back.
#[verifier::rlimit(30)]
proof fn lemma_head_tail(
    text: Seq<char>,
    p1: int,
    t: PacketType,
    c: u32,
    nsp: Seq<char>,
    id: Option<u64>,
    body: Seq<char>,
)
    requires
        0 <= p1 <= text.len(),
        text.subrange(p1, text.len() as int) == (if nsp != "/"@ {
            nsp + seq![',']
        } else {
            seq![]
        }) + (match id {
            Some(i) => decimal_chars(i as nat),
            None => seq![],
        }) + body,
        nsp == "/"@ || (nsp.len() > 0 && nsp[0] == '/' && !nsp.contains(',')),
        id matches Some(i) ==> i <= u32::MAX,
        body.len() > 0 ==> !is_digit_char(body[0]),
        body.len() > 0 && nsp == "/"@ && id is None ==> body[0] != '/',
    ensures
        proto_prefix_tail(text, t, c, p1) == PrefixOutcome::Read(
            ProtoPrefixView { packet_type: t, attachments_count: c, nsp, id, rest: body },
        ),
{
    reveal_strlit("/");
    let seg_n = if nsp != "/"@ {
        nsp + seq![',']
    } else {
        seq![]
    };
    let seg_i = match id {
        Some(i) => decimal_chars(i as nat),
        None => seq![],
    };
    let tail = text.subrange(p1, text.len() as int);
    assert(forall|k: int| 0 <= k < tail.len() ==> #[trigger] tail[k] == text[p1 + k]);
    let sn: int = seg_n.len() as int;
    let si: int = seg_i.len() as int;
    assert(tail.len() == sn + si + body.len());
    assert forall|k: int| 0 <= k < si implies #[trigger] tail[sn + k] == seg_i[k] by {
        assert((seg_n + seg_i + body)[sn + k] == seg_i[k]);
    }
    assert forall|k: int| 0 <= k < body.len() implies #[trigger] tail[sn + si + k] == body[k] by {
        assert((seg_n + seg_i + body)[sn + si + k] == body[k]);
    }
    assert forall|k: int| 0 <= k < sn implies #[trigger] tail[k] == seg_n[k] by {
        assert((seg_n + seg_i + body)[k] == seg_n[k]);
    }
    let pos2: int = p1 + sn;
    let e3: int = pos2 + si;
    if let Some(i) = id {
        lemma_decimal_chars_digits(i as nat);
    }
    assert forall|k: int| pos2 <= k < e3 implies is_digit_char(#[trigger] text[k]) by {
        assert(tail[sn + (k - pos2)] == seg_i[k - pos2]);
    }
    if e3 < text.len() {
        assert(tail[sn + si + 0] == body[0]);
    }
    lemma_digits_end_exact(text, pos2, e3);
    assert(text.subrange(pos2, e3) =~= seg_i) by {
        assert forall|k: int| 0 <= k < si implies #[trigger] text.subrange(pos2, e3)[k] == seg_i[k] by {
            assert(tail[sn + k] == text[p1 + sn + k]);
        }
    }
    assert(text.subrange(e3, text.len() as int) =~= body) by {
        assert forall|k: int| 0 <= k < body.len() implies #[trigger] text.subrange(e3, text.len() as int)[k]
            == body[k] by {
            assert(tail[sn + si + k] == text[p1 + sn + si + k]);
        }
    }
    assert(text.subrange(pos2, text.len() as int) =~= seg_i + body);
    if nsp != "/"@ {
        let j: int = p1 + nsp.len() as int;
        assert(tail[0] == seg_n[0]);
        assert forall|k: int| p1 <= k < j implies #[trigger] text[k] != ',' by {
            assert(tail[k - p1] == seg_n[k - p1]);
            assert(seg_n[k - p1] == nsp[k - p1]);
            if text[k] == ',' {
                assert(nsp.contains(','));
            }
        }
        assert(tail[j - p1] == seg_n[j - p1]);
        lemma_first_comma_exact(text, p1, j);
        assert(text.subrange(p1, j) =~= nsp);
    } else {
        if p1 < text.len() {
            if id is Some {
                assert(tail[sn + 0] == seg_i[0]);
                assert(is_digit_char(text[p1]));
            } else {
                assert(tail[sn + si + 0] == body[0]);
            }
        }
    }
}

/// Reading the head of a packet text gives back what was written in it:
/// the type, the number of attachments of a binary type, the namespace, the
/// id and the JSON text of the data. This holds when the namespace is `/` or
/// starts with `/` and holds no `,`, the numbers fit in a `u32`, and the JSON
/// text does not start with a digit (nor with `/` where neither a namespace
/// nor an id comes before it), which would be read as part of the head.
#[verifier::rlimit(30)]
pub proof fn law_packet_head_roundtrip(
    t: PacketType,
    count: nat,
    nsp: Seq<char>,
    id: Option<u64>,
    header: JsonView,
    serialized_header: Seq<char>,
)
    requires
        nsp == "/"@ || (nsp.len() > 0 && nsp[0] == '/' && !nsp.contains(',')),
        count <= u32::MAX,
        id matches Some(i) ==> i <= u32::MAX,
        !(header is Null) && serialized_header.len() > 0 ==> !is_digit_char(serialized_header[0]),
        !(header is Null) && serialized_header.len() > 0 && nsp == "/"@ && id is None
            ==> serialized_header[0] != '/',
    ensures
        proto_prefix(packet_text(t, count, nsp, id, header, serialized_header)) == PrefixOutcome::Read(
            ProtoPrefixView {
                packet_type: t,
                attachments_count: if t.is_binary() {
                    count as u32
                } else {
                    0
                },
                nsp,
                id,
                rest: if header is Null {
                    Seq::<char>::empty()
                } else {
                    serialized_header
                },
            },
        ),
{
    let body = if header is Null {
        Seq::<char>::empty()
    } else {
        serialized_header
    };
    let d = digit_char(t.code() as nat);
    let seg_b = if t.is_binary() {
        decimal_chars(count) + seq!['-']
    } else {
        seq![]
    };
    let seg_n = if nsp != "/"@ {
        nsp + seq![',']
    } else {
        seq![]
    };
    let seg_i = match id {
        Some(i) => decimal_chars(i as nat),
        None => seq![],
    };
    let text = packet_text(t, count, nsp, id, header, serialized_header);
    assert(text =~= seq![d] + seg_b + (seg_n + seg_i + body));
    lemma_type_digit(t);
    let p1: int = 1 + seg_b.len() as int;
    assert(text.subrange(p1, text.len() as int) =~= seg_n + seg_i + body);
    let c: u32 = if t.is_binary() {
        count as u32
    } else {
        0
    };
    lemma_head_tail(text, p1, t, c, nsp, id, body);
    if t.is_binary() {
        lemma_decimal_chars_digits(count);
        let e2: int = 1 + decimal_chars(count).len() as int;
        assert forall|k: int| 1 <= k < e2 implies is_digit_char(#[trigger] text[k]) by {
            assert(text[k] == decimal_chars(count)[k - 1]);
        }
        assert(text[e2] == '-');
        lemma_digits_end_exact(text, 1, e2);
        assert(text.subrange(1, e2) =~= decimal_chars(count));
    }
}

/// Whether packet data holds no binary data, at any depth: data that the
/// JSON of a packet carries as it is.
pub open spec fn plain_data(v: DataView) -> bool
    decreases v, 0int,
{
    match v {
        DataView::Binary(_) => false,
        DataView::Array(items) => items_plain(items, 0),
        DataView::Object(entries) => entries_plain(entries, 0),
        _ => true,
    }
}

/// [`plain_data`] over `items[i..]`.
pub open spec fn items_plain(items: Seq<DataView>, i: int) -> bool
    decreases items, items.len() - i,
{
    if i < 0 || i >= items.len() {
        true
    } else {
        plain_data(items[i]) && items_plain(items, i + 1)
    }
}

/// [`plain_data`] over the values of `entries[i..]`.
pub open spec fn entries_plain(entries: Seq<(Seq<char>, DataView)>, i: int) -> bool
    decreases entries, entries.len() - i,
{
    if i < 0 || i >= entries.len() {
        true
    } else {
        plain_data(entries[i].1) && entries_plain(entries, i + 1)
    }
}

/// Plain data becomes JSON without attachments, and reads back from it.
proof fn lemma_plain(v: DataView, n: nat)
    requires
        plain_data(v),
    ensures
        deconstruct(v, n).1.len() == 0,
        json_to_data(deconstruct(v, n).0) == v,
    decreases v, 0int,
{
    match v {
        DataView::Array(items) => {
            lemma_plain_items(items, 0, n);
            let d = deconstruct_items(items, 0, n).0;
            assert(json_to_data(JsonView::Array(d)) == DataView::Array(items)) by {
                if let DataView::Array(back) = json_to_data(JsonView::Array(d)) {
                    assert(back =~= items);
                }
            }
        },
        DataView::Object(entries) => {
            lemma_plain_entries(entries, 0, n);
            let d = deconstruct_entries(entries, 0, n).0;
            assert(json_to_data(JsonView::Object(d)) == DataView::Object(entries)) by {
                if let DataView::Object(back) = json_to_data(JsonView::Object(d)) {
                    assert forall|k: int| 0 <= k < entries.len() implies #[trigger] back[k] == entries[k] by {
                        assert(d[k].0 == entries[k].0);
                    }
                    assert(back =~= entries);
                }
            }
        },
        _ => {},
    }
}

/// [`lemma_plain`] over `items[i..]`.
proof fn lemma_plain_items(items: Seq<DataView>, i: int, n: nat)
    requires
        0 <= i <= items.len(),
        items_plain(items, i),
    ensures
        deconstruct_items(items, i, n).1.len() == 0,
        deconstruct_items(items, i, n).0.len() == items.len() - i,
        forall|k: int|
            0 <= k < items.len() - i ==> json_to_data(#[trigger] deconstruct_items(items, i, n).0[k])
                == items[i + k],
    decreases items, items.len() - i,
{
    if i < items.len() {
        assert(decreases_to!(items => items[i]));
        lemma_plain(items[i], n);
        lemma_plain_items(items, i + 1, n);
        let r = deconstruct(items[i], n);
        let rest = deconstruct_items(items, i + 1, n);
        let d = deconstruct_items(items, i, n);
        assert(d.0 == seq![r.0] + rest.0);
        assert forall|k: int| 0 <= k < items.len() - i implies json_to_data(#[trigger] d.0[k]) == items[i + k] by {
            if k > 0 {
                assert(d.0[k] == rest.0[k - 1]);
            }
        }
    }
}

/// [`lemma_plain`] over the values of `entries[i..]`, keys kept.
proof fn lemma_plain_entries(entries: Seq<(Seq<char>, DataView)>, i: int, n: nat)
    requires
        0 <= i <= entries.len(),
        entries_plain(entries, i),
    ensures
        deconstruct_entries(entries, i, n).1.len() == 0,
        deconstruct_entries(entries, i, n).0.len() == entries.len() - i,
        forall|k: int|
            0 <= k < entries.len() - i ==> (#[trigger] deconstruct_entries(entries, i, n).0[k]).0
                == entries[i + k].0 && json_to_data(deconstruct_entries(entries, i, n).0[k].1)
                == entries[i + k].1,
    decreases entries, entries.len() - i,
{
    if i < entries.len() {
        assert(decreases_to!(entries => entries[i]));
        assert(decreases_to!(entries[i] => entries[i].1));
        lemma_plain(entries[i].1, n);
        lemma_plain_entries(entries, i + 1, n);
        let r = deconstruct(entries[i].1, n);
        let rest = deconstruct_entries(entries, i + 1, n);
        let d = deconstruct_entries(entries, i, n);
        assert(d.0 == seq![(entries[i].0, r.0)] + rest.0);
        assert forall|k: int| 0 <= k < entries.len() - i implies (#[trigger] d.0[k]).0 == entries[i + k].0
            && json_to_data(d.0[k].1) == entries[i + k].1 by {
            if k > 0 {
                assert(d.0[k] == rest.0[k - 1]);
            }
        }
    }
}

/// The JSON that packet data without binary data is written as carries no
/// attachments and reads back as the same data, objects with their keys.
pub proof fn law_plain_data_reads_back(v: DataView)
    requires
        plain_data(v),
    ensures
        deconstruct(v, 0).1.len() == 0,
        json_to_data(deconstruct(v, 0).0) == v,
{
    lemma_plain(v, 0);
}

/// A decoder that received, in order, the attachments that encoding the
/// data took out, and whose header holds the JSON that encoding left,
/// collects the data that was encoded (see `DefaultDecoder::collect_packet`),
/// when no object of the data has a `_placeholder` key.
pub proof fn law_collector_roundtrip(v: DataView)
    requires
        object_free(v),
        deconstruct(v, 0).1.len() <= usize::MAX,
    ensures
        reconstruct(deconstruct(v, 0).0, all_attachments(deconstruct(v, 0).1)).0 == v,
{
    let d = deconstruct(v, 0);
    law_attachments_roundtrip(v);
    assert(all_attachments(d.1) =~= Seq::new(d.1.len(), |i: int| Some(d.1[i])));
}


/// The JSON data that each packet type accepts, for every JSON value: a
/// connect its auth data as an object, a disconnect only null, a connect
/// error its reason as a string or an object (`{"message": ..}`), an event
/// (binary or not) an array led by the event's name, an ack (binary or
/// not) any array.
pub proof fn law_payload_kinds(payload: JsonView)
    ensures
        payload_valid(PacketType::Connect, payload) <==> payload is Object,
        payload_valid(PacketType::Disconnect, payload) <==> payload is Null,
        payload_valid(PacketType::ConnectError, payload) <==> (payload is String || payload is Object),
        payload_valid(PacketType::Event, payload) <==> (payload matches JsonView::Array(items) && items.len()
            > 0 && items[0] is String),
        payload_valid(PacketType::BinaryEvent, payload) <==> payload_valid(PacketType::Event, payload),
        payload_valid(PacketType::Ack, payload) <==> payload is Array,
        payload_valid(PacketType::BinaryAck, payload) <==> payload is Array,
{
}

} // verus!
