//! Round trips: whatever is written reads back as it was.
//!
//! Each law is stated for a value that stands anywhere in a buffer, between
//! bytes `pre` before it and bytes `post` behind it, so that the law for a
//! list follows from the laws for its members.

use vstd::prelude::*;
use vstd::utf8::{decode_utf8, valid_utf8};
use crate::error::ProtocolError;
use crate::field::{field_bytes, field_fits, field_parse, fields_bytes, fields_parse};
use crate::field::{kind_of, kinds_of, FieldKind, FieldModel, FieldsParsed};
use crate::frame::{body_bytes, body_parse, frame_bytes, frame_fits, frame_parse, frame_span};
use crate::frame::{payload_fields, DecodedModel};
use crate::identifier::lemma_identifier_parse_encoded;
use crate::serialization::{bool_bytes, bool_parse, byte_unsigned, i8_parse, int_bytes, int_parse};
use crate::serialization::{lemma_text_parse_encoded, long_be_bytes, long_be_parse, long_le_bytes};
use crate::serialization::{long_le_parse, long_unsigned, text_bytes, text_fits, text_span};
use crate::serialization::{u16_bytes, u16_parse, u8_parse};
use crate::varint::{as_signed, as_unsigned, lemma_signed_unsigned, lemma_unsigned_signed};
use crate::varint::{lemma_varint_len, lemma_varint_parse_encoded, varint_bytes, varint_len};
use crate::varint::varint_parse;

verus! {

/// The eight bytes of a 64-bit number make that number again.
proof fn lemma_long_bytes_value(u: u64)
    by (bit_vector)
    ensures
        0x100_0000_0000_0000 * (u / 0x100_0000_0000_0000) + 0x1_0000_0000_0000 * (u
            / 0x1_0000_0000_0000 % 0x100) + 0x100_0000_0000 * (u / 0x100_0000_0000 % 0x100)
            + 0x1_0000_0000 * (u / 0x1_0000_0000 % 0x100) + 0x100_0000 * (u / 0x100_0000 % 0x100)
            + 0x1_0000 * (u / 0x1_0000 % 0x100) + 0x100 * (u / 0x100 % 0x100) + u % 0x100 == u,
{
}

/// Reading back a 64-bit number written most significant byte first.
proof fn lemma_long_be_parse_encoded(pre: Seq<u8>, v: i64, post: Seq<u8>)
    ensures
        long_be_parse(pre + long_be_bytes(v) + post, pre.len() as int) == Ok::<
            (i64, int),
            ProtocolError,
        >((v, (pre.len() + 8) as int)),
{
    let data = pre + long_be_bytes(v) + post;
    let start = pre.len() as int;
    let bytes = long_be_bytes(v);
    assert(data[start] == bytes[0]);
    assert(data[start + 1] == bytes[1]);
    assert(data[start + 2] == bytes[2]);
    assert(data[start + 3] == bytes[3]);
    assert(data[start + 4] == bytes[4]);
    assert(data[start + 5] == bytes[5]);
    assert(data[start + 6] == bytes[6]);
    assert(data[start + 7] == bytes[7]);
    lemma_long_bytes_value(long_unsigned(v));
}

/// Reading back a 64-bit number written least significant byte first.
proof fn lemma_long_le_parse_encoded(pre: Seq<u8>, v: i64, post: Seq<u8>)
    ensures
        long_le_parse(pre + long_le_bytes(v) + post, pre.len() as int) == Ok::<
            (i64, int),
            ProtocolError,
        >((v, (pre.len() + 8) as int)),
{
    let data = pre + long_le_bytes(v) + post;
    let start = pre.len() as int;
    let bytes = long_be_bytes(v);
    let turned = long_le_bytes(v);
    assert(data[start] == turned[0] == bytes[7]);
    assert(data[start + 1] == turned[1] == bytes[6]);
    assert(data[start + 2] == turned[2] == bytes[5]);
    assert(data[start + 3] == turned[3] == bytes[4]);
    assert(data[start + 4] == turned[4] == bytes[3]);
    assert(data[start + 5] == turned[5] == bytes[2]);
    assert(data[start + 6] == turned[6] == bytes[1]);
    assert(data[start + 7] == turned[7] == bytes[0]);
    lemma_long_bytes_value(long_unsigned(v));
}

/// Reading back a fixed-width 32-bit number.
proof fn lemma_int_parse_encoded(pre: Seq<u8>, v: i32, post: Seq<u8>)
    ensures
        int_parse(pre + int_bytes(v) + post, pre.len() as int) == Ok::<(i32, int), ProtocolError>(
            (v, (pre.len() + 4) as int),
        ),
{
    let data = pre + int_bytes(v) + post;
    let start = pre.len() as int;
    assert(data[start] == int_bytes(v)[0]);
    assert(data[start + 1] == int_bytes(v)[1]);
    assert(data[start + 2] == int_bytes(v)[2]);
    assert(data[start + 3] == int_bytes(v)[3]);
    lemma_unsigned_signed(v);
}

/// Reading back a raw byte, a signed byte, a 16-bit number or a boolean.
proof fn lemma_small_parse_encoded(pre: Seq<u8>, post: Seq<u8>, a: u8, b: i8, c: u16, d: bool)
    ensures
        u8_parse(pre + seq![a] + post, pre.len() as int) == Ok::<(u8, int), ProtocolError>(
            (a, (pre.len() + 1) as int),
        ),
        i8_parse(pre + seq![byte_unsigned(b)] + post, pre.len() as int) == Ok::<
            (i8, int),
            ProtocolError,
        >((b, (pre.len() + 1) as int)),
        u16_parse(pre + u16_bytes(c) + post, pre.len() as int) == Ok::<(u16, int), ProtocolError>(
            (c, (pre.len() + 2) as int),
        ),
        bool_parse(pre + bool_bytes(d) + post, pre.len() as int) == Ok::<
            (bool, int),
            ProtocolError,
        >((d, (pre.len() + 1) as int)),
{
    let start = pre.len() as int;
    assert((pre + seq![a] + post)[start] == a);
    assert((pre + seq![byte_unsigned(b)] + post)[start] == byte_unsigned(b));
    assert((pre + u16_bytes(c) + post)[start] == u16_bytes(c)[0]);
    assert((pre + u16_bytes(c) + post)[start + 1] == u16_bytes(c)[1]);
    assert((pre + bool_bytes(d) + post)[start] == bool_bytes(d)[0]);
}

/// Reading back a variable-length integer field.
proof fn lemma_varint_field_parse_encoded(pre: Seq<u8>, v: i32, post: Seq<u8>)
    ensures
        varint_parse(pre + varint_bytes(as_unsigned(v)) + post, pre.len() as int) == Ok::<
            (i32, int),
            ProtocolError,
        >((v, (pre.len() + varint_bytes(as_unsigned(v)).len()) as int)),
{
    lemma_varint_parse_encoded(pre, as_unsigned(v), post);
    lemma_varint_len(as_unsigned(v));
    lemma_unsigned_signed(v);
}

/// Reading back a text field: its bytes are found, and are valid UTF-8
/// for the text.
proof fn lemma_text_field_parse_encoded(pre: Seq<u8>, text: Seq<char>, post: Seq<u8>)
    requires
        text_fits(text),
    ensures
        ({
            let data = pre + text_bytes(text) + post;
            &&& text_span(data, pre.len() as int) matches Ok((from, to))
            &&& to == pre.len() + text_bytes(text).len()
            &&& valid_utf8(data.subrange(from, to))
            &&& decode_utf8(data.subrange(from, to)) == text
        }),
{
    lemma_text_parse_encoded(pre, text, post);
}

/// Reading back what was written, wherever it stands in a buffer: one
/// field.
pub proof fn lemma_field_parse_encoded(pre: Seq<u8>, value: FieldModel, post: Seq<u8>)
    requires
        field_fits(value),
    ensures
        field_parse(pre + field_bytes(value) + post, pre.len() as int, kind_of(value)) == Ok::<
            (FieldModel, int, bool),
            ProtocolError,
        >((value, (pre.len() + field_bytes(value).len()) as int, false)),
{
    match value {
        FieldModel::VarInt(v) => {
            lemma_varint_field_parse_encoded(pre, v, post);
        },
        FieldModel::U8(v) => {
            lemma_small_parse_encoded(pre, post, v, 0, 0, false);
        },
        FieldModel::I8(v) => {
            lemma_small_parse_encoded(pre, post, 0, v, 0, false);
        },
        FieldModel::U16(v) => {
            lemma_small_parse_encoded(pre, post, 0, 0, v, false);
        },
        FieldModel::Int(v) => {
            lemma_int_parse_encoded(pre, v, post);
        },
        FieldModel::LongBe(v) => {
            lemma_long_be_parse_encoded(pre, v, post);
        },
        FieldModel::LongLe(v) => {
            lemma_long_le_parse_encoded(pre, v, post);
        },
        FieldModel::Bool(v) => {
            lemma_small_parse_encoded(pre, post, 0, 0, 0, v);
        },
        FieldModel::Text(v) => {
            lemma_text_field_parse_encoded(pre, v, post);
        },
        FieldModel::Identifier(v) => {
            lemma_identifier_parse_encoded(pre, v, post);
        },
    }
}

/// Reading one more field: where the fields but the last read as `before`
/// and the last field reads as `value` from where they end, all the fields
/// read as those of `before` and then `value`.
proof fn lemma_fields_parse_step(
    data: Seq<u8>,
    start: int,
    kinds: Seq<FieldKind>,
    before: FieldsParsed,
    value: FieldModel,
    next: int,
    replaced: bool,
)
    requires
        kinds.len() > 0,
        fields_parse(data, start, kinds.drop_last()) == Ok::<FieldsParsed, ProtocolError>(before),
        field_parse(data, before.next, kinds.last()) == Ok::<
            (FieldModel, int, bool),
            ProtocolError,
        >((value, next, replaced)),
    ensures
        fields_parse(data, start, kinds) == Ok::<FieldsParsed, ProtocolError>(
            FieldsParsed {
                values: before.values.push(value),
                next,
                replaced: before.replaced || replaced,
            },
        ),
{
}

/// The bytes and the schema of a list of values, taken apart at the last
/// value.
proof fn lemma_split_last(pre: Seq<u8>, values: Seq<FieldModel>, post: Seq<u8>)
    requires
        values.len() > 0,
    ensures
        pre + fields_bytes(values.drop_last()) + (field_bytes(values.last()) + post) == pre
            + fields_bytes(values) + post,
        (pre + fields_bytes(values.drop_last())) + field_bytes(values.last()) + post == pre
            + fields_bytes(values) + post,
        kinds_of(values).drop_last() == kinds_of(values.drop_last()),
        kinds_of(values).last() == kind_of(values.last()),
        kinds_of(values).len() == values.len(),
        values.drop_last().push(values.last()) == values,
        fields_bytes(values).len() == fields_bytes(values.drop_last()).len() + field_bytes(
            values.last(),
        ).len(),
{
    let before = values.drop_last();
    let last = values.last();
    let data = pre + fields_bytes(values) + post;
    assert(pre + fields_bytes(before) + (field_bytes(last) + post) =~= data);
    assert((pre + fields_bytes(before)) + field_bytes(last) + post =~= data);
    assert(kinds_of(values).drop_last() =~= kinds_of(before));
    assert(before.push(last) =~= values);
}

/// Reading back what was written, wherever it stands in a buffer: a list
/// of fields, by the schema that they fill.
pub proof fn lemma_fields_parse_encoded(pre: Seq<u8>, values: Seq<FieldModel>, post: Seq<u8>)
    requires
        forall|i: int| 0 <= i < values.len() ==> field_fits(#[trigger] values[i]),
    ensures
        fields_parse(pre + fields_bytes(values) + post, pre.len() as int, kinds_of(values)) == Ok::<
            FieldsParsed,
            ProtocolError,
        >(
            FieldsParsed {
                values,
                next: (pre.len() + fields_bytes(values).len()) as int,
                replaced: false,
            },
        ),
    decreases values.len(),
{
    if values.len() == 0 {
        assert(kinds_of(values) =~= Seq::empty());
        assert(values =~= Seq::empty());
    } else {
        let before = values.drop_last();
        let last = values.last();
        let head = pre + fields_bytes(before);
        assert(field_fits(last));
        assert forall|i: int| 0 <= i < before.len() implies field_fits(#[trigger] before[i]) by {
            assert(before[i] == values[i]);
        }
        lemma_split_last(pre, values, post);
        lemma_fields_parse_encoded(pre, before, field_bytes(last) + post);
        lemma_field_parse_encoded(head, last, post);
        lemma_fields_parse_step(
            pre + fields_bytes(values) + post,
            pre.len() as int,
            kinds_of(values),
            FieldsParsed { values: before, next: head.len() as int, replaced: false },
            last,
            (head.len() + field_bytes(last).len()) as int,
            false,
        );
    }
}

/// Reading back the fields of a packet from its payload.
pub proof fn lemma_payload_round_trip(values: Seq<FieldModel>)
    requires
        forall|i: int| 0 <= i < values.len() ==> field_fits(#[trigger] values[i]),
    ensures
        payload_fields(fields_bytes(values), kinds_of(values)) == Ok::<
            (Seq<FieldModel>, bool),
            ProtocolError,
        >((values, false)),
{
    lemma_fields_parse_encoded(Seq::empty(), values, Seq::empty());
    assert(Seq::<u8>::empty() + fields_bytes(values) + Seq::<u8>::empty() =~= fields_bytes(values));
}

/// The id and the payload are found again in the bytes that a frame's
/// length counts.
pub proof fn lemma_body_split(id: i32, values: Seq<FieldModel>)
    ensures
        varint_parse(body_bytes(id, values), 0) matches Ok((read, from)) && read == id
            && body_bytes(id, values).subrange(from, body_bytes(id, values).len() as int)
            == fields_bytes(values),
{
    let data = body_bytes(id, values);
    let payload = fields_bytes(values);
    lemma_varint_parse_encoded(Seq::empty(), as_unsigned(id), payload);
    assert(Seq::<u8>::empty() + varint_bytes(as_unsigned(id)) + payload =~= data);
    lemma_varint_len(as_unsigned(id));
    lemma_unsigned_signed(id);
    let from = varint_len(as_unsigned(id)) as int;
    assert(data.subrange(from, data.len() as int) =~= payload);
}

/// Reading back the id and the fields of a packet from the end of a buffer.
pub proof fn lemma_body_parse_encoded(pre: Seq<u8>, id: i32, values: Seq<FieldModel>)
    requires
        forall|i: int| 0 <= i < values.len() ==> field_fits(#[trigger] values[i]),
    ensures
        body_parse(pre + body_bytes(id, values), pre.len() as int, kinds_of(values)) == Ok::<
            DecodedModel,
            ProtocolError,
        >(DecodedModel { id, values, replaced: false }),
{
    let data = pre + body_bytes(id, values);
    let id_bytes = varint_bytes(as_unsigned(id));
    lemma_varint_parse_encoded(pre, as_unsigned(id), fields_bytes(values));
    assert(pre + id_bytes + fields_bytes(values) =~= data);
    lemma_varint_len(as_unsigned(id));
    lemma_unsigned_signed(id);
    lemma_fields_parse_encoded(pre + id_bytes, values, Seq::empty());
    assert((pre + id_bytes) + fields_bytes(values) + Seq::<u8>::empty() =~= data);
}

/// A buffer that holds a length and then exactly that many bytes reads as
/// those bytes read.
proof fn lemma_frame_parse_exact(data: Seq<u8>, kinds: Seq<FieldKind>, declared: i32, from: int)
    requires
        varint_parse(data, 0) == Ok::<(i32, int), ProtocolError>((declared, from)),
        from + as_unsigned(declared) == data.len(),
    ensures
        frame_parse(data, kinds) == body_parse(data, from, kinds),
{
}

/// Round trip: reading the frame of a packet by the schema that its fields
/// fill gives back the id and the fields, with nothing replaced; and the
/// integer at the head of the frame is the number of bytes behind it.
pub proof fn lemma_frame_round_trip(id: i32, values: Seq<FieldModel>)
    requires
        frame_fits(id, values),
    ensures
        frame_parse(frame_bytes(id, values), kinds_of(values)) == Ok::<DecodedModel, ProtocolError>(
            DecodedModel { id, values, replaced: false },
        ),
        varint_parse(frame_bytes(id, values), 0) matches Ok((declared, from)) && as_unsigned(
            declared,
        ) == frame_bytes(id, values).len() - from,
{
    let body = body_bytes(id, values);
    let n = body.len() as u32;
    let head = varint_bytes(n);
    lemma_varint_len(n);
    lemma_signed_unsigned(n);
    lemma_varint_parse_encoded(Seq::empty(), n, body);
    assert(Seq::<u8>::empty() + head + body =~= head + body);
    lemma_body_parse_encoded(head, id, values);
    lemma_frame_parse_exact(head + body, kinds_of(values), as_signed(n as nat), head.len() as int);
}

/// A frame that stands whole in a buffer is found there, whatever follows
/// it.
pub proof fn lemma_frame_found(pre: Seq<u8>, id: i32, values: Seq<FieldModel>, post: Seq<u8>)
    requires
        body_bytes(id, values).len() < 0x1_0000_0000,
    ensures
        frame_span(pre + frame_bytes(id, values) + post, pre.len() as int) matches Ok((from, to))
            && (pre + frame_bytes(id, values) + post).subrange(from, to) == body_bytes(id, values),
{
    let body = body_bytes(id, values);
    let n = body.len() as u32;
    let data = pre + frame_bytes(id, values) + post;
    lemma_varint_parse_encoded(pre, n, body + post);
    assert(pre + varint_bytes(n) + (body + post) =~= data);
    lemma_varint_len(n);
    lemma_signed_unsigned(n);
    let from = (pre.len() + varint_len(n)) as int;
    assert(data.subrange(from, from + n) =~= body);
}

} // verus!
