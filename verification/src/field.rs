//! Fields: the values that packets are made of. Which fields a packet has,
//! of which types and in which order, is its schema: writing and reading go
//! through the fields in that one order.

use vstd::prelude::*;
use vstd::slice::slice_subrange;
use vstd::utf8::{decode_utf8, valid_utf8};
use crate::error::ProtocolError;
use crate::identifier::{decode_identifier, identifier_bytes, identifier_parse, Identifier};
use crate::serialization::{bool_bytes, bool_parse, byte_unsigned, decode_bool, decode_i8};
use crate::serialization::{decode_int, decode_long_be, decode_long_le, decode_u16, decode_u8};
use crate::serialization::{encode_long_be, encode_long_le, extend_bytes, i8_parse, int_bytes};
use crate::serialization::{int_parse, long_be_bytes, long_be_parse, long_le_bytes, long_le_parse};
use crate::serialization::{text_bytes, text_extent, text_fits, text_span, u16_bytes, u16_parse};
use crate::serialization::{u8_parse, utf8_text, Int, Serializable};
use crate::varint::{as_unsigned, decode_varint, varint_bytes, varint_parse};

verus! {

/// The type of a field on the wire.
#[derive(Clone, Copy, Debug, PartialEq, Eq, Structural)]
pub enum FieldKind {
    /// A 32-bit integer of variable length.
    VarInt,
    /// One raw byte.
    U8,
    /// One signed byte.
    I8,
    /// Two bytes, least significant first.
    U16,
    /// A 32-bit integer in four bytes, least significant first.
    Int,
    /// A 64-bit integer, most significant byte first: tick counters.
    LongBe,
    /// A 64-bit integer, least significant byte first: payloads that are
    /// echoed back.
    LongLe,
    /// One byte: 1 is true, anything else false.
    Bool,
    /// A length-prefixed UTF-8 text.
    Text,
    /// A 128-bit identifier, as its hyphenated text.
    Identifier,
}

/// The value of one field.
#[derive(Debug, PartialEq, Eq)]
pub enum FieldValue {
    VarInt(i32),
    U8(u8),
    I8(i8),
    U16(u16),
    Int(Int),
    LongBe(i64),
    LongLe(i64),
    Bool(bool),
    Text(String),
    Identifier(Identifier),
}

/// What a field value stands for: the same value, a text by its characters.
pub enum FieldModel {
    VarInt(i32),
    U8(u8),
    I8(i8),
    U16(u16),
    Int(i32),
    LongBe(i64),
    LongLe(i64),
    Bool(bool),
    Text(Seq<char>),
    Identifier(u128),
}

impl View for FieldValue {
    type V = FieldModel;

    open spec fn view(&self) -> FieldModel {
        match self {
            FieldValue::VarInt(v) => FieldModel::VarInt(*v),
            FieldValue::U8(v) => FieldModel::U8(*v),
            FieldValue::I8(v) => FieldModel::I8(*v),
            FieldValue::U16(v) => FieldModel::U16(*v),
            FieldValue::Int(v) => FieldModel::Int(v.value),
            FieldValue::LongBe(v) => FieldModel::LongBe(*v),
            FieldValue::LongLe(v) => FieldModel::LongLe(*v),
            FieldValue::Bool(v) => FieldModel::Bool(*v),
            FieldValue::Text(v) => FieldModel::Text(v@),
            FieldValue::Identifier(v) => FieldModel::Identifier(v.value),
        }
    }
}

impl FieldModel {
    /// The number in a variable-length integer field; 0 in any other field.
    pub open spec fn number(self) -> i32 {
        match self {
            FieldModel::VarInt(v) => v,
            _ => 0,
        }
    }

    /// The byte in a raw byte field; 0 in any other field.
    pub open spec fn unsigned_byte(self) -> u8 {
        match self {
            FieldModel::U8(v) => v,
            _ => 0,
        }
    }

    /// The number in a signed byte field; 0 in any other field.
    pub open spec fn signed_byte(self) -> i8 {
        match self {
            FieldModel::I8(v) => v,
            _ => 0,
        }
    }

    /// The number in a 16-bit field; 0 in any other field.
    pub open spec fn unsigned_short(self) -> u16 {
        match self {
            FieldModel::U16(v) => v,
            _ => 0,
        }
    }

    /// The number in a fixed-width 32-bit field; 0 in any other field.
    pub open spec fn fixed_int(self) -> i32 {
        match self {
            FieldModel::Int(v) => v,
            _ => 0,
        }
    }

    /// The number in a 64-bit field of either byte order; 0 in any other
    /// field.
    pub open spec fn long(self) -> i64 {
        match self {
            FieldModel::LongBe(v) => v,
            FieldModel::LongLe(v) => v,
            _ => 0,
        }
    }

    /// The value of a boolean field; false in any other field.
    pub open spec fn boolean(self) -> bool {
        match self {
            FieldModel::Bool(v) => v,
            _ => false,
        }
    }

    /// The text in a text field; the empty text in any other field.
    pub open spec fn text(self) -> Seq<char> {
        match self {
            FieldModel::Text(v) => v,
            _ => Seq::empty(),
        }
    }

    /// The identifier in an identifier field; zero in any other field.
    pub open spec fn identifier(self) -> u128 {
        match self {
            FieldModel::Identifier(v) => v,
            _ => 0,
        }
    }
}

/// The values that a list of fields stands for.
pub open spec fn models(fields: Seq<FieldValue>) -> Seq<FieldModel> {
    fields.map_values(|f: FieldValue| f@)
}

/// The type of a value.
pub open spec fn kind_of(value: FieldModel) -> FieldKind {
    match value {
        FieldModel::VarInt(_) => FieldKind::VarInt,
        FieldModel::U8(_) => FieldKind::U8,
        FieldModel::I8(_) => FieldKind::I8,
        FieldModel::U16(_) => FieldKind::U16,
        FieldModel::Int(_) => FieldKind::Int,
        FieldModel::LongBe(_) => FieldKind::LongBe,
        FieldModel::LongLe(_) => FieldKind::LongLe,
        FieldModel::Bool(_) => FieldKind::Bool,
        FieldModel::Text(_) => FieldKind::Text,
        FieldModel::Identifier(_) => FieldKind::Identifier,
    }
}

/// The types of a list of values, in order: the schema that they fill.
pub open spec fn kinds_of(values: Seq<FieldModel>) -> Seq<FieldKind> {
    values.map_values(|v: FieldModel| kind_of(v))
}

/// The bytes of one field.
pub open spec fn field_bytes(value: FieldModel) -> Seq<u8> {
    match value {
        FieldModel::VarInt(v) => varint_bytes(as_unsigned(v)),
        FieldModel::U8(v) => seq![v],
        FieldModel::I8(v) => seq![byte_unsigned(v)],
        FieldModel::U16(v) => u16_bytes(v),
        FieldModel::Int(v) => int_bytes(v),
        FieldModel::LongBe(v) => long_be_bytes(v),
        FieldModel::LongLe(v) => long_le_bytes(v),
        FieldModel::Bool(v) => bool_bytes(v),
        FieldModel::Text(v) => text_bytes(v),
        FieldModel::Identifier(v) => identifier_bytes(v),
    }
}

/// The bytes of a list of fields: those of each, in order.
pub open spec fn fields_bytes(values: Seq<FieldModel>) -> Seq<u8>
    decreases values.len(),
{
    if values.len() == 0 {
        Seq::empty()
    } else {
        fields_bytes(values.drop_last()) + field_bytes(values.last())
    }
}

/// Whether a value can be read back from its bytes: a text must be short
/// enough for its length prefix.
pub open spec fn field_fits(value: FieldModel) -> bool {
    value matches FieldModel::Text(text) ==> text_fits(text)
}

/// Whether the values fill the schema `kinds`, each of them such that it
/// can be read back from its bytes.
pub open spec fn fields_fit(values: Seq<FieldModel>, kinds: Seq<FieldKind>) -> bool {
    &&& kinds_of(values) == kinds
    &&& forall|i: int| 0 <= i < values.len() ==> field_fits(#[trigger] values[i])
}

/// What reading one field of type `kind` at `start` gives: the value, the
/// position after it, and whether the value is a replacement. Only a text
/// can be replaced: where its bytes are not valid UTF-8, the field reads as
/// the empty text and reading goes on after those bytes. An identifier has
/// no replacement: one that cannot be read is malformed.
pub open spec fn field_parse(data: Seq<u8>, start: int, kind: FieldKind) -> Result<
    (FieldModel, int, bool),
    ProtocolError,
> {
    match kind {
        FieldKind::VarInt => match varint_parse(data, start) {
            Ok((v, next)) => Ok((FieldModel::VarInt(v), next, false)),
            Err(e) => Err(e),
        },
        FieldKind::U8 => match u8_parse(data, start) {
            Ok((v, next)) => Ok((FieldModel::U8(v), next, false)),
            Err(e) => Err(e),
        },
        FieldKind::I8 => match i8_parse(data, start) {
            Ok((v, next)) => Ok((FieldModel::I8(v), next, false)),
            Err(e) => Err(e),
        },
        FieldKind::U16 => match u16_parse(data, start) {
            Ok((v, next)) => Ok((FieldModel::U16(v), next, false)),
            Err(e) => Err(e),
        },
        FieldKind::Int => match int_parse(data, start) {
            Ok((v, next)) => Ok((FieldModel::Int(v), next, false)),
            Err(e) => Err(e),
        },
        FieldKind::LongBe => match long_be_parse(data, start) {
            Ok((v, next)) => Ok((FieldModel::LongBe(v), next, false)),
            Err(e) => Err(e),
        },
        FieldKind::LongLe => match long_le_parse(data, start) {
            Ok((v, next)) => Ok((FieldModel::LongLe(v), next, false)),
            Err(e) => Err(e),
        },
        FieldKind::Bool => match bool_parse(data, start) {
            Ok((v, next)) => Ok((FieldModel::Bool(v), next, false)),
            Err(e) => Err(e),
        },
        FieldKind::Text => match text_span(data, start) {
            Ok((from, to)) => {
                if valid_utf8(data.subrange(from, to)) {
                    Ok((FieldModel::Text(decode_utf8(data.subrange(from, to))), to, false))
                } else {
                    Ok((FieldModel::Text(Seq::empty()), to, true))
                }
            },
            Err(e) => Err(e),
        },
        FieldKind::Identifier => match identifier_parse(data, start) {
            Ok((v, next)) => Ok((FieldModel::Identifier(v), next, false)),
            Err(e) => Err(e),
        },
    }
}

/// The outcome of reading a list of fields.
pub struct FieldsParsed {
    /// The values, in the order of the schema.
    pub values: Seq<FieldModel>,
    /// The position after the last field.
    pub next: int,
    /// Whether any text was replaced by the empty text.
    pub replaced: bool,
}

/// What reading the fields of the schema `kinds` gives, one after the other
/// from `start` on. The first field that cannot be read ends the reading.
pub open spec fn fields_parse(data: Seq<u8>, start: int, kinds: Seq<FieldKind>) -> Result<
    FieldsParsed,
    ProtocolError,
>
    decreases kinds.len(),
{
    if kinds.len() == 0 {
        Ok(FieldsParsed { values: Seq::empty(), next: start, replaced: false })
    } else {
        match fields_parse(data, start, kinds.drop_last()) {
            Err(e) => Err(e),
            Ok(before) => match field_parse(data, before.next, kinds.last()) {
                Err(e) => Err(e),
                Ok((value, next, replaced)) => Ok(
                    FieldsParsed {
                        values: before.values.push(value),
                        next,
                        replaced: before.replaced || replaced,
                    },
                ),
            },
        }
    }
}

impl FieldValue {
    /// The type of this value.
    pub fn kind(&self) -> (kind: FieldKind)
        ensures
            kind == kind_of(self@),
    {
        match self {
            FieldValue::VarInt(_) => FieldKind::VarInt,
            FieldValue::U8(_) => FieldKind::U8,
            FieldValue::I8(_) => FieldKind::I8,
            FieldValue::U16(_) => FieldKind::U16,
            FieldValue::Int(_) => FieldKind::Int,
            FieldValue::LongBe(_) => FieldKind::LongBe,
            FieldValue::LongLe(_) => FieldKind::LongLe,
            FieldValue::Bool(_) => FieldKind::Bool,
            FieldValue::Text(_) => FieldKind::Text,
            FieldValue::Identifier(_) => FieldKind::Identifier,
        }
    }

    /// The number in a variable-length integer field; 0 for any other field.
    pub fn varint(&self) -> (v: i32)
        ensures
            v == self@.number(),
    {
        match self {
            FieldValue::VarInt(v) => *v,
            _ => 0,
        }
    }

    /// The byte in a raw byte field; 0 for any other field.
    pub fn unsigned_byte(&self) -> (v: u8)
        ensures
            v == self@.unsigned_byte(),
    {
        match self {
            FieldValue::U8(v) => *v,
            _ => 0,
        }
    }

    /// The number in a signed byte field; 0 for any other field.
    pub fn signed_byte(&self) -> (v: i8)
        ensures
            v == self@.signed_byte(),
    {
        match self {
            FieldValue::I8(v) => *v,
            _ => 0,
        }
    }

    /// The number in a 16-bit field; 0 for any other field.
    pub fn unsigned_short(&self) -> (v: u16)
        ensures
            v == self@.unsigned_short(),
    {
        match self {
            FieldValue::U16(v) => *v,
            _ => 0,
        }
    }

    /// The number in a fixed-width 32-bit field; 0 for any other field.
    pub fn fixed_int(&self) -> (v: Int)
        ensures
            v.value == self@.fixed_int(),
    {
        match self {
            FieldValue::Int(v) => *v,
            _ => Int { value: 0 },
        }
    }

    /// The number in a 64-bit field of either byte order; 0 for any other
    /// field.
    pub fn long(&self) -> (v: i64)
        ensures
            v == self@.long(),
    {
        match self {
            FieldValue::LongBe(v) => *v,
            FieldValue::LongLe(v) => *v,
            _ => 0,
        }
    }

    /// The value of a boolean field; false for any other field.
    pub fn boolean(&self) -> (v: bool)
        ensures
            v == self@.boolean(),
    {
        match self {
            FieldValue::Bool(v) => *v,
            _ => false,
        }
    }

    /// The text in a text field; the empty text for any other field.
    pub fn text(&self) -> (v: String)
        ensures
            v@ == self@.text(),
    {
        match self {
            FieldValue::Text(v) => v.clone(),
            _ => String::new(),
        }
    }

    /// The identifier in an identifier field; the zero identifier for any
    /// other field.
    pub fn identifier(&self) -> (v: Identifier)
        ensures
            v.value == self@.identifier(),
    {
        match self {
            FieldValue::Identifier(v) => *v,
            _ => Identifier { value: 0 },
        }
    }
}

impl Serializable for FieldValue {
    open spec fn wire(&self) -> Seq<u8> {
        field_bytes(self@)
    }

    fn serialize(&self) -> (out: Vec<u8>) {
        let out = match self {
            FieldValue::VarInt(v) => {
                assert(v.wire() == varint_bytes(as_unsigned(*v)));
                v.serialize()
            },
            FieldValue::U8(v) => {
                assert(v.wire() == seq![*v]);
                v.serialize()
            },
            FieldValue::I8(v) => {
                assert(v.wire() == seq![byte_unsigned(*v)]);
                v.serialize()
            },
            FieldValue::U16(v) => {
                assert(v.wire() == u16_bytes(*v));
                v.serialize()
            },
            FieldValue::Int(v) => {
                assert(v.wire() == int_bytes(v.value));
                v.serialize()
            },
            FieldValue::LongBe(v) => encode_long_be(*v),
            FieldValue::LongLe(v) => encode_long_le(*v),
            FieldValue::Bool(v) => {
                assert(v.wire() == bool_bytes(*v));
                v.serialize()
            },
            FieldValue::Text(v) => {
                assert(v.wire() == text_bytes(v@));
                v.serialize()
            },
            FieldValue::Identifier(v) => {
                assert(v.wire() == identifier_bytes(v.value));
                v.serialize()
            },
        };
        assert(self.wire() == field_bytes(self@));
        out
    }
}

/// Writes the fields one after the other.
pub fn serialize_fields(fields: &Vec<FieldValue>) -> (out: Vec<u8>)
    ensures
        out@ == fields_bytes(models(fields@)),
{
    let mut out: Vec<u8> = Vec::new();
    let mut i: usize = 0;
    while i < fields.len()
        invariant
            i <= fields.len(),
            out@ == fields_bytes(models(fields@.take(i as int))),
        decreases fields.len() - i,
    {
        let bytes = fields[i].serialize();
        assert(fields[i as int].wire() == field_bytes(fields[i as int]@));
        proof {
            let upto = models(fields@.take(i + 1));
            assert(upto.drop_last() =~= models(fields@.take(i as int)));
            assert(upto.last() == fields@[i as int]@);
        }
        extend_bytes(&mut out, bytes.as_slice());
        i += 1;
    }
    assert(fields@.take(i as int) =~= fields@);
    out
}

/// Reads one field of type `kind`.
pub fn decode_field(data: &[u8], start: usize, kind: FieldKind) -> (r: Result<
    (FieldValue, usize, bool),
    ProtocolError,
>)
    ensures
        match r {
            Ok((value, next, replaced)) => field_parse(data@, start as int, kind) == Ok::<
                (FieldModel, int, bool),
                ProtocolError,
            >((value@, next as int, replaced)),
            Err(e) => field_parse(data@, start as int, kind) == Err::<
                (FieldModel, int, bool),
                ProtocolError,
            >(e),
        },
{
    match kind {
        FieldKind::VarInt => match decode_varint(data, start) {
            Ok((v, next)) => Ok((FieldValue::VarInt(v), next, false)),
            Err(e) => Err(e),
        },
        FieldKind::U8 => match decode_u8(data, start) {
            Ok((v, next)) => Ok((FieldValue::U8(v), next, false)),
            Err(e) => Err(e),
        },
        FieldKind::I8 => match decode_i8(data, start) {
            Ok((v, next)) => Ok((FieldValue::I8(v), next, false)),
            Err(e) => Err(e),
        },
        FieldKind::U16 => match decode_u16(data, start) {
            Ok((v, next)) => Ok((FieldValue::U16(v), next, false)),
            Err(e) => Err(e),
        },
        FieldKind::Int => match decode_int(data, start) {
            Ok((v, next)) => Ok((FieldValue::Int(v), next, false)),
            Err(e) => Err(e),
        },
        FieldKind::LongBe => match decode_long_be(data, start) {
            Ok((v, next)) => Ok((FieldValue::LongBe(v), next, false)),
            Err(e) => Err(e),
        },
        FieldKind::LongLe => match decode_long_le(data, start) {
            Ok((v, next)) => Ok((FieldValue::LongLe(v), next, false)),
            Err(e) => Err(e),
        },
        FieldKind::Bool => match decode_bool(data, start) {
            Ok((v, next)) => Ok((FieldValue::Bool(v), next, false)),
            Err(e) => Err(e),
        },
        FieldKind::Text => match text_extent(data, start) {
            Ok((from, to)) => match utf8_text(slice_subrange(data, from, to)) {
                Some(s) => Ok((FieldValue::Text(s.to_owned()), to, false)),
                None => Ok((FieldValue::Text(String::new()), to, true)),
            },
            Err(e) => Err(e),
        },
        FieldKind::Identifier => match decode_identifier(data, start) {
            Ok((v, next)) => Ok((FieldValue::Identifier(v), next, false)),
            Err(e) => Err(e),
        },
    }
}

/// The fields read so far, with the position reached.
#[derive(Debug, PartialEq, Eq)]
pub struct FieldsDecoded {
    pub fields: Vec<FieldValue>,
    pub next: usize,
    pub replaced: bool,
}

impl View for FieldsDecoded {
    type V = FieldsParsed;

    open spec fn view(&self) -> FieldsParsed {
        FieldsParsed {
            values: models(self.fields@),
            next: self.next as int,
            replaced: self.replaced,
        }
    }
}

/// Reads the fields of the schema `kinds`, one after the other from `start`
/// on.
pub fn decode_fields(data: &[u8], start: usize, kinds: &Vec<FieldKind>) -> (r: Result<
    FieldsDecoded,
    ProtocolError,
>)
    ensures
        match r {
            Ok(decoded) => fields_parse(data@, start as int, kinds@) == Ok::<
                FieldsParsed,
                ProtocolError,
            >(decoded@),
            Err(e) => fields_parse(data@, start as int, kinds@) == Err::<
                FieldsParsed,
                ProtocolError,
            >(e),
        },
{
    let mut state = FieldsDecoded { fields: Vec::new(), next: start, replaced: false };
    let mut i: usize = 0;
    assert(models(state.fields@) =~= Seq::empty());
    while i < kinds.len()
        invariant
            i <= kinds.len(),
            fields_parse(data@, start as int, kinds@.take(i as int)) == Ok::<
                FieldsParsed,
                ProtocolError,
            >(state@),
        decreases kinds.len() - i,
    {
        proof {
            assert(kinds@.take(i + 1).drop_last() =~= kinds@.take(i as int));
            assert(kinds@.take(i + 1).last() == kinds@[i as int]);
        }
        match decode_field(data, state.next, kinds[i]) {
            Err(e) => {
                proof {
                    lemma_fields_parse_error(data@, start as int, kinds@, i + 1);
                }
                return Err(e);
            },
            Ok((value, next, replaced)) => {
                proof {
                    assert(models(state.fields@.push(value)) =~= models(state.fields@).push(
                        value@,
                    ));
                }
                state.fields.push(value);
                state.next = next;
                state.replaced = state.replaced || replaced;
            },
        }
        i += 1;
    }
    assert(kinds@.take(i as int) =~= kinds@);
    Ok(state)
}

/// Reading stops at the first field that cannot be read: an error among
/// the first `n` fields is the error of the whole schema.
proof fn lemma_fields_parse_error(data: Seq<u8>, start: int, kinds: Seq<FieldKind>, n: int)
    requires
        0 <= n <= kinds.len(),
        fields_parse(data, start, kinds.take(n)) is Err,
    ensures
        fields_parse(data, start, kinds) == fields_parse(data, start, kinds.take(n)),
    decreases kinds.len() - n,
{
    if n < kinds.len() {
        assert(kinds.take(n + 1).drop_last() =~= kinds.take(n));
        lemma_fields_parse_error(data, start, kinds, n + 1);
    } else {
        assert(kinds.take(n) =~= kinds);
    }
}

/// A field that was read has the type that was asked for.
pub proof fn lemma_field_parse_kind(data: Seq<u8>, start: int, kind: FieldKind)
    ensures
        field_parse(data, start, kind) matches Ok((value, _, _)) ==> kind_of(value) == kind,
{
}

/// Fields that were read fill the schema by which they were read.
pub proof fn lemma_fields_parse_kinds(data: Seq<u8>, start: int, kinds: Seq<FieldKind>)
    ensures
        fields_parse(data, start, kinds) matches Ok(parsed) ==> kinds_of(parsed.values) == kinds,
    decreases kinds.len(),
{
    if kinds.len() == 0 {
        assert(kinds_of(Seq::<FieldModel>::empty()) =~= kinds);
    } else {
        lemma_fields_parse_kinds(data, start, kinds.drop_last());
        match fields_parse(data, start, kinds.drop_last()) {
            Ok(before) => {
                lemma_field_parse_kind(data, before.next, kinds.last());
                match field_parse(data, before.next, kinds.last()) {
                    Ok((value, _, _)) => {
                        assert(kinds_of(before.values.push(value)) =~= kinds_of(
                            before.values,
                        ).push(kind_of(value)));
                        assert(kinds.drop_last().push(kinds.last()) =~= kinds);
                    },
                    Err(_) => {},
                }
            },
            Err(_) => {},
        }
    }
}

} // verus!
