//! Packet frames. A frame is a length, a packet id and the packet's fields:
//! `VarInt(length) | VarInt(id) | fields`, where the length counts the bytes
//! of the id and of the fields, not its own.

use vstd::prelude::*;
use crate::error::ProtocolError;
use crate::field::{decode_fields, field_fits, fields_bytes, fields_parse, lemma_fields_parse_kinds};
use crate::field::{kinds_of, models, serialize_fields, FieldKind, FieldModel, FieldValue};
use crate::serialization::{extend_bytes, text_extent, text_span, Serializable};
use crate::varint::{as_unsigned, decode_varint, encode_varint, lemma_cast_low_bits};
use crate::varint::{lemma_cast_unsigned, varint_bytes, varint_parse};

verus! {

/// The frame around a payload: the number of bytes that the id and the
/// payload take together, the id, the payload. The length is written
/// modulo 2^32, the most that the prefix can hold.
pub open spec fn framed(id: i32, payload: Seq<u8>) -> Seq<u8> {
    let body = varint_bytes(as_unsigned(id)) + payload;
    varint_bytes((body.len() % 0x1_0000_0000) as u32) + body
}

/// The id and the fields of a packet: what a frame's length counts.
pub open spec fn body_bytes(id: i32, values: Seq<FieldModel>) -> Seq<u8> {
    varint_bytes(as_unsigned(id)) + fields_bytes(values)
}

/// A whole frame: the fields of a packet in their frame.
pub open spec fn frame_bytes(id: i32, values: Seq<FieldModel>) -> Seq<u8> {
    framed(id, fields_bytes(values))
}

/// Whether a packet can be read back from its frame: each field can, and
/// the length prefix can hold the length of the body.
pub open spec fn frame_fits(id: i32, values: Seq<FieldModel>) -> bool {
    &&& forall|i: int| 0 <= i < values.len() ==> field_fits(#[trigger] values[i])
    &&& body_bytes(id, values).len() < 0x1_0000_0000
}

/// A packet as read from a frame.
#[derive(Debug, PartialEq, Eq)]
pub struct Decoded {
    /// The packet id.
    pub id: i32,
    /// The fields, in the order of the schema.
    pub fields: Vec<FieldValue>,
    /// Whether a text with invalid UTF-8 was replaced by the empty text: the
    /// packet can be used, and the caller may report the fault.
    pub replaced: bool,
}

/// What a packet read from a frame stands for.
pub struct DecodedModel {
    pub id: i32,
    pub values: Seq<FieldModel>,
    pub replaced: bool,
}

impl View for Decoded {
    type V = DecodedModel;

    open spec fn view(&self) -> DecodedModel {
        DecodedModel { id: self.id, values: models(self.fields@), replaced: self.replaced }
    }
}

/// Within a frame every byte is accounted for: a field that would run past
/// the end of the frame breaks the protocol.
pub open spec fn within_frame(e: ProtocolError) -> ProtocolError {
    if e == ProtocolError::TruncatedInput {
        ProtocolError::ProtocolViolation
    } else {
        e
    }
}

/// What reading a payload gives: the fields of the schema `kinds`, which
/// must fill the payload from its first byte to its last.
pub open spec fn payload_fields(data: Seq<u8>, kinds: Seq<FieldKind>) -> Result<
    (Seq<FieldModel>, bool),
    ProtocolError,
> {
    match fields_parse(data, 0, kinds) {
        Err(e) => Err(within_frame(e)),
        Ok(parsed) => {
            if parsed.next == data.len() {
                Ok((parsed.values, parsed.replaced))
            } else {
                Err(ProtocolError::ProtocolViolation)
            }
        },
    }
}

/// What reading a packet gives from a buffer that holds, from `start` to
/// its end, the id and the fields. The fields must end where the buffer
/// ends: missing and trailing bytes both break the protocol.
pub open spec fn body_parse(data: Seq<u8>, start: int, kinds: Seq<FieldKind>) -> Result<
    DecodedModel,
    ProtocolError,
> {
    match varint_parse(data, start) {
        Err(e) => Err(within_frame(e)),
        Ok((id, from)) => match fields_parse(data, from, kinds) {
            Err(e) => Err(within_frame(e)),
            Ok(parsed) => {
                if parsed.next == data.len() {
                    Ok(DecodedModel { id, values: parsed.values, replaced: parsed.replaced })
                } else {
                    Err(ProtocolError::ProtocolViolation)
                }
            },
        },
    }
}

/// What reading a whole frame gives. A length prefix that cannot be read,
/// or that asks for more bytes than the buffer holds, leaves the frame
/// incomplete; bytes beyond the declared length break the protocol.
pub open spec fn frame_parse(data: Seq<u8>, kinds: Seq<FieldKind>) -> Result<
    DecodedModel,
    ProtocolError,
> {
    match varint_parse(data, 0) {
        Err(_) => Err(ProtocolError::TruncatedInput),
        Ok((declared, from)) => {
            if from + as_unsigned(declared) > data.len() {
                Err(ProtocolError::TruncatedInput)
            } else if from + as_unsigned(declared) < data.len() {
                Err(ProtocolError::ProtocolViolation)
            } else {
                body_parse(data, from, kinds)
            }
        },
    }
}

/// Where the frame that begins at `start` lies in a buffer of received
/// bytes: the id and the fields take as many bytes behind the length as the
/// length says. A frame of which the buffer does not yet hold every byte is
/// incomplete, and reads as truncated.
pub open spec fn frame_span(data: Seq<u8>, start: int) -> Result<(int, int), ProtocolError> {
    text_span(data, start)
}

/// Puts the frame around a payload.
pub fn frame(id: i32, payload: &[u8]) -> (out: Vec<u8>)
    ensures
        out@ == framed(id, payload@),
{
    let mut body = id.serialize();
    assert(id.wire() == varint_bytes(as_unsigned(id)));
    extend_bytes(&mut body, payload);
    let n: u64 = body.len() as u64;
    let prefix: u32 = #[verifier::truncate] (n as u32);
    proof {
        lemma_cast_low_bits(n);
    }
    let mut out = encode_varint(prefix);
    extend_bytes(&mut out, body.as_slice());
    out
}

/// Builds the frame of the packet `id` with these fields: the fields in
/// order behind the id, and in front of both the number of bytes that they
/// take together.
pub fn serialize(id: i32, fields: &Vec<FieldValue>) -> (out: Vec<u8>)
    ensures
        out@ == frame_bytes(id, models(fields@)),
{
    let payload = serialize_fields(fields);
    frame(id, payload.as_slice())
}

/// The error that a reading error inside a frame amounts to.
pub fn in_frame(e: ProtocolError) -> (r: ProtocolError)
    ensures
        r == within_frame(e),
{
    match e {
        ProtocolError::TruncatedInput => ProtocolError::ProtocolViolation,
        _ => e,
    }
}

/// Reads the fields of the schema `kinds` from a payload: the bytes of a
/// frame behind the packet id. Returns the fields, and whether a text was
/// replaced by the empty text.
pub fn read_payload(data: &[u8], kinds: &Vec<FieldKind>) -> (r: Result<
    (Vec<FieldValue>, bool),
    ProtocolError,
>)
    ensures
        match r {
            Ok((fields, replaced)) => {
                &&& payload_fields(data@, kinds@) == Ok::<(Seq<FieldModel>, bool), ProtocolError>(
                    (models(fields@), replaced),
                )
                &&& kinds_of(models(fields@)) == kinds@
                &&& fields@.len() == kinds@.len()
            },
            Err(e) => payload_fields(data@, kinds@) == Err::<
                (Seq<FieldModel>, bool),
                ProtocolError,
            >(e),
        },
{
    proof {
        lemma_fields_parse_kinds(data@, 0, kinds@);
    }
    match decode_fields(data, 0, kinds) {
        Err(e) => Err(in_frame(e)),
        Ok(decoded) => {
            if decoded.next == data.len() {
                assert(kinds_of(models(decoded.fields@)).len() == decoded.fields@.len());
                Ok((decoded.fields, decoded.replaced))
            } else {
                Err(ProtocolError::ProtocolViolation)
            }
        },
    }
}

/// Reads a packet from a buffer that holds, from `start` to its end, the
/// packet id and then the fields of the schema `kinds`.
pub fn decode_body(data: &[u8], start: usize, kinds: &Vec<FieldKind>) -> (r: Result<
    Decoded,
    ProtocolError,
>)
    ensures
        match r {
            Ok(decoded) => body_parse(data@, start as int, kinds@) == Ok::<
                DecodedModel,
                ProtocolError,
            >(decoded@),
            Err(e) => body_parse(data@, start as int, kinds@) == Err::<
                DecodedModel,
                ProtocolError,
            >(e),
        },
{
    match decode_varint(data, start) {
        Err(e) => Err(in_frame(e)),
        Ok((id, from)) => match decode_fields(data, from, kinds) {
            Err(e) => Err(in_frame(e)),
            Ok(decoded) => {
                if decoded.next == data.len() {
                    Ok(Decoded { id, fields: decoded.fields, replaced: decoded.replaced })
                } else {
                    Err(ProtocolError::ProtocolViolation)
                }
            },
        },
    }
}

/// Reads the packet that the frame in `buffer` holds, by the schema
/// `kinds`. The buffer must hold exactly one frame.
pub fn deserialize(buffer: &[u8], kinds: &Vec<FieldKind>) -> (r: Result<Decoded, ProtocolError>)
    ensures
        match r {
            Ok(decoded) => frame_parse(buffer@, kinds@) == Ok::<DecodedModel, ProtocolError>(
                decoded@,
            ),
            Err(e) => frame_parse(buffer@, kinds@) == Err::<DecodedModel, ProtocolError>(e),
        },
{
    match decode_varint(buffer, 0) {
        Err(_) => Err(ProtocolError::TruncatedInput),
        Ok((declared, from)) => {
            let len: u32 = #[verifier::truncate] (declared as u32);
            proof {
                lemma_cast_unsigned(declared);
            }
            let rest: u64 = (buffer.len() - from) as u64;
            if len as u64 > rest {
                Err(ProtocolError::TruncatedInput)
            } else if (len as u64) < rest {
                Err(ProtocolError::ProtocolViolation)
            } else {
                decode_body(buffer, from, kinds)
            }
        },
    }
}

/// Finds the frame that begins at `start` in a buffer of received bytes,
/// and returns where its id begins and where its fields end. Nothing of an
/// incomplete frame is handed out.
pub fn next_frame(buffer: &[u8], start: usize) -> (r: Result<(usize, usize), ProtocolError>)
    ensures
        match r {
            Ok((from, to)) => frame_span(buffer@, start as int) == Ok::<(int, int), ProtocolError>(
                (from as int, to as int),
            ) && start < from <= to <= buffer@.len(),
            Err(e) => frame_span(buffer@, start as int) == Err::<(int, int), ProtocolError>(e) && (e
                == ProtocolError::TruncatedInput || e == ProtocolError::Malformed),
        },
{
    text_extent(buffer, start)
}

} // verus!
