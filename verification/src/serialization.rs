//! The field codec: how each primitive field type is written to the wire and
//! read back from it.
//!
//! Every decoder takes the buffer and the position at which the field
//! begins, and returns the value with the position after the field. None
//! reads outside the buffer.

use vstd::prelude::*;
use vstd::slice::slice_subrange;
use vstd::utf8::{decode_utf8, encode_utf8, valid_utf8};
use vstd::utf8::{encode_utf8_decode_utf8, encode_utf8_valid_utf8};
use crate::error::ProtocolError;
use crate::varint::{as_signed, as_unsigned, decode_varint, encode_varint};
use crate::varint::{lemma_cast_low_bits, lemma_cast_signed, lemma_cast_unsigned};
use crate::varint::{lemma_signed_unsigned, lemma_varint_len, lemma_varint_parse_encoded};
use crate::varint::{varint_bytes, varint_len, varint_parse};

verus! {

/// A value that has a form on the wire.
pub trait Serializable {
    /// The bytes that stand for the value on the wire.
    spec fn wire(&self) -> Seq<u8>;

    /// Writes the value as its wire bytes.
    fn serialize(&self) -> (out: Vec<u8>)
        ensures
            out@ == self.wire(),
    ;
}

/// A 32-bit integer of fixed width: four bytes on the wire, least
/// significant first.
#[derive(Clone, Copy, Debug, PartialEq, Eq, Structural)]
pub struct Int {
    pub value: i32,
}

impl Default for Int {
    fn default() -> (r: Self)
        ensures
            r.value == 0,
    {
        Int { value: 0 }
    }
}

/// Appends `more` to `out`.
pub fn extend_bytes(out: &mut Vec<u8>, more: &[u8])
    ensures
        final(out)@ == old(out)@ + more@,
{
    let mut i: usize = 0;
    while i < more.len()
        invariant
            i <= more.len(),
            out@ == old(out)@ + more@.take(i as int),
        decreases more.len() - i,
    {
        assert(more@.take(i as int).push(more@[i as int]) =~= more@.take(i + 1));
        out.push(more[i]);
        i += 1;
    }
    assert(more@.take(i as int) =~= more@);
}

/// The bits of a byte-sized signed number, read as unsigned.
pub open spec fn byte_unsigned(v: i8) -> u8 {
    if v >= 0 {
        v as u8
    } else {
        (v + 0x100) as u8
    }
}

/// The bits of a byte, read as a two's-complement number.
pub open spec fn byte_signed(b: u8) -> i8 {
    if b < 0x80 {
        b as i8
    } else {
        (b - 0x100) as i8
    }
}

/// The bits of a 64-bit signed number, read as unsigned.
pub open spec fn long_unsigned(v: i64) -> u64 {
    if v >= 0 {
        v as u64
    } else {
        (v + 0x1_0000_0000_0000_0000) as u64
    }
}

/// The bits of a 64-bit unsigned number, read as two's complement.
pub open spec fn long_signed(u: u64) -> i64 {
    if u < 0x8000_0000_0000_0000 {
        u as i64
    } else {
        (u - 0x1_0000_0000_0000_0000) as i64
    }
}

/// The machine's casts between the signed and the unsigned byte keep the
/// bits.
pub proof fn lemma_byte_casts(v: i8, b: u8)
    by (bit_vector)
    ensures
        v as u8 == byte_unsigned(v),
        b as i8 == byte_signed(b),
{
}

/// The machine's casts between the signed and the unsigned 64-bit type
/// keep the bits.
pub proof fn lemma_long_casts(v: i64, u: u64)
    by (bit_vector)
    ensures
        v as u64 == long_unsigned(v),
        u as i64 == long_signed(u),
{
}

/// A boolean on the wire: one byte, 1 for true and 0 for false.
pub open spec fn bool_bytes(v: bool) -> Seq<u8> {
    seq![if v { 1u8 } else { 0u8 }]
}

/// A 16-bit number on the wire: two bytes, least significant first.
pub open spec fn u16_bytes(v: u16) -> Seq<u8> {
    seq![(v % 0x100) as u8, (v / 0x100) as u8]
}

/// The four bytes of a 32-bit number, least significant first.
pub open spec fn int_bytes(v: i32) -> Seq<u8> {
    let u = as_unsigned(v);
    seq![
        (u % 0x100) as u8,
        (u / 0x100 % 0x100) as u8,
        (u / 0x1_0000 % 0x100) as u8,
        (u / 0x100_0000) as u8,
    ]
}

/// The eight bytes of a 64-bit number, most significant first.
pub open spec fn long_be_bytes(v: i64) -> Seq<u8> {
    let u = long_unsigned(v);
    seq![
        (u / 0x100_0000_0000_0000) as u8,
        (u / 0x1_0000_0000_0000 % 0x100) as u8,
        (u / 0x100_0000_0000 % 0x100) as u8,
        (u / 0x1_0000_0000 % 0x100) as u8,
        (u / 0x100_0000 % 0x100) as u8,
        (u / 0x1_0000 % 0x100) as u8,
        (u / 0x100 % 0x100) as u8,
        (u % 0x100) as u8,
    ]
}

/// The eight bytes of a 64-bit number, least significant first.
pub open spec fn long_le_bytes(v: i64) -> Seq<u8> {
    long_be_bytes(v).reverse()
}

/// A text on the wire: the length of its UTF-8 form in bytes as a
/// variable-length integer, then those bytes. The length is written modulo
/// 2^32, the most that the prefix can hold.
pub open spec fn text_bytes(text: Seq<char>) -> Seq<u8> {
    let body = encode_utf8(text);
    varint_bytes((body.len() % 0x1_0000_0000) as u32) + body
}

/// Whether the length prefix can hold the length of `text`.
pub open spec fn text_fits(text: Seq<char>) -> bool {
    encode_utf8(text).len() < 0x1_0000_0000
}

impl Serializable for Int {
    open spec fn wire(&self) -> Seq<u8> {
        int_bytes(self.value)
    }

    fn serialize(&self) -> (out: Vec<u8>) {
        let u: u32 = #[verifier::truncate] (self.value as u32);
        proof {
            lemma_cast_unsigned(self.value);
        }
        let mut out: Vec<u8> = Vec::new();
        out.push((u % 0x100) as u8);
        out.push((u / 0x100 % 0x100) as u8);
        out.push((u / 0x1_0000 % 0x100) as u8);
        out.push((u / 0x100_0000) as u8);
        assert(out@ =~= int_bytes(self.value));
        assert(self.wire() == int_bytes(self.value));
        out
    }
}

impl Serializable for i32 {
    /// A plain 32-bit integer travels as a variable-length integer.
    open spec fn wire(&self) -> Seq<u8> {
        varint_bytes(as_unsigned(*self))
    }

    fn serialize(&self) -> (out: Vec<u8>) {
        let v: i32 = *self;
        let u: u32 = #[verifier::truncate] (v as u32);
        proof {
            lemma_cast_unsigned(v);
        }
        let out = encode_varint(u);
        assert(self.wire() == varint_bytes(u));
        out
    }
}

impl Serializable for String {
    open spec fn wire(&self) -> Seq<u8> {
        text_bytes(self@)
    }

    fn serialize(&self) -> (out: Vec<u8>) {
        let bytes = self.as_str().as_bytes();
        let n: u64 = bytes.len() as u64;
        let prefix: u32 = #[verifier::truncate] (n as u32);
        proof {
            lemma_cast_low_bits(n);
        }
        let mut out = encode_varint(prefix);
        extend_bytes(&mut out, bytes);
        assert(self.wire() == text_bytes(self@));
        out
    }
}

impl Serializable for u16 {
    open spec fn wire(&self) -> Seq<u8> {
        u16_bytes(*self)
    }

    fn serialize(&self) -> (out: Vec<u8>) {
        let mut out: Vec<u8> = Vec::new();
        out.push((*self % 0x100) as u8);
        out.push((*self / 0x100) as u8);
        assert(out@ =~= u16_bytes(*self));
        assert(self.wire() == u16_bytes(*self));
        out
    }
}

/// Writes `v` as eight bytes, most significant first.
pub fn encode_long_be(v: i64) -> (out: Vec<u8>)
    ensures
        out@ == long_be_bytes(v),
{
    let u: u64 = #[verifier::truncate] (v as u64);
    proof {
        lemma_long_casts(v, 0);
    }
    let mut out: Vec<u8> = Vec::new();
    out.push((u / 0x100_0000_0000_0000) as u8);
    out.push((u / 0x1_0000_0000_0000 % 0x100) as u8);
    out.push((u / 0x100_0000_0000 % 0x100) as u8);
    out.push((u / 0x1_0000_0000 % 0x100) as u8);
    out.push((u / 0x100_0000 % 0x100) as u8);
    out.push((u / 0x1_0000 % 0x100) as u8);
    out.push((u / 0x100 % 0x100) as u8);
    out.push((u % 0x100) as u8);
    assert(out@ =~= long_be_bytes(v));
    out
}

/// Writes `v` as eight bytes, least significant first.
pub fn encode_long_le(v: i64) -> (out: Vec<u8>)
    ensures
        out@ == long_le_bytes(v),
{
    let u: u64 = #[verifier::truncate] (v as u64);
    proof {
        lemma_long_casts(v, 0);
    }
    let mut out: Vec<u8> = Vec::new();
    out.push((u % 0x100) as u8);
    out.push((u / 0x100 % 0x100) as u8);
    out.push((u / 0x1_0000 % 0x100) as u8);
    out.push((u / 0x100_0000 % 0x100) as u8);
    out.push((u / 0x1_0000_0000 % 0x100) as u8);
    out.push((u / 0x100_0000_0000 % 0x100) as u8);
    out.push((u / 0x1_0000_0000_0000 % 0x100) as u8);
    out.push((u / 0x100_0000_0000_0000) as u8);
    assert(out@ =~= long_le_bytes(v));
    out
}

impl Serializable for i64 {
    /// A plain 64-bit integer travels most significant byte first.
    open spec fn wire(&self) -> Seq<u8> {
        long_be_bytes(*self)
    }

    fn serialize(&self) -> (out: Vec<u8>) {
        let out = encode_long_be(*self);
        assert(self.wire() == long_be_bytes(*self));
        out
    }
}

impl Serializable for u8 {
    open spec fn wire(&self) -> Seq<u8> {
        seq![*self]
    }

    fn serialize(&self) -> (out: Vec<u8>) {
        let mut out: Vec<u8> = Vec::new();
        out.push(*self);
        assert(out@ =~= seq![*self]);
        assert(self.wire() == seq![*self]);
        out
    }
}

impl Serializable for i8 {
    open spec fn wire(&self) -> Seq<u8> {
        seq![byte_unsigned(*self)]
    }

    fn serialize(&self) -> (out: Vec<u8>) {
        let b: u8 = #[verifier::truncate] (*self as u8);
        proof {
            lemma_byte_casts(*self, 0);
        }
        let mut out: Vec<u8> = Vec::new();
        out.push(b);
        assert(out@ =~= seq![byte_unsigned(*self)]);
        assert(self.wire() == seq![byte_unsigned(*self)]);
        out
    }
}

impl Serializable for bool {
    open spec fn wire(&self) -> Seq<u8> {
        bool_bytes(*self)
    }

    fn serialize(&self) -> (out: Vec<u8>) {
        let mut out: Vec<u8> = Vec::new();
        out.push(if *self { 1u8 } else { 0u8 });
        assert(out@ =~= bool_bytes(*self));
        assert(self.wire() == bool_bytes(*self));
        out
    }
}

/// Whether `n` bytes from `start` on lie within a buffer of `len` bytes.
pub open spec fn in_bounds(len: nat, start: int, n: nat) -> bool {
    0 <= start && start + n <= len
}

/// What reading one raw byte at `start` gives.
pub open spec fn u8_parse(data: Seq<u8>, start: int) -> Result<(u8, int), ProtocolError> {
    if in_bounds(data.len(), start, 1) {
        Ok((data[start], start + 1))
    } else {
        Err(ProtocolError::TruncatedInput)
    }
}

/// What reading one signed byte at `start` gives.
pub open spec fn i8_parse(data: Seq<u8>, start: int) -> Result<(i8, int), ProtocolError> {
    if in_bounds(data.len(), start, 1) {
        Ok((byte_signed(data[start]), start + 1))
    } else {
        Err(ProtocolError::TruncatedInput)
    }
}

/// What reading a boolean at `start` gives: true for the byte 1, false for
/// every other byte.
pub open spec fn bool_parse(data: Seq<u8>, start: int) -> Result<(bool, int), ProtocolError> {
    if in_bounds(data.len(), start, 1) {
        Ok((data[start] == 1, start + 1))
    } else {
        Err(ProtocolError::TruncatedInput)
    }
}

/// What reading a 16-bit number at `start` gives.
pub open spec fn u16_parse(data: Seq<u8>, start: int) -> Result<(u16, int), ProtocolError> {
    if in_bounds(data.len(), start, 2) {
        Ok(((data[start] + 0x100 * data[start + 1]) as u16, start + 2))
    } else {
        Err(ProtocolError::TruncatedInput)
    }
}

/// The number that four bytes from `start` on make, least significant first.
pub open spec fn le_value4(data: Seq<u8>, start: int) -> u32 {
    (data[start] + 0x100 * data[start + 1] + 0x1_0000 * data[start + 2] + 0x100_0000 * data[start
        + 3]) as u32
}

/// The number that eight bytes from `start` on make, most significant first.
pub open spec fn be_value8(data: Seq<u8>, start: int) -> u64 {
    (0x100_0000_0000_0000 * data[start] + 0x1_0000_0000_0000 * data[start + 1] + 0x100_0000_0000
        * data[start + 2] + 0x1_0000_0000 * data[start + 3] + 0x100_0000 * data[start + 4]
        + 0x1_0000 * data[start + 5] + 0x100 * data[start + 6] + data[start + 7]) as u64
}

/// The number that eight bytes from `start` on make, least significant first.
pub open spec fn le_value8(data: Seq<u8>, start: int) -> u64 {
    (data[start] + 0x100 * data[start + 1] + 0x1_0000 * data[start + 2] + 0x100_0000 * data[start
        + 3] + 0x1_0000_0000 * data[start + 4] + 0x100_0000_0000 * data[start + 5]
        + 0x1_0000_0000_0000 * data[start + 6] + 0x100_0000_0000_0000 * data[start + 7]) as u64
}

/// What reading a fixed-width 32-bit number at `start` gives.
pub open spec fn int_parse(data: Seq<u8>, start: int) -> Result<(i32, int), ProtocolError> {
    if in_bounds(data.len(), start, 4) {
        Ok((as_signed(le_value4(data, start) as nat), start + 4))
    } else {
        Err(ProtocolError::TruncatedInput)
    }
}

/// What reading a 64-bit number at `start` gives, most significant byte
/// first.
pub open spec fn long_be_parse(data: Seq<u8>, start: int) -> Result<(i64, int), ProtocolError> {
    if in_bounds(data.len(), start, 8) {
        Ok((long_signed(be_value8(data, start)), start + 8))
    } else {
        Err(ProtocolError::TruncatedInput)
    }
}

/// What reading a 64-bit number at `start` gives, least significant byte
/// first.
pub open spec fn long_le_parse(data: Seq<u8>, start: int) -> Result<(i64, int), ProtocolError> {
    if in_bounds(data.len(), start, 8) {
        Ok((long_signed(le_value8(data, start)), start + 8))
    } else {
        Err(ProtocolError::TruncatedInput)
    }
}

/// Where the bytes of the text that begins at `start` lie: from the end of
/// the length prefix, as many bytes as the prefix says. The prefix is read
/// as an unsigned number. A text that would run past the end of the buffer
/// is truncated.
pub open spec fn text_span(data: Seq<u8>, start: int) -> Result<(int, int), ProtocolError> {
    match varint_parse(data, start) {
        Err(e) => Err(e),
        Ok((declared, from)) => {
            if from + as_unsigned(declared) > data.len() {
                Err(ProtocolError::TruncatedInput)
            } else {
                Ok((from, from + as_unsigned(declared)))
            }
        },
    }
}

/// What reading a text at `start` gives: the characters that its bytes
/// encode, where those bytes are valid UTF-8.
pub open spec fn text_parse(data: Seq<u8>, start: int) -> Result<(Seq<char>, int), ProtocolError> {
    match text_span(data, start) {
        Err(e) => Err(e),
        Ok((from, to)) => {
            if valid_utf8(data.subrange(from, to)) {
                Ok((decode_utf8(data.subrange(from, to)), to))
            } else {
                Err(ProtocolError::InvalidUtf8)
            }
        },
    }
}

/// Reads one raw byte.
pub fn decode_u8(data: &[u8], start: usize) -> (r: Result<(u8, usize), ProtocolError>)
    ensures
        match r {
            Ok((value, next)) => u8_parse(data@, start as int) == Ok::<(u8, int), ProtocolError>(
                (value, next as int),
            ),
            Err(e) => u8_parse(data@, start as int) == Err::<(u8, int), ProtocolError>(e),
        },
{
    if start < data.len() {
        Ok((data[start], start + 1))
    } else {
        Err(ProtocolError::TruncatedInput)
    }
}

/// Reads one signed byte.
pub fn decode_i8(data: &[u8], start: usize) -> (r: Result<(i8, usize), ProtocolError>)
    ensures
        match r {
            Ok((value, next)) => i8_parse(data@, start as int) == Ok::<(i8, int), ProtocolError>(
                (value, next as int),
            ),
            Err(e) => i8_parse(data@, start as int) == Err::<(i8, int), ProtocolError>(e),
        },
{
    if start < data.len() {
        let b: u8 = data[start];
        let value: i8 = #[verifier::truncate] (b as i8);
        proof {
            lemma_byte_casts(0, b);
        }
        Ok((value, start + 1))
    } else {
        Err(ProtocolError::TruncatedInput)
    }
}

/// Reads a boolean: the byte 1 is true, any other byte is false.
pub fn decode_bool(data: &[u8], start: usize) -> (r: Result<(bool, usize), ProtocolError>)
    ensures
        match r {
            Ok((value, next)) => bool_parse(data@, start as int) == Ok::<
                (bool, int),
                ProtocolError,
            >((value, next as int)),
            Err(e) => bool_parse(data@, start as int) == Err::<(bool, int), ProtocolError>(e),
        },
{
    if start < data.len() {
        Ok((data[start] == 0x01, start + 1))
    } else {
        Err(ProtocolError::TruncatedInput)
    }
}

/// Reads a 16-bit number, least significant byte first.
pub fn decode_u16(data: &[u8], start: usize) -> (r: Result<(u16, usize), ProtocolError>)
    ensures
        match r {
            Ok((value, next)) => u16_parse(data@, start as int) == Ok::<(u16, int), ProtocolError>(
                (value, next as int),
            ),
            Err(e) => u16_parse(data@, start as int) == Err::<(u16, int), ProtocolError>(e),
        },
{
    if start <= data.len() && data.len() - start >= 2 {
        let value: u16 = data[start] as u16 + 0x100 * (data[start + 1] as u16);
        Ok((value, start + 2))
    } else {
        Err(ProtocolError::TruncatedInput)
    }
}

/// Reads a fixed-width 32-bit number, least significant byte first.
pub fn decode_int(data: &[u8], start: usize) -> (r: Result<(Int, usize), ProtocolError>)
    ensures
        match r {
            Ok((value, next)) => int_parse(data@, start as int) == Ok::<(i32, int), ProtocolError>(
                (value.value, next as int),
            ),
            Err(e) => int_parse(data@, start as int) == Err::<(i32, int), ProtocolError>(e),
        },
{
    if start <= data.len() && data.len() - start >= 4 {
        let u: u32 = data[start] as u32 + 0x100 * (data[start + 1] as u32) + 0x1_0000 * (data[start
            + 2] as u32) + 0x100_0000 * (data[start + 3] as u32);
        let value: i32 = #[verifier::truncate] (u as i32);
        proof {
            lemma_cast_signed(u);
        }
        Ok((Int { value }, start + 4))
    } else {
        Err(ProtocolError::TruncatedInput)
    }
}

/// Reads a 64-bit number, most significant byte first.
pub fn decode_long_be(data: &[u8], start: usize) -> (r: Result<(i64, usize), ProtocolError>)
    ensures
        match r {
            Ok((value, next)) => long_be_parse(data@, start as int) == Ok::<
                (i64, int),
                ProtocolError,
            >((value, next as int)),
            Err(e) => long_be_parse(data@, start as int) == Err::<(i64, int), ProtocolError>(e),
        },
{
    if start <= data.len() && data.len() - start >= 8 {
        let u: u64 = 0x100_0000_0000_0000 * (data[start] as u64) + 0x1_0000_0000_0000 * (data[start
            + 1] as u64) + 0x100_0000_0000 * (data[start + 2] as u64) + 0x1_0000_0000 * (data[start
            + 3] as u64) + 0x100_0000 * (data[start + 4] as u64) + 0x1_0000 * (data[start
            + 5] as u64) + 0x100 * (data[start + 6] as u64) + data[start + 7] as u64;
        let value: i64 = #[verifier::truncate] (u as i64);
        proof {
            lemma_long_casts(0, u);
        }
        Ok((value, start + 8))
    } else {
        Err(ProtocolError::TruncatedInput)
    }
}

/// Reads a 64-bit number, least significant byte first.
pub fn decode_long_le(data: &[u8], start: usize) -> (r: Result<(i64, usize), ProtocolError>)
    ensures
        match r {
            Ok((value, next)) => long_le_parse(data@, start as int) == Ok::<
                (i64, int),
                ProtocolError,
            >((value, next as int)),
            Err(e) => long_le_parse(data@, start as int) == Err::<(i64, int), ProtocolError>(e),
        },
{
    if start <= data.len() && data.len() - start >= 8 {
        let u: u64 = data[start] as u64 + 0x100 * (data[start + 1] as u64) + 0x1_0000 * (data[start
            + 2] as u64) + 0x100_0000 * (data[start + 3] as u64) + 0x1_0000_0000 * (data[start
            + 4] as u64) + 0x100_0000_0000 * (data[start + 5] as u64) + 0x1_0000_0000_0000 * (
        data[start + 6] as u64) + 0x100_0000_0000_0000 * (data[start + 7] as u64);
        let value: i64 = #[verifier::truncate] (u as i64);
        proof {
            lemma_long_casts(0, u);
        }
        Ok((value, start + 8))
    } else {
        Err(ProtocolError::TruncatedInput)
    }
}

/// Finds the bytes of the text that begins at `start`: reads the length
/// prefix and checks that the buffer holds that many bytes after it.
pub fn text_extent(data: &[u8], start: usize) -> (r: Result<(usize, usize), ProtocolError>)
    ensures
        match r {
            Ok((from, to)) => text_span(data@, start as int) == Ok::<(int, int), ProtocolError>(
                (from as int, to as int),
            ),
            Err(e) => text_span(data@, start as int) == Err::<(int, int), ProtocolError>(e),
        },
{
    match decode_varint(data, start) {
        Err(e) => Err(e),
        Ok((declared, from)) => {
            let len: u32 = #[verifier::truncate] (declared as u32);
            proof {
                lemma_cast_unsigned(declared);
            }
            if len as u64 > (data.len() - from) as u64 {
                Err(ProtocolError::TruncatedInput)
            } else {
                Ok((from, from + len as usize))
            }
        },
    }
}

/// `std::str::from_utf8`: the text that `bytes` encode, or nothing where
/// they are not valid UTF-8.
#[verifier::external_body]
pub(crate) fn utf8_text(bytes: &[u8]) -> (text: Option<&str>)
    ensures
        text is Some <==> valid_utf8(bytes@),
        text matches Some(s) ==> s@ == decode_utf8(bytes@),
{
    match std::str::from_utf8(bytes) {
        Ok(s) => Some(s),
        Err(_) => None,
    }
}

/// Reads a text: the length prefix, then that many bytes, which must be
/// valid UTF-8.
pub fn decode_text(data: &[u8], start: usize) -> (r: Result<(String, usize), ProtocolError>)
    ensures
        match r {
            Ok((text, next)) => text_parse(data@, start as int) == Ok::<
                (Seq<char>, int),
                ProtocolError,
            >((text@, next as int)),
            Err(e) => text_parse(data@, start as int) == Err::<(Seq<char>, int), ProtocolError>(e),
        },
{
    match text_extent(data, start) {
        Err(e) => Err(e),
        Ok((from, to)) => {
            match utf8_text(slice_subrange(data, from, to)) {
                Some(s) => Ok((s.to_owned(), to)),
                None => Err(ProtocolError::InvalidUtf8),
            }
        },
    }
}

/// A text whose declared length is more than the bytes that remain after
/// the prefix is rejected as truncated.
pub proof fn lemma_text_length_mismatch(data: Seq<u8>, start: int)
    requires
        varint_parse(data, start) matches Ok((declared, from)) && as_unsigned(declared)
            > data.len() - from,
    ensures
        text_span(data, start) == Err::<(int, int), ProtocolError>(ProtocolError::TruncatedInput),
        text_parse(data, start) == Err::<(Seq<char>, int), ProtocolError>(
            ProtocolError::TruncatedInput,
        ),
{
}

/// Reading back what was written, wherever it stands in a buffer: a text
/// whose length the prefix can hold.
pub proof fn lemma_text_parse_encoded(pre: Seq<u8>, text: Seq<char>, post: Seq<u8>)
    requires
        text_fits(text),
    ensures
        text_parse(pre + text_bytes(text) + post, pre.len() as int) == Ok::<
            (Seq<char>, int),
            ProtocolError,
        >((text, (pre.len() + text_bytes(text).len()) as int)),
{
    let body = encode_utf8(text);
    let n = body.len() as u32;
    let data = pre + text_bytes(text) + post;
    lemma_varint_parse_encoded(pre, n, body + post);
    lemma_varint_len(n);
    lemma_signed_unsigned(n);
    assert(pre + varint_bytes(n) + (body + post) =~= data);
    let from = pre.len() + varint_len(n);
    assert(data.subrange(from as int, from + n) =~= body);
    encode_utf8_valid_utf8(text);
    encode_utf8_decode_utf8(text);
}

} // verus!
