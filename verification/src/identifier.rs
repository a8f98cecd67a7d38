//! 128-bit identifiers. On the wire an identifier is a text: its 32
//! hexadecimal digits in lower case, in groups of 8, 4, 4, 4 and 12 with a
//! hyphen between the groups.

use vstd::prelude::*;
use vstd::arithmetic::div_mod::lemma_mod_breakdown;
use vstd::utf8::{encode_utf8, is_ascii_chars, is_ascii_chars_encode_utf8};
use crate::error::ProtocolError;
use crate::serialization::{be_value8, decode_text, text_bytes, text_fits, text_parse};
use crate::serialization::Serializable;
use crate::serialization::lemma_text_parse_encoded;

verus! {

/// A 128-bit identifier.
#[derive(Clone, Copy, Debug, PartialEq, Eq, Structural)]
pub struct Identifier {
    pub value: u128,
}

impl Default for Identifier {
    fn default() -> (r: Self)
        ensures
            r.value == 0,
    {
        Identifier { value: 0 }
    }
}

/// The hexadecimal digits, in order.
pub open spec fn hex_digits() -> Seq<char> {
    seq!['0', '1', '2', '3', '4', '5', '6', '7', '8', '9', 'a', 'b', 'c', 'd', 'e', 'f']
}

/// The last `digits` hexadecimal digits of `v`, the most significant first.
pub open spec fn hex_text(v: nat, digits: nat) -> Seq<char>
    decreases digits,
{
    if digits == 0 {
        Seq::empty()
    } else {
        hex_text(v / 16, (digits - 1) as nat).push(hex_digits()[(v % 16) as int])
    }
}

/// The text of an identifier: hexadecimal digits in groups of 8, 4, 4, 4 and
/// 12, with hyphens between.
pub open spec fn hyphenated_text(value: u128) -> Seq<char> {
    hex_text(value as nat / 0x1_0000_0000_0000_0000_0000_0000, 8) + seq!['-'] + hex_text(
        value as nat / 0x1_0000_0000_0000_0000_0000,
        4,
    ) + seq!['-'] + hex_text(value as nat / 0x1_0000_0000_0000_0000, 4) + seq!['-'] + hex_text(
        value as nat / 0x1_0000_0000_0000,
        4,
    ) + seq!['-'] + hex_text(value as nat, 12)
}

/// What `uuid::Uuid::parse_str` makes of a text that is not the text of an
/// identifier as `hyphenated_text` gives it: the crate also reads upper
/// case, and the forms without hyphens, in braces, and behind `urn:uuid:`.
pub uninterp spec fn other_form_value(text: Seq<char>) -> Option<u128>;

/// The identifier that a text stands for, if any.
pub open spec fn identifier_of_text(text: Seq<char>) -> Option<u128> {
    if exists|v: u128| hyphenated_text(v) == text {
        Some(choose|v: u128| hyphenated_text(v) == text)
    } else {
        other_form_value(text)
    }
}

/// `uuid::Uuid::to_string`, on the identifier with this value: its
/// hexadecimal digits in lower case, hyphenated.
#[verifier::external_body]
fn hyphenated(value: u128) -> (text: String)
    ensures
        text@ == hyphenated_text(value),
{
    uuid::Uuid::from_u128(value).to_string()
}

/// `uuid::Uuid::parse_str`: the value of the identifier that the text
/// stands for, or nothing where the crate does not accept the text. The
/// hyphenated text of a value reads as that value.
#[verifier::external_body]
fn parse_hyphenated(text: &str) -> (value: Option<u128>)
    ensures
        forall|v: u128| hyphenated_text(v) == text@ ==> value == Some(v),
        (forall|v: u128| hyphenated_text(v) != text@) ==> value == other_form_value(text@),
{
    match uuid::Uuid::parse_str(text) {
        Ok(id) => Some(id.as_u128()),
        Err(_) => None,
    }
}

/// 16 to the power `n`.
pub open spec fn pow16(n: nat) -> nat
    decreases n,
{
    if n == 0 {
        1
    } else {
        16 * pow16((n - 1) as nat)
    }
}

/// `hex_text` gives as many digits as asked for, each of them ASCII.
proof fn lemma_hex_text_shape(v: nat, digits: nat)
    ensures
        hex_text(v, digits).len() == digits,
        is_ascii_chars(hex_text(v, digits)),
    decreases digits,
{
    if digits > 0 {
        lemma_hex_text_shape(v / 16, (digits - 1) as nat);
        let d = (v % 16) as int;
        assert('\0' <= hex_digits()[d] <= '\u{7f}');
    }
}

/// Numbers with the same last `digits` hexadecimal digits are equal modulo
/// 16 to the power `digits`.
proof fn lemma_hex_text_injective(x: nat, y: nat, digits: nat)
    requires
        hex_text(x, digits) == hex_text(y, digits),
    ensures
        x % pow16(digits) == y % pow16(digits),
    decreases digits,
{
    if digits > 0 {
        let before = (digits - 1) as nat;
        let tx = hex_text(x, digits);
        let ty = hex_text(y, digits);
        assert(tx.last() == hex_digits()[(x % 16) as int]);
        assert(ty.last() == hex_digits()[(y % 16) as int]);
        assert(x % 16 == y % 16);
        assert(tx.drop_last() =~= hex_text(x / 16, before));
        assert(ty.drop_last() =~= hex_text(y / 16, before));
        lemma_hex_text_injective(x / 16, y / 16, before);
        lemma_pow16_positive(before);
        lemma_mod_breakdown(x as int, 16, pow16(before) as int);
        lemma_mod_breakdown(y as int, 16, pow16(before) as int);
    }
}

proof fn lemma_pow16_positive(n: nat)
    ensures
        pow16(n) > 0,
    decreases n,
{
    if n > 0 {
        lemma_pow16_positive((n - 1) as nat);
    }
}

proof fn lemma_pow16_values()
    ensures
        pow16(4) == 0x1_0000,
        pow16(8) == 0x1_0000_0000,
        pow16(12) == 0x1_0000_0000_0000,
{
    reveal_with_fuel(pow16, 13);
}

/// A 128-bit number is made of its five groups of digits.
proof fn lemma_groups_make_value(a: u128, b: u128)
    by (bit_vector)
    requires
        (a / 0x1_0000_0000_0000_0000_0000_0000) % 0x1_0000_0000 == (b
            / 0x1_0000_0000_0000_0000_0000_0000) % 0x1_0000_0000,
        (a / 0x1_0000_0000_0000_0000_0000) % 0x1_0000 == (b / 0x1_0000_0000_0000_0000_0000)
            % 0x1_0000,
        (a / 0x1_0000_0000_0000_0000) % 0x1_0000 == (b / 0x1_0000_0000_0000_0000) % 0x1_0000,
        (a / 0x1_0000_0000_0000) % 0x1_0000 == (b / 0x1_0000_0000_0000) % 0x1_0000,
        a % 0x1_0000_0000_0000 == b % 0x1_0000_0000_0000,
    ensures
        a == b,
{
}

/// The text of an identifier has 36 characters, all of them ASCII.
pub proof fn lemma_hyphenated_shape(value: u128)
    ensures
        hyphenated_text(value).len() == 36,
        is_ascii_chars(hyphenated_text(value)),
        encode_utf8(hyphenated_text(value)).len() == 36,
        text_fits(hyphenated_text(value)),
{
    let v = value as nat;
    lemma_hex_text_shape(v / 0x1_0000_0000_0000_0000_0000_0000, 8);
    lemma_hex_text_shape(v / 0x1_0000_0000_0000_0000_0000, 4);
    lemma_hex_text_shape(v / 0x1_0000_0000_0000_0000, 4);
    lemma_hex_text_shape(v / 0x1_0000_0000_0000, 4);
    lemma_hex_text_shape(v, 12);
    is_ascii_chars_encode_utf8(hyphenated_text(value));
}

/// Different identifiers have different texts.
pub proof fn lemma_hyphenated_injective(a: u128, b: u128)
    requires
        hyphenated_text(a) == hyphenated_text(b),
    ensures
        a == b,
{
    let ta = hyphenated_text(a);
    let tb = hyphenated_text(b);
    let x = a as nat;
    let y = b as nat;
    lemma_hex_text_shape(x / 0x1_0000_0000_0000_0000_0000_0000, 8);
    lemma_hex_text_shape(x / 0x1_0000_0000_0000_0000_0000, 4);
    lemma_hex_text_shape(x / 0x1_0000_0000_0000_0000, 4);
    lemma_hex_text_shape(x / 0x1_0000_0000_0000, 4);
    lemma_hex_text_shape(x, 12);
    lemma_hex_text_shape(y / 0x1_0000_0000_0000_0000_0000_0000, 8);
    lemma_hex_text_shape(y / 0x1_0000_0000_0000_0000_0000, 4);
    lemma_hex_text_shape(y / 0x1_0000_0000_0000_0000, 4);
    lemma_hex_text_shape(y / 0x1_0000_0000_0000, 4);
    lemma_hex_text_shape(y, 12);
    assert(ta.subrange(0, 8) =~= hex_text(x / 0x1_0000_0000_0000_0000_0000_0000, 8));
    assert(tb.subrange(0, 8) =~= hex_text(y / 0x1_0000_0000_0000_0000_0000_0000, 8));
    assert(ta.subrange(9, 13) =~= hex_text(x / 0x1_0000_0000_0000_0000_0000, 4));
    assert(tb.subrange(9, 13) =~= hex_text(y / 0x1_0000_0000_0000_0000_0000, 4));
    assert(ta.subrange(14, 18) =~= hex_text(x / 0x1_0000_0000_0000_0000, 4));
    assert(tb.subrange(14, 18) =~= hex_text(y / 0x1_0000_0000_0000_0000, 4));
    assert(ta.subrange(19, 23) =~= hex_text(x / 0x1_0000_0000_0000, 4));
    assert(tb.subrange(19, 23) =~= hex_text(y / 0x1_0000_0000_0000, 4));
    assert(ta.subrange(24, 36) =~= hex_text(x, 12));
    assert(tb.subrange(24, 36) =~= hex_text(y, 12));
    lemma_hex_text_injective(
        x / 0x1_0000_0000_0000_0000_0000_0000,
        y / 0x1_0000_0000_0000_0000_0000_0000,
        8,
    );
    lemma_hex_text_injective(x / 0x1_0000_0000_0000_0000_0000, y / 0x1_0000_0000_0000_0000_0000, 4);
    lemma_hex_text_injective(x / 0x1_0000_0000_0000_0000, y / 0x1_0000_0000_0000_0000, 4);
    lemma_hex_text_injective(x / 0x1_0000_0000_0000, y / 0x1_0000_0000_0000, 4);
    lemma_hex_text_injective(x, y, 12);
    lemma_pow16_values();
    lemma_groups_make_value(a, b);
}

/// The text of an identifier stands for that identifier.
pub proof fn lemma_identifier_of_hyphenated(value: u128)
    ensures
        identifier_of_text(hyphenated_text(value)) == Some(value),
{
    let text = hyphenated_text(value);
    let chosen = choose|v: u128| hyphenated_text(v) == text;
    lemma_hyphenated_injective(chosen, value);
}

/// An identifier on the wire: its text, as a text field.
pub open spec fn identifier_bytes(value: u128) -> Seq<u8> {
    text_bytes(hyphenated_text(value))
}

/// What reading an identifier at `start` gives. A text that stands for no
/// identifier is malformed, and so is one that is not valid UTF-8.
pub open spec fn identifier_parse(data: Seq<u8>, start: int) -> Result<(u128, int), ProtocolError> {
    match text_parse(data, start) {
        Err(e) => if e == ProtocolError::InvalidUtf8 {
            Err(ProtocolError::Malformed)
        } else {
            Err(e)
        },
        Ok((text, next)) => match identifier_of_text(text) {
            Some(value) => Ok((value, next)),
            None => Err(ProtocolError::Malformed),
        },
    }
}

impl Identifier {
    /// The text of the identifier.
    pub fn to_text(&self) -> (text: String)
        ensures
            text@ == hyphenated_text(self.value),
    {
        hyphenated(self.value)
    }

    /// The identifier that `text` stands for, if it stands for one.
    pub fn parse(text: &str) -> (r: Option<Identifier>)
        ensures
            match r {
                Some(id) => identifier_of_text(text@) == Some(id.value),
                None => identifier_of_text(text@) == None::<u128>,
            },
    {
        match parse_hyphenated(text) {
            Some(value) => Some(Identifier { value }),
            None => None,
        }
    }
}

impl Serializable for Identifier {
    open spec fn wire(&self) -> Seq<u8> {
        identifier_bytes(self.value)
    }

    fn serialize(&self) -> (out: Vec<u8>) {
        let text = self.to_text();
        let out = text.serialize();
        assert(text.wire() == text_bytes(text@));
        assert(self.wire() == identifier_bytes(self.value));
        out
    }
}

/// Reads an identifier: a text field that holds the identifier's text.
pub fn decode_identifier(data: &[u8], start: usize) -> (r: Result<
    (Identifier, usize),
    ProtocolError,
>)
    ensures
        match r {
            Ok((id, next)) => identifier_parse(data@, start as int) == Ok::<
                (u128, int),
                ProtocolError,
            >((id.value, next as int)),
            Err(e) => identifier_parse(data@, start as int) == Err::<(u128, int), ProtocolError>(e),
        },
{
    match decode_text(data, start) {
        Err(ProtocolError::InvalidUtf8) => Err(ProtocolError::Malformed),
        Err(e) => Err(e),
        Ok((text, next)) => match Identifier::parse(text.as_str()) {
            Some(id) => Ok((id, next)),
            None => Err(ProtocolError::Malformed),
        },
    }
}

/// Reading back what was written, wherever it stands in a buffer: an
/// identifier.
pub proof fn lemma_identifier_parse_encoded(pre: Seq<u8>, value: u128, post: Seq<u8>)
    ensures
        identifier_parse(pre + identifier_bytes(value) + post, pre.len() as int) == Ok::<
            (u128, int),
            ProtocolError,
        >((value, (pre.len() + identifier_bytes(value).len()) as int)),
{
    lemma_hyphenated_shape(value);
    lemma_text_parse_encoded(pre, hyphenated_text(value), post);
    lemma_identifier_of_hyphenated(value);
}

/// The value of the identifier whose sixteen bytes are, most significant
/// first, those of `d1`, of `d2`, of `d3`, and the eight bytes `d4`.
pub open spec fn fields_value(d1: u32, d2: u16, d3: u16, d4: Seq<u8>) -> u128 {
    (d1 * 0x1_0000_0000_0000_0000_0000_0000 + d2 * 0x1_0000_0000_0000_0000_0000 + d3
        * 0x1_0000_0000_0000_0000 + be_value8(d4, 0)) as u128
}

/// `uuid::Uuid::from_fields`: the identifier made of these four fields,
/// each of the first three most significant byte first.
#[verifier::external_body]
fn from_fields(d1: u32, d2: u16, d3: u16, d4: &[u8; 8]) -> (value: u128)
    ensures
        value == fields_value(d1, d2, d3, d4@),
{
    uuid::Uuid::from_fields(d1, d2, d3, d4).as_u128()
}

/// An identifier made of a clock reading, a clock sequence and a node: the
/// low 32 bits of the reading, its next 16 bits, the low 14 bits of the
/// sequence, and the node. `ticks` counts intervals of 100 nanoseconds.
pub fn generate_uuid_v2(ticks: u128, clock_sequence: u16, node: &[u8; 8]) -> (id: Identifier)
    ensures
        id.value == fields_value(
            (ticks % 0x1_0000_0000) as u32,
            (ticks / 0x1_0000_0000 % 0x1_0000) as u16,
            (clock_sequence % 0x4000) as u16,
            node@,
        ),
{
    let d1: u32 = (ticks % 0x1_0000_0000) as u32;
    let d2: u16 = (ticks / 0x1_0000_0000 % 0x1_0000) as u16;
    let d3: u16 = clock_sequence % 0x4000;
    Identifier { value: from_fields(d1, d2, d3, node) }
}

} // verus!
