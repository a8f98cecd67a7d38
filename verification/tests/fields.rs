use openmc::error::ProtocolError;
use openmc::identifier::{decode_identifier, generate_uuid_v2, Identifier};
use openmc::serialization::{
    decode_bool, decode_i8, decode_int, decode_long_be, decode_long_le, decode_text, decode_u16,
    decode_u8, encode_long_be, encode_long_le, extend_bytes, text_extent, Int, Serializable,
};

const OFFLINE: u128 = 0x643147bc_1af0_472e_9acb_19aaa150bd96;
const OFFLINE_TEXT: &str = "643147bc-1af0-472e-9acb-19aaa150bd96";

#[test]
fn plain_i32_travels_as_varint() {
    assert_eq!(25565i32.serialize(), vec![0xDD, 0xC7, 0x01]);
    assert_eq!(0i32.serialize(), vec![0x00]);
    assert_eq!((-1i32).serialize(), vec![0xFF, 0xFF, 0xFF, 0xFF, 0x0F]);
    assert_eq!(i32::MIN.serialize(), vec![0x80, 0x80, 0x80, 0x80, 0x08]);
}

#[test]
fn bool_is_one_byte_and_any_other_byte_is_false() {
    assert_eq!(true.serialize(), vec![0x01]);
    assert_eq!(false.serialize(), vec![0x00]);
    assert_eq!(decode_bool(&[0x01], 0), Ok((true, 1)));
    assert_eq!(decode_bool(&[0x00], 0), Ok((false, 1)));
    assert_eq!(decode_bool(&[0x02], 0), Ok((false, 1)));
    assert_eq!(decode_bool(&[0xFF, 0x01], 1), Ok((true, 2)));
    assert_eq!(decode_bool(&[], 0), Err(ProtocolError::TruncatedInput));
}

#[test]
fn single_bytes() {
    assert_eq!(200u8.serialize(), vec![200]);
    assert_eq!((-1i8).serialize(), vec![0xFF]);
    assert_eq!((-128i8).serialize(), vec![0x80]);
    assert_eq!(decode_u8(&[7, 200], 1), Ok((200, 2)));
    assert_eq!(decode_i8(&[0x80], 0), Ok((-128, 1)));
    assert_eq!(decode_i8(&[0x7F], 0), Ok((127, 1)));
    assert_eq!(decode_u8(&[1], 1), Err(ProtocolError::TruncatedInput));
    assert_eq!(decode_i8(&[1], 5), Err(ProtocolError::TruncatedInput));
}

#[test]
fn u16_is_little_endian() {
    assert_eq!(25565u16.serialize(), vec![0xDD, 0x63]);
    assert_eq!(decode_u16(&[0xDD, 0x63], 0), Ok((25565, 2)));
    assert_eq!(decode_u16(&[0x00, 0x01], 0), Ok((256, 2)));
    assert_eq!(decode_u16(&[0xDD], 0), Err(ProtocolError::TruncatedInput));
    for v in [0u16, 1, 255, 256, 0x1234, u16::MAX] {
        assert_eq!(decode_u16(&v.serialize(), 0), Ok((v, 2)));
    }
}

#[test]
fn fixed_int_is_four_bytes_little_endian() {
    assert_eq!(Int { value: 1 }.serialize(), vec![1, 0, 0, 0]);
    assert_eq!(Int { value: 0x01020304 }.serialize(), vec![4, 3, 2, 1]);
    assert_eq!(Int { value: -2 }.serialize(), vec![0xFE, 0xFF, 0xFF, 0xFF]);
    assert_eq!(decode_int(&[4, 3, 2, 1], 0), Ok((Int { value: 0x01020304 }, 4)));
    assert_eq!(decode_int(&[1, 2, 3], 0), Err(ProtocolError::TruncatedInput));
    for v in [0i32, 1, -1, i32::MAX, i32::MIN, 123456789] {
        assert_eq!(decode_int(&Int { value: v }.serialize(), 0), Ok((Int { value: v }, 4)));
    }
    assert_eq!(Int::default(), Int { value: 0 });
}

#[test]
fn long_in_both_byte_orders() {
    assert_eq!(1i64.serialize(), vec![0, 0, 0, 0, 0, 0, 0, 1]);
    assert_eq!(encode_long_be(0x0102030405060708), vec![1, 2, 3, 4, 5, 6, 7, 8]);
    assert_eq!(encode_long_le(0x0102030405060708), vec![8, 7, 6, 5, 4, 3, 2, 1]);
    assert_eq!(encode_long_be(-2), vec![0xFF, 0xFF, 0xFF, 0xFF, 0xFF, 0xFF, 0xFF, 0xFE]);
    assert_eq!(decode_long_be(&[1, 2, 3, 4, 5, 6, 7, 8], 0), Ok((0x0102030405060708, 8)));
    assert_eq!(decode_long_le(&[1, 2, 3, 4, 5, 6, 7, 8], 0), Ok((0x0807060504030201, 8)));
    assert_eq!(decode_long_be(&[0; 7], 0), Err(ProtocolError::TruncatedInput));
    assert_eq!(decode_long_le(&[0; 9], 2), Err(ProtocolError::TruncatedInput));
    for v in [0i64, 1, -1, i64::MAX, i64::MIN, 1712842693835] {
        assert_eq!(decode_long_be(&encode_long_be(v), 0), Ok((v, 8)));
        assert_eq!(decode_long_le(&encode_long_le(v), 0), Ok((v, 8)));
    }
}

#[test]
fn text_is_prefixed_with_its_length_in_bytes() {
    assert_eq!("hi".to_string().serialize(), vec![2, b'h', b'i']);
    assert_eq!(String::new().serialize(), vec![0]);
    // one character, two bytes
    assert_eq!("\u{e9}".to_string().serialize(), vec![2, 0xC3, 0xA9]);
    let long = "x".repeat(300);
    let bytes = long.serialize();
    assert_eq!(&bytes[..2], &[0xAC, 0x02]);
    assert_eq!(bytes.len(), 302);
}

#[test]
fn text_round_trip() {
    for text in ["", "localhost", "gr\u{fc}\u{df}e", "\u{1F600} ok", "{\"text\":\"This is a test!\"}"] {
        let bytes = text.to_string().serialize();
        assert_eq!(decode_text(&bytes, 0), Ok((text.to_string(), bytes.len())));
    }
    let mut buffer = vec![9u8, 9];
    extend_bytes(&mut buffer, &"abc".to_string().serialize());
    buffer.push(7);
    assert_eq!(decode_text(&buffer, 2), Ok(("abc".to_string(), 6)));
}

#[test]
fn text_length_mismatch_is_rejected() {
    assert_eq!(decode_text(&[5, b'h', b'i'], 0), Err(ProtocolError::TruncatedInput));
    assert_eq!(decode_text(&[1], 0), Err(ProtocolError::TruncatedInput));
    assert_eq!(text_extent(&[3, 1, 2], 0), Err(ProtocolError::TruncatedInput));
    // a length with the top bit set is a very large length, not a negative one
    assert_eq!(
        decode_text(&[0xFF, 0xFF, 0xFF, 0xFF, 0x0F, b'a'], 0),
        Err(ProtocolError::TruncatedInput)
    );
    assert_eq!(decode_text(&[], 0), Err(ProtocolError::TruncatedInput));
    assert_eq!(decode_text(&[0x80], 0), Err(ProtocolError::TruncatedInput));
}

#[test]
fn text_with_bad_prefix_or_bad_bytes() {
    assert_eq!(decode_text(&[0x80; 8], 0), Err(ProtocolError::Malformed));
    assert_eq!(decode_text(&[2, 0xFF, 0xFE], 0), Err(ProtocolError::InvalidUtf8));
    assert_eq!(decode_text(&[1, 0xC3], 0), Err(ProtocolError::InvalidUtf8));
    // the extent is known even where the bytes are no text
    assert_eq!(text_extent(&[2, 0xFF, 0xFE, 1], 0), Ok((1, 3)));
}

#[test]
fn identifier_text_is_lower_case_and_hyphenated() {
    assert_eq!(Identifier { value: OFFLINE }.to_text(), OFFLINE_TEXT);
    assert_eq!(Identifier { value: 0 }.to_text(), "00000000-0000-0000-0000-000000000000");
    assert_eq!(
        Identifier { value: u128::MAX }.to_text(),
        "ffffffff-ffff-ffff-ffff-ffffffffffff"
    );
    assert_eq!(
        Identifier { value: 0x0123456789abcdef_fedcba9876543210 }.to_text(),
        "01234567-89ab-cdef-fedc-ba9876543210"
    );
    assert_eq!(Identifier::default(), Identifier { value: 0 });
}

#[test]
fn identifier_parse_reads_the_accepted_forms() {
    assert_eq!(Identifier::parse(OFFLINE_TEXT), Some(Identifier { value: OFFLINE }));
    assert_eq!(
        Identifier::parse("643147BC-1AF0-472E-9ACB-19AAA150BD96"),
        Some(Identifier { value: OFFLINE })
    );
    assert_eq!(
        Identifier::parse("643147bc1af0472e9acb19aaa150bd96"),
        Some(Identifier { value: OFFLINE })
    );
    assert_eq!(Identifier::parse(""), None);
    assert_eq!(Identifier::parse("643147bc-1af0-472e-9acb-19aaa150bd9"), None);
    assert_eq!(Identifier::parse("643147bc-1af0-472e-9acb-19aaa150bdzz"), None);
    for value in [0u128, 1, OFFLINE, u128::MAX, 0x6ba7b810_9dad_11d1_80b4_00c04fd430c8] {
        let text = Identifier { value }.to_text();
        assert_eq!(Identifier::parse(&text), Some(Identifier { value }));
    }
}

#[test]
fn identifier_on_the_wire_is_a_text_field() {
    let bytes = Identifier { value: OFFLINE }.serialize();
    assert_eq!(bytes.len(), 37);
    assert_eq!(bytes[0], 36);
    assert_eq!(&bytes[1..], OFFLINE_TEXT.as_bytes());
    assert_eq!(decode_identifier(&bytes, 0), Ok((Identifier { value: OFFLINE }, 37)));
    assert_eq!(decode_identifier(&bytes[..20], 0), Err(ProtocolError::TruncatedInput));
    assert_eq!(decode_identifier(&[3, b'a', b'b', b'c'], 0), Err(ProtocolError::Malformed));
    assert_eq!(decode_identifier(&[2, 0xFF, 0xFE], 0), Err(ProtocolError::Malformed));
    assert_eq!(decode_identifier(&[0x80; 6], 0), Err(ProtocolError::Malformed));
}

#[test]
fn identifier_from_clock_sequence_and_node() {
    let id = generate_uuid_v2(0x0123_4567_89AB_CDEF, 0xFFFF, &[1, 2, 3, 4, 5, 6, 7, 8]);
    assert_eq!(id.value, 0x89ABCDEF_4567_3FFF_0102030405060708);
    assert_eq!(id.to_text(), "89abcdef-4567-3fff-0102-030405060708");
    let zero = generate_uuid_v2(0, 0x4000, &[0; 8]);
    assert_eq!(zero.value, 0);
    let high = generate_uuid_v2(u128::MAX, 0x1234, &[0xFF; 8]);
    assert_eq!(high.value, 0xFFFFFFFF_FFFF_1234_FFFFFFFFFFFFFFFF);
}
