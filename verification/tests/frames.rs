use openmc::error::ProtocolError;
use openmc::field::{decode_field, decode_fields, serialize_fields, FieldKind, FieldValue};
use openmc::frame::{
    decode_body, deserialize, frame, in_frame, next_frame, read_payload, serialize, Decoded,
};
use openmc::identifier::Identifier;
use openmc::serialization::{Int, Serializable};
use openmc::varint::decode_varint;

fn handshake_fields() -> Vec<FieldValue> {
    vec![
        FieldValue::VarInt(47),
        FieldValue::Text("localhost".to_string()),
        FieldValue::U16(25565),
        FieldValue::VarInt(1),
    ]
}

fn handshake_schema() -> Vec<FieldKind> {
    vec![FieldKind::VarInt, FieldKind::Text, FieldKind::U16, FieldKind::VarInt]
}

fn handshake_frame() -> Vec<u8> {
    let mut bytes = vec![0x0F, 0x00, 0x2F, 0x09];
    bytes.extend_from_slice(b"localhost");
    bytes.extend_from_slice(&[0xDD, 0x63, 0x01]);
    bytes
}

#[test]
fn frame_is_length_id_fields() {
    assert_eq!(serialize(0, &handshake_fields()), handshake_frame());
    assert_eq!(serialize(0, &vec![]), vec![0x01, 0x00]);
    assert_eq!(serialize(0x3F, &vec![FieldValue::Bool(true)]), vec![0x02, 0x3F, 0x01]);
    assert_eq!(frame(1, &[9, 8, 7]), vec![0x04, 0x01, 9, 8, 7]);
}

#[test]
fn frame_round_trip() {
    let decoded = deserialize(&handshake_frame(), &handshake_schema());
    assert_eq!(decoded, Ok(Decoded { id: 0, fields: handshake_fields(), replaced: false }));

    let fields = vec![
        FieldValue::VarInt(-5),
        FieldValue::U8(200),
        FieldValue::I8(-7),
        FieldValue::U16(0xBEEF),
        FieldValue::Int(Int { value: -123456 }),
        FieldValue::LongBe(i64::MIN),
        FieldValue::LongLe(1712842693835),
        FieldValue::Bool(true),
        FieldValue::Text("gr\u{fc}\u{df}e \u{1F600}".to_string()),
        FieldValue::Identifier(Identifier { value: 0x643147bc_1af0_472e_9acb_19aaa150bd96 }),
        FieldValue::Text(String::new()),
        FieldValue::Bool(false),
    ];
    let schema: Vec<FieldKind> = fields.iter().map(|f| f.kind()).collect();
    for id in [0, 1, 0x26, 0x41, 300, i32::MAX, -1] {
        let bytes = serialize(id, &fields);
        let decoded = deserialize(&bytes, &schema).unwrap();
        assert_eq!(decoded.id, id);
        assert_eq!(decoded.fields, fields);
        assert!(!decoded.replaced);
    }
}

#[test]
fn first_varint_counts_the_bytes_behind_it() {
    for text_len in [0usize, 1, 100, 125, 126, 127, 200, 20000] {
        let fields = vec![FieldValue::Text("a".repeat(text_len))];
        let bytes = serialize(7, &fields);
        let (declared, prefix) = decode_varint(&bytes, 0).unwrap();
        assert_eq!(declared as usize, bytes.len() - prefix);
    }
}

#[test]
fn frame_with_missing_or_trailing_bytes() {
    let whole = handshake_frame();
    let schema = handshake_schema();
    // the buffer ends before the declared length
    assert_eq!(
        deserialize(&whole[..whole.len() - 1], &schema),
        Err(ProtocolError::TruncatedInput)
    );
    assert_eq!(deserialize(&[], &schema), Err(ProtocolError::TruncatedInput));
    assert_eq!(deserialize(&[0x80], &schema), Err(ProtocolError::TruncatedInput));
    // a length prefix that runs on is as good as none
    assert_eq!(deserialize(&[0x80; 7], &schema), Err(ProtocolError::TruncatedInput));
    // bytes behind the declared length
    let mut trailing = whole.clone();
    trailing.push(0);
    assert_eq!(deserialize(&trailing, &schema), Err(ProtocolError::ProtocolViolation));
    // the fields stop short of the declared length
    let mut padded = whole.clone();
    padded[0] += 1;
    padded.push(0);
    assert_eq!(deserialize(&padded, &schema), Err(ProtocolError::ProtocolViolation));
    // the fields run past the declared length
    assert_eq!(
        deserialize(&[0x02, 0x00, 0x05], &vec![FieldKind::Text]),
        Err(ProtocolError::ProtocolViolation)
    );
    assert_eq!(
        deserialize(&[0x02, 0x00, 0x05], &vec![FieldKind::VarInt, FieldKind::U16]),
        Err(ProtocolError::ProtocolViolation)
    );
    // a frame without so much as an id
    assert_eq!(deserialize(&[0x00], &vec![]), Err(ProtocolError::ProtocolViolation));
}

#[test]
fn malformed_field_in_a_frame() {
    let bytes = [0x08, 0x00, 0x80, 0x80, 0x80, 0x80, 0x80, 0x80, 0x01];
    assert_eq!(deserialize(&bytes, &vec![FieldKind::VarInt]), Err(ProtocolError::Malformed));
    let id = [0x07, 0x80, 0x80, 0x80, 0x80, 0x80, 0x80, 0x01];
    assert_eq!(deserialize(&id, &vec![]), Err(ProtocolError::Malformed));
    let bad_identifier = [0x05, 0x02, 0x03, b'a', b'b', b'c'];
    assert_eq!(
        deserialize(&bad_identifier, &vec![FieldKind::Identifier]),
        Err(ProtocolError::Malformed)
    );
}

#[test]
fn invalid_text_is_replaced_and_reading_goes_on() {
    let bytes = [0x06, 0x01, 0x02, 0xFF, 0xFE, 0x2A, 0x01];
    let schema = vec![FieldKind::Text, FieldKind::VarInt, FieldKind::Bool];
    assert_eq!(
        deserialize(&bytes, &schema),
        Ok(Decoded {
            id: 1,
            fields: vec![
                FieldValue::Text(String::new()),
                FieldValue::VarInt(42),
                FieldValue::Bool(true)
            ],
            replaced: true,
        })
    );
    assert_eq!(
        decode_field(&[0x02, 0xFF, 0xFE], 0, FieldKind::Text),
        Ok((FieldValue::Text(String::new()), 3, true))
    );
    assert_eq!(
        decode_field(&[0x02, b'o', b'k'], 0, FieldKind::Text),
        Ok((FieldValue::Text("ok".to_string()), 3, false))
    );
}

#[test]
fn fields_one_after_the_other() {
    let fields = handshake_fields();
    let bytes = serialize_fields(&fields);
    let mut expected = vec![0x2F, 0x09];
    expected.extend_from_slice(b"localhost");
    expected.extend_from_slice(&[0xDD, 0x63, 0x01]);
    assert_eq!(bytes, expected);
    let decoded = decode_fields(&bytes, 0, &handshake_schema()).unwrap();
    assert_eq!(decoded.fields, fields);
    assert_eq!(decoded.next, bytes.len());
    assert!(!decoded.replaced);
    assert_eq!(
        decode_fields(&bytes[..5], 0, &handshake_schema()),
        Err(ProtocolError::TruncatedInput)
    );
    assert_eq!(read_payload(&bytes, &handshake_schema()), Ok((fields, false)));
    assert_eq!(
        read_payload(&bytes[..bytes.len() - 1], &handshake_schema()),
        Err(ProtocolError::ProtocolViolation)
    );
    assert_eq!(
        read_payload(&bytes, &vec![FieldKind::VarInt]),
        Err(ProtocolError::ProtocolViolation)
    );
}

#[test]
fn body_without_length() {
    let whole = handshake_frame();
    assert_eq!(
        decode_body(&whole, 1, &handshake_schema()),
        Ok(Decoded { id: 0, fields: handshake_fields(), replaced: false })
    );
    assert_eq!(
        decode_body(&whole[..10], 1, &handshake_schema()),
        Err(ProtocolError::ProtocolViolation)
    );
}

#[test]
fn frames_are_found_in_a_buffer_of_received_bytes() {
    let mut buffer = handshake_frame();
    buffer.extend_from_slice(&[0x01, 0x00]);
    buffer.extend_from_slice(&[0x09, 0x01, 1, 2, 3]);
    assert_eq!(next_frame(&buffer, 0), Ok((1, 16)));
    assert_eq!(next_frame(&buffer, 16), Ok((17, 18)));
    // the third frame is not whole yet
    assert_eq!(next_frame(&buffer, 18), Err(ProtocolError::TruncatedInput));
    assert_eq!(next_frame(&buffer, buffer.len()), Err(ProtocolError::TruncatedInput));
    assert_eq!(next_frame(&[0xFF; 6], 0), Err(ProtocolError::Malformed));
    assert_eq!(&buffer[1..16], &handshake_frame()[1..]);
}

#[test]
fn field_values_know_their_kind_and_content() {
    assert_eq!(FieldValue::VarInt(3).kind(), FieldKind::VarInt);
    assert_eq!(FieldValue::Text("a".to_string()).kind(), FieldKind::Text);
    assert_eq!(FieldValue::LongLe(3).kind(), FieldKind::LongLe);
    assert_eq!(FieldValue::VarInt(3).varint(), 3);
    assert_eq!(FieldValue::U8(3).unsigned_byte(), 3);
    assert_eq!(FieldValue::I8(-3).signed_byte(), -3);
    assert_eq!(FieldValue::U16(300).unsigned_short(), 300);
    assert_eq!(FieldValue::Int(Int { value: 9 }).fixed_int(), Int { value: 9 });
    assert_eq!(FieldValue::LongBe(-9).long(), -9);
    assert_eq!(FieldValue::LongLe(9).long(), 9);
    assert!(FieldValue::Bool(true).boolean());
    assert_eq!(FieldValue::Text("abc".to_string()).text(), "abc");
    assert_eq!(FieldValue::Identifier(Identifier { value: 5 }).identifier().value, 5);
    assert_eq!(FieldValue::Bool(true).varint(), 0);
    assert_eq!(FieldValue::VarInt(1).text(), "");
    assert_eq!(FieldValue::U16(0x0102).serialize(), vec![2, 1]);
    assert_eq!(FieldValue::LongLe(1).serialize(), vec![1, 0, 0, 0, 0, 0, 0, 0]);
}

#[test]
fn errors_inside_a_frame() {
    assert_eq!(in_frame(ProtocolError::TruncatedInput), ProtocolError::ProtocolViolation);
    assert_eq!(in_frame(ProtocolError::Malformed), ProtocolError::Malformed);
    assert_eq!(in_frame(ProtocolError::ProtocolViolation), ProtocolError::ProtocolViolation);
}
