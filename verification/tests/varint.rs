use openmc::error::ProtocolError;
use openmc::varint::{decode_varint, encode_varint, VarIntReader, VarIntStep};

#[test]
fn varint_boundary_encodings() {
    assert_eq!(encode_varint(0), vec![0x00]);
    assert_eq!(encode_varint(127), vec![0x7F]);
    assert_eq!(encode_varint(128), vec![0x80, 0x01]);
    assert_eq!(encode_varint(25565), vec![0xDD, 0xC7, 0x01]);
}

#[test]
fn varint_round_trip_on_chosen_values() {
    for v in [0u32, 1, 127, 128, 255, 300, 16383, 16384, 2097151, 2097152, 0x7fff_ffff, 0x8000_0000, u32::MAX] {
        let bytes = encode_varint(v);
        assert_eq!(decode_varint(&bytes, 0), Ok((v as i32, bytes.len())));
    }
}

#[test]
fn varint_truncated_and_malformed() {
    assert_eq!(decode_varint(&[], 0), Err(ProtocolError::TruncatedInput));
    assert_eq!(decode_varint(&[0x80, 0x80], 0), Err(ProtocolError::TruncatedInput));
    assert_eq!(decode_varint(&[0x80; 5], 0), Err(ProtocolError::TruncatedInput));
    assert_eq!(decode_varint(&[0x80; 6], 0), Err(ProtocolError::Malformed));
    assert_eq!(decode_varint(&[0xff, 0xff, 0xff, 0xff, 0x0f], 0), Ok((-1, 5)));
    assert_eq!(decode_varint(&[0x01], 7), Err(ProtocolError::TruncatedInput));
}

#[test]
fn varint_reader_takes_bytes_one_at_a_time() {
    let mut reader = VarIntReader::new();
    assert!(matches!(reader.feed(0xDD), VarIntStep::NeedMore));
    assert!(matches!(reader.feed(0xC7), VarIntStep::NeedMore));
    assert!(matches!(reader.feed(0x01), VarIntStep::Complete(25565)));
    assert!(matches!(reader.feed(0x05), VarIntStep::Complete(5)));
}
