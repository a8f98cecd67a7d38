use openmc::error::ProtocolError;
use openmc::serialization::{Int, Serializable};
use openmc::smpmap::{
    blank_section, count_sections, decode_chunk_bulk, decode_column, filled, has_section,
    read_array, serialize_column, sixteen, spawn_column, ChunkBulkArray, ChunkData, ChunkMeta,
    ChunkSection, Position,
};

fn section(tag: u8) -> ChunkSection {
    ChunkSection {
        blocks: [tag; 8192],
        blocks_light: [tag + 100; 2048],
        sky_light: [tag + 200; 2048],
    }
}

fn column(x: i32, z: i32, mask: u16) -> ChunkData {
    let mut sections = [blank_section(); 16];
    for i in 0..16 {
        if mask & (1 << i) != 0 {
            sections[i] = section(i as u8 + 1);
        }
    }
    ChunkData {
        sections,
        meta: ChunkMeta { chunk_x: Int { value: x }, chunk_z: Int { value: z }, primary_bit_mask: mask },
    }
}

#[test]
fn mask_selects_section_count() {
    let bulk = ChunkBulkArray { chunks: vec![column(128, 300, 0b0000_0000_0000_0011)] };
    let bytes = bulk.serialize();
    // two bytes each for x, z and the mask
    assert_eq!(&bytes[..6], &[0x80, 0x01, 0xAC, 0x02, 0x03, 0x00]);
    assert_eq!(bytes.len() - 6, 2 * (8192 + 2048 + 2048) + 256);
    // block ids of both sections, then block light of both, then sky light of both
    assert!(bytes[6..6 + 8192].iter().all(|b| *b == 1));
    assert!(bytes[6 + 8192..6 + 2 * 8192].iter().all(|b| *b == 2));
    let lights = 6 + 2 * 8192;
    assert!(bytes[lights..lights + 2048].iter().all(|b| *b == 101));
    assert!(bytes[lights + 2048..lights + 4096].iter().all(|b| *b == 102));
    let skies = lights + 4096;
    assert!(bytes[skies..skies + 2048].iter().all(|b| *b == 201));
    assert!(bytes[skies + 2048..skies + 4096].iter().all(|b| *b == 202));
    assert!(bytes[skies + 4096..].iter().all(|b| *b == 0));
    assert_eq!(bytes.len() - (skies + 4096), 256);
}

#[test]
fn sections_that_are_not_sent_take_no_bytes() {
    let mut with_hidden = column(0, 0, 0b0100);
    // a section whose bit is not set is left out, whatever it holds
    with_hidden.sections[0] = section(9);
    let mut out = vec![0xAA];
    serialize_column(&with_hidden, &mut out);
    assert_eq!(out.len(), 1 + 4 + 12288 + 256);
    assert_eq!(&out[..5], &[0xAA, 0x00, 0x00, 0x04, 0x00]);
    assert!(out[5..5 + 8192].iter().all(|b| *b == 3));

    let none = ChunkBulkArray { chunks: vec![column(1, 2, 0)] }.serialize();
    assert_eq!(none.len(), 4 + 256);
    assert_eq!(&none[..4], &[0x01, 0x02, 0x00, 0x00]);

    let all = ChunkBulkArray { chunks: vec![column(-1, 5, u16::MAX)] }.serialize();
    assert_eq!(all.len(), 5 + 1 + 2 + 16 * 12288 + 256);
    assert!(ChunkBulkArray::default().serialize().is_empty());
}

#[test]
fn counting_sections() {
    assert_eq!(count_sections(0), 0);
    assert_eq!(count_sections(0b11), 2);
    assert_eq!(count_sections(0b1010_0000_0000_0001), 3);
    assert_eq!(count_sections(u16::MAX), 16);
    assert!(has_section(0b100, 2));
    assert!(!has_section(0b100, 1));
    assert!(has_section(0x8000, 15));
    for mask in [0u16, 1, 0x00F0, 0x1234, 0xFFFF] {
        assert_eq!(count_sections(mask) as u32, mask.count_ones());
    }
}

#[test]
fn columns_round_trip() {
    let bulk = ChunkBulkArray {
        chunks: vec![column(128, 300, 0b11), column(-3, 0, 0x8001), column(7, 7, 0)],
    };
    let bytes = bulk.serialize();
    let (read, next) = decode_chunk_bulk(&bytes, 0, 3).unwrap();
    assert_eq!(next, bytes.len());
    assert_eq!(read, bulk);
    assert_eq!(read.serialize(), bytes);

    let (first, after) = decode_column(&bytes, 0).unwrap();
    assert_eq!(first, bulk.chunks[0]);
    assert_eq!(after, 6 + 2 * 12288 + 256);
    let (two, stop) = decode_chunk_bulk(&bytes, 0, 2).unwrap();
    assert_eq!(two.chunks.len(), 2);
    assert_eq!(stop, after + 5 + 1 + 2 + 2 * 12288 + 256);
    assert_eq!(decode_chunk_bulk(&bytes, 0, 0), Ok((ChunkBulkArray::default(), 0)));
}

#[test]
fn sections_that_were_not_sent_read_as_blank() {
    let mut with_hidden = column(0, 0, 0b10);
    with_hidden.sections[5] = section(50);
    let bytes = ChunkBulkArray { chunks: vec![with_hidden] }.serialize();
    let (read, _) = decode_chunk_bulk(&bytes, 0, 1).unwrap();
    assert_eq!(read.chunks[0].sections[1], section(2));
    assert_eq!(read.chunks[0].sections[5], blank_section());
    assert_eq!(read.chunks[0], column(0, 0, 0b10));
}

#[test]
fn columns_cut_short() {
    let bytes = ChunkBulkArray { chunks: vec![column(1, 1, 0b1)] }.serialize();
    assert_eq!(decode_column(&bytes[..bytes.len() - 1], 0), Err(ProtocolError::TruncatedInput));
    assert_eq!(decode_column(&bytes[..3], 0), Err(ProtocolError::TruncatedInput));
    assert_eq!(decode_column(&[], 0), Err(ProtocolError::TruncatedInput));
    assert_eq!(decode_column(&[0x80; 9], 0), Err(ProtocolError::Malformed));
    assert_eq!(decode_chunk_bulk(&bytes, 0, 2), Err(ProtocolError::TruncatedInput));
    // the biomes are passed over, whatever they hold
    let mut biomes = bytes.clone();
    let last = biomes.len() - 1;
    biomes[last] = 9;
    assert_eq!(decode_column(&biomes, 0).unwrap().0, column(1, 1, 0b1));
}

#[test]
fn spawn_column_is_full_and_patterned() {
    let spawn = spawn_column();
    assert_eq!(spawn.meta.primary_bit_mask, u16::MAX);
    assert_eq!(spawn.meta.chunk_x, Int { value: 0 });
    assert_eq!(spawn.meta.chunk_z, Int { value: 0 });
    for s in spawn.sections.iter() {
        assert!(s.blocks.iter().enumerate().all(|(i, b)| *b == if i % 2 == 0 { 0x20 } else { 0 }));
        assert!(s.blocks_light.iter().all(|b| *b == 2));
        assert!(s.sky_light.iter().all(|b| *b == 2));
    }
    let mut out = Vec::new();
    serialize_column(&spawn, &mut out);
    assert_eq!(out.len(), 4 + 16 * 12288 + 256);
}

#[test]
fn array_helpers() {
    assert_eq!(filled::<4>(7), [7, 7, 7, 7]);
    assert_eq!(read_array::<3>(&[1, 2, 3, 4, 5], 1), [2, 3, 4]);
    let all = sixteen(section(4));
    assert!(all.iter().all(|s| *s == section(4)));
    assert_eq!(blank_section().blocks, [0u8; 8192]);
    let origin = Position::default();
    assert_eq!((origin.x, origin.y, origin.z), (0, 0, 0));
}
