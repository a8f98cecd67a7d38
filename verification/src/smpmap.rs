//! Voxel columns in bulk. A column is sixteen sections stacked from the
//! lowest altitude up; a 16-bit mask says which of them are sent. On the
//! wire a column is its coordinates and mask, then the block ids of every
//! section that is sent, then their block light, then their sky light, then
//! 256 bytes of biomes. A section that is not sent takes no bytes at all.

use vstd::prelude::*;
use crate::error::ProtocolError;
use crate::serialization::{decode_u16, extend_bytes, u16_bytes, u16_parse, Int, Serializable};
use crate::varint::{as_unsigned, decode_varint, lemma_varint_len, varint_bytes, varint_len};
use crate::varint::{lemma_unsigned_signed, lemma_varint_parse_encoded, varint_parse};

verus! {

/// Bytes of block ids in a section: one for each of 16 x 16 x 16 voxels.
pub const BLOCK_BYTES: usize = 8192;

/// Bytes of one kind of light in a section: four bits for each voxel.
pub const LIGHT_BYTES: usize = 2048;

/// Bytes of biomes behind the sections of a column.
pub const BIOME_BYTES: usize = 256;

/// Bytes that one section takes on the wire, over its three arrays.
pub const SECTION_BYTES: usize = 12288;

/// Where a column stands and which of its sections are sent.
#[derive(Clone, Copy, Debug, PartialEq, Eq)]
pub struct ChunkMeta {
    pub chunk_x: Int,
    pub chunk_z: Int,
    /// Bit `i` is set where section `i` is sent; bit 0 is the lowest section.
    pub primary_bit_mask: u16,
}

/// One column: its sixteen sections and its metadata.
#[derive(Clone, Copy, Debug, PartialEq, Eq)]
pub struct ChunkData {
    pub sections: [ChunkSection; 16],
    pub meta: ChunkMeta,
}

/// One section of 16 x 16 x 16 voxels.
#[derive(Clone, Copy, Debug, PartialEq, Eq)]
pub struct ChunkSection {
    /// One block id for each voxel.
    pub blocks: [u8; 8192],
    /// Block light, two voxels to a byte.
    pub blocks_light: [u8; 2048],
    /// Sky light, two voxels to a byte.
    pub sky_light: [u8; 2048],
}

/// Columns that travel together in one packet.
#[derive(Debug, PartialEq, Eq)]
pub struct ChunkBulkArray {
    pub chunks: Vec<ChunkData>,
}

/// A block position.
#[derive(Clone, Copy, Debug, PartialEq, Eq)]
pub struct Position {
    pub x: i32,
    pub z: i32,
    pub y: i16,
}

impl Default for ChunkBulkArray {
    fn default() -> (r: Self)
        ensures
            r.chunks@.len() == 0,
    {
        ChunkBulkArray { chunks: Vec::new() }
    }
}

impl Default for Position {
    fn default() -> (r: Self)
        ensures
            r.x == 0,
            r.z == 0,
            r.y == 0,
    {
        Position { x: 0, z: 0, y: 0 }
    }
}

/// What a section holds.
pub struct SectionModel {
    pub blocks: Seq<u8>,
    pub blocks_light: Seq<u8>,
    pub sky_light: Seq<u8>,
}

/// What a column holds.
pub struct ColumnModel {
    pub x: i32,
    pub z: i32,
    pub mask: u16,
    /// The sixteen sections, lowest first.
    pub sections: Seq<SectionModel>,
}

impl View for ChunkSection {
    type V = SectionModel;

    open spec fn view(&self) -> SectionModel {
        SectionModel {
            blocks: self.blocks@,
            blocks_light: self.blocks_light@,
            sky_light: self.sky_light@,
        }
    }
}

impl View for ChunkData {
    type V = ColumnModel;

    open spec fn view(&self) -> ColumnModel {
        ColumnModel {
            x: self.meta.chunk_x.value,
            z: self.meta.chunk_z.value,
            mask: self.meta.primary_bit_mask,
            sections: Seq::new(16, |i: int| self.sections[i]@),
        }
    }
}

impl View for ChunkBulkArray {
    type V = Seq<ColumnModel>;

    open spec fn view(&self) -> Seq<ColumnModel> {
        self.chunks@.map_values(|c: ChunkData| c@)
    }
}

/// Whether the mask says that section `i` is sent.
pub open spec fn section_present(mask: u16, i: int) -> bool {
    0 <= i < 16 && (mask >> (i as u16)) & 1 == 1
}

/// How many of the sections below `i` are sent.
pub open spec fn sections_below(mask: u16, i: int) -> nat
    decreases i,
{
    if i <= 0 {
        0
    } else {
        sections_below(mask, i - 1) + if section_present(mask, i - 1) {
            1nat
        } else {
            0nat
        }
    }
}

/// How many sections are sent: the number of bits set in the mask.
pub open spec fn section_count(mask: u16) -> nat {
    sections_below(mask, 16)
}

/// The three arrays of a section.
pub enum Layer {
    Blocks,
    BlockLight,
    SkyLight,
}

/// One array of a section.
pub open spec fn layer_of(section: SectionModel, layer: Layer) -> Seq<u8> {
    match layer {
        Layer::Blocks => section.blocks,
        Layer::BlockLight => section.blocks_light,
        Layer::SkyLight => section.sky_light,
    }
}

/// Whether a column has its sixteen sections, each with arrays of the
/// right lengths.
pub open spec fn column_shaped(column: ColumnModel) -> bool {
    &&& column.sections.len() == 16
    &&& forall|i: int, layer: Layer|
        0 <= i < 16 ==> (#[trigger] layer_of(column.sections[i], layer)).len() == layer_len(layer)
}

/// The bytes of one array in each section.
pub open spec fn layer_len(layer: Layer) -> nat {
    match layer {
        Layer::Blocks => 8192,
        Layer::BlockLight => 2048,
        Layer::SkyLight => 2048,
    }
}

/// One array of every section below `i` that is sent, in ascending order.
pub open spec fn layer_bytes(column: ColumnModel, layer: Layer, i: int) -> Seq<u8>
    decreases i,
{
    if i <= 0 {
        Seq::empty()
    } else {
        layer_bytes(column, layer, i - 1) + if section_present(column.mask, i - 1) {
            layer_of(column.sections[i - 1], layer)
        } else {
            Seq::empty()
        }
    }
}

/// The biomes behind the sections: 256 zero bytes.
pub open spec fn biome_bytes() -> Seq<u8> {
    Seq::new(256, |i: int| 0u8)
}

/// The coordinates and the mask at the head of a column.
pub open spec fn meta_bytes(x: i32, z: i32, mask: u16) -> Seq<u8> {
    varint_bytes(as_unsigned(x)) + varint_bytes(as_unsigned(z)) + u16_bytes(mask)
}

/// One column on the wire.
pub open spec fn column_bytes(column: ColumnModel) -> Seq<u8> {
    meta_bytes(column.x, column.z, column.mask) + layer_bytes(column, Layer::Blocks, 16)
        + layer_bytes(column, Layer::BlockLight, 16) + layer_bytes(column, Layer::SkyLight, 16)
        + biome_bytes()
}

/// The columns on the wire, one after the other.
pub open spec fn bulk_bytes(columns: Seq<ColumnModel>) -> Seq<u8>
    decreases columns.len(),
{
    if columns.len() == 0 {
        Seq::empty()
    } else {
        bulk_bytes(columns.drop_last()) + column_bytes(columns.last())
    }
}

/// One array of the sections below `i` takes its length for each of them
/// that is sent.
pub proof fn lemma_layer_len(column: ColumnModel, layer: Layer, i: int)
    requires
        0 <= i <= 16,
        column_shaped(column),
    ensures
        layer_bytes(column, layer, i).len() == sections_below(column.mask, i) * layer_len(layer),
    decreases i,
{
    if i > 0 {
        lemma_layer_len(column, layer, i - 1);
        assert(layer_of(column.sections[i - 1], layer).len() == layer_len(layer));
        let n = sections_below(column.mask, i - 1);
        let unit = layer_len(layer);
        assert((n + 1) * unit == n * unit + unit) by (nonlinear_arith);
    }
}

/// The mask selects how much is sent: behind its head a column takes 8192
/// bytes of block ids, 2048 of block light and 2048 of sky light for each
/// bit set in the mask, and 256 bytes of biomes.
pub proof fn lemma_column_len(column: ColumnModel)
    requires
        column_shaped(column),
    ensures
        column_bytes(column).len() == meta_bytes(column.x, column.z, column.mask).len()
            + section_count(column.mask) * (8192 + 2048 + 2048) + 256,
        meta_bytes(column.x, column.z, column.mask).len() == varint_len(as_unsigned(column.x))
            + varint_len(as_unsigned(column.z)) + 2,
{
    lemma_layer_len(column, Layer::Blocks, 16);
    lemma_layer_len(column, Layer::BlockLight, 16);
    lemma_layer_len(column, Layer::SkyLight, 16);
    lemma_varint_len(as_unsigned(column.x));
    lemma_varint_len(as_unsigned(column.z));
    let n = section_count(column.mask);
    assert(n * (8192 + 2048 + 2048) == n * 8192 + n * 2048 + n * 2048) by (nonlinear_arith);
}

/// A column in memory has its sixteen sections, each with arrays of the
/// right lengths.
pub proof fn lemma_column_shaped(column: ChunkData)
    ensures
        column_shaped(column@),
{
    assert forall|i: int, layer: Layer| 0 <= i < 16 implies (#[trigger] layer_of(
        column@.sections[i],
        layer,
    )).len() == layer_len(layer) by {
        let section = column.sections[i];
        assert(section.blocks@.len() == 8192);
        assert(section.blocks_light@.len() == 2048);
        assert(section.sky_light@.len() == 2048);
    }
}

/// An array with every byte `value`.
pub fn filled<const N: usize>(value: u8) -> (out: [u8; N])
    ensures
        out@ == Seq::new(N as nat, |i: int| value),
{
    let mut out: [u8; N] = [value; N];
    let mut j: usize = 0;
    while j < N
        invariant
            j <= N,
            forall|t: int| 0 <= t < j ==> out@[t] == value,
        decreases N - j,
    {
        out[j] = value;
        j += 1;
    }
    assert(out@ =~= Seq::new(N as nat, |i: int| value));
    out
}

/// A column's worth of sections, every one of them `section`.
pub fn sixteen(section: ChunkSection) -> (out: [ChunkSection; 16])
    ensures
        forall|i: int| 0 <= i < 16 ==> out@[i] == section,
{
    let mut out: [ChunkSection; 16] = [section; 16];
    let mut j: usize = 0;
    while j < 16
        invariant
            j <= 16,
            forall|t: int| 0 <= t < j ==> out@[t] == section,
        decreases 16 - j,
    {
        out[j] = section;
        j += 1;
    }
    out
}

/// Tells whether the mask says that section `i` is sent.
pub fn has_section(mask: u16, i: usize) -> (present: bool)
    requires
        i < 16,
    ensures
        present == section_present(mask, i as int),
{
    (mask >> (i as u16)) & 1 == 1
}

/// Counts the sections that the mask says are sent.
pub fn count_sections(mask: u16) -> (count: usize)
    ensures
        count == section_count(mask),
        count <= 16,
{
    let mut count: usize = 0;
    let mut i: usize = 0;
    while i < 16
        invariant
            i <= 16,
            count == sections_below(mask, i as int),
            count <= i,
        decreases 16 - i,
    {
        if has_section(mask, i) {
            count += 1;
        }
        i += 1;
    }
    count
}

/// Writes one column behind what `out` holds.
pub fn serialize_column(column: &ChunkData, out: &mut Vec<u8>)
    ensures
        final(out)@ == old(out)@ + column_bytes(column@),
{
    let meta = column.meta;
    let x = meta.chunk_x.value.serialize();
    let z = meta.chunk_z.value.serialize();
    let mask = meta.primary_bit_mask.serialize();
    assert(meta.chunk_x.value.wire() == varint_bytes(as_unsigned(meta.chunk_x.value)));
    assert(meta.chunk_z.value.wire() == varint_bytes(as_unsigned(meta.chunk_z.value)));
    assert(meta.primary_bit_mask.wire() == u16_bytes(meta.primary_bit_mask));
    let mut blocks: Vec<u8> = Vec::new();
    let mut blocks_light: Vec<u8> = Vec::new();
    let mut sky_light: Vec<u8> = Vec::new();
    let mut i: usize = 0;
    while i < 16
        invariant
            i <= 16,
            blocks@ == layer_bytes(column@, Layer::Blocks, i as int),
            blocks_light@ == layer_bytes(column@, Layer::BlockLight, i as int),
            sky_light@ == layer_bytes(column@, Layer::SkyLight, i as int),
        decreases 16 - i,
    {
        assert(column@.sections[i as int] == column.sections[i as int]@);
        if has_section(column.meta.primary_bit_mask, i) {
            extend_bytes(&mut blocks, column.sections[i].blocks.as_slice());
            extend_bytes(&mut blocks_light, column.sections[i].blocks_light.as_slice());
            extend_bytes(&mut sky_light, column.sections[i].sky_light.as_slice());
        }
        i += 1;
    }
    let biomes: [u8; 256] = filled::<256>(0);
    assert(biomes@ =~= biome_bytes());
    extend_bytes(out, x.as_slice());
    extend_bytes(out, z.as_slice());
    extend_bytes(out, mask.as_slice());
    extend_bytes(out, blocks.as_slice());
    extend_bytes(out, blocks_light.as_slice());
    extend_bytes(out, sky_light.as_slice());
    extend_bytes(out, biomes.as_slice());
    assert(out@ =~= old(out)@ + column_bytes(column@));
}

impl Serializable for ChunkBulkArray {
    open spec fn wire(&self) -> Seq<u8> {
        bulk_bytes(self@)
    }

    fn serialize(&self) -> (out: Vec<u8>) {
        let mut out: Vec<u8> = Vec::new();
        let mut i: usize = 0;
        while i < self.chunks.len()
            invariant
                i <= self.chunks.len(),
                out@ == bulk_bytes(self.chunks@.take(i as int).map_values(|c: ChunkData| c@)),
            decreases self.chunks.len() - i,
        {
            proof {
                let upto = self.chunks@.take(i + 1).map_values(|c: ChunkData| c@);
                assert(upto.drop_last() =~= self.chunks@.take(i as int).map_values(
                    |c: ChunkData| c@,
                ));
                assert(upto.last() == self.chunks@[i as int]@);
            }
            serialize_column(&self.chunks[i], &mut out);
            i += 1;
        }
        assert(self.chunks@.take(i as int) =~= self.chunks@);
        assert(self.wire() == bulk_bytes(self@));
        out
    }
}

/// A section of zeros: what a section that was not sent reads as.
pub open spec fn blank_model() -> SectionModel {
    SectionModel {
        blocks: Seq::new(8192, |i: int| 0u8),
        blocks_light: Seq::new(2048, |i: int| 0u8),
        sky_light: Seq::new(2048, |i: int| 0u8),
    }
}

/// What section `i` of a column reads as, where the arrays of the column
/// begin at `base`: the section's place among those that are sent says where
/// each of its arrays lies among the block ids, the block light and the sky
/// light.
pub open spec fn section_at(data: Seq<u8>, base: int, mask: u16, i: int) -> SectionModel {
    let sent = section_count(mask) as int;
    let place = sections_below(mask, i) as int;
    let lights = base + sent * 8192;
    let skies = lights + sent * 2048;
    if section_present(mask, i) {
        SectionModel {
            blocks: data.subrange(base + place * 8192, base + place * 8192 + 8192),
            blocks_light: data.subrange(lights + place * 2048, lights + place * 2048 + 2048),
            sky_light: data.subrange(skies + place * 2048, skies + place * 2048 + 2048),
        }
    } else {
        blank_model()
    }
}

/// What reading the head of a column at `start` gives: the coordinates, the
/// mask, and the position after them.
pub open spec fn meta_parse(data: Seq<u8>, start: int) -> Result<
    (i32, i32, u16, int),
    ProtocolError,
> {
    match varint_parse(data, start) {
        Err(e) => Err(e),
        Ok((x, after_x)) => match varint_parse(data, after_x) {
            Err(e) => Err(e),
            Ok((z, after_z)) => match u16_parse(data, after_z) {
                Err(e) => Err(e),
                Ok((mask, base)) => Ok((x, z, mask, base)),
            },
        },
    }
}

/// What reading a column at `start` gives. The buffer must hold, behind the
/// head, every array of every section that the mask says is sent, and the
/// biomes, whose content is passed over.
pub open spec fn column_parse(data: Seq<u8>, start: int) -> Result<
    (ColumnModel, int),
    ProtocolError,
> {
    match meta_parse(data, start) {
        Err(e) => Err(e),
        Ok((x, z, mask, base)) => {
            let next = base + section_count(mask) * 12288 + 256;
            if next > data.len() {
                Err(ProtocolError::TruncatedInput)
            } else {
                Ok(
                    (
                        ColumnModel {
                            x,
                            z,
                            mask,
                            sections: Seq::new(16, |i: int| section_at(data, base, mask, i)),
                        },
                        next,
                    ),
                )
            }
        },
    }
}

/// What reading `count` columns gives, one after the other from `start` on.
pub open spec fn bulk_parse(data: Seq<u8>, start: int, count: nat) -> Result<
    (Seq<ColumnModel>, int),
    ProtocolError,
>
    decreases count,
{
    if count == 0 {
        Ok((Seq::empty(), start))
    } else {
        match bulk_parse(data, start, (count - 1) as nat) {
            Err(e) => Err(e),
            Ok((columns, at)) => match column_parse(data, at) {
                Err(e) => Err(e),
                Ok((column, next)) => Ok((columns.push(column), next)),
            },
        }
    }
}

/// A section of zeros.
pub fn blank_section() -> (section: ChunkSection)
    ensures
        section@ == blank_model(),
{
    ChunkSection {
        blocks: filled::<8192>(0),
        blocks_light: filled::<2048>(0),
        sky_light: filled::<2048>(0),
    }
}

/// Copies the `N` bytes from `from` on into an array.
pub fn read_array<const N: usize>(data: &[u8], from: usize) -> (out: [u8; N])
    requires
        from + N <= data@.len(),
    ensures
        out@ == data@.subrange(from as int, from + N),
{
    let len: usize = data.len();
    let mut out: [u8; N] = filled::<N>(0);
    let mut j: usize = 0;
    while j < N
        invariant
            j <= N,
            from + N <= len,
            len == data@.len(),
            forall|t: int| 0 <= t < j ==> out@[t] == data@[from + t],
        decreases N - j,
    {
        out[j] = data[from + j];
        j += 1;
    }
    assert(out@ =~= data@.subrange(from as int, from + N));
    out
}

/// The sections below `i` that are sent are among those sent below `j`.
pub proof fn lemma_sections_below_grows(mask: u16, i: int, j: int)
    requires
        i <= j,
    ensures
        sections_below(mask, i) <= sections_below(mask, j),
    decreases j - i,
{
    if i < j {
        lemma_sections_below_grows(mask, i, j - 1);
    }
}

/// Reads one column.
pub fn decode_column(data: &[u8], start: usize) -> (r: Result<(ChunkData, usize), ProtocolError>)
    ensures
        match r {
            Ok((column, next)) => column_parse(data@, start as int) == Ok::<
                (ColumnModel, int),
                ProtocolError,
            >((column@, next as int)),
            Err(e) => column_parse(data@, start as int) == Err::<(ColumnModel, int), ProtocolError>(
                e,
            ),
        },
{
    let (x, after_x) = match decode_varint(data, start) {
        Ok(read) => read,
        Err(e) => {
            return Err(e);
        },
    };
    let (z, after_z) = match decode_varint(data, after_x) {
        Ok(read) => read,
        Err(e) => {
            return Err(e);
        },
    };
    let (mask, base) = match decode_u16(data, after_z) {
        Ok(read) => read,
        Err(e) => {
            return Err(e);
        },
    };
    let sent: usize = count_sections(mask);
    if sent * SECTION_BYTES + BIOME_BYTES > data.len() - base {
        return Err(ProtocolError::TruncatedInput);
    }
    let lights: usize = base + sent * BLOCK_BYTES;
    let skies: usize = lights + sent * LIGHT_BYTES;
    let mut sections: [ChunkSection; 16] = sixteen(blank_section());
    let mut place: usize = 0;
    let mut i: usize = 0;
    while i < 16
        invariant
            i <= 16,
            sent == section_count(mask),
            place == sections_below(mask, i as int),
            lights == base + sent * 8192,
            skies == lights + sent * 2048,
            skies + sent * 2048 + 256 <= data@.len(),
            data@.len() <= usize::MAX,
            forall|j: int|
                0 <= j < i ==> (#[trigger] sections[j])@ == section_at(
                    data@,
                    base as int,
                    mask,
                    j,
                ),
            forall|j: int| i <= j < 16 ==> (#[trigger] sections[j])@ == blank_model(),
        decreases 16 - i,
    {
        if has_section(mask, i) {
            proof {
                lemma_sections_below_grows(mask, i + 1, 16);
            }
            assert(place + 1 <= sent);
            let section = ChunkSection {
                blocks: read_array::<8192>(data, base + place * BLOCK_BYTES),
                blocks_light: read_array::<2048>(data, lights + place * LIGHT_BYTES),
                sky_light: read_array::<2048>(data, skies + place * LIGHT_BYTES),
            };
            sections[i] = section;
            place += 1;
        }
        i += 1;
    }
    let column = ChunkData {
        sections,
        meta: ChunkMeta {
            chunk_x: Int { value: x },
            chunk_z: Int { value: z },
            primary_bit_mask: mask,
        },
    };
    assert(column@.sections =~= Seq::new(16, |i: int| section_at(data@, base as int, mask, i)));
    Ok((column, skies + sent * LIGHT_BYTES + BIOME_BYTES))
}

/// Reads `count` columns, one after the other from `start` on.
pub fn decode_chunk_bulk(data: &[u8], start: usize, count: usize) -> (r: Result<
    (ChunkBulkArray, usize),
    ProtocolError,
>)
    ensures
        match r {
            Ok((bulk, next)) => bulk_parse(data@, start as int, count as nat) == Ok::<
                (Seq<ColumnModel>, int),
                ProtocolError,
            >((bulk@, next as int)),
            Err(e) => bulk_parse(data@, start as int, count as nat) == Err::<
                (Seq<ColumnModel>, int),
                ProtocolError,
            >(e),
        },
{
    let mut bulk = ChunkBulkArray { chunks: Vec::new() };
    let mut at: usize = start;
    let mut i: usize = 0;
    assert(bulk@ =~= Seq::empty());
    while i < count
        invariant
            i <= count,
            bulk_parse(data@, start as int, i as nat) == Ok::<
                (Seq<ColumnModel>, int),
                ProtocolError,
            >((bulk@, at as int)),
        decreases count - i,
    {
        match decode_column(data, at) {
            Err(e) => {
                proof {
                    lemma_bulk_parse_error(data@, start as int, (i + 1) as nat, count as nat);
                }
                return Err(e);
            },
            Ok((column, next)) => {
                assert(bulk.chunks@.push(column).map_values(|c: ChunkData| c@) =~= bulk@.push(
                    column@,
                ));
                bulk.chunks.push(column);
                at = next;
            },
        }
        i += 1;
    }
    Ok((bulk, at))
}

/// Reading stops at the first column that cannot be read.
proof fn lemma_bulk_parse_error(data: Seq<u8>, start: int, n: nat, count: nat)
    requires
        n <= count,
        bulk_parse(data, start, n) is Err,
    ensures
        bulk_parse(data, start, count) == bulk_parse(data, start, n),
    decreases count - n,
{
    if n < count {
        lemma_bulk_parse_error(data, start, n + 1, count);
    }
}

/// Whether a column can be read back from its bytes: it has its shape, and
/// every section that is not sent is blank, as it will read.
pub open spec fn column_fits(column: ColumnModel) -> bool {
    &&& column_shaped(column)
    &&& forall|i: int|
        0 <= i < 16 && !section_present(column.mask, i) ==> #[trigger] column.sections[i]
            == blank_model()
}

/// A stretch of the middle one of three sequences, found in their
/// concatenation.
proof fn lemma_middle_subrange(a: Seq<u8>, b: Seq<u8>, c: Seq<u8>, from: int, to: int)
    requires
        0 <= from <= to <= b.len(),
    ensures
        (a + b + c).subrange(a.len() + from, a.len() + to) == b.subrange(from, to),
{
    assert((a + b + c).subrange(a.len() + from, a.len() + to) =~= b.subrange(from, to));
}

/// Among the bytes of one array over the sections below `n`, those of
/// section `i` lie at the section's place among the sections that are sent.
proof fn lemma_layer_place(column: ColumnModel, layer: Layer, i: int, n: int)
    requires
        column_shaped(column),
        0 <= i < n <= 16,
        section_present(column.mask, i),
    ensures
        ({
            let at = (sections_below(column.mask, i) * layer_len(layer)) as int;
            let to = at + layer_len(layer);
            &&& to <= layer_bytes(column, layer, n).len()
            &&& layer_bytes(column, layer, n).subrange(at, to) == layer_of(
                column.sections[i],
                layer,
            )
        }),
    decreases n,
{
    let unit = layer_len(layer) as int;
    let below = sections_below(column.mask, i) as int;
    let at = below * unit;
    let own = layer_of(column.sections[i], layer);
    assert(own.len() == unit);
    lemma_layer_len(column, layer, i);
    lemma_layer_len(column, layer, n);
    lemma_layer_len(column, layer, n - 1);
    if n == i + 1 {
        assert(layer_bytes(column, layer, n) == layer_bytes(column, layer, i) + own);
        assert((layer_bytes(column, layer, i) + own).subrange(at, at + unit) =~= own);
    } else {
        lemma_layer_place(column, layer, i, n - 1);
        let before = layer_bytes(column, layer, n - 1);
        assert(layer_bytes(column, layer, n).subrange(at, at + unit) =~= before.subrange(
            at,
            at + unit,
        ));
    }
}

/// Reading back the head of a column.
proof fn lemma_meta_parse_encoded(pre: Seq<u8>, x: i32, z: i32, mask: u16, post: Seq<u8>)
    ensures
        meta_parse(pre + meta_bytes(x, z, mask) + post, pre.len() as int) == Ok::<
            (i32, i32, u16, int),
            ProtocolError,
        >((x, z, mask, (pre.len() + meta_bytes(x, z, mask).len()) as int)),
{
    let data = pre + meta_bytes(x, z, mask) + post;
    let xs = varint_bytes(as_unsigned(x));
    let zs = varint_bytes(as_unsigned(z));
    let ms = u16_bytes(mask);
    lemma_varint_parse_encoded(pre, as_unsigned(x), zs + ms + post);
    assert(pre + xs + (zs + ms + post) =~= data);
    lemma_varint_parse_encoded(pre + xs, as_unsigned(z), ms + post);
    assert((pre + xs) + zs + (ms + post) =~= data);
    lemma_varint_len(as_unsigned(x));
    lemma_varint_len(as_unsigned(z));
    lemma_unsigned_signed(x);
    lemma_unsigned_signed(z);
    let at = (pre.len() + xs.len() + zs.len()) as int;
    assert(data[at] == ms[0]);
    assert(data[at + 1] == ms[1]);
}

/// Reading back one section of a column that was written.
proof fn lemma_section_at_encoded(pre: Seq<u8>, column: ColumnModel, post: Seq<u8>, i: int)
    requires
        column_fits(column),
        0 <= i < 16,
    ensures
        section_at(
            pre + column_bytes(column) + post,
            (pre.len() + meta_bytes(column.x, column.z, column.mask).len()) as int,
            column.mask,
            i,
        ) == column.sections[i],
{
    let data = pre + column_bytes(column) + post;
    let head = pre + meta_bytes(column.x, column.z, column.mask);
    let base = head.len() as int;
    let blocks = layer_bytes(column, Layer::Blocks, 16);
    let lights = layer_bytes(column, Layer::BlockLight, 16);
    let skies = layer_bytes(column, Layer::SkyLight, 16);
    let sent = section_count(column.mask) as int;
    let place = sections_below(column.mask, i) as int;
    lemma_layer_len(column, Layer::Blocks, 16);
    lemma_layer_len(column, Layer::BlockLight, 16);
    lemma_layer_len(column, Layer::SkyLight, 16);
    if section_present(column.mask, i) {
        lemma_layer_place(column, Layer::Blocks, i, 16);
        lemma_layer_place(column, Layer::BlockLight, i, 16);
        lemma_layer_place(column, Layer::SkyLight, i, 16);
        assert(head + blocks + (lights + skies + biome_bytes() + post) =~= data);
        lemma_middle_subrange(
            head,
            blocks,
            lights + skies + biome_bytes() + post,
            place * 8192,
            place * 8192 + 8192,
        );
        assert((head + blocks) + lights + (skies + biome_bytes() + post) =~= data);
        lemma_middle_subrange(
            head + blocks,
            lights,
            skies + biome_bytes() + post,
            place * 2048,
            place * 2048 + 2048,
        );
        assert((head + blocks + lights) + skies + (biome_bytes() + post) =~= data);
        lemma_middle_subrange(
            head + blocks + lights,
            skies,
            biome_bytes() + post,
            place * 2048,
            place * 2048 + 2048,
        );
        let read = section_at(data, base, column.mask, i);
        let own = column.sections[i];
        assert(read.blocks == layer_of(own, Layer::Blocks));
        assert(read.blocks_light == layer_of(own, Layer::BlockLight));
        assert(read.sky_light == layer_of(own, Layer::SkyLight));
    }
}

/// Reading back what was written, wherever it stands in a buffer: one
/// column.
pub proof fn lemma_column_parse_encoded(pre: Seq<u8>, column: ColumnModel, post: Seq<u8>)
    requires
        column_fits(column),
    ensures
        column_parse(pre + column_bytes(column) + post, pre.len() as int) == Ok::<
            (ColumnModel, int),
            ProtocolError,
        >((column, (pre.len() + column_bytes(column).len()) as int)),
{
    let data = pre + column_bytes(column) + post;
    let meta = meta_bytes(column.x, column.z, column.mask);
    let rest = layer_bytes(column, Layer::Blocks, 16) + layer_bytes(column, Layer::BlockLight, 16)
        + layer_bytes(column, Layer::SkyLight, 16) + biome_bytes();
    let base = (pre.len() + meta.len()) as int;
    lemma_meta_parse_encoded(pre, column.x, column.z, column.mask, rest + post);
    assert(pre + meta + (rest + post) =~= data);
    lemma_column_len(column);
    let read = Seq::new(16, |i: int| section_at(data, base, column.mask, i));
    assert forall|i: int| 0 <= i < 16 implies read[i] == column.sections[i] by {
        lemma_section_at_encoded(pre, column, post, i);
    }
    assert(read =~= column.sections);
}

/// Whether columns can be read back from their bytes.
pub open spec fn bulk_fits(columns: Seq<ColumnModel>) -> bool {
    forall|i: int| 0 <= i < columns.len() ==> column_fits(#[trigger] columns[i])
}

/// The bytes of a list of columns, taken apart at the last column.
proof fn lemma_split_last_column(pre: Seq<u8>, columns: Seq<ColumnModel>, post: Seq<u8>)
    requires
        columns.len() > 0,
    ensures
        pre + bulk_bytes(columns.drop_last()) + (column_bytes(columns.last()) + post) == pre
            + bulk_bytes(columns) + post,
        (pre + bulk_bytes(columns.drop_last())) + column_bytes(columns.last()) + post == pre
            + bulk_bytes(columns) + post,
        columns.drop_last().push(columns.last()) == columns,
        bulk_bytes(columns).len() == bulk_bytes(columns.drop_last()).len() + column_bytes(
            columns.last(),
        ).len(),
{
    let before = columns.drop_last();
    let last = columns.last();
    let data = pre + bulk_bytes(columns) + post;
    assert(pre + bulk_bytes(before) + (column_bytes(last) + post) =~= data);
    assert((pre + bulk_bytes(before)) + column_bytes(last) + post =~= data);
    assert(before.push(last) =~= columns);
}

/// Reading one more column.
proof fn lemma_bulk_parse_step(
    data: Seq<u8>,
    start: int,
    count: nat,
    before: Seq<ColumnModel>,
    at: int,
    column: ColumnModel,
    next: int,
)
    requires
        count > 0,
        bulk_parse(data, start, (count - 1) as nat) == Ok::<(Seq<ColumnModel>, int), ProtocolError>(
            (before, at),
        ),
        column_parse(data, at) == Ok::<(ColumnModel, int), ProtocolError>((column, next)),
    ensures
        bulk_parse(data, start, count) == Ok::<(Seq<ColumnModel>, int), ProtocolError>(
            (before.push(column), next),
        ),
{
}

/// Round trip: reading back the columns that were written, wherever they
/// stand in a buffer.
pub proof fn lemma_bulk_parse_encoded(pre: Seq<u8>, columns: Seq<ColumnModel>, post: Seq<u8>)
    requires
        bulk_fits(columns),
    ensures
        bulk_parse(pre + bulk_bytes(columns) + post, pre.len() as int, columns.len()) == Ok::<
            (Seq<ColumnModel>, int),
            ProtocolError,
        >((columns, (pre.len() + bulk_bytes(columns).len()) as int)),
    decreases columns.len(),
{
    if columns.len() == 0 {
        assert(columns =~= Seq::empty());
    } else {
        let before = columns.drop_last();
        let last = columns.last();
        let head = pre + bulk_bytes(before);
        assert(column_fits(last));
        assert forall|i: int| 0 <= i < before.len() implies column_fits(#[trigger] before[i]) by {
            assert(before[i] == columns[i]);
        }
        lemma_split_last_column(pre, columns, post);
        lemma_bulk_parse_encoded(pre, before, column_bytes(last) + post);
        lemma_column_parse_encoded(head, last, post);
        lemma_bulk_parse_step(
            pre + bulk_bytes(columns) + post,
            pre.len() as int,
            columns.len(),
            before,
            head.len() as int,
            last,
            (head.len() + column_bytes(last).len()) as int,
        );
    }
}

/// What a section of the column under the spawn point holds: block ids
/// that alternate between 0x20 and 0, and light of 2 throughout.
pub open spec fn spawn_section_model() -> SectionModel {
    SectionModel {
        blocks: Seq::new(
            8192,
            |i: int|
                if i % 2 == 0 {
                    0x20u8
                } else {
                    0u8
                },
        ),
        blocks_light: Seq::new(2048, |i: int| 2u8),
        sky_light: Seq::new(2048, |i: int| 2u8),
    }
}

/// What the column under the spawn point holds: at the origin, all sixteen
/// sections sent, each of them the same.
pub open spec fn spawn_column_model() -> ColumnModel {
    ColumnModel { x: 0, z: 0, mask: 0xffff, sections: Seq::new(16, |i: int| spawn_section_model()) }
}

/// The column under the spawn point, which a player is sent on joining.
pub fn spawn_column() -> (column: ChunkData)
    ensures
        column@ == spawn_column_model(),
{
    let mut blocks: [u8; 8192] = filled::<8192>(0);
    let mut i: usize = 0;
    while i < 8192
        invariant
            i <= 8192,
            forall|j: int| 0 <= j < i ==> blocks@[j] == spawn_section_model().blocks[j],
            forall|j: int| i <= j < 8192 ==> blocks@[j] == 0,
        decreases 8192 - i,
    {
        if i % 2 == 0 {
            blocks[i] = 0x20;
        }
        i += 1;
    }
    let section = ChunkSection {
        blocks,
        blocks_light: filled::<2048>(2),
        sky_light: filled::<2048>(2),
    };
    assert(section.blocks@ =~= spawn_section_model().blocks);
    assert(section@ == spawn_section_model());
    let column = ChunkData {
        sections: sixteen(section),
        meta: ChunkMeta {
            chunk_x: Int { value: 0 },
            chunk_z: Int { value: 0 },
            primary_bit_mask: 0xffff,
        },
    };
    assert(column@.sections =~= spawn_column_model().sections);
    column
}

/// A mask with every bit set sends every section.
pub proof fn lemma_full_mask(i: int)
    requires
        0 <= i < 16,
    ensures
        section_present(0xffff, i),
{
    let k = i as u16;
    assert((0xffffu16 >> k) & 1 == 1) by (bit_vector)
        requires
            k < 16,
    ;
}

/// The column under the spawn point can be read back from its bytes.
pub proof fn lemma_spawn_column_fits()
    ensures
        column_fits(spawn_column_model()),
{
    let column = spawn_column_model();
    assert forall|i: int, layer: Layer| 0 <= i < 16 implies (#[trigger] layer_of(
        column.sections[i],
        layer,
    )).len() == layer_len(layer) by {}
    assert forall|i: int|
        0 <= i < 16 && !section_present(column.mask, i) implies #[trigger] column.sections[i]
        == blank_model() by {
        lemma_full_mask(i);
    }
}

} // verus!
