//! The packets that the server sends.

use vstd::prelude::*;
use crate::error::ProtocolError;
use crate::field::{fields_bytes, fields_fit, kind_of, kinds_of, models, serialize_fields};
use crate::field::{FieldKind, FieldModel, FieldValue};
use crate::frame::{payload_fields, read_payload};
use crate::roundtrip::lemma_payload_round_trip;
use crate::frame::{in_frame, within_frame};
use crate::identifier::Identifier;
use crate::serialization::{bool_bytes, bool_parse, decode_bool, extend_bytes, Int, Serializable};
use crate::smpmap::{bulk_bytes, bulk_fits, bulk_parse, decode_chunk_bulk};
use crate::smpmap::{lemma_bulk_parse_encoded, ChunkBulkArray, ColumnModel};
use crate::varint::{as_unsigned, decode_varint, lemma_cast_unsigned, lemma_unsigned_signed};
use crate::varint::{lemma_varint_len, lemma_varint_parse_encoded, varint_bytes, varint_parse};
use crate::packets::Packet;

verus! {

/// The server's status, as a JSON text.
#[derive(Debug, PartialEq, Eq)]
pub struct ClientboundStatusResponsePacket {
    pub json_string: String,
}

impl View for ClientboundStatusResponsePacket {
    type V = Seq<FieldModel>;

    open spec fn view(&self) -> Seq<FieldModel> {
        seq![
            FieldModel::Text(self.json_string@),
        ]
    }
}

impl ClientboundStatusResponsePacket {
    /// The types of the packet's fields, in order.
    pub open spec fn schema() -> Seq<FieldKind> {
        seq![
            FieldKind::Text,
        ]
    }
}

impl Packet for ClientboundStatusResponsePacket {
    open spec fn packet_id() -> i32 {
        0
    }

    open spec fn payload_bytes(model: Seq<FieldModel>) -> Seq<u8> {
        fields_bytes(model)
    }

    open spec fn payload_parse(data: Seq<u8>) -> Result<(Seq<FieldModel>, bool), ProtocolError> {
        payload_fields(data, Self::schema())
    }

    open spec fn fits(model: Seq<FieldModel>) -> bool {
        fields_fit(model, Self::schema())
    }

    proof fn lemma_round_trip(model: Seq<FieldModel>) {
        lemma_payload_round_trip(model);
    }

    fn id() -> (id: i32) {
        0
    }

    fn payload(&self) -> (out: Vec<u8>) {
        let fields = vec![
            FieldValue::Text(self.json_string.clone()),
        ];
        assert(models(fields@) =~= self@);
        serialize_fields(&fields)
    }

    fn read(data: &[u8]) -> (r: Result<(Self, bool), ProtocolError>) {
        let kinds = vec![
            FieldKind::Text,
        ];
        assert(kinds@ =~= Self::schema());
        match read_payload(data, &kinds) {
            Err(e) => Err(e),
            Ok((fields, replaced)) => {
                let packet = ClientboundStatusResponsePacket {
                    json_string: fields[0].text(),
                };
                proof {
                    let read = models(fields@);
                    assert(kind_of(read[0]) == kinds_of(read)[0]);
                    assert(packet@ =~= read);
                }
                Ok((packet, replaced))
            },
        }
    }
}

/// The echo of a ping: the payload that the request carried.
#[derive(Debug, PartialEq, Eq)]
pub struct ClientboundPingResponsePacket {
    pub payload: i64,
}

impl View for ClientboundPingResponsePacket {
    type V = Seq<FieldModel>;

    open spec fn view(&self) -> Seq<FieldModel> {
        seq![
            FieldModel::LongLe(self.payload),
        ]
    }
}

impl ClientboundPingResponsePacket {
    /// The types of the packet's fields, in order.
    pub open spec fn schema() -> Seq<FieldKind> {
        seq![
            FieldKind::LongLe,
        ]
    }
}

impl Packet for ClientboundPingResponsePacket {
    open spec fn packet_id() -> i32 {
        1
    }

    open spec fn payload_bytes(model: Seq<FieldModel>) -> Seq<u8> {
        fields_bytes(model)
    }

    open spec fn payload_parse(data: Seq<u8>) -> Result<(Seq<FieldModel>, bool), ProtocolError> {
        payload_fields(data, Self::schema())
    }

    open spec fn fits(model: Seq<FieldModel>) -> bool {
        fields_fit(model, Self::schema())
    }

    proof fn lemma_round_trip(model: Seq<FieldModel>) {
        lemma_payload_round_trip(model);
    }

    fn id() -> (id: i32) {
        1
    }

    fn payload(&self) -> (out: Vec<u8>) {
        let fields = vec![
            FieldValue::LongLe(self.payload),
        ];
        assert(models(fields@) =~= self@);
        serialize_fields(&fields)
    }

    fn read(data: &[u8]) -> (r: Result<(Self, bool), ProtocolError>) {
        let kinds = vec![
            FieldKind::LongLe,
        ];
        assert(kinds@ =~= Self::schema());
        match read_payload(data, &kinds) {
            Err(e) => Err(e),
            Ok((fields, replaced)) => {
                let packet = ClientboundPingResponsePacket {
                    payload: fields[0].long(),
                };
                proof {
                    let read = models(fields@);
                    assert(kind_of(read[0]) == kinds_of(read)[0]);
                    assert(packet@ =~= read);
                }
                Ok((packet, replaced))
            },
        }
    }
}

/// Ends the connection, with the reason as a JSON text.
#[derive(Debug, PartialEq, Eq)]
pub struct ClientboundDisconnectPacket {
    pub reason: String,
}

impl View for ClientboundDisconnectPacket {
    type V = Seq<FieldModel>;

    open spec fn view(&self) -> Seq<FieldModel> {
        seq![
            FieldModel::Text(self.reason@),
        ]
    }
}

impl ClientboundDisconnectPacket {
    /// The types of the packet's fields, in order.
    pub open spec fn schema() -> Seq<FieldKind> {
        seq![
            FieldKind::Text,
        ]
    }
}

impl Packet for ClientboundDisconnectPacket {
    open spec fn packet_id() -> i32 {
        0
    }

    open spec fn payload_bytes(model: Seq<FieldModel>) -> Seq<u8> {
        fields_bytes(model)
    }

    open spec fn payload_parse(data: Seq<u8>) -> Result<(Seq<FieldModel>, bool), ProtocolError> {
        payload_fields(data, Self::schema())
    }

    open spec fn fits(model: Seq<FieldModel>) -> bool {
        fields_fit(model, Self::schema())
    }

    proof fn lemma_round_trip(model: Seq<FieldModel>) {
        lemma_payload_round_trip(model);
    }

    fn id() -> (id: i32) {
        0
    }

    fn payload(&self) -> (out: Vec<u8>) {
        let fields = vec![
            FieldValue::Text(self.reason.clone()),
        ];
        assert(models(fields@) =~= self@);
        serialize_fields(&fields)
    }

    fn read(data: &[u8]) -> (r: Result<(Self, bool), ProtocolError>) {
        let kinds = vec![
            FieldKind::Text,
        ];
        assert(kinds@ =~= Self::schema());
        match read_payload(data, &kinds) {
            Err(e) => Err(e),
            Ok((fields, replaced)) => {
                let packet = ClientboundDisconnectPacket {
                    reason: fields[0].text(),
                };
                proof {
                    let read = models(fields@);
                    assert(kind_of(read[0]) == kinds_of(read)[0]);
                    assert(packet@ =~= read);
                }
                Ok((packet, replaced))
            },
        }
    }
}

/// The login succeeded: the player's identifier and name.
#[derive(Debug, PartialEq, Eq)]
pub struct ClientboundLoginSuccessPacket {
    pub uuid: Identifier,
    pub username: String,
}

impl View for ClientboundLoginSuccessPacket {
    type V = Seq<FieldModel>;

    open spec fn view(&self) -> Seq<FieldModel> {
        seq![
            FieldModel::Identifier(self.uuid.value),
            FieldModel::Text(self.username@),
        ]
    }
}

impl ClientboundLoginSuccessPacket {
    /// The types of the packet's fields, in order.
    pub open spec fn schema() -> Seq<FieldKind> {
        seq![
            FieldKind::Identifier,
            FieldKind::Text,
        ]
    }
}

impl Packet for ClientboundLoginSuccessPacket {
    open spec fn packet_id() -> i32 {
        2
    }

    open spec fn payload_bytes(model: Seq<FieldModel>) -> Seq<u8> {
        fields_bytes(model)
    }

    open spec fn payload_parse(data: Seq<u8>) -> Result<(Seq<FieldModel>, bool), ProtocolError> {
        payload_fields(data, Self::schema())
    }

    open spec fn fits(model: Seq<FieldModel>) -> bool {
        fields_fit(model, Self::schema())
    }

    proof fn lemma_round_trip(model: Seq<FieldModel>) {
        lemma_payload_round_trip(model);
    }

    fn id() -> (id: i32) {
        2
    }

    fn payload(&self) -> (out: Vec<u8>) {
        let fields = vec![
            FieldValue::Identifier(self.uuid),
            FieldValue::Text(self.username.clone()),
        ];
        assert(models(fields@) =~= self@);
        serialize_fields(&fields)
    }

    fn read(data: &[u8]) -> (r: Result<(Self, bool), ProtocolError>) {
        let kinds = vec![
            FieldKind::Identifier,
            FieldKind::Text,
        ];
        assert(kinds@ =~= Self::schema());
        match read_payload(data, &kinds) {
            Err(e) => Err(e),
            Ok((fields, replaced)) => {
                let packet = ClientboundLoginSuccessPacket {
                    uuid: fields[0].identifier(),
                    username: fields[1].text(),
                };
                proof {
                    let read = models(fields@);
                    assert(kind_of(read[0]) == kinds_of(read)[0]);
                    assert(kind_of(read[1]) == kinds_of(read)[1]);
                    assert(packet@ =~= read);
                }
                Ok((packet, replaced))
            },
        }
    }
}

/// Asks the client to show that it is still there.
#[derive(Debug, PartialEq, Eq)]
pub struct ClientboundKeepAlivePacket {
    pub id: i32,
}

impl View for ClientboundKeepAlivePacket {
    type V = Seq<FieldModel>;

    open spec fn view(&self) -> Seq<FieldModel> {
        seq![
            FieldModel::VarInt(self.id),
        ]
    }
}

impl ClientboundKeepAlivePacket {
    /// The types of the packet's fields, in order.
    pub open spec fn schema() -> Seq<FieldKind> {
        seq![
            FieldKind::VarInt,
        ]
    }
}

impl Packet for ClientboundKeepAlivePacket {
    open spec fn packet_id() -> i32 {
        0
    }

    open spec fn payload_bytes(model: Seq<FieldModel>) -> Seq<u8> {
        fields_bytes(model)
    }

    open spec fn payload_parse(data: Seq<u8>) -> Result<(Seq<FieldModel>, bool), ProtocolError> {
        payload_fields(data, Self::schema())
    }

    open spec fn fits(model: Seq<FieldModel>) -> bool {
        fields_fit(model, Self::schema())
    }

    proof fn lemma_round_trip(model: Seq<FieldModel>) {
        lemma_payload_round_trip(model);
    }

    fn id() -> (id: i32) {
        0
    }

    fn payload(&self) -> (out: Vec<u8>) {
        let fields = vec![
            FieldValue::VarInt(self.id),
        ];
        assert(models(fields@) =~= self@);
        serialize_fields(&fields)
    }

    fn read(data: &[u8]) -> (r: Result<(Self, bool), ProtocolError>) {
        let kinds = vec![
            FieldKind::VarInt,
        ];
        assert(kinds@ =~= Self::schema());
        match read_payload(data, &kinds) {
            Err(e) => Err(e),
            Ok((fields, replaced)) => {
                let packet = ClientboundKeepAlivePacket {
                    id: fields[0].varint(),
                };
                proof {
                    let read = models(fields@);
                    assert(kind_of(read[0]) == kinds_of(read)[0]);
                    assert(packet@ =~= read);
                }
                Ok((packet, replaced))
            },
        }
    }
}

/// Places the player in the world.
#[derive(Debug, PartialEq, Eq)]
pub struct ClientboundJoinGamePacket {
    /// The entity id of the player.
    pub id: Int,
    pub gamemode: u8,
    pub dimension: i8,
    pub difficulty: u8,
    pub max_players: u8,
    pub level_type: String,
    pub reduced_debug_info: bool,
}

impl View for ClientboundJoinGamePacket {
    type V = Seq<FieldModel>;

    open spec fn view(&self) -> Seq<FieldModel> {
        seq![
            FieldModel::Int(self.id.value),
            FieldModel::U8(self.gamemode),
            FieldModel::I8(self.dimension),
            FieldModel::U8(self.difficulty),
            FieldModel::U8(self.max_players),
            FieldModel::Text(self.level_type@),
            FieldModel::Bool(self.reduced_debug_info),
        ]
    }
}

impl ClientboundJoinGamePacket {
    /// The types of the packet's fields, in order.
    pub open spec fn schema() -> Seq<FieldKind> {
        seq![
            FieldKind::Int,
            FieldKind::U8,
            FieldKind::I8,
            FieldKind::U8,
            FieldKind::U8,
            FieldKind::Text,
            FieldKind::Bool,
        ]
    }
}

impl Packet for ClientboundJoinGamePacket {
    open spec fn packet_id() -> i32 {
        1
    }

    open spec fn payload_bytes(model: Seq<FieldModel>) -> Seq<u8> {
        fields_bytes(model)
    }

    open spec fn payload_parse(data: Seq<u8>) -> Result<(Seq<FieldModel>, bool), ProtocolError> {
        payload_fields(data, Self::schema())
    }

    open spec fn fits(model: Seq<FieldModel>) -> bool {
        fields_fit(model, Self::schema())
    }

    proof fn lemma_round_trip(model: Seq<FieldModel>) {
        lemma_payload_round_trip(model);
    }

    fn id() -> (id: i32) {
        1
    }

    fn payload(&self) -> (out: Vec<u8>) {
        let fields = vec![
            FieldValue::Int(self.id),
            FieldValue::U8(self.gamemode),
            FieldValue::I8(self.dimension),
            FieldValue::U8(self.difficulty),
            FieldValue::U8(self.max_players),
            FieldValue::Text(self.level_type.clone()),
            FieldValue::Bool(self.reduced_debug_info),
        ];
        assert(models(fields@) =~= self@);
        serialize_fields(&fields)
    }

    fn read(data: &[u8]) -> (r: Result<(Self, bool), ProtocolError>) {
        let kinds = vec![
            FieldKind::Int,
            FieldKind::U8,
            FieldKind::I8,
            FieldKind::U8,
            FieldKind::U8,
            FieldKind::Text,
            FieldKind::Bool,
        ];
        assert(kinds@ =~= Self::schema());
        match read_payload(data, &kinds) {
            Err(e) => Err(e),
            Ok((fields, replaced)) => {
                let packet = ClientboundJoinGamePacket {
                    id: fields[0].fixed_int(),
                    gamemode: fields[1].unsigned_byte(),
                    dimension: fields[2].signed_byte(),
                    difficulty: fields[3].unsigned_byte(),
                    max_players: fields[4].unsigned_byte(),
                    level_type: fields[5].text(),
                    reduced_debug_info: fields[6].boolean(),
                };
                proof {
                    let read = models(fields@);
                    assert(kind_of(read[0]) == kinds_of(read)[0]);
                    assert(kind_of(read[1]) == kinds_of(read)[1]);
                    assert(kind_of(read[2]) == kinds_of(read)[2]);
                    assert(kind_of(read[3]) == kinds_of(read)[3]);
                    assert(kind_of(read[4]) == kinds_of(read)[4]);
                    assert(kind_of(read[5]) == kinds_of(read)[5]);
                    assert(kind_of(read[6]) == kinds_of(read)[6]);
                    assert(packet@ =~= read);
                }
                Ok((packet, replaced))
            },
        }
    }
}

/// A message on a named channel.
#[derive(Debug, PartialEq, Eq)]
pub struct ClientboundPluginMessagePacket {
    pub channel: String,
    pub data: String,
}

impl View for ClientboundPluginMessagePacket {
    type V = Seq<FieldModel>;

    open spec fn view(&self) -> Seq<FieldModel> {
        seq![
            FieldModel::Text(self.channel@),
            FieldModel::Text(self.data@),
        ]
    }
}

impl ClientboundPluginMessagePacket {
    /// The types of the packet's fields, in order.
    pub open spec fn schema() -> Seq<FieldKind> {
        seq![
            FieldKind::Text,
            FieldKind::Text,
        ]
    }
}

impl Packet for ClientboundPluginMessagePacket {
    open spec fn packet_id() -> i32 {
        0x3F
    }

    open spec fn payload_bytes(model: Seq<FieldModel>) -> Seq<u8> {
        fields_bytes(model)
    }

    open spec fn payload_parse(data: Seq<u8>) -> Result<(Seq<FieldModel>, bool), ProtocolError> {
        payload_fields(data, Self::schema())
    }

    open spec fn fits(model: Seq<FieldModel>) -> bool {
        fields_fit(model, Self::schema())
    }

    proof fn lemma_round_trip(model: Seq<FieldModel>) {
        lemma_payload_round_trip(model);
    }

    fn id() -> (id: i32) {
        0x3F
    }

    fn payload(&self) -> (out: Vec<u8>) {
        let fields = vec![
            FieldValue::Text(self.channel.clone()),
            FieldValue::Text(self.data.clone()),
        ];
        assert(models(fields@) =~= self@);
        serialize_fields(&fields)
    }

    fn read(data: &[u8]) -> (r: Result<(Self, bool), ProtocolError>) {
        let kinds = vec![
            FieldKind::Text,
            FieldKind::Text,
        ];
        assert(kinds@ =~= Self::schema());
        match read_payload(data, &kinds) {
            Err(e) => Err(e),
            Ok((fields, replaced)) => {
                let packet = ClientboundPluginMessagePacket {
                    channel: fields[0].text(),
                    data: fields[1].text(),
                };
                proof {
                    let read = models(fields@);
                    assert(kind_of(read[0]) == kinds_of(read)[0]);
                    assert(kind_of(read[1]) == kinds_of(read)[1]);
                    assert(packet@ =~= read);
                }
                Ok((packet, replaced))
            },
        }
    }
}

/// The difficulty of the world.
#[derive(Debug, PartialEq, Eq)]
pub struct ClientboundDifficultyPacket {
    pub difficulty: u8,
}

impl View for ClientboundDifficultyPacket {
    type V = Seq<FieldModel>;

    open spec fn view(&self) -> Seq<FieldModel> {
        seq![
            FieldModel::U8(self.difficulty),
        ]
    }
}

impl ClientboundDifficultyPacket {
    /// The types of the packet's fields, in order.
    pub open spec fn schema() -> Seq<FieldKind> {
        seq![
            FieldKind::U8,
        ]
    }
}

impl Packet for ClientboundDifficultyPacket {
    open spec fn packet_id() -> i32 {
        0x41
    }

    open spec fn payload_bytes(model: Seq<FieldModel>) -> Seq<u8> {
        fields_bytes(model)
    }

    open spec fn payload_parse(data: Seq<u8>) -> Result<(Seq<FieldModel>, bool), ProtocolError> {
        payload_fields(data, Self::schema())
    }

    open spec fn fits(model: Seq<FieldModel>) -> bool {
        fields_fit(model, Self::schema())
    }

    proof fn lemma_round_trip(model: Seq<FieldModel>) {
        lemma_payload_round_trip(model);
    }

    fn id() -> (id: i32) {
        0x41
    }

    fn payload(&self) -> (out: Vec<u8>) {
        let fields = vec![
            FieldValue::U8(self.difficulty),
        ];
        assert(models(fields@) =~= self@);
        serialize_fields(&fields)
    }

    fn read(data: &[u8]) -> (r: Result<(Self, bool), ProtocolError>) {
        let kinds = vec![
            FieldKind::U8,
        ];
        assert(kinds@ =~= Self::schema());
        match read_payload(data, &kinds) {
            Err(e) => Err(e),
            Ok((fields, replaced)) => {
                let packet = ClientboundDifficultyPacket {
                    difficulty: fields[0].unsigned_byte(),
                };
                proof {
                    let read = models(fields@);
                    assert(kind_of(read[0]) == kinds_of(read)[0]);
                    assert(packet@ =~= read);
                }
                Ok((packet, replaced))
            },
        }
    }
}
/// Columns of the world in bulk: whether sky light is sent, how many columns
/// follow, and the columns.
#[derive(Debug, PartialEq, Eq)]
pub struct ClientboundMapChunkBulkPacket {
    pub sky_light_sent: bool,
    /// The number of columns in `chunks`.
    pub chunk_column_count: i32,
    pub chunks: ChunkBulkArray,
}

/// What a packet of columns holds.
pub struct MapChunkBulkModel {
    pub sky_light_sent: bool,
    pub chunk_column_count: i32,
    pub columns: Seq<ColumnModel>,
}

impl View for ClientboundMapChunkBulkPacket {
    type V = MapChunkBulkModel;

    open spec fn view(&self) -> MapChunkBulkModel {
        MapChunkBulkModel {
            sky_light_sent: self.sky_light_sent,
            chunk_column_count: self.chunk_column_count,
            columns: self.chunks@,
        }
    }
}

impl Packet for ClientboundMapChunkBulkPacket {
    open spec fn packet_id() -> i32 {
        0x26
    }

    open spec fn payload_bytes(model: MapChunkBulkModel) -> Seq<u8> {
        bool_bytes(model.sky_light_sent) + varint_bytes(as_unsigned(model.chunk_column_count))
            + bulk_bytes(model.columns)
    }

    /// The count is read as an unsigned number, and as many columns as it
    /// says must follow and fill the payload.
    open spec fn payload_parse(data: Seq<u8>) -> Result<(MapChunkBulkModel, bool), ProtocolError> {
        match bool_parse(data, 0) {
            Err(e) => Err(within_frame(e)),
            Ok((sky_light_sent, after_flag)) => match varint_parse(data, after_flag) {
                Err(e) => Err(within_frame(e)),
                Ok((chunk_column_count, from)) => match bulk_parse(
                    data,
                    from,
                    as_unsigned(chunk_column_count) as nat,
                ) {
                    Err(e) => Err(within_frame(e)),
                    Ok((columns, next)) => {
                        if next == data.len() {
                            Ok(
                                (
                                    MapChunkBulkModel {
                                        sky_light_sent,
                                        chunk_column_count,
                                        columns,
                                    },
                                    false,
                                ),
                            )
                        } else {
                            Err(ProtocolError::ProtocolViolation)
                        }
                    },
                },
            },
        }
    }

    /// The count must be the number of columns, and each column such that
    /// it can be read back.
    open spec fn fits(model: MapChunkBulkModel) -> bool {
        &&& as_unsigned(model.chunk_column_count) == model.columns.len()
        &&& bulk_fits(model.columns)
    }

    proof fn lemma_round_trip(model: MapChunkBulkModel) {
        let flag = bool_bytes(model.sky_light_sent);
        let count = varint_bytes(as_unsigned(model.chunk_column_count));
        let columns = bulk_bytes(model.columns);
        let data = flag + count + columns;
        assert(data[0] == flag[0]);
        lemma_varint_parse_encoded(flag, as_unsigned(model.chunk_column_count), columns);
        lemma_varint_len(as_unsigned(model.chunk_column_count));
        lemma_unsigned_signed(model.chunk_column_count);
        lemma_bulk_parse_encoded(flag + count, model.columns, Seq::empty());
        assert((flag + count) + columns + Seq::<u8>::empty() =~= data);
    }

    fn id() -> (id: i32) {
        0x26
    }

    fn payload(&self) -> (out: Vec<u8>) {
        let declared = self.chunk_column_count;
        let mut out = self.sky_light_sent.serialize();
        let count = declared.serialize();
        let columns = self.chunks.serialize();
        assert(self.sky_light_sent.wire() == bool_bytes(self.sky_light_sent));
        assert(declared.wire() == varint_bytes(as_unsigned(declared)));
        assert(self.chunks.wire() == bulk_bytes(self.chunks@));
        extend_bytes(&mut out, count.as_slice());
        extend_bytes(&mut out, columns.as_slice());
        out
    }

    fn read(data: &[u8]) -> (r: Result<(Self, bool), ProtocolError>) {
        let (sky_light_sent, after_flag) = match decode_bool(data, 0) {
            Ok(read) => read,
            Err(e) => {
                return Err(in_frame(e));
            },
        };
        let (chunk_column_count, from) = match decode_varint(data, after_flag) {
            Ok(read) => read,
            Err(e) => {
                return Err(in_frame(e));
            },
        };
        let count: u32 = #[verifier::truncate] (chunk_column_count as u32);
        proof {
            lemma_cast_unsigned(chunk_column_count);
        }
        match decode_chunk_bulk(data, from, count as usize) {
            Err(e) => Err(in_frame(e)),
            Ok((chunks, next)) => {
                if next == data.len() {
                    Ok(
                        (
                            ClientboundMapChunkBulkPacket {
                                sky_light_sent,
                                chunk_column_count,
                                chunks,
                            },
                            false,
                        ),
                    )
                } else {
                    Err(ProtocolError::ProtocolViolation)
                }
            },
        }
    }
}

} // verus!
