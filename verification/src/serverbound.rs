//! The packets that a client sends.

use vstd::prelude::*;
use crate::error::ProtocolError;
use crate::field::{fields_bytes, fields_fit, kind_of, kinds_of, models, serialize_fields};
use crate::field::{FieldKind, FieldModel, FieldValue};
use crate::frame::{payload_fields, read_payload};
use crate::roundtrip::lemma_payload_round_trip;
use crate::packets::Packet;

verus! {

/// The first packet of a connection: says which protocol the client speaks,
/// where it thinks it connects to, and what it wants next.
#[derive(Debug, PartialEq, Eq)]
pub struct ServerboundHandshakePacket {
    pub protocol_version: i32,
    pub server_address: String,
    pub server_port: u16,
    /// 1 asks for the server's status; anything else begins a login.
    pub next_state: i32,
}

impl View for ServerboundHandshakePacket {
    type V = Seq<FieldModel>;

    open spec fn view(&self) -> Seq<FieldModel> {
        seq![
            FieldModel::VarInt(self.protocol_version),
            FieldModel::Text(self.server_address@),
            FieldModel::U16(self.server_port),
            FieldModel::VarInt(self.next_state),
        ]
    }
}

impl ServerboundHandshakePacket {
    /// The types of the packet's fields, in order.
    pub open spec fn schema() -> Seq<FieldKind> {
        seq![
            FieldKind::VarInt,
            FieldKind::Text,
            FieldKind::U16,
            FieldKind::VarInt,
        ]
    }
}

impl Packet for ServerboundHandshakePacket {
    open spec fn packet_id() -> i32 {
        0
    }

    open spec fn payload_bytes(model: Seq<FieldModel>) -> Seq<u8> {
        fields_bytes(model)
    }

    open spec fn payload_parse(data: Seq<u8>) -> Result<(Seq<FieldModel>, bool), ProtocolError> {
        payload_fields(data, Self::schema())
    }

    open spec fn fits(model: Seq<FieldModel>) -> bool {
        fields_fit(model, Self::schema())
    }

    proof fn lemma_round_trip(model: Seq<FieldModel>) {
        lemma_payload_round_trip(model);
    }

    fn id() -> (id: i32) {
        0
    }

    fn payload(&self) -> (out: Vec<u8>) {
        let fields = vec![
            FieldValue::VarInt(self.protocol_version),
            FieldValue::Text(self.server_address.clone()),
            FieldValue::U16(self.server_port),
            FieldValue::VarInt(self.next_state),
        ];
        assert(models(fields@) =~= self@);
        serialize_fields(&fields)
    }

    fn read(data: &[u8]) -> (r: Result<(Self, bool), ProtocolError>) {
        let kinds = vec![
            FieldKind::VarInt,
            FieldKind::Text,
            FieldKind::U16,
            FieldKind::VarInt,
        ];
        assert(kinds@ =~= Self::schema());
        match read_payload(data, &kinds) {
            Err(e) => Err(e),
            Ok((fields, replaced)) => {
                let packet = ServerboundHandshakePacket {
                    protocol_version: fields[0].varint(),
                    server_address: fields[1].text(),
                    server_port: fields[2].unsigned_short(),
                    next_state: fields[3].varint(),
                };
                proof {
                    let read = models(fields@);
                    assert(kind_of(read[0]) == kinds_of(read)[0]);
                    assert(kind_of(read[1]) == kinds_of(read)[1]);
                    assert(kind_of(read[2]) == kinds_of(read)[2]);
                    assert(kind_of(read[3]) == kinds_of(read)[3]);
                    assert(packet@ =~= read);
                }
                Ok((packet, replaced))
            },
        }
    }
}

/// Asks for the server's status. It has no fields.
#[derive(Debug, PartialEq, Eq)]
pub struct ServerboundStatusRequestPacket {}

impl View for ServerboundStatusRequestPacket {
    type V = Seq<FieldModel>;

    open spec fn view(&self) -> Seq<FieldModel> {
        Seq::empty()
    }
}

impl ServerboundStatusRequestPacket {
    /// The types of the packet's fields, in order.
    pub open spec fn schema() -> Seq<FieldKind> {
        Seq::empty()
    }
}

impl Packet for ServerboundStatusRequestPacket {
    open spec fn packet_id() -> i32 {
        0
    }

    open spec fn payload_bytes(model: Seq<FieldModel>) -> Seq<u8> {
        fields_bytes(model)
    }

    open spec fn payload_parse(data: Seq<u8>) -> Result<(Seq<FieldModel>, bool), ProtocolError> {
        payload_fields(data, Self::schema())
    }

    open spec fn fits(model: Seq<FieldModel>) -> bool {
        fields_fit(model, Self::schema())
    }

    proof fn lemma_round_trip(model: Seq<FieldModel>) {
        lemma_payload_round_trip(model);
    }

    fn id() -> (id: i32) {
        0
    }

    fn payload(&self) -> (out: Vec<u8>) {
        let fields: Vec<FieldValue> = Vec::new();
        assert(models(fields@) =~= self@);
        serialize_fields(&fields)
    }

    fn read(data: &[u8]) -> (r: Result<(Self, bool), ProtocolError>) {
        let kinds: Vec<FieldKind> = Vec::new();
        assert(kinds@ =~= Self::schema());
        match read_payload(data, &kinds) {
            Err(e) => Err(e),
            Ok((fields, replaced)) => {
                let packet = ServerboundStatusRequestPacket {};
                proof {
                    assert(packet@ =~= models(fields@));
                }
                Ok((packet, replaced))
            },
        }
    }
}

/// Asks for an echo of its payload.
#[derive(Debug, PartialEq, Eq)]
pub struct ServerboundPingRequestPacket {
    pub payload: i64,
}

impl View for ServerboundPingRequestPacket {
    type V = Seq<FieldModel>;

    open spec fn view(&self) -> Seq<FieldModel> {
        seq![
            FieldModel::LongLe(self.payload),
        ]
    }
}

impl ServerboundPingRequestPacket {
    /// The types of the packet's fields, in order.
    pub open spec fn schema() -> Seq<FieldKind> {
        seq![
            FieldKind::LongLe,
        ]
    }
}

impl Packet for ServerboundPingRequestPacket {
    open spec fn packet_id() -> i32 {
        1
    }

    open spec fn payload_bytes(model: Seq<FieldModel>) -> Seq<u8> {
        fields_bytes(model)
    }

    open spec fn payload_parse(data: Seq<u8>) -> Result<(Seq<FieldModel>, bool), ProtocolError> {
        payload_fields(data, Self::schema())
    }

    open spec fn fits(model: Seq<FieldModel>) -> bool {
        fields_fit(model, Self::schema())
    }

    proof fn lemma_round_trip(model: Seq<FieldModel>) {
        lemma_payload_round_trip(model);
    }

    fn id() -> (id: i32) {
        1
    }

    fn payload(&self) -> (out: Vec<u8>) {
        let fields = vec![
            FieldValue::LongLe(self.payload),
        ];
        assert(models(fields@) =~= self@);
        serialize_fields(&fields)
    }

    fn read(data: &[u8]) -> (r: Result<(Self, bool), ProtocolError>) {
        let kinds = vec![
            FieldKind::LongLe,
        ];
        assert(kinds@ =~= Self::schema());
        match read_payload(data, &kinds) {
            Err(e) => Err(e),
            Ok((fields, replaced)) => {
                let packet = ServerboundPingRequestPacket {
                    payload: fields[0].long(),
                };
                proof {
                    let read = models(fields@);
                    assert(kind_of(read[0]) == kinds_of(read)[0]);
                    assert(packet@ =~= read);
                }
                Ok((packet, replaced))
            },
        }
    }
}

/// Begins a login under the player's name.
#[derive(Debug, PartialEq, Eq)]
pub struct ServerboundLoginStartPacket {
    pub name: String,
}

impl View for ServerboundLoginStartPacket {
    type V = Seq<FieldModel>;

    open spec fn view(&self) -> Seq<FieldModel> {
        seq![
            FieldModel::Text(self.name@),
        ]
    }
}

impl ServerboundLoginStartPacket {
    /// The types of the packet's fields, in order.
    pub open spec fn schema() -> Seq<FieldKind> {
        seq![
            FieldKind::Text,
        ]
    }
}

impl Packet for ServerboundLoginStartPacket {
    open spec fn packet_id() -> i32 {
        0
    }

    open spec fn payload_bytes(model: Seq<FieldModel>) -> Seq<u8> {
        fields_bytes(model)
    }

    open spec fn payload_parse(data: Seq<u8>) -> Result<(Seq<FieldModel>, bool), ProtocolError> {
        payload_fields(data, Self::schema())
    }

    open spec fn fits(model: Seq<FieldModel>) -> bool {
        fields_fit(model, Self::schema())
    }

    proof fn lemma_round_trip(model: Seq<FieldModel>) {
        lemma_payload_round_trip(model);
    }

    fn id() -> (id: i32) {
        0
    }

    fn payload(&self) -> (out: Vec<u8>) {
        let fields = vec![
            FieldValue::Text(self.name.clone()),
        ];
        assert(models(fields@) =~= self@);
        serialize_fields(&fields)
    }

    fn read(data: &[u8]) -> (r: Result<(Self, bool), ProtocolError>) {
        let kinds = vec![
            FieldKind::Text,
        ];
        assert(kinds@ =~= Self::schema());
        match read_payload(data, &kinds) {
            Err(e) => Err(e),
            Ok((fields, replaced)) => {
                let packet = ServerboundLoginStartPacket {
                    name: fields[0].text(),
                };
                proof {
                    let read = models(fields@);
                    assert(kind_of(read[0]) == kinds_of(read)[0]);
                    assert(packet@ =~= read);
                }
                Ok((packet, replaced))
            },
        }
    }
}

/// Acknowledges that the login succeeded. It has no fields.
#[derive(Debug, PartialEq, Eq)]
pub struct ServerboundLoginAcknowledgedPacket {}

impl View for ServerboundLoginAcknowledgedPacket {
    type V = Seq<FieldModel>;

    open spec fn view(&self) -> Seq<FieldModel> {
        Seq::empty()
    }
}

impl ServerboundLoginAcknowledgedPacket {
    /// The types of the packet's fields, in order.
    pub open spec fn schema() -> Seq<FieldKind> {
        Seq::empty()
    }
}

impl Packet for ServerboundLoginAcknowledgedPacket {
    open spec fn packet_id() -> i32 {
        3
    }

    open spec fn payload_bytes(model: Seq<FieldModel>) -> Seq<u8> {
        fields_bytes(model)
    }

    open spec fn payload_parse(data: Seq<u8>) -> Result<(Seq<FieldModel>, bool), ProtocolError> {
        payload_fields(data, Self::schema())
    }

    open spec fn fits(model: Seq<FieldModel>) -> bool {
        fields_fit(model, Self::schema())
    }

    proof fn lemma_round_trip(model: Seq<FieldModel>) {
        lemma_payload_round_trip(model);
    }

    fn id() -> (id: i32) {
        3
    }

    fn payload(&self) -> (out: Vec<u8>) {
        let fields: Vec<FieldValue> = Vec::new();
        assert(models(fields@) =~= self@);
        serialize_fields(&fields)
    }

    fn read(data: &[u8]) -> (r: Result<(Self, bool), ProtocolError>) {
        let kinds: Vec<FieldKind> = Vec::new();
        assert(kinds@ =~= Self::schema());
        match read_payload(data, &kinds) {
            Err(e) => Err(e),
            Ok((fields, replaced)) => {
                let packet = ServerboundLoginAcknowledgedPacket {};
                proof {
                    assert(packet@ =~= models(fields@));
                }
                Ok((packet, replaced))
            },
        }
    }
}

/// A line of chat.
#[derive(Debug, PartialEq, Eq)]
pub struct ServerboundChatMessagePacket {
    pub message: String,
}

impl View for ServerboundChatMessagePacket {
    type V = Seq<FieldModel>;

    open spec fn view(&self) -> Seq<FieldModel> {
        seq![
            FieldModel::Text(self.message@),
        ]
    }
}

impl ServerboundChatMessagePacket {
    /// The types of the packet's fields, in order.
    pub open spec fn schema() -> Seq<FieldKind> {
        seq![
            FieldKind::Text,
        ]
    }
}

impl Packet for ServerboundChatMessagePacket {
    open spec fn packet_id() -> i32 {
        1
    }

    open spec fn payload_bytes(model: Seq<FieldModel>) -> Seq<u8> {
        fields_bytes(model)
    }

    open spec fn payload_parse(data: Seq<u8>) -> Result<(Seq<FieldModel>, bool), ProtocolError> {
        payload_fields(data, Self::schema())
    }

    open spec fn fits(model: Seq<FieldModel>) -> bool {
        fields_fit(model, Self::schema())
    }

    proof fn lemma_round_trip(model: Seq<FieldModel>) {
        lemma_payload_round_trip(model);
    }

    fn id() -> (id: i32) {
        1
    }

    fn payload(&self) -> (out: Vec<u8>) {
        let fields = vec![
            FieldValue::Text(self.message.clone()),
        ];
        assert(models(fields@) =~= self@);
        serialize_fields(&fields)
    }

    fn read(data: &[u8]) -> (r: Result<(Self, bool), ProtocolError>) {
        let kinds = vec![
            FieldKind::Text,
        ];
        assert(kinds@ =~= Self::schema());
        match read_payload(data, &kinds) {
            Err(e) => Err(e),
            Ok((fields, replaced)) => {
                let packet = ServerboundChatMessagePacket {
                    message: fields[0].text(),
                };
                proof {
                    let read = models(fields@);
                    assert(kind_of(read[0]) == kinds_of(read)[0]);
                    assert(packet@ =~= read);
                }
                Ok((packet, replaced))
            },
        }
    }
}

/// The player acts on an entity.
#[derive(Debug, PartialEq, Eq)]
pub struct ServerboundUseEntityPacket {
    /// The id of the entity.
    pub target: i32,
    /// What the player does to it.
    pub _type: i32,
}

impl View for ServerboundUseEntityPacket {
    type V = Seq<FieldModel>;

    open spec fn view(&self) -> Seq<FieldModel> {
        seq![
            FieldModel::VarInt(self.target),
            FieldModel::VarInt(self._type),
        ]
    }
}

impl ServerboundUseEntityPacket {
    /// The types of the packet's fields, in order.
    pub open spec fn schema() -> Seq<FieldKind> {
        seq![
            FieldKind::VarInt,
            FieldKind::VarInt,
        ]
    }
}

impl Packet for ServerboundUseEntityPacket {
    open spec fn packet_id() -> i32 {
        2
    }

    open spec fn payload_bytes(model: Seq<FieldModel>) -> Seq<u8> {
        fields_bytes(model)
    }

    open spec fn payload_parse(data: Seq<u8>) -> Result<(Seq<FieldModel>, bool), ProtocolError> {
        payload_fields(data, Self::schema())
    }

    open spec fn fits(model: Seq<FieldModel>) -> bool {
        fields_fit(model, Self::schema())
    }

    proof fn lemma_round_trip(model: Seq<FieldModel>) {
        lemma_payload_round_trip(model);
    }

    fn id() -> (id: i32) {
        2
    }

    fn payload(&self) -> (out: Vec<u8>) {
        let fields = vec![
            FieldValue::VarInt(self.target),
            FieldValue::VarInt(self._type),
        ];
        assert(models(fields@) =~= self@);
        serialize_fields(&fields)
    }

    fn read(data: &[u8]) -> (r: Result<(Self, bool), ProtocolError>) {
        let kinds = vec![
            FieldKind::VarInt,
            FieldKind::VarInt,
        ];
        assert(kinds@ =~= Self::schema());
        match read_payload(data, &kinds) {
            Err(e) => Err(e),
            Ok((fields, replaced)) => {
                let packet = ServerboundUseEntityPacket {
                    target: fields[0].varint(),
                    _type: fields[1].varint(),
                };
                proof {
                    let read = models(fields@);
                    assert(kind_of(read[0]) == kinds_of(read)[0]);
                    assert(kind_of(read[1]) == kinds_of(read)[1]);
                    assert(packet@ =~= read);
                }
                Ok((packet, replaced))
            },
        }
    }
}

/// Tells whether the player stands on the ground.
#[derive(Debug, PartialEq, Eq)]
pub struct ServerboundPlayerPacket {
    pub on_ground: bool,
}

impl View for ServerboundPlayerPacket {
    type V = Seq<FieldModel>;

    open spec fn view(&self) -> Seq<FieldModel> {
        seq![
            FieldModel::Bool(self.on_ground),
        ]
    }
}

impl ServerboundPlayerPacket {
    /// The types of the packet's fields, in order.
    pub open spec fn schema() -> Seq<FieldKind> {
        seq![
            FieldKind::Bool,
        ]
    }
}

impl Packet for ServerboundPlayerPacket {
    open spec fn packet_id() -> i32 {
        3
    }

    open spec fn payload_bytes(model: Seq<FieldModel>) -> Seq<u8> {
        fields_bytes(model)
    }

    open spec fn payload_parse(data: Seq<u8>) -> Result<(Seq<FieldModel>, bool), ProtocolError> {
        payload_fields(data, Self::schema())
    }

    open spec fn fits(model: Seq<FieldModel>) -> bool {
        fields_fit(model, Self::schema())
    }

    proof fn lemma_round_trip(model: Seq<FieldModel>) {
        lemma_payload_round_trip(model);
    }

    fn id() -> (id: i32) {
        3
    }

    fn payload(&self) -> (out: Vec<u8>) {
        let fields = vec![
            FieldValue::Bool(self.on_ground),
        ];
        assert(models(fields@) =~= self@);
        serialize_fields(&fields)
    }

    fn read(data: &[u8]) -> (r: Result<(Self, bool), ProtocolError>) {
        let kinds = vec![
            FieldKind::Bool,
        ];
        assert(kinds@ =~= Self::schema());
        match read_payload(data, &kinds) {
            Err(e) => Err(e),
            Ok((fields, replaced)) => {
                let packet = ServerboundPlayerPacket {
                    on_ground: fields[0].boolean(),
                };
                proof {
                    let read = models(fields@);
                    assert(kind_of(read[0]) == kinds_of(read)[0]);
                    assert(packet@ =~= read);
                }
                Ok((packet, replaced))
            },
        }
    }
}
} // verus!
