use openmc::clientbound::{
    ClientboundDifficultyPacket, ClientboundDisconnectPacket, ClientboundJoinGamePacket,
    ClientboundKeepAlivePacket, ClientboundLoginSuccessPacket, ClientboundMapChunkBulkPacket,
    ClientboundPingResponsePacket, ClientboundPluginMessagePacket,
    ClientboundStatusResponsePacket,
};
use openmc::error::ProtocolError;
use openmc::identifier::Identifier;
use openmc::packets::Packet;
use openmc::serialization::Int;
use openmc::serverbound::{
    ServerboundChatMessagePacket, ServerboundHandshakePacket, ServerboundLoginAcknowledgedPacket,
    ServerboundLoginStartPacket, ServerboundPingRequestPacket, ServerboundPlayerPacket,
    ServerboundStatusRequestPacket, ServerboundUseEntityPacket,
};
use openmc::smpmap::{spawn_column, ChunkBulkArray};
use openmc::types::{Angle, Player, PlayerItemListModifier, Property};

fn handshake() -> ServerboundHandshakePacket {
    ServerboundHandshakePacket {
        protocol_version: 47,
        server_address: "localhost".to_string(),
        server_port: 25565,
        next_state: 1,
    }
}

#[test]
fn handshake_packet_bytes() {
    let mut payload = vec![0x2F, 0x09];
    payload.extend_from_slice(b"localhost");
    payload.extend_from_slice(&[0xDD, 0x63, 0x01]);
    assert_eq!(handshake().payload(), payload);
    let mut frame = vec![0x0F, 0x00];
    frame.extend_from_slice(&payload);
    assert_eq!(handshake().serialize(), frame);
    assert_eq!(ServerboundHandshakePacket::id(), 0);
    assert_eq!(ServerboundHandshakePacket::new(payload.clone()), Ok(handshake()));
    assert_eq!(ServerboundHandshakePacket::read(&payload), Ok((handshake(), false)));
}

#[test]
fn packet_ids() {
    assert_eq!(ServerboundStatusRequestPacket::id(), 0);
    assert_eq!(ServerboundPingRequestPacket::id(), 1);
    assert_eq!(ServerboundLoginStartPacket::id(), 0);
    assert_eq!(ServerboundLoginAcknowledgedPacket::id(), 3);
    assert_eq!(ServerboundChatMessagePacket::id(), 1);
    assert_eq!(ServerboundUseEntityPacket::id(), 2);
    assert_eq!(ServerboundPlayerPacket::id(), 3);
    assert_eq!(ClientboundStatusResponsePacket::id(), 0);
    assert_eq!(ClientboundPingResponsePacket::id(), 1);
    assert_eq!(ClientboundDisconnectPacket::id(), 0);
    assert_eq!(ClientboundLoginSuccessPacket::id(), 2);
    assert_eq!(ClientboundKeepAlivePacket::id(), 0);
    assert_eq!(ClientboundJoinGamePacket::id(), 1);
    assert_eq!(ClientboundPluginMessagePacket::id(), 0x3F);
    assert_eq!(ClientboundDifficultyPacket::id(), 0x41);
    assert_eq!(ClientboundMapChunkBulkPacket::id(), 0x26);
}

#[test]
fn packets_without_fields() {
    assert_eq!(ServerboundStatusRequestPacket {}.serialize(), vec![0x01, 0x00]);
    assert_eq!(ServerboundLoginAcknowledgedPacket {}.serialize(), vec![0x01, 0x03]);
    assert_eq!(ServerboundStatusRequestPacket::new(vec![]), Ok(ServerboundStatusRequestPacket {}));
    assert_eq!(
        ServerboundStatusRequestPacket::new(vec![0]),
        Err(ProtocolError::ProtocolViolation)
    );
}

#[test]
fn ping_payload_is_echoed_byte_for_byte() {
    let payload = vec![0x10, 0x20, 0x30, 0x40, 0x50, 0x60, 0x70, 0x80];
    let request = ServerboundPingRequestPacket::new(payload.clone()).unwrap();
    let response = ClientboundPingResponsePacket { payload: request.payload };
    assert_eq!(response.payload(), payload);
    assert_eq!(&response.serialize()[2..], &payload[..]);
    assert_eq!(request.serialize(), response.serialize());
    assert_eq!(ServerboundPingRequestPacket { payload: 1 }.payload(), vec![1, 0, 0, 0, 0, 0, 0, 0]);
}

#[test]
fn serverbound_packets_round_trip() {
    let login = ServerboundLoginStartPacket { name: "Damian_9".to_string() };
    assert_eq!(ServerboundLoginStartPacket::new(login.payload()), Ok(login));
    let chat = ServerboundChatMessagePacket { message: "hello \u{1F600}".to_string() };
    assert_eq!(ServerboundChatMessagePacket::new(chat.payload()), Ok(chat));
    let using = ServerboundUseEntityPacket { target: 2345, _type: -1 };
    assert_eq!(using.payload(), vec![0xA9, 0x12, 0xFF, 0xFF, 0xFF, 0xFF, 0x0F]);
    assert_eq!(ServerboundUseEntityPacket::new(using.payload()), Ok(using));
    let player = ServerboundPlayerPacket { on_ground: true };
    assert_eq!(player.serialize(), vec![0x02, 0x03, 0x01]);
    assert_eq!(ServerboundPlayerPacket::new(vec![0x01]), Ok(player));
}

#[test]
fn clientbound_packets_round_trip() {
    let status = ClientboundStatusResponsePacket { json_string: "{\"a\":1}".to_string() };
    assert_eq!(ClientboundStatusResponsePacket::new(status.payload()), Ok(status));
    let gone = ClientboundDisconnectPacket { reason: "bye".to_string() };
    assert_eq!(gone.serialize(), vec![0x05, 0x00, 0x03, b'b', b'y', b'e']);
    assert_eq!(ClientboundDisconnectPacket::new(gone.payload()), Ok(gone));
    let success = ClientboundLoginSuccessPacket {
        uuid: Identifier { value: 0x643147bc_1af0_472e_9acb_19aaa150bd96 },
        username: "bob".to_string(),
    };
    assert_eq!(success.payload().len(), 37 + 4);
    assert_eq!(ClientboundLoginSuccessPacket::new(success.payload()), Ok(success));
    let alive = ClientboundKeepAlivePacket { id: 1723 };
    assert_eq!(alive.serialize(), vec![0x03, 0x00, 0xBB, 0x0D]);
    assert_eq!(ClientboundKeepAlivePacket::new(alive.payload()), Ok(alive));
    let join = ClientboundJoinGamePacket {
        id: Int { value: 5 },
        gamemode: 1,
        dimension: -1,
        difficulty: 2,
        max_players: 255,
        level_type: "default".to_string(),
        reduced_debug_info: true,
    };
    let mut expected = vec![5, 0, 0, 0, 1, 0xFF, 2, 255, 7];
    expected.extend_from_slice(b"default");
    expected.push(1);
    assert_eq!(join.payload(), expected);
    assert_eq!(ClientboundJoinGamePacket::new(join.payload()), Ok(join));
    let plugin = ClientboundPluginMessagePacket {
        channel: "MC|Brand".to_string(),
        data: "rapid".to_string(),
    };
    assert_eq!(ClientboundPluginMessagePacket::new(plugin.payload()), Ok(plugin));
    let difficulty = ClientboundDifficultyPacket { difficulty: 3 };
    assert_eq!(difficulty.serialize(), vec![0x02, 0x41, 0x03]);
    assert_eq!(ClientboundDifficultyPacket::new(vec![3]), Ok(difficulty));
}

#[test]
fn deserialize_fills_the_packet_and_tells_of_replaced_text() {
    let mut packet = ServerboundHandshakePacket {
        protocol_version: 0,
        server_address: String::new(),
        server_port: 0,
        next_state: 0,
    };
    assert_eq!(packet.deserialize(handshake().payload()), Ok(false));
    assert_eq!(packet, handshake());
    // on an error the packet stays as it was
    assert_eq!(packet.deserialize(vec![0x2F, 0x09]), Err(ProtocolError::ProtocolViolation));
    assert_eq!(packet, handshake());
    assert_eq!(
        packet.deserialize(vec![0x80, 0x80, 0x80, 0x80, 0x80, 0x80]),
        Err(ProtocolError::Malformed)
    );
    // an address that is no text reads as the empty text
    assert_eq!(packet.deserialize(vec![0x01, 0x02, 0xC3, 0x28, 0x02, 0x00, 0x07]), Ok(true));
    assert_eq!(packet.server_address, "");
    assert_eq!(packet.protocol_version, 1);
    assert_eq!(packet.server_port, 2);
    assert_eq!(packet.next_state, 7);
    let chat = ServerboundChatMessagePacket::new(vec![0x01, 0xFF]).unwrap();
    assert_eq!(chat.message, "");
}

#[test]
fn chunk_packet_round_trip() {
    let packet = ClientboundMapChunkBulkPacket {
        sky_light_sent: true,
        chunk_column_count: 2,
        chunks: ChunkBulkArray { chunks: vec![spawn_column(), spawn_column()] },
    };
    let payload = packet.payload();
    assert_eq!(payload.len(), 2 + 2 * (4 + 16 * 12288 + 256));
    assert_eq!(&payload[..2], &[0x01, 0x02]);
    assert_eq!(ClientboundMapChunkBulkPacket::read(&payload), Ok((packet, false)));
    // fewer columns than the count says
    let mut short = payload.clone();
    short[1] = 3;
    assert_eq!(
        ClientboundMapChunkBulkPacket::new(short),
        Err(ProtocolError::ProtocolViolation)
    );
    // more bytes than the count accounts for
    let mut long = payload.clone();
    long[1] = 1;
    assert_eq!(
        ClientboundMapChunkBulkPacket::new(long),
        Err(ProtocolError::ProtocolViolation)
    );
    assert_eq!(ClientboundMapChunkBulkPacket::new(vec![]), Err(ProtocolError::ProtocolViolation));
    let empty = ClientboundMapChunkBulkPacket {
        sky_light_sent: false,
        chunk_column_count: 0,
        chunks: ChunkBulkArray::default(),
    };
    assert_eq!(empty.serialize(), vec![0x03, 0x26, 0x00, 0x00]);
}

#[test]
fn player_records_start_empty() {
    assert_eq!(Angle::default(), Angle { value: 0 });
    let player = Player::default();
    assert_eq!(player.uuid, Identifier { value: 0 });
    assert_eq!(player.name, "");
    assert!(player.properties.is_empty());
    assert_eq!((player.gamemode, player.ping), (0, 0));
    assert_eq!(player.display_name, "");
    let change = PlayerItemListModifier::default();
    assert_eq!(change.action, 0);
    assert!(change.players.is_empty());
    let property = Property::default();
    assert_eq!(property, Property { name: String::new(), value: String::new(), signature: String::new() });
}
