//! The coordinator: the phase of every connection, and what to do with a
//! frame that a connection received.
//!
//! Deciding is kept apart from acting. `dispatch` looks at a connection's
//! phase and at a frame, and says which phase comes next and what is to be
//! done: which frames to write back, whether to ask for the status text,
//! whether to drop the frame or to close the connection. The caller writes
//! and closes.

use vstd::prelude::*;
use vstd::slice::slice_subrange;
use vstd::string::StringExecFns;
use crate::clientbound::{ClientboundDisconnectPacket, ClientboundJoinGamePacket};
use crate::clientbound::{ClientboundKeepAlivePacket, ClientboundLoginSuccessPacket};
use crate::clientbound::{ClientboundMapChunkBulkPacket, ClientboundPingResponsePacket};
use crate::clientbound::{ClientboundPluginMessagePacket, ClientboundStatusResponsePacket};
use crate::clientbound::MapChunkBulkModel;
use crate::error::ProtocolError;
use crate::field::{fields_bytes, kinds_of, FieldModel};
use crate::frame::{body_bytes, framed, in_frame, within_frame};
use crate::identifier::Identifier;
use crate::packets::Packet;
use crate::roundtrip::lemma_body_split;
use crate::serialization::{text_fits, Int};
use crate::serverbound::{ServerboundHandshakePacket, ServerboundLoginStartPacket};
use crate::serverbound::{ServerboundPingRequestPacket, ServerboundStatusRequestPacket};
use crate::smpmap::{spawn_column, spawn_column_model, ChunkBulkArray};
use crate::state::State;
use crate::varint::{as_signed, decode_varint, lemma_cast_low_bits, lemma_cast_signed};
use crate::varint::varint_parse;

verus! {

/// The identifier that every player gets who logs in without an account.
pub const OFFLINE_IDENTIFIER: u128 = 0x643147bc_1af0_472e_9acb_19aaa150bd96;

/// The id that a keep-alive carries.
pub const KEEP_ALIVE_ID: i32 = 1723;

/// What is to be done about a frame.
#[derive(Debug, PartialEq, Eq)]
pub enum Action {
    /// Nothing.
    Nothing,
    /// Write these frames to the connection, in this order.
    Send(Vec<Vec<u8>>),
    /// The client asked for the status: obtain the status text and write
    /// the frame that `status_response` makes of it.
    SendStatus,
    /// The frame was dropped, for this reason, and the connection goes on.
    Dropped(ProtocolError),
    /// The connection is to be closed, for this reason.
    Close(ProtocolError),
}

/// What an action stands for.
pub enum ActionModel {
    Nothing,
    Send(Seq<Seq<u8>>),
    SendStatus,
    Dropped(ProtocolError),
    Close(ProtocolError),
}

impl View for Action {
    type V = ActionModel;

    open spec fn view(&self) -> ActionModel {
        match self {
            Action::Nothing => ActionModel::Nothing,
            Action::Send(frames) => ActionModel::Send(frames@.map_values(|f: Vec<u8>| f@)),
            Action::SendStatus => ActionModel::SendStatus,
            Action::Dropped(e) => ActionModel::Dropped(*e),
            Action::Close(e) => ActionModel::Close(*e),
        }
    }
}

/// What was decided about a frame.
#[derive(Debug, PartialEq, Eq)]
pub struct Outcome {
    /// The phase of the connection from now on; none once it is closed.
    pub next: Option<State>,
    /// What is to be done.
    pub action: Action,
    /// Whether a text in the packet was not valid UTF-8 and was read as the
    /// empty text: the packet was handled, and the fault may be reported.
    pub replaced: bool,
}

/// What an outcome stands for.
pub struct OutcomeModel {
    pub next: Option<State>,
    pub action: ActionModel,
    pub replaced: bool,
}

impl View for Outcome {
    type V = OutcomeModel;

    open spec fn view(&self) -> OutcomeModel {
        OutcomeModel { next: self.next, action: self.action@, replaced: self.replaced }
    }
}

/// Whether a handler is registered for packets with this id in this phase.
pub open spec fn registered(state: State, id: i32) -> bool {
    match state {
        State::HANDSHAKE => id == 0,
        State::STATUS => id == 0 || id == 1,
        State::LOGIN => id == 0,
        State::PLAY => id == 0 || id == 3,
    }
}

/// Tells whether a handler is registered for packets with this id in this
/// phase.
pub fn is_registered(state: State, id: i32) -> (known: bool)
    ensures
        known == registered(state, id),
{
    match state {
        State::HANDSHAKE => id == 0,
        State::STATUS => id == 0 || id == 1,
        State::LOGIN => id == 0,
        State::PLAY => id == 0 || id == 3,
    }
}

/// What a frame that cannot be handled leads to. During the handshake, and
/// where the frame breaks the protocol, the connection is closed; otherwise
/// the frame is dropped and the connection stays in its phase.
pub open spec fn failure(state: State, e: ProtocolError) -> OutcomeModel {
    if state == State::HANDSHAKE || e == ProtocolError::ProtocolViolation {
        OutcomeModel { next: None, action: ActionModel::Close(e), replaced: false }
    } else {
        OutcomeModel { next: Some(state), action: ActionModel::Dropped(e), replaced: false }
    }
}

/// The phase that a handshake leads to: `STATUS` where it asks for 1,
/// `LOGIN` for anything else.
pub open spec fn phase_after_handshake(next_state: i32) -> State {
    if next_state == 1 {
        State::STATUS
    } else {
        State::LOGIN
    }
}

/// The entity id of the player on connection `conn`: the low 32 bits of the
/// connection's number.
pub open spec fn entity_id(conn: int) -> i32 {
    as_signed(conn as nat)
}

/// The frames that answer the start of a login on connection `conn` under
/// the name `name`: the login's success, the player's place in the game,
/// the server's brand, and the column under the spawn point.
pub open spec fn join_frames(conn: int, name: Seq<char>) -> Seq<Seq<u8>> {
    seq![
        framed(
            2,
            fields_bytes(seq![FieldModel::Identifier(OFFLINE_IDENTIFIER), FieldModel::Text(name)]),
        ),
        framed(
            1,
            fields_bytes(
                seq![
                    FieldModel::Int(entity_id(conn)),
                    FieldModel::U8(1),
                    FieldModel::I8(0),
                    FieldModel::U8(0),
                    FieldModel::U8(255),
                    FieldModel::Text("default"@),
                    FieldModel::Bool(false),
                ],
            ),
        ),
        framed(
            0x3F,
            fields_bytes(seq![FieldModel::Text("MC|Brand"@), FieldModel::Text("rapid"@)]),
        ),
        framed(
            0x26,
            ClientboundMapChunkBulkPacket::payload_bytes(
                MapChunkBulkModel {
                    sky_light_sent: true,
                    chunk_column_count: 1,
                    columns: seq![spawn_column_model()],
                },
            ),
        ),
    ]
}

/// What a packet with this id and payload leads to, on a connection in the
/// phase `state`.
pub open spec fn handle(state: State, conn: int, id: i32, payload: Seq<u8>) -> OutcomeModel {
    if !registered(state, id) {
        failure(
            state,
            if state == State::HANDSHAKE {
                ProtocolError::ProtocolViolation
            } else {
                ProtocolError::UnknownPacket
            },
        )
    } else {
        match state {
            State::HANDSHAKE => match ServerboundHandshakePacket::payload_parse(payload) {
                Err(e) => failure(state, e),
                Ok((fields, replaced)) => OutcomeModel {
                    next: Some(phase_after_handshake(fields[3].number())),
                    action: ActionModel::Nothing,
                    replaced,
                },
            },
            State::STATUS => if id == 0 {
                match ServerboundStatusRequestPacket::payload_parse(payload) {
                    Err(e) => failure(state, e),
                    Ok((_, replaced)) => OutcomeModel {
                        next: Some(State::STATUS),
                        action: ActionModel::SendStatus,
                        replaced,
                    },
                }
            } else {
                match ServerboundPingRequestPacket::payload_parse(payload) {
                    Err(e) => failure(state, e),
                    Ok((fields, replaced)) => OutcomeModel {
                        next: Some(State::STATUS),
                        action: ActionModel::Send(seq![framed(1, fields_bytes(fields))]),
                        replaced,
                    },
                }
            },
            State::LOGIN => match ServerboundLoginStartPacket::payload_parse(payload) {
                Err(e) => failure(state, e),
                Ok((fields, replaced)) => OutcomeModel {
                    next: Some(State::PLAY),
                    action: ActionModel::Send(join_frames(conn, fields[0].text())),
                    replaced,
                },
            },
            State::PLAY => OutcomeModel {
                next: Some(State::PLAY),
                action: ActionModel::Nothing,
                replaced: false,
            },
        }
    }
}

/// What a frame leads to, on a connection in the phase `state`. `data`
/// holds the frame without its length: the packet id, then the payload.
pub open spec fn step(state: State, conn: int, data: Seq<u8>) -> OutcomeModel {
    match varint_parse(data, 0) {
        Err(e) => failure(state, within_frame(e)),
        Ok((id, from)) => handle(state, conn, id, data.subrange(from, data.len() as int)),
    }
}

/// The outcome for a frame that cannot be handled.
fn fail(state: State, e: ProtocolError) -> (outcome: Outcome)
    ensures
        outcome@ == failure(state, e),
{
    let fatal = match state {
        State::HANDSHAKE => true,
        _ => match e {
            ProtocolError::ProtocolViolation => true,
            _ => false,
        },
    };
    if fatal {
        Outcome { next: None, action: Action::Close(e), replaced: false }
    } else {
        Outcome { next: Some(state), action: Action::Dropped(e), replaced: false }
    }
}

/// The frames that answer the start of a login.
fn join(conn: usize, name: &String) -> (frames: Vec<Vec<u8>>)
    ensures
        frames@.map_values(|f: Vec<u8>| f@) == join_frames(conn as int, name@),
{
    let low: u32 = #[verifier::truncate] ((conn as u64) as u32);
    let entity: i32 = #[verifier::truncate] (low as i32);
    proof {
        lemma_cast_low_bits(conn as u64);
        lemma_cast_signed(low);
    }
    let success = ClientboundLoginSuccessPacket {
        uuid: Server::generate_offline_uuid(name),
        username: name.clone(),
    };
    let place = ClientboundJoinGamePacket {
        id: Int { value: entity },
        gamemode: 1,
        dimension: 0,
        difficulty: 0,
        max_players: 255,
        level_type: String::from_str("default"),
        reduced_debug_info: false,
    };
    let brand = ClientboundPluginMessagePacket {
        channel: String::from_str("MC|Brand"),
        data: String::from_str("rapid"),
    };
    let mut columns: Vec<crate::smpmap::ChunkData> = Vec::new();
    columns.push(spawn_column());
    let world = ClientboundMapChunkBulkPacket {
        sky_light_sent: true,
        chunk_column_count: 1,
        chunks: ChunkBulkArray { chunks: columns },
    };
    assert(world@.columns =~= seq![spawn_column_model()]);
    let mut frames: Vec<Vec<u8>> = Vec::new();
    frames.push(success.serialize());
    frames.push(place.serialize());
    frames.push(brand.serialize());
    frames.push(world.serialize());
    assert(frames@.map_values(|f: Vec<u8>| f@) =~= join_frames(conn as int, name@));
    frames
}

/// Decides what a frame leads to, on connection `conn` in the phase
/// `state`. `data` holds the frame without its length: the packet id, then
/// the payload.
pub fn dispatch(state: State, conn: usize, data: &[u8]) -> (outcome: Outcome)
    ensures
        outcome@ == step(state, conn as int, data@),
{
    let (id, from) = match decode_varint(data, 0) {
        Ok(read) => read,
        Err(e) => {
            return fail(state, in_frame(e));
        },
    };
    let payload = slice_subrange(data, from, data.len());
    if !is_registered(state, id) {
        return match state {
            State::HANDSHAKE => fail(state, ProtocolError::ProtocolViolation),
            _ => fail(state, ProtocolError::UnknownPacket),
        };
    }
    match state {
        State::HANDSHAKE => match ServerboundHandshakePacket::read(payload) {
            Err(e) => fail(state, e),
            Ok((packet, replaced)) => {
                let next = if packet.next_state == 1 {
                    State::STATUS
                } else {
                    State::LOGIN
                };
                Outcome { next: Some(next), action: Action::Nothing, replaced }
            },
        },
        State::STATUS => {
            if id == 0 {
                match ServerboundStatusRequestPacket::read(payload) {
                    Err(e) => fail(state, e),
                    Ok((_, replaced)) => Outcome {
                        next: Some(State::STATUS),
                        action: Action::SendStatus,
                        replaced,
                    },
                }
            } else {
                match ServerboundPingRequestPacket::read(payload) {
                    Err(e) => fail(state, e),
                    Ok((packet, replaced)) => {
                        let echo = ClientboundPingResponsePacket { payload: packet.payload };
                        assert(echo@ =~= packet@);
                        let mut frames: Vec<Vec<u8>> = Vec::new();
                        frames.push(echo.serialize());
                        assert(frames@.map_values(|f: Vec<u8>| f@) =~= seq![
                            framed(1, fields_bytes(packet@)),
                        ]);
                        Outcome {
                            next: Some(State::STATUS),
                            action: Action::Send(frames),
                            replaced,
                        }
                    },
                }
            }
        },
        State::LOGIN => match ServerboundLoginStartPacket::read(payload) {
            Err(e) => fail(state, e),
            Ok((packet, replaced)) => {
                let frames = join(conn, &packet.name);
                Outcome { next: Some(State::PLAY), action: Action::Send(frames), replaced }
            },
        },
        State::PLAY => Outcome {
            next: Some(State::PLAY),
            action: Action::Nothing,
            replaced: false,
        },
    }
}

/// The phases of the connections, each under the number that it was given
/// when it was added. A number is never given twice: a connection that is
/// removed leaves its place empty.
pub struct Server {
    slots: Vec<Option<State>>,
}

impl View for Server {
    type V = Seq<Option<State>>;

    closed spec fn view(&self) -> Seq<Option<State>> {
        self.slots@
    }
}

impl Server {
    /// Whether `conn` is the number of a connection that has not been
    /// removed.
    pub open spec fn is_open(&self, conn: int) -> bool {
        0 <= conn < self@.len() && self@[conn] is Some
    }

    /// A coordinator without connections.
    pub fn new() -> (server: Server)
        ensures
            server@.len() == 0,
    {
        Server { slots: Vec::new() }
    }

    /// Takes in a connection, in the phase `HANDSHAKE`, and gives its
    /// number.
    pub fn add_connection(&mut self) -> (conn: usize)
        ensures
            conn == old(self)@.len(),
            final(self)@ == old(self)@.push(Some(State::HANDSHAKE)),
    {
        let conn = self.slots.len();
        self.slots.push(Some(State::HANDSHAKE));
        conn
    }

    /// Removes a connection. The others keep their numbers.
    pub fn remove_connection(&mut self, conn: usize)
        ensures
            final(self)@ == if conn < old(self)@.len() {
                old(self)@.update(conn as int, None)
            } else {
                old(self)@
            },
    {
        if conn < self.slots.len() {
            self.slots[conn] = None;
        }
    }

    /// The phase of a connection; none for a number that was never given or
    /// whose connection was removed.
    pub fn state(&self, conn: usize) -> (state: Option<State>)
        ensures
            state == if conn < self@.len() {
                self@[conn as int]
            } else {
                None
            },
    {
        if conn < self.slots.len() {
            self.slots[conn]
        } else {
            None
        }
    }

    /// The numbers of the connections that have not been removed, in
    /// ascending order: those that a broadcast goes to.
    pub fn open_connections(&self) -> (open: Vec<usize>)
        ensures
            forall|k: int| 0 <= k < open@.len() ==> self.is_open(#[trigger] open@[k] as int),
            forall|conn: int|
                self.is_open(conn) ==> exists|k: int| 0 <= k < open@.len() && #[trigger] open@[k]
                    == conn,
            forall|j: int, k: int| 0 <= j < k < open@.len() ==> open@[j] < open@[k],
    {
        let mut open: Vec<usize> = Vec::new();
        let mut i: usize = 0;
        while i < self.slots.len()
            invariant
                i <= self.slots.len(),
                forall|k: int|
                    0 <= k < open@.len() ==> self.is_open(#[trigger] open@[k] as int) && open@[k]
                        < i,
                forall|conn: int|
                    self.is_open(conn) && conn < i ==> exists|k: int|
                        0 <= k < open@.len() && #[trigger] open@[k] == conn,
                forall|j: int, k: int| 0 <= j < k < open@.len() ==> open@[j] < open@[k],
            decreases self.slots.len() - i,
        {
            if self.slots[i].is_some() {
                let ghost before = open@;
                open.push(i);
                assert forall|conn: int| self.is_open(conn) && conn < i + 1 implies exists|k: int|
                    0 <= k < open@.len() && #[trigger] open@[k] == conn by {
                    if conn == i {
                        assert(open@[before.len() as int] == conn);
                    } else {
                        let k = choose|k: int|
                            0 <= k < before.len() && #[trigger] before[k] == conn;
                        assert(open@[k] == conn);
                    }
                }
            }
            i += 1;
        }
        open
    }

    /// Handles a frame that connection `conn` received: decides as
    /// `dispatch` does, and moves the connection to its next phase, or
    /// removes it where it is to be closed.
    pub fn handle_raw_packet(&mut self, data: &[u8], conn: usize) -> (outcome: Outcome)
        requires
            old(self).is_open(conn as int),
        ensures
            outcome@ == step(old(self)@[conn as int]->0, conn as int, data@),
            final(self)@ == old(self)@.update(conn as int, outcome.next),
    {
        let state = match self.slots[conn] {
            Some(state) => state,
            None => State::HANDSHAKE,
        };
        let outcome = dispatch(state, conn, data);
        self.slots[conn] = outcome.next;
        outcome
    }

    /// The identifier of a player who logs in without an account. Every
    /// name gets the same one.
    pub fn generate_offline_uuid(username: &String) -> (id: Identifier)
        ensures
            id.value == OFFLINE_IDENTIFIER,
    {
        Identifier { value: OFFLINE_IDENTIFIER }
    }
}

/// The frame that answers a status request with the status text.
pub fn status_response(status: &str) -> (frame: Vec<u8>)
    ensures
        frame@ == framed(0, fields_bytes(seq![FieldModel::Text(status@)])),
{
    let packet = ClientboundStatusResponsePacket { json_string: String::from_str(status) };
    packet.serialize()
}

/// The keep-alive frame that is broadcast to every connection at fixed
/// intervals.
pub fn keep_alive() -> (frame: Vec<u8>)
    ensures
        frame@ == framed(0, fields_bytes(seq![FieldModel::VarInt(KEEP_ALIVE_ID)])),
{
    let packet = ClientboundKeepAlivePacket { id: KEEP_ALIVE_ID };
    packet.serialize()
}

/// The frame that tells a client that it is disconnected, with the reason
/// as a JSON text.
pub fn disconnect(reason: &str) -> (frame: Vec<u8>)
    ensures
        frame@ == framed(0, fields_bytes(seq![FieldModel::Text(reason@)])),
{
    let packet = ClientboundDisconnectPacket { reason: String::from_str(reason) };
    packet.serialize()
}

/// A packet for which no handler is registered is tolerated once the
/// handshake is over: the frame is dropped, the connection stays open and in
/// its phase.
pub proof fn lemma_unknown_packet_tolerated(state: State, conn: int, data: Seq<u8>)
    requires
        state != State::HANDSHAKE,
        varint_parse(data, 0) matches Ok((id, _)) && !registered(state, id),
    ensures
        step(state, conn, data).next == Some(state),
        step(state, conn, data).action == ActionModel::Dropped(ProtocolError::UnknownPacket),
{
}

/// During the handshake a packet for which no handler is registered closes
/// the connection.
pub proof fn lemma_unknown_packet_ends_handshake(conn: int, data: Seq<u8>)
    requires
        varint_parse(data, 0) matches Ok((id, _)) && !registered(State::HANDSHAKE, id),
    ensures
        step(State::HANDSHAKE, conn, data).next == None::<State>,
        step(State::HANDSHAKE, conn, data).action == ActionModel::Close(
            ProtocolError::ProtocolViolation,
        ),
{
}

/// The fields of a handshake packet.
pub open spec fn handshake_fields(
    protocol_version: i32,
    server_address: Seq<char>,
    server_port: u16,
    next_state: i32,
) -> Seq<FieldModel> {
    seq![
        FieldModel::VarInt(protocol_version),
        FieldModel::Text(server_address),
        FieldModel::U16(server_port),
        FieldModel::VarInt(next_state),
    ]
}

/// The fields of a handshake packet fill its schema.
proof fn lemma_handshake_fields_fit(
    protocol_version: i32,
    server_address: Seq<char>,
    server_port: u16,
    next_state: i32,
)
    requires
        text_fits(server_address),
    ensures
        ServerboundHandshakePacket::fits(
            handshake_fields(protocol_version, server_address, server_port, next_state),
        ),
        handshake_fields(protocol_version, server_address, server_port, next_state)[3].number()
            == next_state,
{
    let fields = handshake_fields(protocol_version, server_address, server_port, next_state);
    assert(kinds_of(fields) =~= ServerboundHandshakePacket::schema());
}

/// A handshake packet that can be read moves the connection to the phase
/// that it asks for.
proof fn lemma_handshake_handled(conn: int, data: Seq<u8>, from: int, fields: Seq<FieldModel>)
    requires
        varint_parse(data, 0) == Ok::<(i32, int), ProtocolError>((0, from)),
        ServerboundHandshakePacket::payload_parse(data.subrange(from, data.len() as int)) == Ok::<
            (Seq<FieldModel>, bool),
            ProtocolError,
        >((fields, false)),
    ensures
        step(State::HANDSHAKE, conn, data).next == Some(
            phase_after_handshake(fields[3].number()),
        ),
{
}

/// The handshake forks: a handshake packet that asks for 1 moves the
/// connection to `STATUS`, one that asks for anything else moves it to
/// `LOGIN`.
pub proof fn lemma_handshake_fork(
    conn: int,
    protocol_version: i32,
    server_address: Seq<char>,
    server_port: u16,
    next_state: i32,
)
    requires
        text_fits(server_address),
    ensures
        step(
            State::HANDSHAKE,
            conn,
            body_bytes(
                0,
                handshake_fields(protocol_version, server_address, server_port, next_state),
            ),
        ).next == Some(
            if next_state == 1 {
                State::STATUS
            } else {
                State::LOGIN
            },
        ),
{
    let fields = handshake_fields(protocol_version, server_address, server_port, next_state);
    let data = body_bytes(0, fields);
    lemma_body_split(0, fields);
    lemma_handshake_fields_fit(protocol_version, server_address, server_port, next_state);
    ServerboundHandshakePacket::lemma_round_trip(fields);
    let from = choose|from: int|
        varint_parse(data, 0) == Ok::<(i32, int), ProtocolError>((0, from));
    lemma_handshake_handled(conn, data, from, fields);
}

/// Phases only move forward: no frame moves a connection to an earlier
/// phase, and none moves it to `HANDSHAKE`.
pub proof fn lemma_phases_move_forward(state: State, conn: int, data: Seq<u8>)
    ensures
        step(state, conn, data).next matches Some(next) ==> next.stage() >= state.stage() && next
            != State::HANDSHAKE,
{
}

} // verus!
