//! Wire-protocol core of a turn-based client/server game: the variable-length
//! integer codec, the field codec, length-prefixed packet frames, the bulk
//! encoding of voxel columns, and the per-connection protocol state machine.

pub mod clientbound;
pub mod error;
pub mod field;
pub mod frame;
pub mod identifier;
pub mod packets;
pub mod roundtrip;
pub mod serialization;
pub mod server;
pub mod serverbound;
pub mod smpmap;
pub mod state;
pub mod types;
pub mod varint;
