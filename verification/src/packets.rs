//! Packets: what each one carries, and under which id it travels.
//!
//! A packet type says how its fields are written and read; the frame around
//! them is the same for all.

use vstd::prelude::*;
use crate::error::ProtocolError;
use crate::frame::{frame, framed};

verus! {

/// A packet of one type.
pub trait Packet: Sized + View {
    /// The id under which packets of this type travel.
    spec fn packet_id() -> i32;

    /// The bytes of a packet's fields, in order.
    spec fn payload_bytes(model: Self::V) -> Seq<u8>;

    /// What reading a payload gives: the packet, and whether a text in it was
    /// replaced by the empty text for want of valid UTF-8. The fields must
    /// fill the payload.
    spec fn payload_parse(data: Seq<u8>) -> Result<(Self::V, bool), ProtocolError>;

    /// Whether a packet can be read back from its bytes.
    spec fn fits(model: Self::V) -> bool;

    /// Round trip: the bytes of a packet that fits read as that packet, with
    /// nothing replaced.
    proof fn lemma_round_trip(model: Self::V)
        requires
            Self::fits(model),
        ensures
            Self::payload_parse(Self::payload_bytes(model)) == Ok::<(Self::V, bool), ProtocolError>(
                (model, false),
            ),
    ;

    /// The id under which packets of this type travel.
    fn id() -> (id: i32)
        ensures
            id == Self::packet_id(),
    ;

    /// Writes the fields of the packet.
    fn payload(&self) -> (out: Vec<u8>)
        ensures
            out@ == Self::payload_bytes(self@),
    ;

    /// Reads a packet from a payload: the bytes of a frame behind the id.
    fn read(data: &[u8]) -> (r: Result<(Self, bool), ProtocolError>)
        ensures
            match r {
                Ok((packet, replaced)) => Self::payload_parse(data@) == Ok::<
                    (Self::V, bool),
                    ProtocolError,
                >((packet@, replaced)),
                Err(e) => Self::payload_parse(data@) == Err::<(Self::V, bool), ProtocolError>(e),
            },
    ;

    /// Builds the packet's frame: length, id, fields.
    fn serialize(&self) -> (out: Vec<u8>)
        ensures
            out@ == framed(Self::packet_id(), Self::payload_bytes(self@)),
    {
        let payload = self.payload();
        frame(Self::id(), payload.as_slice())
    }

    /// Reads the fields of the packet from a payload into `self`, and tells
    /// whether a text was replaced. On an error `self` stays as it was.
    fn deserialize(&mut self, data: Vec<u8>) -> (r: Result<bool, ProtocolError>)
        ensures
            match r {
                Ok(replaced) => Self::payload_parse(data@) == Ok::<(Self::V, bool), ProtocolError>(
                    (final(self)@, replaced),
                ),
                Err(e) => Self::payload_parse(data@) == Err::<(Self::V, bool), ProtocolError>(e)
                    && *final(self) == *old(self),
            },
    {
        match Self::read(data.as_slice()) {
            Ok((packet, replaced)) => {
                *self = packet;
                Ok(replaced)
            },
            Err(e) => Err(e),
        }
    }

    /// Reads a packet from a payload. A text that is not valid UTF-8 reads
    /// as the empty text; `deserialize` tells where that happened.
    fn new(data: Vec<u8>) -> (r: Result<Self, ProtocolError>)
        ensures
            match Self::payload_parse(data@) {
                Ok((model, _)) => r matches Ok(packet) && packet@ == model,
                Err(e) => r matches Err(error) && error == e,
            },
    {
        match Self::read(data.as_slice()) {
            Ok((packet, _)) => Ok(packet),
            Err(e) => Err(e),
        }
    }
}

} // verus!
