//! The phases of a connection.

use vstd::prelude::*;

verus! {

/// The phase that a connection is in. A connection begins in `HANDSHAKE`,
/// which leads to `STATUS` or to `LOGIN`; a login leads to `PLAY`. No phase
/// leads back to an earlier one.
#[allow(non_camel_case_types)]
#[derive(Clone, Copy, Debug, PartialEq, Eq, Structural)]
pub enum State {
    HANDSHAKE,
    STATUS,
    LOGIN,
    PLAY,
}

impl State {
    /// How far a phase is from the beginning: `STATUS` and `LOGIN` are the
    /// two branches behind the handshake, `PLAY` lies behind `LOGIN`.
    pub open spec fn stage(self) -> nat {
        match self {
            State::HANDSHAKE => 0,
            State::STATUS => 1,
            State::LOGIN => 1,
            State::PLAY => 2,
        }
    }
}

} // verus!
