//! The first packet of a connection.
use crate::error::Error;
use crate::model::State;
use crate::packets::{Packet, PacketContext};
use crate::ser::{then_bytes, Deserialize, Serialize};
use crate::types::FixedStr;
use crate::varint::VarInt;
use vstd::prelude::*;

verus! {

/// The state that a handshake asks for: Status (1) or Login (2).
#[derive(Debug, Clone, Copy, PartialEq, Eq, Structural)]
pub enum HandshakeNextState {
    Status,
    Login,
}

impl HandshakeNextState {
    /// The number that the state is written as.
    pub open spec fn spec_value(self) -> i32 {
        match self {
            HandshakeNextState::Status => 1,
            HandshakeNextState::Login => 2,
        }
    }

    pub fn value(&self) -> (r: i32)
        ensures
            r == self.spec_value(),
    {
        match self {
            HandshakeNextState::Status => 1,
            HandshakeNextState::Login => 2,
        }
    }
}

/// The handshake: the protocol version of the client, the address and port it
/// connected to, and the state it asks for.
#[derive(Debug, Clone)]
pub struct Handshake {
    pub protocol_version: VarInt<i32>,
    pub addr: FixedStr<255>,
    pub port: u16,
    pub next_state: HandshakeNextState,
}

impl DeepView for Handshake {
    type V = (VarInt<i32>, Seq<char>, u16, HandshakeNextState);

    open spec fn deep_view(&self) -> (VarInt<i32>, Seq<char>, u16, HandshakeNextState) {
        (self.protocol_version, self.addr@, self.port, self.next_state)
    }
}

impl Packet for Handshake {
    open spec fn spec_id() -> i32 {
        0x00
    }

    open spec fn spec_state() -> State {
        State::Handshaking
    }

    fn id() -> (r: VarInt<i32>) {
        VarInt(0x00)
    }

    fn state() -> (r: State) {
        State::Handshaking
    }
}

impl Serialize for Handshake {
    open spec fn spec_can_serialize(&self) -> bool {
        true
    }

    fn can_serialize(&self) -> (r: bool) {
        true
    }

    /// The version, the address, the port, and the next state as a variable-length
    /// integer.
    open spec fn spec_serialize(&self) -> Result<Seq<u8>, Error> {
        then_bytes(
            self.protocol_version.spec_serialize(),
            then_bytes(
                self.addr.spec_serialize(),
                then_bytes(self.port.spec_serialize(), VarInt(self.next_state.spec_value()).spec_serialize()),
            ),
        )
    }

    fn serialize_to(&self, buf: &mut Vec<u8>) -> (r: Result<(), Error>) {
        let next = VarInt(self.next_state.value());
        proof {
            use_type_invariant(&self.addr);
        }
        (&self.protocol_version, (&self.addr, (&self.port, &next))).serialize_to(buf)
    }
}

impl Deserialize for Handshake {
    type Context = PacketContext;

    /// Panics as reading the address (a string of at most 255 bytes) does.
    open spec fn spec_can_deserialize(s: Seq<u8>, cx: PacketContext) -> bool {
        <(VarInt<i32>, (FixedStr<255>, (u16, VarInt<i32>)))>::spec_can_deserialize(s, ())
    }

    fn can_deserialize(input: &[u8], pos: usize, cx: &PacketContext) -> (r: bool) {
        <(VarInt<i32>, (FixedStr<255>, (u16, VarInt<i32>)))>::can_deserialize(input, pos, &())
    }

    /// The version, the address, the port, and the next state, which must be 1 or 2.
    open spec fn spec_deserialize(s: Seq<u8>, cx: PacketContext) -> Result<
        ((VarInt<i32>, Seq<char>, u16, HandshakeNextState), nat),
        Error,
    > {
        match <(VarInt<i32>, (FixedStr<255>, (u16, VarInt<i32>)))>::spec_deserialize(s, ()) {
            Err(e) => Err(e),
            Ok(((v, (a, (p, ns))), n)) => if ns.0 == 1 {
                Ok(((v, a, p, HandshakeNextState::Status), n))
            } else if ns.0 == 2 {
                Ok(((v, a, p, HandshakeNextState::Login), n))
            } else {
                Err(Error::InvalidStateId(ns.0))
            },
        }
    }

    fn deserialize(input: &[u8], pos: usize, cx: &PacketContext) -> (r: Result<(Handshake, usize), Error>) {
        let ((protocol_version, (addr, (port, next))), p) = <(
            VarInt<i32>,
            (FixedStr<255>, (u16, VarInt<i32>)),
        )>::deserialize(input, pos, &())?;
        let next_state = if next.0 == 1 {
            HandshakeNextState::Status
        } else if next.0 == 2 {
            HandshakeNextState::Login
        } else {
            return Err(Error::InvalidStateId(next.0));
        };
        Ok((Handshake { protocol_version, addr, port, next_state }, p))
    }
}

} // verus!
