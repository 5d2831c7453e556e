//! The login success packet that carries the properties of the player's profile.
use crate::error::Error;
use crate::model::State;
use crate::packets::login::Property;
use crate::packets::Packet;
use crate::ser::{then_bytes, Serialize};
use crate::types::{Array, FixedStr, Uuid};
use crate::varint::VarInt;
use vstd::prelude::*;

verus! {

/// The login succeeded; the connection goes on in the Play state. Written as the
/// UUID, the name, and the properties as an array (their count, then each of them).
#[derive(Debug)]
pub struct LoginSuccess {
    pub uuid: Uuid,
    pub username: FixedStr<16>,
    pub properties: Array<Property>,
}

impl Packet for LoginSuccess {
    open spec fn spec_id() -> i32 {
        0x02
    }

    open spec fn spec_state() -> State {
        State::Login
    }

    fn id() -> (r: VarInt<i32>) {
        VarInt(0x02)
    }

    fn state() -> (r: State) {
        State::Login
    }
}

impl Serialize for LoginSuccess {
    /// The count of properties fits into an `i32`.
    open spec fn spec_can_serialize(&self) -> bool {
        self.properties.spec_can_serialize()
    }

    fn can_serialize(&self) -> (r: bool) {
        self.properties.can_serialize()
    }

    /// The UUID, the name, then the properties.
    open spec fn spec_serialize(&self) -> Result<Seq<u8>, Error> {
        then_bytes(
            self.uuid.spec_serialize(),
            then_bytes(self.username.spec_serialize(), self.properties.spec_serialize()),
        )
    }

    fn serialize_to(&self, buf: &mut Vec<u8>) -> (r: Result<(), Error>) {
        proof {
            use_type_invariant(&self.username);
        }
        (&self.uuid, (&self.username, &self.properties)).serialize_to(buf)
    }
}

} // verus!
