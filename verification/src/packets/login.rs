//! The packets of the login exchange.
use crate::error::{Error, SerializationError};
use crate::model::State;
use crate::packets::{Packet, PacketContext};
use crate::ser::{then_bytes, Deserialize, Serialize};
use crate::types::{FixedStr, Json, Uuid};
use crate::varint::{leb_encode, VarInt};
use vstd::prelude::*;

verus! {

/// The client starts to log in: its name, and its UUID if it has an account.
#[derive(Debug)]
pub struct LoginStart {
    pub name: FixedStr<16>,
    pub uuid: Option<Uuid>,
}

impl DeepView for LoginStart {
    type V = (Seq<char>, Option<u128>);

    open spec fn deep_view(&self) -> (Seq<char>, Option<u128>) {
        (self.name@, self.uuid.deep_view())
    }
}

impl Packet for LoginStart {
    open spec fn spec_id() -> i32 {
        0x00
    }

    open spec fn spec_state() -> State {
        State::Login
    }

    fn id() -> (r: VarInt<i32>) {
        VarInt(0x00)
    }

    fn state() -> (r: State) {
        State::Login
    }
}

impl Serialize for LoginStart {
    open spec fn spec_can_serialize(&self) -> bool {
        true
    }

    fn can_serialize(&self) -> (r: bool) {
        true
    }

    /// The name, then the optional UUID.
    open spec fn spec_serialize(&self) -> Result<Seq<u8>, Error> {
        then_bytes(self.name.spec_serialize(), self.uuid.spec_serialize())
    }

    fn serialize_to(&self, buf: &mut Vec<u8>) -> (r: Result<(), Error>) {
        proof {
            use_type_invariant(&self.name);
        }
        (&self.name, &self.uuid).serialize_to(buf)
    }
}

impl Deserialize for LoginStart {
    type Context = PacketContext;

    open spec fn spec_can_deserialize(s: Seq<u8>, cx: PacketContext) -> bool {
        <(FixedStr<16>, Option<Uuid>)>::spec_can_deserialize(s, ())
    }

    fn can_deserialize(input: &[u8], pos: usize, cx: &PacketContext) -> (r: bool) {
        <(FixedStr<16>, Option<Uuid>)>::can_deserialize(input, pos, &())
    }

    open spec fn spec_deserialize(s: Seq<u8>, cx: PacketContext) -> Result<((Seq<char>, Option<u128>), nat), Error> {
        <(FixedStr<16>, Option<Uuid>)>::spec_deserialize(s, ())
    }

    fn deserialize(input: &[u8], pos: usize, cx: &PacketContext) -> (r: Result<(LoginStart, usize), Error>) {
        let ((name, uuid), p) = <(FixedStr<16>, Option<Uuid>)>::deserialize(input, pos, &())?;
        Ok((LoginStart { name, uuid }, p))
    }
}

/// The server refuses the login, with a reason as JSON text.
#[derive(Debug)]
pub struct DisconnectLogin {
    pub reason: Json,
}

impl Packet for DisconnectLogin {
    open spec fn spec_id() -> i32 {
        0x00
    }

    open spec fn spec_state() -> State {
        State::Login
    }

    fn id() -> (r: VarInt<i32>) {
        VarInt(0x00)
    }

    fn state() -> (r: State) {
        State::Login
    }
}

impl Serialize for DisconnectLogin {
    open spec fn spec_can_serialize(&self) -> bool {
        self.reason.spec_can_serialize()
    }

    fn can_serialize(&self) -> (r: bool) {
        self.reason.can_serialize()
    }

    open spec fn spec_serialize(&self) -> Result<Seq<u8>, Error> {
        self.reason.spec_serialize()
    }

    fn serialize_to(&self, buf: &mut Vec<u8>) -> (r: Result<(), Error>) {
        self.reason.serialize_to(buf)
    }
}

/// The login succeeded; the connection goes on in the Play state.
/// Written as the UUID, the name, and a count of zero properties.
#[derive(Debug)]
pub struct LoginSuccess {
    pub uuid: Uuid,
    pub username: FixedStr<16>,
}

impl DeepView for LoginSuccess {
    type V = (u128, Seq<char>);

    open spec fn deep_view(&self) -> (u128, Seq<char>) {
        (self.uuid.0, self.username@)
    }
}

impl Packet for LoginSuccess {
    open spec fn spec_id() -> i32 {
        0x02
    }

    open spec fn spec_state() -> State {
        State::Login
    }

    fn id() -> (r: VarInt<i32>) {
        VarInt(0x02)
    }

    fn state() -> (r: State) {
        State::Login
    }
}

impl Serialize for LoginSuccess {
    open spec fn spec_can_serialize(&self) -> bool {
        true
    }

    fn can_serialize(&self) -> (r: bool) {
        true
    }

    /// The UUID, the name, and `0` for the count of properties.
    open spec fn spec_serialize(&self) -> Result<Seq<u8>, Error> {
        then_bytes(
            self.uuid.spec_serialize(),
            then_bytes(self.username.spec_serialize(), Ok(leb_encode(0))),
        )
    }

    fn serialize_to(&self, buf: &mut Vec<u8>) -> (r: Result<(), Error>) {
        let none = VarInt::<i32>(0);
        assert(none.spec_bytes() == leb_encode(0));
        proof {
            use_type_invariant(&self.username);
        }
        (&self.uuid, (&self.username, &none)).serialize_to(buf)
    }
}

/// Reading the byte `0` at the front of `s`.
pub open spec fn spec_read_zero(s: Seq<u8>) -> Result<((), nat), Error> {
    if s.len() == 0 {
        Err(Error::Ser(SerializationError::UnexpectedEof))
    } else if s[0] == 0 {
        Ok(((), 1))
    } else {
        Err(Error::Ser(SerializationError::Expected { low: 0, high: 0, found: s[0] }))
    }
}

impl Deserialize for LoginSuccess {
    type Context = PacketContext;

    open spec fn spec_can_deserialize(s: Seq<u8>, cx: PacketContext) -> bool {
        <(Uuid, FixedStr<16>)>::spec_can_deserialize(s, ())
    }

    fn can_deserialize(input: &[u8], pos: usize, cx: &PacketContext) -> (r: bool) {
        <(Uuid, FixedStr<16>)>::can_deserialize(input, pos, &())
    }

    /// The UUID, the name, then the byte `0`.
    open spec fn spec_deserialize(s: Seq<u8>, cx: PacketContext) -> Result<((u128, Seq<char>), nat), Error> {
        match <(Uuid, FixedStr<16>)>::spec_deserialize(s, ()) {
            Err(e) => Err(e),
            Ok((v, n)) => match spec_read_zero(s.skip(n as int)) {
                Err(e) => Err(e),
                Ok((_, m)) => Ok((v, n + m)),
            },
        }
    }

    fn deserialize(input: &[u8], pos: usize, cx: &PacketContext) -> (r: Result<(LoginSuccess, usize), Error>) {
        let ((uuid, username), p) = <(Uuid, FixedStr<16>)>::deserialize(input, pos, &())?;
        assert(input@.skip(p as int) =~= input@.skip(pos as int).skip((p - pos) as int));
        if p >= input.len() {
            return Err(Error::Ser(SerializationError::UnexpectedEof));
        }
        if input[p] != 0 {
            return Err(Error::Ser(SerializationError::Expected { low: 0, high: 0, found: input[p] }));
        }
        Ok((LoginSuccess { uuid, username }, p + 1))
    }
}

/// A property of a player's profile: a name, a value, and an optional signature.
#[derive(Debug, Clone)]
pub struct Property {
    pub name: FixedStr<32767>,
    pub value: FixedStr<32767>,
    pub signature: Option<FixedStr<32767>>,
}

impl Serialize for Property {
    open spec fn spec_can_serialize(&self) -> bool {
        true
    }

    fn can_serialize(&self) -> (r: bool) {
        true
    }

    /// The name, the value, then the optional signature.
    open spec fn spec_serialize(&self) -> Result<Seq<u8>, Error> {
        then_bytes(
            self.name.spec_serialize(),
            then_bytes(self.value.spec_serialize(), self.signature.spec_serialize()),
        )
    }

    fn serialize_to(&self, buf: &mut Vec<u8>) -> (r: Result<(), Error>) {
        proof {
            use_type_invariant(&self.name);
            use_type_invariant(&self.value);
        }
        if let Some(s) = &self.signature {
            proof {
                use_type_invariant(s);
            }
        }
        (&self.name, (&self.value, &self.signature)).serialize_to(buf)
    }
}

/// The server sets the size from which packets are compressed.
#[derive(Debug, Clone)]
pub struct SetCompression {
    pub threshold: VarInt<i32>,
}

impl DeepView for SetCompression {
    type V = VarInt<i32>;

    open spec fn deep_view(&self) -> VarInt<i32> {
        self.threshold
    }
}

impl Packet for SetCompression {
    open spec fn spec_id() -> i32 {
        0x04
    }

    open spec fn spec_state() -> State {
        State::Login
    }

    fn id() -> (r: VarInt<i32>) {
        VarInt(0x04)
    }

    fn state() -> (r: State) {
        State::Login
    }
}

impl Serialize for SetCompression {
    open spec fn spec_can_serialize(&self) -> bool {
        true
    }

    fn can_serialize(&self) -> (r: bool) {
        true
    }

    open spec fn spec_serialize(&self) -> Result<Seq<u8>, Error> {
        self.threshold.spec_serialize()
    }

    fn serialize_to(&self, buf: &mut Vec<u8>) -> (r: Result<(), Error>) {
        self.threshold.serialize_to(buf)
    }
}

impl Deserialize for SetCompression {
    type Context = PacketContext;

    open spec fn spec_can_deserialize(s: Seq<u8>, cx: PacketContext) -> bool {
        true
    }

    fn can_deserialize(input: &[u8], pos: usize, cx: &PacketContext) -> (r: bool) {
        true
    }

    open spec fn spec_deserialize(s: Seq<u8>, cx: PacketContext) -> Result<(VarInt<i32>, nat), Error> {
        VarInt::<i32>::spec_deserialize(s, ())
    }

    fn deserialize(input: &[u8], pos: usize, cx: &PacketContext) -> (r: Result<(SetCompression, usize), Error>) {
        let (threshold, p) = VarInt::<i32>::deserialize(input, pos, &())?;
        Ok((SetCompression { threshold }, p))
    }
}

} // verus!
