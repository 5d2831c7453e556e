//! The packets of the status exchange: the server list ping.
use crate::error::Error;
use crate::model::State;
use crate::packets::{Packet, PacketContext};
use crate::ser::{Deserialize, Serialize};
use crate::types::Json;
use crate::varint::VarInt;
use vstd::prelude::*;

verus! {

/// The client asks for the status of the server.
#[derive(Debug)]
pub struct StatusRequest;

impl DeepView for StatusRequest {
    type V = ();

    open spec fn deep_view(&self) -> () {
        ()
    }
}

impl Packet for StatusRequest {
    open spec fn spec_id() -> i32 {
        0x00
    }

    open spec fn spec_state() -> State {
        State::Status
    }

    fn id() -> (r: VarInt<i32>) {
        VarInt(0x00)
    }

    fn state() -> (r: State) {
        State::Status
    }
}

impl Deserialize for StatusRequest {
    type Context = PacketContext;

    open spec fn spec_can_deserialize(s: Seq<u8>, cx: PacketContext) -> bool {
        true
    }

    fn can_deserialize(input: &[u8], pos: usize, cx: &PacketContext) -> (r: bool) {
        true
    }

    /// Nothing to read, but the packet must have id 0 and come in the Status state.
    open spec fn spec_deserialize(s: Seq<u8>, cx: PacketContext) -> Result<((), nat), Error> {
        if cx.id.0 == 0x00 && cx.state == State::Status {
            Ok(((), 0))
        } else {
            Err(Error::InvalidPacketId(cx.id.0))
        }
    }

    fn deserialize(input: &[u8], pos: usize, cx: &PacketContext) -> (r: Result<(StatusRequest, usize), Error>) {
        if cx.id.0 == 0x00 && cx.state == State::Status {
            Ok((StatusRequest, pos))
        } else {
            Err(Error::InvalidPacketId(cx.id.0))
        }
    }
}

impl Serialize for StatusRequest {
    open spec fn spec_can_serialize(&self) -> bool {
        true
    }

    fn can_serialize(&self) -> (r: bool) {
        true
    }

    open spec fn spec_serialize(&self) -> Result<Seq<u8>, Error> {
        Ok(Seq::empty())
    }

    fn serialize_to(&self, buf: &mut Vec<u8>) -> (r: Result<(), Error>) {
        assert(buf@ =~= buf@ + Seq::<u8>::empty());
        Ok(())
    }
}

/// The status of the server, as JSON text.
#[derive(Debug)]
pub struct StatusResponse {
    pub json_response: Json,
}

impl DeepView for StatusResponse {
    type V = Seq<u8>;

    open spec fn deep_view(&self) -> Seq<u8> {
        self.json_response.0@
    }
}

impl Packet for StatusResponse {
    open spec fn spec_id() -> i32 {
        0x00
    }

    open spec fn spec_state() -> State {
        State::Status
    }

    fn id() -> (r: VarInt<i32>) {
        VarInt(0x00)
    }

    fn state() -> (r: State) {
        State::Status
    }
}

impl Serialize for StatusResponse {
    open spec fn spec_can_serialize(&self) -> bool {
        self.json_response.spec_can_serialize()
    }

    fn can_serialize(&self) -> (r: bool) {
        self.json_response.can_serialize()
    }

    open spec fn spec_serialize(&self) -> Result<Seq<u8>, Error> {
        self.json_response.spec_serialize()
    }

    fn serialize_to(&self, buf: &mut Vec<u8>) -> (r: Result<(), Error>) {
        self.json_response.serialize_to(buf)
    }
}

impl Deserialize for StatusResponse {
    type Context = PacketContext;

    open spec fn spec_can_deserialize(s: Seq<u8>, cx: PacketContext) -> bool {
        Json::spec_can_deserialize(s, ())
    }

    fn can_deserialize(input: &[u8], pos: usize, cx: &PacketContext) -> (r: bool) {
        Json::can_deserialize(input, pos, &())
    }

    open spec fn spec_deserialize(s: Seq<u8>, cx: PacketContext) -> Result<(Seq<u8>, nat), Error> {
        Json::spec_deserialize(s, ())
    }

    fn deserialize(input: &[u8], pos: usize, cx: &PacketContext) -> (r: Result<(StatusResponse, usize), Error>) {
        let (json_response, p) = Json::deserialize(input, pos, &())?;
        Ok((StatusResponse { json_response }, p))
    }
}

/// The client pings with a number that the answer carries back.
#[derive(Debug)]
pub struct PingRequest {
    pub payload: i64,
}

/// The answer to a ping, with its number.
#[derive(Debug)]
pub struct PongResponse {
    pub payload: i64,
}

impl DeepView for PingRequest {
    type V = i64;

    open spec fn deep_view(&self) -> i64 {
        self.payload
    }
}

impl DeepView for PongResponse {
    type V = i64;

    open spec fn deep_view(&self) -> i64 {
        self.payload
    }
}

impl Packet for PingRequest {
    open spec fn spec_id() -> i32 {
        0x01
    }

    open spec fn spec_state() -> State {
        State::Status
    }

    fn id() -> (r: VarInt<i32>) {
        VarInt(0x01)
    }

    fn state() -> (r: State) {
        State::Status
    }
}

impl Packet for PongResponse {
    open spec fn spec_id() -> i32 {
        0x01
    }

    open spec fn spec_state() -> State {
        State::Status
    }

    fn id() -> (r: VarInt<i32>) {
        VarInt(0x01)
    }

    fn state() -> (r: State) {
        State::Status
    }
}

impl Serialize for PingRequest {
    open spec fn spec_can_serialize(&self) -> bool {
        true
    }

    fn can_serialize(&self) -> (r: bool) {
        true
    }

    open spec fn spec_serialize(&self) -> Result<Seq<u8>, Error> {
        self.payload.spec_serialize()
    }

    fn serialize_to(&self, buf: &mut Vec<u8>) -> (r: Result<(), Error>) {
        self.payload.serialize_to(buf)
    }
}

impl Serialize for PongResponse {
    open spec fn spec_can_serialize(&self) -> bool {
        true
    }

    fn can_serialize(&self) -> (r: bool) {
        true
    }

    open spec fn spec_serialize(&self) -> Result<Seq<u8>, Error> {
        self.payload.spec_serialize()
    }

    fn serialize_to(&self, buf: &mut Vec<u8>) -> (r: Result<(), Error>) {
        self.payload.serialize_to(buf)
    }
}

impl Deserialize for PingRequest {
    type Context = PacketContext;

    open spec fn spec_can_deserialize(s: Seq<u8>, cx: PacketContext) -> bool {
        true
    }

    fn can_deserialize(input: &[u8], pos: usize, cx: &PacketContext) -> (r: bool) {
        true
    }

    open spec fn spec_deserialize(s: Seq<u8>, cx: PacketContext) -> Result<(i64, nat), Error> {
        i64::spec_deserialize(s, ())
    }

    fn deserialize(input: &[u8], pos: usize, cx: &PacketContext) -> (r: Result<(PingRequest, usize), Error>) {
        let (payload, p) = i64::deserialize(input, pos, &())?;
        Ok((PingRequest { payload }, p))
    }
}

impl Deserialize for PongResponse {
    type Context = PacketContext;

    open spec fn spec_can_deserialize(s: Seq<u8>, cx: PacketContext) -> bool {
        true
    }

    fn can_deserialize(input: &[u8], pos: usize, cx: &PacketContext) -> (r: bool) {
        true
    }

    open spec fn spec_deserialize(s: Seq<u8>, cx: PacketContext) -> Result<(i64, nat), Error> {
        i64::spec_deserialize(s, ())
    }

    fn deserialize(input: &[u8], pos: usize, cx: &PacketContext) -> (r: Result<(PongResponse, usize), Error>) {
        let (payload, p) = i64::deserialize(input, pos, &())?;
        Ok((PongResponse { payload }, p))
    }
}

} // verus!

verus! {

/// The status of a server as the server list shows it.
#[derive(Debug)]
pub struct StatusResponseJson {
    pub version: Version,
    pub players: Players,
    pub description: crate::chat::ChatComponent,
    pub favicon: String,
    pub enforces_secure_chat: bool,
    pub previews_chat: bool,
}

/// The name and protocol number of the server's version.
#[derive(Debug, Clone)]
pub struct Version {
    pub name: String,
    pub protocol: i32,
}

/// How many players the server takes and has, with some of their names.
#[derive(Debug, Clone)]
pub struct Players {
    pub max: i64,
    pub online: i64,
    pub sample: Vec<Sample>,
}

/// A player shown in the server list: name and id.
#[derive(Debug, Clone)]
pub struct Sample {
    pub name: String,
    pub id: String,
}

impl Default for Version {
    fn default() -> (r: Self)
        ensures
            r.name@ == Seq::<char>::empty(),
            r.protocol == 0,
    {
        Version { name: String::new(), protocol: 0 }
    }
}

impl Default for Players {
    fn default() -> (r: Self)
        ensures
            r.max == 0,
            r.online == 0,
            r.sample@.len() == 0,
    {
        Players { max: 0, online: 0, sample: Vec::new() }
    }
}

impl Default for Sample {
    fn default() -> (r: Self)
        ensures
            r.name@ == Seq::<char>::empty(),
            r.id@ == Seq::<char>::empty(),
    {
        Sample { name: String::new(), id: String::new() }
    }
}

impl Default for StatusResponseJson {
    fn default() -> (r: Self)
        ensures
            r.version.name@ == Seq::<char>::empty(),
            r.version.protocol == 0,
            r.players.max == 0,
            r.players.online == 0,
            r.players.sample@.len() == 0,
            r.description matches crate::chat::ChatComponent::String(s) && s.text@ == Seq::<char>::empty()
                && crate::chat::is_plain(s.basic),
            r.favicon@ == Seq::<char>::empty(),
            !r.enforces_secure_chat,
            !r.previews_chat,
    {
        StatusResponseJson {
            version: Version::default(),
            players: Players::default(),
            description: crate::chat::ChatComponent::default(),
            favicon: String::new(),
            enforces_secure_chat: false,
            previews_chat: false,
        }
    }
}

} // verus!
