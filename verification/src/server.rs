//! The course of a connection on the server: the handshake, then either the
//! status exchange or the login, as decisions from the packet received to what
//! is to be done.
use crate::chat::{is_plain, BasicChatComponent, ChatColor, ChatColorNamed, ChatComponent, ChatStringComponent};
use crate::error::Error;
use crate::model::{GameMode, PreviousGameMode, State, PROTOCOL_VERSION};
use crate::nbt::NbtCompound;
use crate::packets::handshake::{Handshake, HandshakeNextState};
use crate::packets::login::{DisconnectLogin, LoginStart, LoginSuccess};
use crate::packets::play::{Abilities, DisconnectPlay, LoginPlay, PlayerAbilities};
use crate::packets::status::{PingRequest, Players, PongResponse, Sample, StatusRequest, StatusResponseJson, Version};
use crate::packets::{packet_error, plugin_message, PacketContext, PluginMessage, SerializedPacket};
use crate::ser::Deserialize;
use crate::types::{
    identifier_text, offline_name, str_bytes, uuid_v3_dns, Array, FixedStr, Identifier, Json,
    Namespace, Uuid,
};
use crate::varint::VarInt;
use vstd::prelude::*;

verus! {

/// The errors that end a connection on the server.
#[derive(Debug)]
pub enum ServerError {
    /// An error of the protocol.
    Net(Error),
    /// The client speaks another version of the protocol.
    IncorrectVersion(i32),
}

/// Where a connection stands: what the server waits for.
#[derive(Debug, Clone, Copy, PartialEq, Eq, Structural)]
pub enum Phase {
    Handshaking,
    AwaitingLoginStart,
    AwaitingStatusRequest,
    AwaitingPing,
    Finished,
}

/// A packet that the client sent, read as the packet the server waited for.
#[derive(Debug)]
pub enum Event {
    Handshake(Handshake),
    LoginStart(LoginStart),
    StatusRequest,
    PingRequest(i64),
}

/// What the server does in answer.
#[derive(Debug)]
pub enum Action {
    /// Reads the next packets in this state.
    SetState(State),
    /// Sends that the login succeeded.
    SendLoginSuccess(LoginSuccess),
    /// Places the player in the world and sends what a joining player is sent.
    JoinWorld { name: FixedStr<16>, uuid: Uuid, game_mode: GameMode },
    /// Sends the status of the server.
    SendStatus,
    /// Answers a ping.
    SendPong(PongResponse),
}

/// The event that the server waits for in a phase.
pub open spec fn expects(phase: Phase, event: Event) -> bool {
    match phase {
        Phase::Handshaking => event is Handshake,
        Phase::AwaitingLoginStart => event is LoginStart,
        Phase::AwaitingStatusRequest => event is StatusRequest,
        Phase::AwaitingPing => event is PingRequest,
        Phase::Finished => false,
    }
}

/// The state in which the packets of a phase are read.
pub open spec fn spec_phase_state(phase: Phase) -> State {
    match phase {
        Phase::Handshaking => State::Handshaking,
        Phase::AwaitingLoginStart => State::Login,
        Phase::AwaitingStatusRequest => State::Status,
        Phase::AwaitingPing => State::Status,
        Phase::Finished => State::Play,
    }
}

/// The state in which the packets of a phase are read.
pub fn phase_state(phase: Phase) -> (r: State)
    ensures
        r == spec_phase_state(phase),
{
    match phase {
        Phase::Handshaking => State::Handshaking,
        Phase::AwaitingLoginStart => State::Login,
        Phase::AwaitingStatusRequest => State::Status,
        Phase::AwaitingPing => State::Status,
        Phase::Finished => State::Play,
    }
}

/// The context in which a packet is read in a phase.
pub open spec fn phase_context(phase: Phase, packet: SerializedPacket) -> PacketContext {
    PacketContext { id: packet.id, state: spec_phase_state(phase) }
}

/// The packets that can be read in a phase without a panic.
pub open spec fn spec_can_read_event(phase: Phase, packet: SerializedPacket) -> bool {
    match phase {
        Phase::Handshaking => Handshake::spec_can_deserialize(packet.data@, phase_context(phase, packet)),
        Phase::AwaitingLoginStart => LoginStart::spec_can_deserialize(packet.data@, phase_context(phase, packet)),
        _ => true,
    }
}

/// Whether the packet that the server waits for in `phase` can be read from
/// `packet` without a panic.
pub fn can_read_event(phase: Phase, packet: &SerializedPacket) -> (r: bool)
    ensures
        r == spec_can_read_event(phase, *packet),
{
    let cx = PacketContext { id: packet.id, state: phase_state(phase) };
    assert(packet.data@.skip(0) =~= packet.data@);
    match phase {
        Phase::Handshaking => Handshake::can_deserialize(packet.data.as_slice(), 0, &cx),
        Phase::AwaitingLoginStart => LoginStart::can_deserialize(packet.data.as_slice(), 0, &cx),
        _ => true,
    }
}

/// Reads from `packet` the packet that the server waits for in `phase`, in the
/// state of that phase.
pub fn read_event(phase: Phase, packet: &SerializedPacket) -> (r: Result<Event, Error>)
    requires
        phase != Phase::Finished,
        spec_can_read_event(phase, *packet),
    ensures
        r matches Ok(e) ==> expects(phase, e),
        match phase {
            Phase::Handshaking => match Handshake::spec_deserialize(packet.data@, phase_context(phase, *packet)) {
                Ok((v, _)) => r matches Ok(Event::Handshake(h)) && h.deep_view() == v,
                Err(e) => r matches Err(e2) && packet_error(e2, e, packet.data@, packet.id.0),
            },
            Phase::AwaitingLoginStart => match LoginStart::spec_deserialize(packet.data@, phase_context(phase, *packet)) {
                Ok((v, _)) => r matches Ok(Event::LoginStart(l)) && l.deep_view() == v,
                Err(e) => r matches Err(e2) && packet_error(e2, e, packet.data@, packet.id.0),
            },
            Phase::AwaitingStatusRequest => match StatusRequest::spec_deserialize(
                packet.data@,
                phase_context(phase, *packet),
            ) {
                Ok(_) => r matches Ok(Event::StatusRequest),
                Err(e) => r matches Err(e2) && packet_error(e2, e, packet.data@, packet.id.0),
            },
            Phase::AwaitingPing => match PingRequest::spec_deserialize(packet.data@, phase_context(phase, *packet)) {
                Ok((v, _)) => r matches Ok(Event::PingRequest(p)) && p == v,
                Err(e) => r matches Err(e2) && packet_error(e2, e, packet.data@, packet.id.0),
            },
            Phase::Finished => true,
        },
{
    let state = phase_state(phase);
    match phase {
        Phase::Handshaking => {
            let h = packet.try_deserialize::<Handshake>(state)?;
            Ok(Event::Handshake(h))
        },
        Phase::AwaitingLoginStart => {
            let l = packet.try_deserialize::<LoginStart>(state)?;
            Ok(Event::LoginStart(l))
        },
        Phase::AwaitingStatusRequest => {
            let _ = packet.try_deserialize::<StatusRequest>(state)?;
            Ok(Event::StatusRequest)
        },
        _ => {
            let p = packet.try_deserialize::<PingRequest>(state)?;
            Ok(Event::PingRequest(p.payload))
        },
    }
}

/// The UUID of a player who logs in: the one it sent, or else the UUID of its
/// name in offline mode.
pub open spec fn spec_login_uuid(name: Seq<char>, uuid: Option<Uuid>) -> u128 {
    match uuid {
        Some(u) => u.0,
        None => uuid_v3_dns(offline_name(name)),
    }
}

/// The UUID of a player who logs in: the one it sent, or else the UUID of its
/// name in offline mode.
pub fn login_uuid(name: &FixedStr<16>, uuid: Option<Uuid>) -> (r: Uuid)
    ensures
        r.0 == spec_login_uuid(name@, uuid),
{
    match uuid {
        Some(u) => u,
        None => Uuid::offline(name.as_str()),
    }
}

/// The next step of a connection: from the phase and the packet received, the
/// next phase and what to do, or the error that ends the connection.
pub fn step(phase: Phase, event: Event) -> (r: Result<(Phase, Vec<Action>), ServerError>)
    requires
        expects(phase, event),
    ensures
        match event {
            Event::Handshake(h) => if h.protocol_version.0 != PROTOCOL_VERSION {
                r matches Err(ServerError::IncorrectVersion(v)) && v == h.protocol_version.0
            } else {
                r matches Ok((p, a)) && a@.len() == 1 && match h.next_state {
                    HandshakeNextState::Login => p == Phase::AwaitingLoginStart && (a@[0] matches Action::SetState(
                        st,
                    ) && st == State::Login),
                    HandshakeNextState::Status => p == Phase::AwaitingStatusRequest && (a@[0] matches Action::SetState(
                        st,
                    ) && st == State::Status),
                }
            },
            Event::LoginStart(ls) => r matches Ok((p, a)) && {
                &&& p == Phase::Finished
                &&& a@.len() == 3
                &&& (a@[0] matches Action::SendLoginSuccess(s) && s.uuid.0 == spec_login_uuid(
                    ls.name@,
                    ls.uuid,
                ) && s.username@ == ls.name@)
                &&& (a@[1] matches Action::SetState(st) && st == State::Play)
                &&& (a@[2] matches Action::JoinWorld { name, uuid, game_mode } && name@ == ls.name@
                    && uuid.0 == spec_login_uuid(ls.name@, ls.uuid) && game_mode == GameMode::Survival)
            },
            Event::StatusRequest => r matches Ok((p, a)) && {
                &&& p == Phase::AwaitingPing
                &&& a@.len() == 1
                &&& a@[0] is SendStatus
            },
            Event::PingRequest(payload) => r matches Ok((p, a)) && {
                &&& p == Phase::Finished
                &&& a@.len() == 1
                &&& (a@[0] matches Action::SendPong(pong) && pong.payload == payload)
            },
        },
{
    let mut actions: Vec<Action> = Vec::new();
    match event {
        Event::Handshake(h) => {
            if h.protocol_version.0 != PROTOCOL_VERSION {
                return Err(ServerError::IncorrectVersion(h.protocol_version.0));
            }
            match h.next_state {
                HandshakeNextState::Login => {
                    actions.push(Action::SetState(State::Login));
                    Ok((Phase::AwaitingLoginStart, actions))
                },
                HandshakeNextState::Status => {
                    actions.push(Action::SetState(State::Status));
                    Ok((Phase::AwaitingStatusRequest, actions))
                },
            }
        },
        Event::LoginStart(ls) => {
            let uuid = login_uuid(&ls.name, ls.uuid);
            actions.push(Action::SendLoginSuccess(LoginSuccess { uuid, username: ls.name.clone() }));
            actions.push(Action::SetState(State::Play));
            actions.push(Action::JoinWorld { name: ls.name, uuid, game_mode: GameMode::Survival });
            Ok((Phase::Finished, actions))
        },
        Event::StatusRequest => {
            actions.push(Action::SendStatus);
            Ok((Phase::AwaitingPing, actions))
        },
        Event::PingRequest(payload) => {
            actions.push(Action::SendPong(PongResponse { payload }));
            Ok((Phase::Finished, actions))
        },
    }
}

/// The packet that tells a player why it is disconnected: in the Login state and
/// in the Play state; none in the others.
#[derive(Debug)]
pub enum Disconnect {
    Login(DisconnectLogin),
    Play(DisconnectPlay),
}

/// The packet that disconnects a player in the state `state`, with `reason`.
pub fn disconnect_packet(state: State, reason: Json) -> (r: Option<Disconnect>)
    ensures
        match state {
            State::Login => r matches Some(Disconnect::Login(d)) && d.reason == reason,
            State::Play => r matches Some(Disconnect::Play(d)) && d.reason == reason,
            _ => r is None,
        },
{
    match state {
        State::Login => Some(Disconnect::Login(DisconnectLogin { reason })),
        State::Play => Some(Disconnect::Play(DisconnectPlay { reason })),
        _ => None,
    }
}

} // verus!

verus! {

/// The identifier `minecraft:overworld`.
fn overworld() -> (r: Identifier)
    ensures
        r.deep_view() == (None::<Seq<char>>, "overworld"@),
{
    Identifier::new(Namespace::Minecraft, "overworld")
}

/// The packet that places a joining player in the world: a survival player with
/// no previous game mode, in the overworld, with the given entity id and
/// registries; one player at most, view and simulation distance 2, portal
/// cooldown 20, respawn screen on, everything else off or zero.
pub fn login_play(entity_id: i32, registry_codec: NbtCompound) -> (r: LoginPlay)
    ensures
        r.entity_id == entity_id,
        !r.is_hardcore,
        r.game_mode == GameMode::Survival,
        r.prev_game_mode == PreviousGameMode::Undefined,
        r.dimension_names.0@.len() == 1,
        r.dimension_names.0@[0].deep_view() == (None::<Seq<char>>, "overworld"@),
        r.registry_codec == registry_codec,
        r.dimension_type.deep_view() == (None::<Seq<char>>, "overworld"@),
        r.dimension_name.deep_view() == (None::<Seq<char>>, "overworld"@),
        r.hashed_seed == 0,
        r.max_players == VarInt(1i32),
        r.view_distance == VarInt(2i32),
        r.simulation_distance == VarInt(2i32),
        !r.reduced_debug_info,
        r.enable_respawn_screen,
        !r.is_debug,
        !r.is_flat,
        r.death_location is None,
        r.portal_cooldown == VarInt(20i32),
{
    let mut names: Vec<Identifier> = Vec::new();
    names.push(overworld());
    LoginPlay {
        entity_id,
        game_mode: GameMode::Survival,
        prev_game_mode: PreviousGameMode::Undefined,
        registry_codec,
        enable_respawn_screen: true,
        is_hardcore: false,
        dimension_names: Array(names),
        dimension_name: overworld(),
        dimension_type: overworld(),
        hashed_seed: 0,
        death_location: None,
        is_debug: false,
        is_flat: false,
        max_players: VarInt(1),
        reduced_debug_info: false,
        portal_cooldown: VarInt(20),
        simulation_distance: VarInt(2),
        view_distance: VarInt(2),
    }
}

/// The brand of the server, `implodent`, on the channel `minecraft:brand`, written
/// as a string.
pub fn brand_message() -> (r: PluginMessage)
    ensures
        r.channel.deep_view() == (None::<Seq<char>>, "brand"@),
        r.data@ == str_bytes("implodent"@),
{
    proof {
        reveal_strlit("implodent");
        crate::types::lemma_encode_utf8_len("implodent"@);
    }
    match plugin_message(Identifier::minecraft_brand(), "implodent") {
        Ok(m) => m,
        Err(_) => {
            assert(false);
            PluginMessage { channel: Identifier::minecraft_brand(), data: Vec::new() }
        },
    }
}

/// The abilities of a joining player: flying, flying speed `0.05`, field of view
/// modifier `0.1` (as the bits of the `f32` numbers).
pub fn join_abilities() -> (r: PlayerAbilities)
    ensures
        r.flags.spec_bits() == 0x02,
        r.flying_speed == 0x3d4c_cccd,
        r.fov_modifier == 0x3dcc_cccd,
{
    PlayerAbilities { flags: Abilities::flying(), flying_speed: 0x3d4c_cccd, fov_modifier: 0x3dcc_cccd }
}

/// Text from a string literal.
fn text(s: &str) -> (r: String)
    ensures
        r@ == s@,
{
    s.to_owned()
}

/// The status that the server shows in the server list: version `Implodent` of
/// the protocol spoken here, at most -1 and 747106 players online with one shown,
/// and a description in two parts, `help\n` bold in aqua and `help please`
/// italic in gold.
pub fn status_json() -> (r: StatusResponseJson)
    ensures
        r.version.name@ == "Implodent"@,
        r.version.protocol == PROTOCOL_VERSION,
        r.players.max == -1,
        r.players.online == 747106,
        r.players.sample@.len() == 1,
        r.players.sample@[0].id@ == "66b7b182-6a07-4f27-a726-69c93a06ce84"@,
        r.players.sample@[0].name@ == "NothinGG_"@,
        r.description matches ChatComponent::Multi(parts) && parts@.len() == 2 && (parts@[0] matches ChatComponent::String(
            a,
        ) && a.text@ == "help\n"@ && a.basic.bold && !a.basic.italic && a.basic.color == Some(
            ChatColor::Named(ChatColorNamed::Aqua),
        )) && (parts@[1] matches ChatComponent::String(b) && b.text@ == "help please"@ && b.basic.italic
            && !b.basic.bold && b.basic.color == Some(ChatColor::Named(ChatColorNamed::Gold))),
        r.favicon@ == Seq::<char>::empty(),
        !r.enforces_secure_chat,
        !r.previews_chat,
{
    let mut first = BasicChatComponent::default();
    first.bold = true;
    first.color = Some(ChatColor::Named(ChatColorNamed::Aqua));
    let mut second = BasicChatComponent::default();
    second.italic = true;
    second.color = Some(ChatColor::Named(ChatColorNamed::Gold));
    let mut parts: Vec<ChatComponent> = Vec::new();
    parts.push(ChatComponent::String(ChatStringComponent { text: text("help\n"), basic: first }));
    parts.push(ChatComponent::String(ChatStringComponent { text: text("help please"), basic: second }));
    let mut sample: Vec<Sample> = Vec::new();
    sample.push(
        Sample { id: text("66b7b182-6a07-4f27-a726-69c93a06ce84"), name: text("NothinGG_") },
    );
    StatusResponseJson {
        enforces_secure_chat: false,
        version: Version { name: text("Implodent"), protocol: PROTOCOL_VERSION },
        description: ChatComponent::Multi(parts),
        players: Players { max: -1, online: 747106, sample },
        favicon: String::new(),
        previews_chat: false,
    }
}

} // verus!
