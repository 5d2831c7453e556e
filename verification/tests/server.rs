use oxcraft::chat::{ChatColor, ChatColorNamed, ChatComponent};
use oxcraft::model::{GameMode, PreviousGameMode, State, PROTOCOL_VERSION};
use oxcraft::nbt::NbtCompound;
use oxcraft::packets::handshake::{Handshake, HandshakeNextState};
use oxcraft::packets::login::LoginStart;
use oxcraft::server::{
    brand_message, disconnect_packet, join_abilities, login_play, login_uuid, status_json, step, Action, Disconnect,
    Event, Phase, ServerError,
};
use oxcraft::ser::Deserialize;
use oxcraft::types::{FixedStr, Json, Namespace, Uuid};
use oxcraft::varint::VarInt;

fn handshake(version: i32, next: HandshakeNextState) -> Handshake {
    let mut b = Vec::new();
    b.extend_from_slice(&oxcraft::varint::LEB128Number::write(version));
    b.push(0);
    b.extend_from_slice(&25565u16.to_be_bytes());
    b.push(match next {
        HandshakeNextState::Status => 1,
        HandshakeNextState::Login => 2,
    });
    let cx = oxcraft::packets::PacketContext { id: VarInt(0), state: State::Handshaking };
    Handshake::deserialize(&b, 0, &cx).unwrap().0
}

#[test]
fn wrong_version_ends_the_connection() {
    let r = step(Phase::Handshaking, Event::Handshake(handshake(754, HandshakeNextState::Login)));
    assert!(matches!(r, Err(ServerError::IncorrectVersion(754))));
}

#[test]
fn status_exchange() {
    let (p, a) = step(Phase::Handshaking, Event::Handshake(handshake(PROTOCOL_VERSION, HandshakeNextState::Status)))
        .unwrap();
    assert_eq!(p, Phase::AwaitingStatusRequest);
    assert!(matches!(a[..], [Action::SetState(State::Status)]));
    let (p, a) = step(p, Event::StatusRequest).unwrap();
    assert_eq!(p, Phase::AwaitingPing);
    assert!(matches!(a[..], [Action::SendStatus]));
    let (p, a) = step(p, Event::PingRequest(42)).unwrap();
    assert_eq!(p, Phase::Finished);
    assert!(matches!(&a[..], [Action::SendPong(pong)] if pong.payload == 42));
}

#[test]
fn login_exchange() {
    let (p, a) = step(Phase::Handshaking, Event::Handshake(handshake(PROTOCOL_VERSION, HandshakeNextState::Login)))
        .unwrap();
    assert_eq!(p, Phase::AwaitingLoginStart);
    assert!(matches!(a[..], [Action::SetState(State::Login)]));
    let ls = LoginStart { name: FixedStr::from_string("Notch").unwrap(), uuid: None };
    let (p, a) = step(p, Event::LoginStart(ls)).unwrap();
    assert_eq!(p, Phase::Finished);
    assert_eq!(a.len(), 3);
    let offline = Uuid::offline("Notch");
    match &a[0] {
        Action::SendLoginSuccess(s) => {
            assert_eq!(s.uuid, offline);
            assert_eq!(s.username.as_str(), "Notch");
        }
        _ => panic!("expected the login success"),
    }
    assert!(matches!(a[1], Action::SetState(State::Play)));
    match &a[2] {
        Action::JoinWorld { name, uuid, game_mode } => {
            assert_eq!(name.as_str(), "Notch");
            assert_eq!(*uuid, offline);
            assert_eq!(*game_mode, GameMode::Survival);
        }
        _ => panic!("expected joining the world"),
    }
}

#[test]
fn login_keeps_a_sent_uuid() {
    let name = FixedStr::<16>::from_string("jeb_").unwrap();
    assert_eq!(login_uuid(&name, Some(Uuid(77))), Uuid(77));
    assert_eq!(login_uuid(&name, None), Uuid::offline("jeb_"));
}

#[test]
fn disconnect_by_state() {
    assert!(matches!(disconnect_packet(State::Login, Json(b"{}".to_vec())), Some(Disconnect::Login(_))));
    assert!(matches!(disconnect_packet(State::Play, Json(b"{}".to_vec())), Some(Disconnect::Play(_))));
    assert!(disconnect_packet(State::Status, Json(vec![])).is_none());
    assert!(disconnect_packet(State::Handshaking, Json(vec![])).is_none());
}

#[test]
fn join_packets() {
    let lp = login_play(3, NbtCompound(vec![]));
    assert_eq!(lp.entity_id, 3);
    assert_eq!(lp.game_mode, GameMode::Survival);
    assert_eq!(lp.prev_game_mode, PreviousGameMode::Undefined);
    assert_eq!(lp.dimension_names.0.len(), 1);
    assert_eq!(lp.dimension_name.to_string(), "minecraft:overworld");
    assert!(matches!(lp.dimension_type.0, Namespace::Minecraft));
    assert_eq!(lp.view_distance, VarInt(2));
    assert_eq!(lp.portal_cooldown, VarInt(20));
    let brand = brand_message();
    assert_eq!(brand.channel.to_string(), "minecraft:brand");
    assert_eq!(brand.data, [&[9u8][..], b"implodent"].concat());
    let ab = join_abilities();
    assert_eq!(ab.flags.bits(), 0x02);
    assert_eq!(f32::from_bits(ab.flying_speed), 0.05f32);
    assert_eq!(f32::from_bits(ab.fov_modifier), 0.1f32);
}

#[test]
fn server_status() {
    let s = status_json();
    assert_eq!(s.version.name, "Implodent");
    assert_eq!(s.version.protocol, 763);
    assert_eq!(s.players.max, -1);
    assert_eq!(s.players.online, 747106);
    assert_eq!(s.players.sample[0].name, "NothinGG_");
    match &s.description {
        ChatComponent::Multi(parts) => {
            assert_eq!(parts.len(), 2);
            match &parts[0] {
                ChatComponent::String(c) => {
                    assert_eq!(c.text, "help\n");
                    assert!(c.basic.bold);
                    assert_eq!(c.basic.color, Some(ChatColor::Named(ChatColorNamed::Aqua)));
                }
                _ => panic!("expected text"),
            }
        }
        _ => panic!("expected two parts"),
    }
}
