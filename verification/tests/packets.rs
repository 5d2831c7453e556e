use oxcraft::error::{Error, SerializationError};
use oxcraft::model::{Difficulty, GameMode, PreviousGameMode, State};
use oxcraft::packets::handshake::{Handshake, HandshakeNextState};
use oxcraft::packets::login::{LoginStart, LoginSuccess, SetCompression};
use oxcraft::packets::play::{Abilities, ChangeDifficulty, PlayerAbilities};
use oxcraft::packets::status::{PingRequest, PongResponse, StatusRequest};
use oxcraft::packets::{
    can_read_frame, end_of_input, next_packet, take_frame, Packet, PacketContext, PacketServerbound,
    SerializedPacket, SerializedPacketCompressed,
};
use oxcraft::ser::{Deserialize, Serialize};
use oxcraft::packets::login::Property;
use oxcraft::packets::profile::LoginSuccess as ProfileLoginSuccess;
use oxcraft::types::{Array, FixedStr, Uuid};
use oxcraft::varint::VarInt;

fn cx(id: i32, state: State) -> PacketContext {
    PacketContext { id: VarInt(id), state }
}

fn handshake_bytes(version: u8, next: u8) -> Vec<u8> {
    let mut b = vec![version];
    b.push(9);
    b.extend_from_slice(b"localhost");
    b.extend_from_slice(&25565u16.to_be_bytes());
    b.push(next);
    b
}

#[test]
fn handshake_reads_next_state() {
    let b = handshake_bytes(47, 2);
    let (h, p) = Handshake::deserialize(&b, 0, &cx(0, State::Handshaking)).unwrap();
    assert_eq!(p, b.len());
    assert_eq!(h.protocol_version, VarInt(47));
    assert_eq!(h.addr.as_str(), "localhost");
    assert_eq!(h.port, 25565);
    assert_eq!(h.next_state, HandshakeNextState::Login);
    let (h, _) = Handshake::deserialize(&handshake_bytes(47, 1), 0, &cx(0, State::Handshaking)).unwrap();
    assert_eq!(h.next_state, HandshakeNextState::Status);
}

#[test]
fn handshake_refuses_unknown_state() {
    let r = Handshake::deserialize(&handshake_bytes(47, 3), 0, &cx(0, State::Handshaking));
    assert!(matches!(r, Err(Error::InvalidStateId(3))));
}

#[test]
fn serverbound_reads_by_id() {
    let b = handshake_bytes(47, 1);
    assert!(matches!(
        PacketServerbound::deserialize(&b, 0, &cx(0, State::Handshaking)),
        Ok((PacketServerbound::Handshake(_), _))
    ));
    assert!(matches!(
        PacketServerbound::deserialize(&b, 0, &cx(5, State::Handshaking)),
        Err(Error::InvalidPacketId(5))
    ));
}

#[test]
fn status_request_checks_id_and_state() {
    assert!(StatusRequest::deserialize(&[], 0, &cx(0, State::Status)).is_ok());
    assert!(matches!(
        StatusRequest::deserialize(&[], 0, &cx(0, State::Login)),
        Err(Error::InvalidPacketId(0))
    ));
    assert!(matches!(
        StatusRequest::deserialize(&[], 0, &cx(1, State::Status)),
        Err(Error::InvalidPacketId(1))
    ));
}

#[test]
fn ping_pong_roundtrip() {
    let b = PingRequest { payload: -123456789 }.serialize().unwrap();
    assert_eq!(b.len(), 8);
    let (p, n) = PingRequest::deserialize(&b, 0, &cx(1, State::Status)).unwrap();
    assert_eq!(p.payload, -123456789);
    assert_eq!(n, 8);
    let b = PongResponse { payload: 99 }.serialize().unwrap();
    assert_eq!(b, vec![0, 0, 0, 0, 0, 0, 0, 99]);
    assert_eq!(PingRequest::id(), VarInt(1));
    assert_eq!(PongResponse::state(), State::Status);
}

#[test]
fn login_start_reads_name_and_optional_uuid() {
    let mut b = vec![5];
    b.extend_from_slice(b"Notch");
    b.push(1);
    b.extend_from_slice(&7u128.to_be_bytes());
    let (ls, p) = LoginStart::deserialize(&b, 0, &cx(0, State::Login)).unwrap();
    assert_eq!(p, b.len());
    assert_eq!(ls.name.as_str(), "Notch");
    assert_eq!(ls.uuid, Some(Uuid(7)));
}

#[test]
fn login_success_layout() {
    let s = LoginSuccess { uuid: Uuid(1), username: FixedStr::from_string("ab").unwrap() };
    let b = s.serialize().unwrap();
    let mut expected = 1u128.to_be_bytes().to_vec();
    expected.extend_from_slice(&[2, b'a', b'b', 0]);
    assert_eq!(b, expected);
    let mut good = 1u128.to_be_bytes().to_vec();
    good.extend_from_slice(&[2, b'a', b'b', 0]);
    let (back, p) = LoginSuccess::deserialize(&good, 0, &cx(2, State::Login)).unwrap();
    assert_eq!(back.uuid, Uuid(1));
    assert_eq!(back.username.as_str(), "ab");
    assert_eq!(p, good.len());
    let mut bad = 1u128.to_be_bytes().to_vec();
    bad.extend_from_slice(&[2, b'a', b'b', 1]);
    assert!(matches!(
        LoginSuccess::deserialize(&bad, 0, &cx(2, State::Login)),
        Err(Error::Ser(SerializationError::Expected { low: 0, high: 0, found: 1 }))
    ));
}

#[test]
fn set_compression_roundtrip() {
    let b = SetCompression { threshold: VarInt(256) }.serialize().unwrap();
    assert_eq!(b, vec![0x80, 0x02]);
    let (s, _) = SetCompression::deserialize(&b, 0, &cx(4, State::Login)).unwrap();
    assert_eq!(s.threshold, VarInt(256));
}

#[test]
fn change_difficulty_roundtrip() {
    let b = ChangeDifficulty { difficulty: Difficulty::Hard, difficulty_locked: true }.serialize().unwrap();
    assert_eq!(b, vec![3, 1]);
    let (c, _) = ChangeDifficulty::deserialize(&b, 0, &cx(0x0c, State::Play)).unwrap();
    assert_eq!(c.difficulty, Difficulty::Hard);
    assert!(c.difficulty_locked);
}

#[test]
fn abilities_bits() {
    assert!(Abilities::from_bits(0x10).is_none());
    let a = Abilities::flying().union(&Abilities::invulnerable());
    assert_eq!(a.bits(), 0x03);
    assert!(a.contains(&Abilities::flying()));
    assert!(!a.contains(&Abilities::creative_mode()));
    let p = PlayerAbilities { flags: a, flying_speed: 0.05f32.to_bits(), fov_modifier: 0.1f32.to_bits() };
    let b = p.serialize().unwrap();
    assert_eq!(b.len(), 9);
    let (back, _) = PlayerAbilities::deserialize(&b, 0, &cx(0x34, State::Play)).unwrap();
    assert_eq!(back.flags.bits(), 0x03);
    assert_eq!(f32::from_bits(back.flying_speed), 0.05);
    assert!(matches!(
        Abilities::deserialize(&[0x20], 0, &()),
        Err(Error::InvalidBitFlags)
    ));
}

#[test]
fn game_modes() {
    assert_eq!(GameMode::Creative.serialize().unwrap(), vec![1]);
    assert_eq!(PreviousGameMode::Undefined.serialize().unwrap(), vec![0xff]);
    assert_eq!(PreviousGameMode::Normal(GameMode::Spectator).serialize().unwrap(), vec![3]);
}

#[test]
fn frame_roundtrip() {
    let sp = SerializedPacket::new_ref(&PingRequest { payload: 5 }).unwrap();
    assert_eq!(sp.length, 9);
    assert_eq!(sp.id, VarInt(1));
    let b = sp.serialize().unwrap();
    assert_eq!(b[0], 9);
    assert_eq!(b[1], 1);
    let (back, p) = SerializedPacket::deserialize(&b, 0, &()).unwrap();
    assert_eq!(back.length, 9);
    assert_eq!(back.id, VarInt(1));
    assert_eq!(back.data, b[2..].to_vec());
    assert_eq!(p, 2);
    let ping: PingRequest = back.try_deserialize(State::Status).unwrap();
    assert_eq!(ping.payload, 5);
}

#[test]
fn frame_errors_come_with_source() {
    let sp = SerializedPacket { length: 2, id: VarInt(1), data: vec![0x01] };
    match sp.try_deserialize::<PingRequest>(State::Status) {
        Err(Error::SerSrc(w)) => {
            assert_eq!(w.errors.len(), 1);
            assert_eq!(w.src.1.as_deref(), Some("packet_0x1.bin"));
            assert_eq!(String::from_utf8(w.src.0).unwrap(), "b\"\\x01\"");
        }
        other => panic!("unexpected {other:?}"),
    }
}

#[test]
fn packet_file_names_are_hex_of_the_id() {
    for (id, name) in [(0x2a, "packet_0x2a.bin"), (0, "packet_0x0.bin"), (-1, "packet_0xffffffff.bin")] {
        let sp = SerializedPacket { length: 2, id: VarInt(id), data: vec![0x01] };
        match sp.try_deserialize::<PingRequest>(State::Status) {
            Err(Error::SerSrc(w)) => assert_eq!(w.src.1.as_deref(), Some(name)),
            other => panic!("unexpected {other:?}"),
        }
    }
}

#[test]
fn frame_too_long_is_refused() {
    let sp = SerializedPacket { length: (i32::MAX as usize) + 1, id: VarInt(0), data: vec![] };
    assert!(matches!(sp.serialize(), Err(Error::VarIntTooBig)));
}

#[test]
fn reader_of_connection() {
    assert!(can_read_frame(&[3, 1, 0, 0]));
    assert!(!can_read_frame(&[3, 1, 0]));
    assert!(!can_read_frame(&[0x7f, 1]));
    assert!(matches!(next_packet(&[0x80]), Ok(None)));
    let r = next_packet(&[2, 1, 0x42]).unwrap().unwrap();
    assert_eq!(r.1, 2);
    assert_eq!(r.0.data, vec![0x42]);
    assert!(end_of_input(0).is_ok());
    assert!(matches!(end_of_input(3), Err(Error::ConnectionEnded)));
}

#[test]
fn compressed_frames() {
    let (len, dlen, p) = SerializedPacketCompressed::read_header(&[5, 0, 1, 2, 3], 0).unwrap();
    assert_eq!((len, dlen, p), (5, 0, 2));
    let c = SerializedPacketCompressed::from_body(5, 0, &[1, 2, 3]).unwrap();
    assert_eq!(c.id, VarInt(1));
    assert_eq!(c.data, vec![2, 3]);
    let plain: SerializedPacket = c.into();
    assert_eq!(plain.length, 0);
    assert_eq!(plain.id, VarInt(1));
    match SerializedPacketCompressed::from_body(5, 4, &[0x80]) {
        Err(Error::SerSrc(w)) => {
            assert_eq!(w.src.1.as_deref(), Some("packet_compressed_without_id.bin"));
        }
        other => panic!("unexpected {other:?}"),
    }
}

#[test]
fn frames_are_taken_from_the_buffer() {
    let mut buf = vec![2, 1, 0x42, 7];
    let p = take_frame(&mut buf).unwrap().unwrap();
    assert_eq!(p.id, VarInt(1));
    assert_eq!(p.data, vec![0x42]);
    assert_eq!(buf, vec![0x42, 7]);
    let mut partial = vec![0x80];
    assert!(matches!(take_frame(&mut partial), Ok(None)));
    assert_eq!(partial, vec![0x80]);
    assert!(SerializedPacketCompressed::can_read_header(&[5, 0, 1], 0));
    assert!(!SerializedPacketCompressed::can_read_header(&[0, 0], 0));
}

#[test]
fn bytes_are_shown_with_escapes() {
    let src = oxcraft::error::BytesSource::new(&[10, 13, 9, 92, 34, 0, b'A', b' ', 0x7f, 0xff], None);
    assert_eq!(String::from_utf8(src.0).unwrap(), "b\"\\n\\r\\t\\\\\\\"\\0A \\x7f\\xff\"");
}

#[test]
fn login_success_with_properties_layout() {
    let prop = Property {
        name: FixedStr::from_string("n").unwrap(),
        value: FixedStr::from_string("vv").unwrap(),
        signature: Some(FixedStr::from_string("s").unwrap()),
    };
    let plain = Property {
        name: FixedStr::from_string("a").unwrap(),
        value: FixedStr::from_string("").unwrap(),
        signature: None,
    };
    let s = ProfileLoginSuccess {
        uuid: Uuid(7),
        username: FixedStr::from_string("ab").unwrap(),
        properties: Array(vec![prop, plain]),
    };
    let mut expected = 7u128.to_be_bytes().to_vec();
    expected.extend_from_slice(&[2, b'a', b'b', 2, 1, b'n', 2, b'v', b'v', 1, 1, b's', 1, b'a', 0, 0]);
    assert_eq!(s.serialize().unwrap(), expected);
    assert_eq!(<ProfileLoginSuccess as Packet>::id(), VarInt(2));
    let empty = ProfileLoginSuccess { uuid: Uuid(7), username: FixedStr::from_string("ab").unwrap(), properties: Array(vec![]) };
    let plain_success = LoginSuccess { uuid: Uuid(7), username: FixedStr::from_string("ab").unwrap() };
    assert_eq!(empty.serialize().unwrap(), plain_success.serialize().unwrap());
}
