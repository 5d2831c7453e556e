use oxcraft::cli::{Expectation, ParseError};
use oxcraft::model::State;
use oxcraft::packets::handshake::Handshake;
use oxcraft::packets::login::LoginStart;
use oxcraft::packets::{plugin_message, PacketContext, SerializedPacket};
use oxcraft::ser::{Deserialize, Serialize};
use oxcraft::server::{can_read_event, phase_state, read_event, Event, Phase};
use oxcraft::types::{Array, FixedStr, Identifier, Json, Namespace};
use oxcraft::varint::{largest_max_leb128_len, max_leb128_len, VarInt};

fn frame(id: i32, data: Vec<u8>) -> SerializedPacket {
    SerializedPacket { length: 1 + data.len(), id: VarInt(id), data }
}

#[test]
fn strings_longer_than_their_bound_cannot_be_read() {
    assert!(FixedStr::<4>::can_deserialize(&[3, b'a', b'b', b'c'], 0, &()));
    assert!(!FixedStr::<2>::can_deserialize(&[3, b'a', b'b', b'c'], 0, &()));
    assert!(!FixedStr::<4>::can_deserialize(&[3, b'a'], 0, &()));
    assert!(!FixedStr::<4>::can_deserialize(&[2, 0xff, 0xfe], 0, &()));
    assert!(FixedStr::<4>::can_deserialize(&[], 0, &()));
}

#[test]
fn arrays_with_negative_lengths_cannot_be_read() {
    assert!(!Array::<u8>::can_deserialize(&[0xff, 0xff, 0xff, 0xff, 0x0f], 0, &()));
    assert!(Array::<u8>::can_deserialize(&[2, 1, 2], 0, &()));
    assert!(!Json::can_deserialize(&[5, 1], 0, &()));
}

#[test]
fn what_can_be_written() {
    assert!(Json(vec![1, 2]).can_serialize());
    assert!(Array(vec![1u8, 2]).can_serialize());
    assert!(FixedStr::<16>::from_string("x").unwrap().can_serialize());
}

#[test]
fn events_are_read_in_their_phase() {
    assert_eq!(phase_state(Phase::AwaitingLoginStart), State::Login);
    let mut data = vec![0xfa, 0x05, 9];
    data.extend_from_slice(b"localhost");
    data.extend_from_slice(&[0x63, 0xdd, 2]);
    let p = frame(0, data);
    assert!(can_read_event(Phase::Handshaking, &p));
    match read_event(Phase::Handshaking, &p).unwrap() {
        Event::Handshake(h) => {
            assert_eq!(h.protocol_version.0, 762);
            assert_eq!(h.addr.as_str(), "localhost");
            assert_eq!(h.port, 0x63dd);
        }
        other => panic!("{other:?}"),
    }
    let ls = frame(0, vec![3, b'b', b'o', b'b', 0]);
    assert!(can_read_event(Phase::AwaitingLoginStart, &ls));
    match read_event(Phase::AwaitingLoginStart, &ls).unwrap() {
        Event::LoginStart(l) => {
            assert_eq!(l.name.as_str(), "bob");
            assert!(l.uuid.is_none());
        }
        other => panic!("{other:?}"),
    }
    let too_long = frame(0, vec![17, b'a', b'a', b'a', b'a', b'a', b'a', b'a', b'a', b'a', b'a', b'a', b'a', b'a', b'a', b'a', b'a', b'a', 0]);
    assert!(!can_read_event(Phase::AwaitingLoginStart, &too_long));
    let ping = frame(1, 7i64.to_be_bytes().to_vec());
    assert!(matches!(read_event(Phase::AwaitingPing, &ping), Ok(Event::PingRequest(7))));
    let cx = PacketContext { id: VarInt(0), state: State::Login };
    assert!(LoginStart::can_deserialize(&ls.data, 0, &cx));
    let hcx = PacketContext { id: VarInt(0), state: State::Handshaking };
    assert!(Handshake::can_deserialize(&p.data, 0, &hcx));
}

#[test]
fn last_data_is_start_and_length_before_the_span() {
    match ParseError::from_label((5, 6), Expectation::EndOfInput, None, None) {
        ParseError::UnexpectedEof { at: (5, 6), last_data_at: Some((4, 9)), .. } => {}
        other => panic!("{other:?}"),
    }
    match ParseError::from_label((usize::MAX, usize::MAX), Expectation::EndOfInput, None, None) {
        ParseError::UnexpectedEof { last_data_at: Some((a, b)), .. } => {
            assert_eq!((a, b), (usize::MAX - 1, usize::MAX));
        }
        other => panic!("{other:?}"),
    }
}

#[test]
fn labels_give_what_was_found_or_the_end() {
    match ParseError::from_label((3, 4), Expectation::Digit(10), None, Some('x')) {
        ParseError::Expected { found: 'x', at: (3, 4), .. } => {}
        other => panic!("{other:?}"),
    }
    match ParseError::from_label((3, 4), Expectation::EndOfInput, Some("help"), None) {
        ParseError::UnexpectedEof { at: (3, 4), last_data_at: Some((2, 5)), help: Some("help"), .. } => {}
        other => panic!("{other:?}"),
    }
    match ParseError::from_label((0, 0), Expectation::ShortFlag, None, None) {
        ParseError::UnexpectedEof { last_data_at: Some((0, 0)), .. } => {}
        other => panic!("{other:?}"),
    }
    assert!(matches!(
        ParseError::expected_eof_found((1, 2), 'q'),
        ParseError::Expected { expected: Expectation::EndOfInput, found: 'q', .. }
    ));
    assert!(matches!(ParseError::unexpected_eof((5, 5), None), ParseError::UnexpectedEof { expected: None, .. }));
    assert!(matches!(
        ParseError::expected_token_found((0, 1), vec!['a'], 'b'),
        ParseError::Expected { found: 'b', .. }
    ));
}

#[test]
fn plugin_messages_carry_the_bytes_of_their_data() {
    let m = plugin_message(Identifier::new(Namespace::Minecraft, "brand"), "hi").unwrap();
    assert_eq!(m.data, vec![2, b'h', b'i']);
    assert_eq!(m.channel.to_string(), "minecraft:brand");
    let b = oxcraft::server::brand_message();
    assert_eq!(b.data, [&[9u8][..], b"implodent"].concat());
}

#[test]
fn largest_variable_length_integers() {
    assert_eq!(largest_max_leb128_len(), 19);
    assert_eq!(max_leb128_len::<i32>(), 5);
    assert_eq!(max_leb128_len::<i64>(), 10);
    assert_eq!(VarInt::<i32>::max_length(), 5);
    assert_eq!("abc".serialize().unwrap(), vec![3, b'a', b'b', b'c']);
    assert_eq!(max_leb128_len::<u16>(), 3);
    assert_eq!(max_leb128_len::<i128>(), 19);
}

#[test]
fn variable_length_integer_lengths() {
    assert_eq!(VarInt(0i32).length_of(), 1);
    assert_eq!(VarInt(127i32).length_of(), 1);
    assert_eq!(VarInt(128i32).length_of(), 2);
    assert_eq!(VarInt(-1i32).length_of(), 5);
    assert_eq!(VarInt(i32::MIN).length_of(), 5);
    assert_eq!(VarInt(i32::MAX).length_of(), 5);
    assert_eq!(VarInt(127i64).length_of(), 1);
    assert_eq!(VarInt(-1i64).length_of(), 10);
    assert_eq!(VarInt(i64::MAX).length_of(), 9);
}
