//! The numbers that the protocol and NBT give to kinds, modes, states and packets,
//! the values of digits, and the names and terminal colors of log levels: what
//! other programs and people read, so a value written under another number is
//! misread however consistently this crate reads it back.
use crate::bytes_be::lemma_be_bytes_len;
use crate::cli::{digit_value, is_digit_of};
use crate::model::{Difficulty, GameMode, PreviousGameMode, State};
use crate::nbt::{tag_byte, tag_of, tag_of_byte, value_bytes, NbtTagType, NbtValue};
use crate::packets::handshake::{Handshake, HandshakeNextState};
use crate::packets::hex_char;
use crate::packets::login::{DisconnectLogin, LoginStart, LoginSuccess, SetCompression};
use crate::packets::play::{ChangeDifficulty, DisconnectPlay, LoginPlay, PlayerAbilities};
use crate::packets::status::{PingRequest, PongResponse, StatusRequest, StatusResponse};
use crate::packets::{Packet, PluginMessage};
use crate::ser::{Deserialize, Serialize};
use crate::varint::VarInt;
use vstd::prelude::*;

verus! {

/// Each kind of NBT tag is written as its NBT id, `End` 0 to `LongArray` 12 in
/// NBT's order, and each id from 0 to 12 is read as the kind it numbers. A float
/// value goes under id 5 with four bytes of payload, a double under id 6 with eight.
pub proof fn lemma_nbt_tag_ids()
    ensures
        tag_byte(NbtTagType::End) == 0,
        tag_byte(NbtTagType::Byte) == 1,
        tag_byte(NbtTagType::Short) == 2,
        tag_byte(NbtTagType::Int) == 3,
        tag_byte(NbtTagType::Long) == 4,
        tag_byte(NbtTagType::Float) == 5,
        tag_byte(NbtTagType::Double) == 6,
        tag_byte(NbtTagType::ByteArray) == 7,
        tag_byte(NbtTagType::String) == 8,
        tag_byte(NbtTagType::List) == 9,
        tag_byte(NbtTagType::Compound) == 10,
        tag_byte(NbtTagType::IntArray) == 11,
        tag_byte(NbtTagType::LongArray) == 12,
        forall|b: u8| b <= 12 ==> tag_byte(#[trigger] tag_of_byte(b)) == b,
        forall|x: u32|
            tag_byte(#[trigger] tag_of(NbtValue::Float(x))) == 5 && value_bytes(NbtValue::Float(x)).len()
                == 4,
        forall|x: u64|
            tag_byte(#[trigger] tag_of(NbtValue::Double(x))) == 6 && value_bytes(NbtValue::Double(x)).len()
                == 8,
        forall|x: i8| tag_byte(#[trigger] tag_of(NbtValue::Byte(x))) == 1,
        forall|x: i16| tag_byte(#[trigger] tag_of(NbtValue::Short(x))) == 2,
        forall|x: i32| tag_byte(#[trigger] tag_of(NbtValue::Int(x))) == 3,
        forall|x: i64| tag_byte(#[trigger] tag_of(NbtValue::Long(x))) == 4,
        forall|x: Seq<i8>| tag_byte(#[trigger] tag_of(NbtValue::ByteArray(x))) == 7,
        forall|x: Seq<char>| tag_byte(#[trigger] tag_of(NbtValue::String(x))) == 8,
        forall|x: Seq<NbtValue>| tag_byte(#[trigger] tag_of(NbtValue::List(x))) == 9,
        forall|x: Seq<(Seq<char>, NbtValue)>| tag_byte(#[trigger] tag_of(NbtValue::Compound(x))) == 10,
        forall|x: Seq<i32>| tag_byte(#[trigger] tag_of(NbtValue::IntArray(x))) == 11,
        forall|x: Seq<i64>| tag_byte(#[trigger] tag_of(NbtValue::LongArray(x))) == 12,
{
    assert forall|x: u32| #[trigger] value_bytes(NbtValue::Float(x)).len() == 4 by {
        lemma_be_bytes_len(x as nat, 4);
    }
    assert forall|x: u64| #[trigger] value_bytes(NbtValue::Double(x)).len() == 8 by {
        lemma_be_bytes_len(x as nat, 8);
    }
}

/// Game modes, previous game modes and difficulties are written as their protocol
/// numbers (survival 0, creative 1, adventure 2, spectator 3; no previous mode
/// 0xff; peaceful 0 to hard 3), and each number from 0 to 3 is read as the mode or
/// difficulty it numbers.
pub proof fn lemma_mode_and_difficulty_numbers()
    ensures
        GameMode::Survival.spec_byte() == 0,
        GameMode::Creative.spec_byte() == 1,
        GameMode::Adventure.spec_byte() == 2,
        GameMode::Spectator.spec_byte() == 3,
        forall|b: u8| b <= 3 ==> (#[trigger] GameMode::spec_from_byte(b)).spec_byte() == b,
        forall|g: GameMode| #[trigger] g.spec_serialize() == Ok::<Seq<u8>, crate::error::Error>(seq![g.spec_byte()]),
        PreviousGameMode::Undefined.spec_byte() == 0xff,
        forall|g: GameMode| #[trigger] PreviousGameMode::Normal(g).spec_byte() == g.spec_byte(),
        Difficulty::Peaceful.spec_byte() == 0,
        Difficulty::Easy.spec_byte() == 1,
        Difficulty::Normal.spec_byte() == 2,
        Difficulty::Hard.spec_byte() == 3,
        forall|b: u8| b <= 3 ==> (#[trigger] Difficulty::spec_from_byte(b)).spec_byte() == b,
{
}

/// A handshake asks for the status exchange with the number 1 and for login with
/// 2, and a handshake reads back as written, whatever follows it: in particular
/// with the state it asks for.
pub proof fn lemma_handshake_roundtrip(h: Handshake, rest: Seq<u8>, cx: crate::packets::PacketContext)
    requires
        vstd::utf8::encode_utf8(h.addr@).len() <= 255,
    ensures
        HandshakeNextState::Status.spec_value() == 1,
        HandshakeNextState::Login.spec_value() == 2,
        h.spec_serialize() is Ok,
        Handshake::spec_deserialize(h.spec_serialize().unwrap() + rest, cx) == Ok::<
            ((VarInt<i32>, Seq<char>, u16, HandshakeNextState), nat),
            crate::error::Error,
        >((h.deep_view(), h.spec_serialize().unwrap().len())),
{
    let wv = h.protocol_version.spec_bytes();
    let wa = crate::types::str_bytes(h.addr@);
    let wp = crate::bytes_be::be_bytes(h.port as nat, 2);
    let ns = VarInt(h.next_state.spec_value());
    let wn = ns.spec_bytes();
    crate::laws::lemma_fixed_str_roundtrip::<255>(h.addr, wp + wn + rest);
    assert(h.addr.spec_serialize() == Ok::<Seq<u8>, crate::error::Error>(wa));
    let w = wv + (wa + (wp + wn));
    assert(h.spec_serialize() == Ok::<Seq<u8>, crate::error::Error>(w));
    let t = w + rest;
    assert(t =~= wv + (wa + (wp + wn + rest)));
    crate::varint::lemma_i32_roundtrip(h.protocol_version.0, wa + (wp + wn + rest));
    let t1 = t.skip(wv.len() as int);
    assert(t1 =~= wa + (wp + wn + rest));
    let t2 = t1.skip(wa.len() as int);
    assert(t2 =~= wp + (wn + rest));
    crate::bytes_be::lemma_pow256_values();
    crate::bytes_be::lemma_be_roundtrip_exact(h.port as nat, 2);
    assert(t2.take(2) =~= wp);
    let t3 = t2.skip(2);
    assert(t3 =~= wn + rest);
    crate::varint::lemma_i32_roundtrip(ns.0, rest);
}

/// The digits of a radix up to 16 have their usual values: `0`-`9` are 0 to 9,
/// and `a`-`f` and `A`-`F` alike are 10 to 15; the lower-case digit that shows a
/// value below 16 (as file names are written) is read as that value, and so is
/// its upper-case form.
pub proof fn lemma_digit_values()
    ensures
        forall|c: char| '0' <= c <= '9' ==> #[trigger] digit_value(c) == (c as u32) - 48,
        forall|c: char| 'a' <= c <= 'f' ==> #[trigger] digit_value(c) == (c as u32) - 87,
        forall|c: char| 'A' <= c <= 'F' ==> #[trigger] digit_value(c) == (c as u32) - 55,
        forall|v: nat| v < 16 ==> is_digit_of(#[trigger] hex_char(v), 16) && digit_value(hex_char(v)) == v,
        forall|v: nat|
            10 <= v < 16 ==> is_digit_of(((#[trigger] hex_char(v) as u32) - 32) as char, 16) && digit_value(
                ((hex_char(v) as u32) - 32) as char,
            ) == v,
{
    assert('0' as u32 == 48 && '9' as u32 == 57 && 'a' as u32 == 97 && 'f' as u32 == 102);
    assert('A' as u32 == 65 && 'F' as u32 == 70);
}

/// The ids and states of the packets, as the protocol (version 763) numbers them:
/// the handshake 0; in the status exchange the request and the response 0, the
/// ping and the pong 1; in login the start and the disconnect 0, the success 2 and
/// the compression 4; in play the difficulty 0x0c, the plugin message 0x17, the
/// disconnect 0x1a, the login 0x28 and the abilities 0x34.
pub proof fn lemma_packet_ids()
    ensures
        Handshake::spec_id() == 0x00 && Handshake::spec_state() == State::Handshaking,
        StatusRequest::spec_id() == 0x00 && StatusRequest::spec_state() == State::Status,
        StatusResponse::spec_id() == 0x00 && StatusResponse::spec_state() == State::Status,
        PingRequest::spec_id() == 0x01 && PingRequest::spec_state() == State::Status,
        PongResponse::spec_id() == 0x01 && PongResponse::spec_state() == State::Status,
        PongResponse::spec_id() == PingRequest::spec_id(),
        LoginStart::spec_id() == 0x00 && LoginStart::spec_state() == State::Login,
        DisconnectLogin::spec_id() == 0x00 && DisconnectLogin::spec_state() == State::Login,
        LoginSuccess::spec_id() == 0x02 && LoginSuccess::spec_state() == State::Login,
        crate::packets::profile::LoginSuccess::spec_id() == 0x02
            && crate::packets::profile::LoginSuccess::spec_state() == State::Login,
        SetCompression::spec_id() == 0x04 && SetCompression::spec_state() == State::Login,
        ChangeDifficulty::spec_id() == 0x0c && ChangeDifficulty::spec_state() == State::Play,
        PluginMessage::spec_id() == 0x17 && PluginMessage::spec_state() == State::Play,
        DisconnectPlay::spec_id() == 0x1a && DisconnectPlay::spec_state() == State::Play,
        LoginPlay::spec_id() == 0x28 && LoginPlay::spec_state() == State::Play,
        PlayerAbilities::spec_id() == 0x34 && PlayerAbilities::spec_state() == State::Play,
{
}

/// The states in which the server reads the packets of each phase: the handshake
/// in Handshaking, the login start in Login, the status request and the ping in
/// Status.
pub proof fn lemma_phase_states()
    ensures
        crate::server::spec_phase_state(crate::server::Phase::Handshaking) == State::Handshaking,
        crate::server::spec_phase_state(crate::server::Phase::AwaitingLoginStart) == State::Login,
        crate::server::spec_phase_state(crate::server::Phase::AwaitingStatusRequest) == State::Status,
        crate::server::spec_phase_state(crate::server::Phase::AwaitingPing) == State::Status,
        crate::server::spec_phase_state(crate::server::Phase::Finished) == State::Play,
{
}

/// Each log level shows its name in capitals on a badge of its color, green for
/// info, yellow for warn, red for error, blue for debug and purple for trace, whose
/// background codes are the ANSI ones (41 red, 42 green, 43 yellow, 44 blue, 45
/// purple).
pub proof fn lemma_level_names_and_colors()
    ensures
        crate::logging::level_name(crate::cli::LogLevel::Error) == seq!['E', 'R', 'R', 'O', 'R'],
        crate::logging::level_name(crate::cli::LogLevel::Warn) == seq!['W', 'A', 'R', 'N'],
        crate::logging::level_name(crate::cli::LogLevel::Info) == seq!['I', 'N', 'F', 'O'],
        crate::logging::level_name(crate::cli::LogLevel::Debug) == seq!['D', 'E', 'B', 'U', 'G'],
        crate::logging::level_name(crate::cli::LogLevel::Trace) == seq!['T', 'R', 'A', 'C', 'E'],
        crate::logging::spec_badge_color(crate::cli::LogLevel::Info) == crate::logging::BadgeColor::Green,
        crate::logging::spec_badge_color(crate::cli::LogLevel::Warn) == crate::logging::BadgeColor::Yellow,
        crate::logging::spec_badge_color(crate::cli::LogLevel::Error) == crate::logging::BadgeColor::Red,
        crate::logging::spec_badge_color(crate::cli::LogLevel::Debug) == crate::logging::BadgeColor::Blue,
        crate::logging::spec_badge_color(crate::cli::LogLevel::Trace) == crate::logging::BadgeColor::Purple,
        crate::logging::background_code(crate::logging::BadgeColor::Red) == seq!['4', '1'],
        crate::logging::background_code(crate::logging::BadgeColor::Green) == seq!['4', '2'],
        crate::logging::background_code(crate::logging::BadgeColor::Yellow) == seq!['4', '3'],
        crate::logging::background_code(crate::logging::BadgeColor::Blue) == seq!['4', '4'],
        crate::logging::background_code(crate::logging::BadgeColor::Purple) == seq!['4', '5'],
{
    reveal_strlit("ERROR");
    reveal_strlit("WARN");
    reveal_strlit("INFO");
    reveal_strlit("DEBUG");
    reveal_strlit("TRACE");
}

} // verus!
