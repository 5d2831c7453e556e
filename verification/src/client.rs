//! The decisions of a client that pings a server and logs in bots: what it sends,
//! how it reads the answers, and the time a ping took.
use crate::error::Error;
use crate::model::State;
use crate::packets::handshake::{Handshake, HandshakeNextState};
use crate::packets::login::{LoginSuccess, SetCompression};
use crate::packets::{PacketContext, SerializedPacket};
use crate::ser::Deserialize;
use crate::types::FixedStr;
use crate::varint::VarInt;
use vstd::prelude::*;
use vstd::utf8::encode_utf8;

verus! {

/// The protocol version that the client announces.
pub const CLIENT_PROTOCOL_VERSION: i32 = 754;

/// The handshake of the client: version 754, the address and port it connects
/// to, and the state it asks for.
pub fn client_handshake(addr: &str, port: u16, next_state: HandshakeNextState) -> (r: Handshake)
    requires
        encode_utf8(addr@).len() <= 255,
    ensures
        r.protocol_version == VarInt(CLIENT_PROTOCOL_VERSION),
        r.addr@ == addr@,
        r.port == port,
        r.next_state == next_state,
{
    match FixedStr::<255>::from_string(addr) {
        Some(a) => Handshake { protocol_version: VarInt(CLIENT_PROTOCOL_VERSION), addr: a, port, next_state },
        None => {
            assert(false);
            Handshake {
                protocol_version: VarInt(CLIENT_PROTOCOL_VERSION),
                addr: FixedStr::<255>::from_string("").unwrap(),
                port,
                next_state,
            }
        },
    }
}

/// The decimal digits of `n`.
pub open spec fn decimal_text(n: nat) -> Seq<char>
    decreases n,
{
    if n < 10 {
        seq![(('0' as u32) + n) as char]
    } else {
        decimal_text(n / 10).push((('0' as u32) + (n % 10)) as char)
    }
}

/// The digits of a number are ASCII, at most twenty for a `usize`.
proof fn lemma_decimal_text(n: nat)
    ensures
        decimal_text(n).len() >= 1,
        forall|i: int| 0 <= i < decimal_text(n).len() ==> (#[trigger] decimal_text(n)[i] as u32) < 128,
        encode_utf8(decimal_text(n)).len() == decimal_text(n).len(),
    decreases n,
{
    if n >= 10 {
        lemma_decimal_text(n / 10);
        let t = decimal_text(n / 10);
        let c = (('0' as u32) + (n % 10)) as char;
        assert(decimal_text(n) == t.push(c));
        crate::types::lemma_encode_utf8_concat(t, seq![c]);
        assert(t + seq![c] =~= t.push(c));
        lemma_ascii_char(c);
    } else {
        lemma_ascii_char((('0' as u32) + n) as char);
    }
}

/// `10` to the power `k`.
pub open spec fn pow10(k: nat) -> nat
    decreases k,
{
    if k == 0 {
        1
    } else {
        10 * pow10((k - 1) as nat)
    }
}

/// A number below `10^k` has at most `k` digits.
proof fn lemma_decimal_len(n: nat, k: nat)
    requires
        k >= 1,
        n < pow10(k),
    ensures
        decimal_text(n).len() <= k,
    decreases k,
{
    if n >= 10 {
        assert(k >= 2) by {
            if k == 1 {
                assert(pow10(1) == 10 * pow10(0));
            }
        }
        assert(pow10(k) == 10 * pow10((k - 1) as nat));
        assert(n / 10 < pow10((k - 1) as nat));
        lemma_decimal_len(n / 10, (k - 1) as nat);
    }
}

/// ASCII text takes one byte a character.
proof fn lemma_ascii_len(t: Seq<char>)
    requires
        forall|i: int| 0 <= i < t.len() ==> (#[trigger] t[i] as u32) < 128,
    ensures
        encode_utf8(t).len() == t.len(),
    decreases t.len(),
{
    if t.len() > 0 {
        assert((t[0] as u32) < 128);
        lemma_ascii_len(t.drop_first());
    }
}

/// An ASCII character takes one byte.
proof fn lemma_ascii_char(c: char)
    requires
        (c as u32) < 128,
    ensures
        encode_utf8(seq![c]).len() == 1,
{
    let one = seq![c];
    assert(one[0] == c);
    assert(one.drop_first() =~= Seq::<char>::empty());
    assert(encode_utf8(one.drop_first()) =~= Seq::<u8>::empty());
}

/// The name of bot number `index`: `yeetus` and the number.
pub open spec fn bot_name_text(index: nat) -> Seq<char> {
    "yeetus"@ + decimal_text(index)
}

/// The decimal digits of `n`.
fn decimal_string(n: u64) -> (r: Vec<char>)
    ensures
        r@ == decimal_text(n as nat),
    decreases n,
{
    if n < 10 {
        let mut v: Vec<char> = Vec::new();
        v.push(char_of_digit(n as u32));
        v
    } else {
        assert(n % 10 < 10);
        let mut v = decimal_string(n / 10);
        v.push(char_of_digit((n % 10) as u32));
        v
    }
}

fn char_of_digit(d: u32) -> (r: char)
    requires
        d < 10,
    ensures
        r == (('0' as u32) + d) as char,
{
    if d == 0 { '0' } else if d == 1 { '1' } else if d == 2 { '2' } else if d == 3 { '3' } else if d == 4 { '4' } else if d == 5 { '5' } else if d == 6 { '6' } else if d == 7 { '7' } else if d == 8 { '8' } else { '9' }
}

/// The name of bot number `index`, `yeetus` and the number (a number of more than
/// ten digits makes the name too long and panics).
pub fn bot_name(index: usize) -> (r: FixedStr<16>)
    requires
        index < 10_000_000_000,
    ensures
        r@ == bot_name_text(index as nat),
{
    let digits = decimal_string(index as u64);
    let mut i: usize = 0;
    proof {
        reveal_strlit("yeetus");
        lemma_decimal_text(index as nat);
        reveal_with_fuel(pow10, 11);
        lemma_decimal_len(index as nat, 10);
    }
    let mut b: Vec<u8> = Vec::new();
    crate::ser::put_slice(&mut b, "yeetus".as_bytes());
    while i < digits.len()
        invariant
            i <= digits@.len(),
            digits@ == decimal_text(index as nat),
            forall|j: int| 0 <= j < digits@.len() ==> (#[trigger] digits@[j] as u32) < 128,
            b@ == encode_utf8("yeetus"@ + digits@.take(i as int)),
        decreases digits@.len() - i,
    {
        let c = digits[i];
        let u = c as u32;
        proof {
            lemma_ascii_char(c);
            assert(u < 128 ==> (u & 0x7F) as u8 == u as u8) by (bit_vector);
            let one = seq![c];
            assert(one[0] == c);
            assert(one.drop_first() =~= Seq::<char>::empty());
            assert(encode_utf8(one.drop_first()) =~= Seq::<u8>::empty());
            assert(vstd::utf8::encode_scalar(c as u32) =~= seq![(c as u32) as u8]);
            assert(encode_utf8(one) =~= seq![(c as u32) as u8]);
            crate::types::lemma_encode_utf8_concat("yeetus"@ + digits@.take(i as int), one);
            assert("yeetus"@ + digits@.take(i + 1) =~= ("yeetus"@ + digits@.take(i as int)) + one);
        }
        b.push((c as u32) as u8);
        i = i + 1;
    }
    assert(digits@.take(digits@.len() as int) =~= digits@);
    proof {
        crate::types::lemma_encode_utf8_concat("yeetus"@, digits@);
        vstd::utf8::encode_utf8_valid_utf8(bot_name_text(index as nat));
        assert(forall|i: int| 0 <= i < "yeetus"@.len() ==> (#[trigger] "yeetus"@[i] as u32) < 128);
        lemma_ascii_len("yeetus"@);
        vstd::utf8::encode_utf8_decode_utf8(bot_name_text(index as nat));
    }
    let s = match crate::nbt::string_from_utf8(b) {
        Some(s) => s,
        None => {
            assert(false);
            String::new()
        },
    };
    match FixedStr::<16>::from_string(s.as_str()) {
        Some(f) => f,
        None => {
            assert(false);
            FixedStr::<16>::from_string("").unwrap()
        },
    }
}

/// Text of ASCII characters.
fn ascii_string(cs: &Vec<char>) -> (r: String)
    requires
        forall|j: int| 0 <= j < cs@.len() ==> (#[trigger] cs@[j] as u32) < 128,
    ensures
        r@ == cs@,
{
    let mut b: Vec<u8> = Vec::new();
    let mut i: usize = 0;
    while i < cs.len()
        invariant
            i <= cs@.len(),
            forall|j: int| 0 <= j < cs@.len() ==> (#[trigger] cs@[j] as u32) < 128,
            b@ == encode_utf8(cs@.take(i as int)),
        decreases cs@.len() - i,
    {
        let c = cs[i];
        let u = c as u32;
        proof {
            lemma_ascii_char(c);
            assert(u < 128 ==> (u & 0x7F) as u8 == u as u8) by (bit_vector);
            let one = seq![c];
            assert(one[0] == c);
            assert(one.drop_first() =~= Seq::<char>::empty());
            assert(encode_utf8(one.drop_first()) =~= Seq::<u8>::empty());
            assert(vstd::utf8::encode_scalar(c as u32) =~= seq![(c as u32) as u8]);
            assert(encode_utf8(one) =~= seq![(c as u32) as u8]);
            crate::types::lemma_encode_utf8_concat(cs@.take(i as int), one);
            assert(cs@.take(i + 1) =~= cs@.take(i as int) + one);
        }
        b.push((c as u32) as u8);
        i = i + 1;
    }
    assert(cs@.take(cs@.len() as int) =~= cs@);
    proof {
        vstd::utf8::encode_utf8_valid_utf8(cs@);
        vstd::utf8::encode_utf8_decode_utf8(cs@);
    }
    match crate::nbt::string_from_utf8(b) {
        Some(s) => s,
        None => {
            assert(false);
            String::new()
        },
    }
}

/// `n` in decimal, then `suffix`.
pub(crate) fn decimal_with(n: u64, suffix: &str) -> (r: String)
    requires
        forall|j: int| 0 <= j < suffix@.len() ==> (#[trigger] suffix@[j] as u32) < 128,
    ensures
        r@ == decimal_text(n as nat) + suffix@,
{
    let mut cs = decimal_string(n);
    let tail = crate::cli::chars_of(suffix);
    proof {
        lemma_decimal_text(n as nat);
    }
    let mut i: usize = 0;
    while i < tail.len()
        invariant
            i <= tail@.len(),
            tail@ == suffix@,
            cs@ == decimal_text(n as nat) + suffix@.take(i as int),
        decreases tail@.len() - i,
    {
        cs.push(tail[i]);
        i = i + 1;
        assert(cs@ =~= decimal_text(n as nat) + suffix@.take(i as int));
    }
    assert(suffix@.take(suffix@.len() as int) =~= suffix@);
    assert forall|j: int| 0 <= j < cs@.len() implies (#[trigger] cs@[j] as u32) < 128 by {
        let d = decimal_text(n as nat);
        if j < d.len() {
            assert(cs@[j] == d[j]);
        } else {
            assert(cs@[j] == suffix@[j - d.len()]);
        }
    }
    ascii_string(&cs)
}

/// The payload of a ping: the time in milliseconds (a time past `i64::MAX` panics).
pub fn ping_payload(now_millis: u128) -> (r: i64)
    requires
        now_millis <= i64::MAX,
    ensures
        r == now_millis,
{
    now_millis as i64
}

/// The time a ping took, in milliseconds: now less the time it was sent (a
/// negative payload, a payload after now, or a time past `u32::MAX` panics).
pub fn ping_millis(now_millis: u128, pong: i64) -> (r: u32)
    requires
        0 <= pong <= now_millis,
        now_millis - pong <= u32::MAX,
    ensures
        r == now_millis - pong,
{
    (now_millis - pong as u128) as u32
}

/// What the server answered a login with: a threshold of compression (then the
/// login success is still to come), or the login success.
#[derive(Debug)]
pub enum LoginReply {
    Compression(i32),
    Success(LoginSuccess),
}

/// Reads the answer to a login: as a threshold of compression if it reads as one,
/// and otherwise as a login success, in the state `state`.
pub fn login_reply(packet: &SerializedPacket, state: State) -> (r: Result<LoginReply, Error>)
    requires
        LoginSuccess::spec_can_deserialize(packet.data@, PacketContext { id: packet.id, state }),
    ensures
        match SetCompression::spec_deserialize(packet.data@, PacketContext { id: packet.id, state }) {
            Ok((t, _)) => r matches Ok(LoginReply::Compression(x)) && x == t.0,
            Err(_) => match LoginSuccess::spec_deserialize(packet.data@, PacketContext { id: packet.id, state }) {
                Ok((v, _)) => r matches Ok(LoginReply::Success(s)) && s.deep_view() == v,
                Err(e) => r matches Err(e2) && crate::packets::packet_error(e2, e, packet.data@, packet.id.0),
            },
        },
{
    match packet.try_deserialize::<SetCompression>(state) {
        Ok(s) => Ok(LoginReply::Compression(s.threshold.0)),
        Err(_) => match packet.try_deserialize::<LoginSuccess>(state) {
            Ok(s) => Ok(LoginReply::Success(s)),
            Err(e) => Err(e),
        },
    }
}

} // verus!
