//! Packets: their ids and states, and the frame they travel in.
use crate::error::{BytesSource, Error, SerializationError, WithSource};
use crate::model::State;
use crate::ser::{copy_range, put_slice, read_at, Deserialize, Serialize};
use crate::varint::{leb_encode, LEB128Number, VarInt};
use vstd::prelude::*;

pub mod handshake;
pub mod login;
pub mod profile;
pub mod play;
pub mod status;

verus! {

/// What a packet reader is told: the packet id read from the frame, and the state
/// of the connection.
#[derive(Debug, Clone, Copy, PartialEq, Eq)]
pub struct PacketContext {
    pub id: VarInt<i32>,
    pub state: State,
}

/// A packet of the protocol: its id and the connection state it belongs to.
pub trait Packet {
    spec fn spec_id() -> i32;

    spec fn spec_state() -> State;

    /// The id of the packet.
    fn id() -> (r: VarInt<i32>)
        ensures
            r == VarInt(Self::spec_id()),
    ;

    /// The connection state in which the packet is sent.
    fn state() -> (r: State)
        ensures
            r == Self::spec_state(),
    ;
}

/// A lowercase hexadecimal digit as an ASCII byte, for `d` below 16.
pub open spec fn hex_byte(d: u8) -> u8 {
    if d < 10 {
        (d + 48) as u8
    } else {
        (d + 87) as u8
    }
}

/// The text that `Debug` shows for one byte of `bytes::Bytes`, in ASCII codes:
/// the escapes `\n`, `\r`, `\t`, `\\`, `\"` and `\0` (92 is the backslash);
/// printable ASCII (32 to 126) as it is; any other byte as `\x` and two lowercase
/// hexadecimal digits.
pub open spec fn byte_debug_text(b: u8) -> Seq<u8> {
    if b == 10 {
        seq![92, 110]
    } else if b == 13 {
        seq![92, 114]
    } else if b == 9 {
        seq![92, 116]
    } else if b == 92 || b == 34 {
        seq![92, b]
    } else if b == 0 {
        seq![92, 48]
    } else if 0x20 <= b < 0x7f {
        seq![b]
    } else {
        seq![92, 120, hex_byte(b / 16), hex_byte(b % 16)]
    }
}

/// The texts of the bytes of `data`, one after the other.
pub open spec fn bytes_debug_body(data: Seq<u8>) -> Seq<u8>
    decreases data.len(),
{
    if data.len() == 0 {
        Seq::empty()
    } else {
        bytes_debug_body(data.drop_last()) + byte_debug_text(data.last())
    }
}

/// The text that `bytes::Bytes` shows for `data` through `Debug`: `b"` (98, 34),
/// the text of each byte, and `"` (34).
pub open spec fn bytes_debug_text(data: Seq<u8>) -> Seq<u8> {
    seq![98, 34] + bytes_debug_body(data) + seq![34]
}

/// Shows `data` as `bytes::Bytes` does through `Debug`.
/// Trusted: claims the text that the `Debug` impl of `bytes` 1.12 writes
/// (`src/fmt/debug.rs`), as `bytes_debug_text` states it.
#[verifier::external_body]
fn bytes_debug(data: &[u8]) -> (r: Vec<u8>)
    ensures
        r@ == bytes_debug_text(data@),
{
    format!("{:?}", bytes::Bytes::copy_from_slice(data)).into_bytes()
}

/// A lowercase hexadecimal digit, for `d` below 16.
pub open spec fn hex_char(d: nat) -> char {
    if d < 10 {
        (d + 48) as char
    } else {
        (d + 87) as char
    }
}

/// The lowercase hexadecimal digits of `n`, without leading zeros (`0` for zero).
pub open spec fn hex_digits(n: nat) -> Seq<char>
    decreases n,
{
    if n < 16 {
        seq![hex_char(n)]
    } else {
        hex_digits(n / 16).push(hex_char(n % 16))
    }
}

/// The name under which the data of a packet with id `id` is shown in errors:
/// `packet_0x`, the id's 32 bits in lowercase hexadecimal, and `.bin`.
pub open spec fn packet_file_name_text(id: i32) -> Seq<char> {
    seq!['p', 'a', 'c', 'k', 'e', 't', '_', '0', 'x'] + hex_digits((id as u32) as nat) + seq![
        '.',
        'b',
        'i',
        'n',
    ]
}

/// The hexadecimal digit of `d`.
fn hex_digit(d: u32) -> (c: char)
    requires
        d < 16,
    ensures
        c == hex_char(d as nat),
        (c as u32) < 128,
{
    if d < 10 {
        ((d + 48) as u8) as char
    } else {
        ((d + 87) as u8) as char
    }
}

/// The lowercase hexadecimal digits of `n`.
fn hex_digits_of(n: u32) -> (r: Vec<char>)
    ensures
        r@ == hex_digits(n as nat),
        forall|i: int| 0 <= i < r@.len() ==> (#[trigger] r@[i] as u32) < 128,
{
    let mut low: Vec<char> = Vec::new();
    let mut m = n;
    assert(hex_digits(n as nat) + low@ =~= hex_digits(n as nat));
    while m >= 16
        invariant
            hex_digits(m as nat) + low@ == hex_digits(n as nat),
            forall|i: int| 0 <= i < low@.len() ==> (#[trigger] low@[i] as u32) < 128,
        decreases m,
    {
        let c = hex_digit(m % 16);
        let ghost old_low = low@;
        low.insert(0, c);
        proof {
            assert(low@ =~= seq![c] + old_low);
            assert(hex_digits(m as nat) == hex_digits((m / 16) as nat).push(c));
            assert(hex_digits((m / 16) as nat) + low@ =~= hex_digits((m / 16) as nat).push(c)
                + old_low);
        }
        m = m / 16;
    }
    let c = hex_digit(m);
    let ghost old_low = low@;
    low.insert(0, c);
    assert(low@ =~= seq![c] + old_low);
    assert(hex_digits(m as nat) =~= seq![c]);
    low
}

/// The name under which the data of a packet with id `id` is shown in errors.
fn packet_file_name(id: i32) -> (r: String)
    ensures
        r@ == packet_file_name_text(id),
{
    let digits = hex_digits_of(id as u32);
    let mut b = crate::logging::TextBuf::new();
    b.push_ascii('p');
    b.push_ascii('a');
    b.push_ascii('c');
    b.push_ascii('k');
    b.push_ascii('e');
    b.push_ascii('t');
    b.push_ascii('_');
    b.push_ascii('0');
    b.push_ascii('x');
    let ghost head = b.text@;
    assert(head =~= seq!['p', 'a', 'c', 'k', 'e', 't', '_', '0', 'x']);
    let mut i: usize = 0;
    while i < digits.len()
        invariant
            b.wf(),
            i <= digits@.len(),
            b.text@ == head + digits@.take(i as int),
            forall|j: int| 0 <= j < digits@.len() ==> (#[trigger] digits@[j] as u32) < 128,
        decreases digits@.len() - i,
    {
        b.push_ascii(digits[i]);
        assert(digits@.take(i as int).push(digits@[i as int]) =~= digits@.take(i + 1));
        i = i + 1;
    }
    assert(digits@.take(i as int) =~= digits@);
    b.push_ascii('.');
    b.push_ascii('b');
    b.push_ascii('i');
    b.push_ascii('n');
    assert(b.text@ =~= packet_file_name_text(id));
    b.into_string()
}

impl BytesSource {
    /// The source shown for decoding errors in `bytes`: the text that `Debug` shows
    /// for them, under the name `name`.
    pub fn new(bytes: &[u8], name: Option<String>) -> (r: BytesSource)
        ensures
            r.0@ == bytes_debug_text(bytes@),
            r.1 == name,
    {
        let text = bytes_debug(bytes);
        BytesSource(text, name)
    }
}

/// Puts a shape error of decoding together with the bytes it was found in; other
/// errors pass unchanged.
pub fn err_with_source(source: &[u8], name: Option<String>, e: Error) -> (r: Error)
    ensures
        match e {
            Error::Ser(se) => r matches Error::SerSrc(w) && w.errors@ == seq![se] && w.src.0@
                == bytes_debug_text(source@) && w.src.1 == name,
            _ => r == e,
        },
{
    match e {
        Error::Ser(error) => {
            let mut errors = Vec::new();
            errors.push(error);
            Error::SerSrc(WithSource { src: BytesSource::new(source, name), errors })
        },
        e => e,
    }
}

/// `r` is `e` as reading the data of a packet with id `id` gives it back: a shape
/// error together with the data and the file name of the id; any other error
/// unchanged.
pub open spec fn packet_error(r: Error, e: Error, data: Seq<u8>, id: i32) -> bool {
    match e {
        Error::Ser(se) => r matches Error::SerSrc(w) && w.errors@ == seq![se] && w.src.0@ == bytes_debug_text(
            data,
        ) && (w.src.1 matches Some(name) && name@ == packet_file_name_text(id)),
        _ => r == e,
    }
}

/// A packet as it travels: the length of id and data, the id, and the data.
#[derive(Debug, Clone)]
pub struct SerializedPacket {
    pub length: usize,
    pub id: VarInt<i32>,
    pub data: Vec<u8>,
}

impl DeepView for SerializedPacket {
    type V = (usize, VarInt<i32>, Seq<u8>);

    open spec fn deep_view(&self) -> (usize, VarInt<i32>, Seq<u8>) {
        (self.length, self.id, self.data@)
    }
}

/// The number of bytes that the id `id` takes when written.
pub open spec fn id_len(id: VarInt<i32>) -> nat {
    leb_encode((id.0 as u32) as nat).len()
}

impl SerializedPacket {
    /// The frame of `packet`.
    pub fn new<P: Packet + Serialize>(packet: P) -> (r: Result<SerializedPacket, Error>)
        requires
            packet.spec_can_serialize(),
            packet.spec_serialize() matches Ok(w) ==> w.len() + 5 <= usize::MAX,
        ensures
            match packet.spec_serialize() {
                Ok(w) => r matches Ok(sp) && sp.id == VarInt(P::spec_id()) && sp.data@ == w
                    && sp.length == id_len(VarInt(P::spec_id())) + w.len(),
                Err(e) => r matches Err(e2) && e2 == e,
            },
    {
        Self::new_ref(&packet)
    }

    /// The frame of `packet`: its data are the bytes of the packet, its length
    /// counts the id and the data.
    pub fn new_ref<P: Packet + Serialize>(packet: &P) -> (r: Result<SerializedPacket, Error>)
        requires
            packet.spec_can_serialize(),
            packet.spec_serialize() matches Ok(w) ==> w.len() + 5 <= usize::MAX,
        ensures
            match packet.spec_serialize() {
                Ok(w) => r matches Ok(sp) && sp.id == VarInt(P::spec_id()) && sp.data@ == w
                    && sp.length == id_len(VarInt(P::spec_id())) + w.len(),
                Err(e) => r matches Err(e2) && e2 == e,
            },
    {
        let data = packet.serialize()?;
        let id = P::id();
        proof {
            crate::varint::lemma_pow128_values();
            crate::varint::lemma_leb_encode_len((id.0 as u32) as nat, 5);
        }
        let length = id.length_of() + data.len();
        Ok(SerializedPacket { length, id, data })
    }

    /// Reads the data as the packet `P`, in the connection state `state`. Shape
    /// errors come back with the data and a file name for the packet.
    pub fn try_deserialize<P: Packet + Deserialize<Context = PacketContext>>(&self, state: State) -> (r:
        Result<P, Error>)
        requires
            P::spec_can_deserialize(self.data@, PacketContext { id: self.id, state }),
        ensures
            match P::spec_deserialize(self.data@, PacketContext { id: self.id, state }) {
                Ok((v, _)) => r matches Ok(p) && p.deep_view() == v,
                Err(e) => r matches Err(e2) && packet_error(e2, e, self.data@, self.id.0),
            },
    {
        let context = PacketContext { id: self.id, state };
        assert(self.data@.skip(0) =~= self.data@);
        match P::deserialize(self.data.as_slice(), 0, &context) {
            Ok((p, _)) => Ok(p),
            Err(e) => {
                let name = packet_file_name(self.id.0);
                Err(err_with_source(self.data.as_slice(), Some(name), e))
            },
        }
    }
}

impl Serialize for SerializedPacket {
    open spec fn spec_can_serialize(&self) -> bool {
        true
    }

    fn can_serialize(&self) -> (r: bool) {
        true
    }

    /// The length, the id and the data; a length past `i32::MAX` is refused.
    open spec fn spec_serialize(&self) -> Result<Seq<u8>, Error> {
        if self.length > i32::MAX {
            Err(Error::VarIntTooBig)
        } else {
            Ok(leb_encode(self.length as nat) + self.id.spec_bytes() + self.data@)
        }
    }

    fn serialize_to(&self, buf: &mut Vec<u8>) -> (r: Result<(), Error>) {
        if self.length > i32::MAX as usize {
            assert(buf@.subrange(0, buf@.len() as int) =~= buf@);
            return Err(Error::VarIntTooBig);
        }
        let length = VarInt::<i32>(self.length as i32);
        assert(((self.length as i32) as u32) as nat == self.length as nat);
        length.serialize_to(buf)?;
        self.id.serialize_to(buf)?;
        put_slice(buf, self.data.as_slice());
        assert(final(buf)@ =~= old(buf)@ + (leb_encode(self.length as nat) + self.id.spec_bytes()
            + self.data@));
        Ok(())
    }
}

/// The frame read from the front of `s`: the length and the id; the data are
/// the `length` less the written size of the id bytes after the id. The bytes taken
/// are those of the length and the id: the data are copied and stay where they are.
pub open spec fn spec_read_frame(s: Seq<u8>) -> Result<((usize, VarInt<i32>, Seq<u8>), nat), Error> {
    match i32::spec_read(s) {
        Err(e) => Err(e),
        Ok((len, n1)) => match i32::spec_read(s.skip(n1 as int)) {
            Err(e) => Err(e),
            Ok((id, n2)) => Ok(
                (
                    (
                        len as usize,
                        VarInt(id),
                        s.subrange(
                            (n1 + n2) as int,
                            (n1 + n2 + len - id_len(VarInt(id))) as int,
                        ),
                    ),
                    n1 + n2,
                ),
            ),
        },
    }
}

/// The inputs on which reading a frame does not panic: the length is not negative,
/// not below the size of the id, and the data it announces are all there.
pub open spec fn spec_can_read_frame(s: Seq<u8>) -> bool {
    match i32::spec_read(s) {
        Err(_) => true,
        Ok((len, n1)) => len >= 0 && match i32::spec_read(s.skip(n1 as int)) {
            Err(_) => true,
            Ok((id, n2)) => len >= id_len(VarInt(id)) && n1 + n2 + len - id_len(VarInt(id))
                <= s.len(),
        },
    }
}

impl Deserialize for SerializedPacket {
    type Context = ();

    open spec fn spec_can_deserialize(s: Seq<u8>, cx: ()) -> bool {
        spec_can_read_frame(s)
    }

    fn can_deserialize(input: &[u8], pos: usize, cx: &()) -> (r: bool) {
        can_read_frame_at(input, pos)
    }

    open spec fn spec_deserialize(s: Seq<u8>, cx: ()) -> Result<
        ((usize, VarInt<i32>, Seq<u8>), nat),
        Error,
    > {
        spec_read_frame(s)
    }

    fn deserialize(input: &[u8], pos: usize, cx: &()) -> (r: Result<(SerializedPacket, usize), Error>) {
        let ghost s = input@.skip(pos as int);
        let (length_varint, p1) = VarInt::<i32>::deserialize(input, pos, &())?;
        let length = length_varint.0 as usize;
        assert(input@.skip(p1 as int) =~= s.skip((p1 - pos) as int));
        let (id, p2) = VarInt::<i32>::deserialize(input, p1, &())?;
        let id_length = id.length_of();
        proof {
            let n1 = (p1 - pos) as nat;
            let n2 = (p2 - p1) as nat;
            assert(i32::spec_read(s) == Ok::<(i32, nat), Error>((length_varint.0, n1)));
            assert(i32::spec_read(s.skip(n1 as int)) == Ok::<(i32, nat), Error>((id.0, n2)));
            assert(length_varint.0 >= 0);
            assert(length as int == length_varint.0 as int);
            assert(length >= id_length);
            assert(n1 + n2 + length - id_length <= s.len());
            assert(input@.len() == input.len());
            assert(s.len() == input@.len() - pos);
        }
        let end = p2 + (length - id_length);
        assert(input@.subrange(p2 as int, end as int) =~= s.subrange(
            (p2 - pos) as int,
            (end - pos) as int,
        ));
        let data = copy_range(input, p2, end);
        Ok((SerializedPacket { length, id, data }, p2))
    }
}

/// Reading back a frame that was written gives it back, when its length counts the
/// id and the data as `new_ref` makes it and fits into a variable-length integer;
/// the reader takes the bytes of the length and the id.
pub proof fn lemma_frame_roundtrip(length: usize, id: VarInt<i32>, data: Seq<u8>, rest: Seq<u8>)
    requires
        length == id_len(id) + data.len(),
        length <= i32::MAX,
    ensures
        ({
            let w = leb_encode(length as nat) + id.spec_bytes() + data;
            &&& spec_can_read_frame(w + rest)
            &&& spec_read_frame(w + rest) == Ok::<((usize, VarInt<i32>, Seq<u8>), nat), Error>(
                (
                    (length, id, data),
                    (leb_encode(length as nat).len() + id.spec_bytes().len()) as nat,
                ),
            )
        }),
{
    let a = leb_encode(length as nat);
    let b = id.spec_bytes();
    let w = a + b + data;
    let t = w + rest;
    let x = length as i32;
    assert(((x as u32) as nat) == length as nat);
    crate::varint::lemma_i32_roundtrip(x, b + data + rest);
    assert(t =~= a + (b + data + rest));
    assert(t.skip(a.len() as int) =~= b + (data + rest));
    crate::varint::lemma_i32_roundtrip(id.0, data + rest);
    assert(t.subrange((a.len() + b.len()) as int, (a.len() + b.len() + data.len()) as int)
        =~= data);
}

} // verus!

verus! {

/// A message on a channel of a plugin: the channel, and the data, which take the
/// rest of the packet.
#[derive(Debug)]
pub struct PluginMessage {
    pub channel: crate::types::Identifier,
    pub data: Vec<u8>,
}

impl DeepView for PluginMessage {
    type V = ((Option<Seq<char>>, Seq<char>), Seq<u8>);

    open spec fn deep_view(&self) -> ((Option<Seq<char>>, Seq<char>), Seq<u8>) {
        (self.channel.deep_view(), self.data@)
    }
}

impl Packet for PluginMessage {
    open spec fn spec_id() -> i32 {
        0x17
    }

    open spec fn spec_state() -> State {
        State::Play
    }

    fn id() -> (r: VarInt<i32>) {
        VarInt(0x17)
    }

    fn state() -> (r: State) {
        State::Play
    }
}

impl Serialize for PluginMessage {
    open spec fn spec_can_serialize(&self) -> bool {
        self.channel.spec_can_serialize()
    }

    fn can_serialize(&self) -> (r: bool) {
        self.channel.can_serialize()
    }

    /// The channel, then the data as they are.
    open spec fn spec_serialize(&self) -> Result<Seq<u8>, Error> {
        match self.channel.spec_serialize() {
            Ok(c) => Ok(c + self.data@),
            Err(e) => Err(e),
        }
    }

    fn serialize_to(&self, buf: &mut Vec<u8>) -> (r: Result<(), Error>) {
        self.channel.serialize_to(buf)?;
        let ghost mid = buf@;
        put_slice(buf, self.data.as_slice());
        assert(final(buf)@ =~= old(buf)@ + (self.channel.spec_serialize()->Ok_0 + self.data@));
        Ok(())
    }
}

/// A plugin message on `channel` whose data are the bytes of `data`.
pub fn plugin_message<T: Serialize + ?Sized>(channel: crate::types::Identifier, data: &T) -> (r: Result<
    PluginMessage,
    Error,
>)
    requires
        data.spec_can_serialize(),
    ensures
        match data.spec_serialize() {
            Ok(w) => r matches Ok(m) && m.channel == channel && m.data@ == w,
            Err(e) => r == Err::<PluginMessage, Error>(e),
        },
{
    let bytes = data.serialize()?;
    Ok(PluginMessage { channel, data: bytes })
}

impl Deserialize for PluginMessage {
    type Context = PacketContext;

    open spec fn spec_can_deserialize(s: Seq<u8>, cx: PacketContext) -> bool {
        crate::types::Identifier::spec_can_deserialize(s, ())
    }

    fn can_deserialize(input: &[u8], pos: usize, cx: &PacketContext) -> (r: bool) {
        crate::types::Identifier::can_deserialize(input, pos, &())
    }

    /// The channel, then all the bytes that are left.
    open spec fn spec_deserialize(s: Seq<u8>, cx: PacketContext) -> Result<
        (((Option<Seq<char>>, Seq<char>), Seq<u8>), nat),
        Error,
    > {
        match crate::types::Identifier::spec_deserialize(s, ()) {
            Err(e) => Err(e),
            Ok((c, n)) => Ok(((c, s.skip(n as int)), s.len())),
        }
    }

    fn deserialize(input: &[u8], pos: usize, cx: &PacketContext) -> (r: Result<(PluginMessage, usize), Error>) {
        let (channel, p) = crate::types::Identifier::deserialize(input, pos, &())?;
        let data = copy_range(input, p, input.len());
        assert(data@ =~= input@.skip(pos as int).skip((p - pos) as int));
        Ok((PluginMessage { channel, data }, input.len()))
    }
}

/// The packets that a client sends, as far as they are read by id alone.
#[derive(Debug)]
pub enum PacketServerbound {
    Handshake(handshake::Handshake),
}

impl DeepView for PacketServerbound {
    type V = <handshake::Handshake as DeepView>::V;

    open spec fn deep_view(&self) -> Self::V {
        match self {
            PacketServerbound::Handshake(h) => h.deep_view(),
        }
    }
}

impl Deserialize for PacketServerbound {
    type Context = PacketContext;

    open spec fn spec_can_deserialize(s: Seq<u8>, cx: PacketContext) -> bool {
        cx.id.0 == 0x00 ==> handshake::Handshake::spec_can_deserialize(s, cx)
    }

    fn can_deserialize(input: &[u8], pos: usize, cx: &PacketContext) -> (r: bool) {
        if cx.id.0 == 0x00 {
            handshake::Handshake::can_deserialize(input, pos, cx)
        } else {
            true
        }
    }

    /// The packet of the id in the context; an unknown id is refused.
    open spec fn spec_deserialize(s: Seq<u8>, cx: PacketContext) -> Result<(Self::V, nat), Error> {
        if cx.id.0 == 0x00 {
            handshake::Handshake::spec_deserialize(s, cx)
        } else {
            Err(Error::InvalidPacketId(cx.id.0))
        }
    }

    fn deserialize(input: &[u8], pos: usize, cx: &PacketContext) -> (r: Result<(PacketServerbound, usize), Error>) {
        if cx.id.0 == 0x00 {
            let (h, p) = handshake::Handshake::deserialize(input, pos, cx)?;
            Ok((PacketServerbound::Handshake(h), p))
        } else {
            Err(Error::InvalidPacketId(cx.id.0))
        }
    }
}

impl crate::types::Identifier {
    /// The channel on which the server names its brand, `minecraft:brand`.
    pub fn minecraft_brand() -> (r: crate::types::Identifier)
        ensures
            r.0 == crate::types::Namespace::Minecraft,
            r.1@ == "brand"@,
    {
        crate::types::Identifier::new(crate::types::Namespace::Minecraft, "brand")
    }
}

} // verus!

verus! {

/// Whether a frame can be read from the front of `input` without a panic.
pub fn can_read_frame(input: &[u8]) -> (r: bool)
    ensures
        r == spec_can_read_frame(input@),
{
    assert(input@.skip(0) =~= input@);
    can_read_frame_at(input, 0)
}

/// Whether a frame can be read at `pos` without a panic.
fn can_read_frame_at(input: &[u8], pos: usize) -> (r: bool)
    requires
        pos <= input@.len(),
    ensures
        r == spec_can_read_frame(input@.skip(pos as int)),
{
    let ghost s = input@.skip(pos as int);
    match i32::read(input, pos) {
        Err(_) => true,
        Ok((len, p1)) => {
            if len < 0 {
                return false;
            }
            assert(input@.skip(p1 as int) =~= s.skip((p1 - pos) as int));
            match i32::read(input, p1) {
                Err(_) => true,
                Ok((id, p2)) => {
                    let idl = VarInt(id).length_of();
                    let l = len as usize;
                    l >= idl && l - idl <= input.len() - p2
                },
            }
        },
    }
}

/// What the reader of a connection does with the bytes it has buffered: a frame
/// read from their front and the count of bytes it took (its length and id); nothing when they end
/// before a frame is complete (more are to be read); or the error.
pub fn next_packet(buf: &[u8]) -> (r: Result<Option<(SerializedPacket, usize)>, Error>)
    requires
        spec_can_read_frame(buf@),
    ensures
        match spec_read_frame(buf@) {
            Ok((v, n)) => r matches Ok(Some((p, k))) && p.deep_view() == v && k == n,
            Err(e) => if e == Error::Ser(SerializationError::UnexpectedEof) {
                r matches Ok(None)
            } else {
                r matches Err(e2) && e2 == e
            },
        },
{
    assert(buf@.skip(0) =~= buf@);
    match SerializedPacket::deserialize(buf, 0, &()) {
        Ok((p, k)) => Ok(Some((p, k))),
        Err(Error::Ser(SerializationError::UnexpectedEof)) => Ok(None),
        Err(e) => Err(e),
    }
}

/// What the reader of a connection does with the bytes it has buffered: a frame
/// read from their front, and the bytes that reading took (its length and id)
/// removed, the data staying in the buffer; nothing when they end before a frame
/// is complete (more are to be read); or the error, the bytes kept.
pub fn take_frame(buf: &mut Vec<u8>) -> (r: Result<Option<SerializedPacket>, Error>)
    requires
        spec_can_read_frame(old(buf)@),
    ensures
        match spec_read_frame(old(buf)@) {
            Ok((v, n)) => r matches Ok(Some(p)) && p.deep_view() == v && final(buf)@ == old(buf)@.skip(n as int),
            Err(e) => final(buf)@ == old(buf)@ && if e == Error::Ser(SerializationError::UnexpectedEof) {
                r matches Ok(None)
            } else {
                r matches Err(e2) && e2 == e
            },
        },
{
    match next_packet(buf.as_slice()) {
        Ok(Some((p, k))) => {
            let rest = copy_range(buf.as_slice(), k, buf.len());
            *buf = rest;
            Ok(Some(p))
        },
        Ok(None) => Ok(None),
        Err(e) => Err(e),
    }
}

/// What the reader of a connection does when the input has ended: it stops, if
/// nothing is left buffered, and fails with `ConnectionEnded` otherwise.
pub fn end_of_input(buffered: usize) -> (r: Result<(), Error>)
    ensures
        buffered == 0 ==> r is Ok,
        buffered != 0 ==> r matches Err(Error::ConnectionEnded),
{
    if buffered == 0 {
        Ok(())
    } else {
        Err(Error::ConnectionEnded)
    }
}

/// A packet in the frame of a compressed connection: the length of what follows,
/// the length of id and data before compression (0 when they are not compressed),
/// the id and the data.
#[derive(Debug, Clone)]
pub struct SerializedPacketCompressed {
    pub length: usize,
    pub data_length: usize,
    pub id: VarInt<i32>,
    pub data: Vec<u8>,
}

impl DeepView for SerializedPacketCompressed {
    type V = (usize, usize, VarInt<i32>, Seq<u8>);

    open spec fn deep_view(&self) -> (usize, usize, VarInt<i32>, Seq<u8>) {
        (self.length, self.data_length, self.id, self.data@)
    }
}

impl From<SerializedPacketCompressed> for SerializedPacket {
    /// The length becomes the frame's data length (0 where the data was sent
    /// uncompressed); id and data stay.
    fn from(value: SerializedPacketCompressed) -> (r: SerializedPacket) {
        SerializedPacket { length: value.data_length, id: value.id, data: value.data }
    }
}

impl vstd::std_specs::convert::FromSpecImpl<SerializedPacketCompressed> for SerializedPacket {
    open spec fn obeys_from_spec() -> bool {
        true
    }

    open spec fn from_spec(v: SerializedPacketCompressed) -> SerializedPacket {
        SerializedPacket { length: v.data_length, id: v.id, data: v.data }
    }
}

/// The header of a compressed frame at the front of `s`: the packet length, the
/// data length, and the bytes they took.
pub open spec fn spec_read_compressed_header(s: Seq<u8>) -> Result<(i32, i32, nat), Error> {
    match i32::spec_read(s) {
        Err(e) => Err(e),
        Ok((len, n1)) => match i32::spec_read(s.skip(n1 as int)) {
            Err(e) => Err(e),
            Ok((dlen, n2)) => Ok((len, dlen, n1 + n2)),
        },
    }
}

/// The inputs on which reading the header does not panic: a packet length above
/// zero and not below the size of the data length, and a data length not below zero.
pub open spec fn can_read_compressed_header(s: Seq<u8>) -> bool {
    match spec_read_compressed_header(s) {
        Err(_) => true,
        Ok((len, dlen, _)) => len > 0 && dlen >= 0 && len >= leb_encode((dlen as u32) as nat).len(),
    }
}

/// What the body of a compressed frame gives, once decompressed: the id, then the
/// data, which take the rest. A shape error in the id comes back with the body and
/// a file name.
pub open spec fn spec_read_body(length: usize, data_length: usize, body: Seq<u8>) -> Result<
    (usize, usize, VarInt<i32>, Seq<u8>),
    Error,
> {
    match i32::spec_read(body) {
        Ok((id, n)) => Ok((length, data_length, VarInt(id), body.skip(n as int))),
        Err(e) => Err(e),
    }
}

/// The name under which the body of a compressed packet is shown in errors.
pub open spec fn compressed_body_name() -> Seq<char> {
    "packet_compressed_without_id.bin"@
}

impl SerializedPacketCompressed {
    /// Reads the header of a compressed frame at `pos`: the packet length and the
    /// data length, and the position after them.
    pub fn read_header(input: &[u8], pos: usize) -> (r: Result<(usize, usize, usize), Error>)
        requires
            pos <= input@.len(),
            can_read_compressed_header(input@.skip(pos as int)),
        ensures
            match spec_read_compressed_header(input@.skip(pos as int)) {
                Ok((len, dlen, n)) => r matches Ok((l, d, p)) && l == len && d == dlen && p == pos + n,
                Err(e) => r matches Err(e2) && e2 == e,
            },
            r matches Ok((_, _, p)) ==> pos <= p <= input@.len(),
    {
        let (len, p1) = i32::read(input, pos)?;
        assert(input@.skip(p1 as int) =~= input@.skip(pos as int).skip((p1 - pos) as int));
        let (dlen, p2) = i32::read(input, p1)?;
        Ok((len as usize, dlen as usize, p2))
    }

    /// Whether the header of a compressed frame can be read at `pos` without a panic.
    pub fn can_read_header(input: &[u8], pos: usize) -> (r: bool)
        requires
            pos <= input@.len(),
        ensures
            r == can_read_compressed_header(input@.skip(pos as int)),
    {
        match i32::read(input, pos) {
            Err(_) => true,
            Ok((len, p1)) => {
                assert(input@.skip(p1 as int) =~= input@.skip(pos as int).skip((p1 - pos) as int));
                match i32::read(input, p1) {
                    Err(_) => true,
                    Ok((dlen, _)) => {
                        if len <= 0 || dlen < 0 {
                            return false;
                        }
                        let size = VarInt(dlen).length_of();
                        let l = len as usize;
                        l >= size
                    },
                }
            },
        }
    }

    /// The packet of a decompressed body: the id, then the data. A shape error in
    /// the id comes back with the body and the name `packet_compressed_without_id.bin`.
    pub fn from_body(length: usize, data_length: usize, body: &[u8]) -> (r: Result<SerializedPacketCompressed, Error>)
        ensures
            match spec_read_body(length, data_length, body@) {
                Ok(v) => r matches Ok(p) && p.deep_view() == v,
                Err(Error::Ser(se)) => r matches Err(Error::SerSrc(w)) && w.errors@ == seq![se]
                    && w.src.0@ == bytes_debug_text(body@) && (w.src.1 matches Some(name) && name@
                    == compressed_body_name()),
                Err(e) => r matches Err(e2) && e2 == e,
            },
    {
        assert(body@.skip(0) =~= body@);
        match i32::read(body, 0) {
            Ok((id, p)) => {
                let data = copy_range(body, p, body.len());
                assert(data@ =~= body@.skip(p as int));
                Ok(SerializedPacketCompressed { length, data_length, id: VarInt(id), data })
            },
            Err(e) => {
                let name = "packet_compressed_without_id.bin".to_owned();
                Err(err_with_source(body, Some(name), e))
            },
        }
    }
}

} // verus!
