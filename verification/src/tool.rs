//! What the command-line tool does with the bytes it is given: it reads them as a
//! framed `LoginPlay` packet, as one variable-length integer, or as an NBT value
//! of a given kind. Shape errors are shown against the bytes, named `thing.bin`.
use crate::error::{Error, SerializationError};
use crate::model::State;
use crate::nbt::{lemma_value_within, opt_view, parse_value, Nbt, NbtParse, NbtTagType};
use crate::packets::play::LoginPlay;
use crate::packets::{bytes_debug_text, err_with_source, packet_error, PacketContext, SerializedPacket};
use crate::ser::Deserialize;
use crate::varint::VarInt;
use vstd::prelude::*;

verus! {

/// `r` is `e` shown against the bytes `b` under the name `thing.bin` when `e` is a
/// shape error, and `e` itself otherwise.
pub open spec fn shown_against(r: Error, b: Seq<u8>, e: Error) -> bool {
    match e {
        Error::Ser(se) => r matches Error::SerSrc(w) && w.errors@ == seq![se] && w.src.0@ == bytes_debug_text(b)
            && (w.src.1 matches Some(name) && name@ == "thing.bin"@),
        _ => r == e,
    }
}

/// Shows an error against the bytes it was found in, under the name `thing.bin`.
pub fn reconcile(bytes: &[u8], e: Error) -> (r: Error)
    ensures
        shown_against(r, bytes@, e),
{
    proof {
        reveal_strlit("thing.bin");
    }
    err_with_source(bytes, Some("thing.bin".to_owned()), e)
}

/// The context in which the tool reads a `LoginPlay` packet of id `id`.
pub open spec fn play_context(id: VarInt<i32>) -> PacketContext {
    PacketContext { id, state: State::Play }
}

/// The bytes that the tool can read as a framed `LoginPlay` packet without a panic.
pub open spec fn spec_can_decode_login_play(b: Seq<u8>) -> bool {
    &&& SerializedPacket::spec_can_deserialize(b, ())
    &&& SerializedPacket::spec_deserialize(b, ()) matches Ok((p, _)) ==> LoginPlay::spec_can_deserialize(
        p.2,
        play_context(p.1),
    )
}

/// Whether the tool can read `bytes` as a framed `LoginPlay` packet without a panic.
pub fn can_decode_login_play(bytes: &[u8]) -> (r: bool)
    ensures
        r == spec_can_decode_login_play(bytes@),
{
    assert(bytes@.skip(0) =~= bytes@);
    if !SerializedPacket::can_deserialize(bytes, 0, &()) {
        return false;
    }
    match SerializedPacket::deserialize(bytes, 0, &()) {
        Err(_) => true,
        Ok((p, _)) => {
            assert(p.data@.skip(0) =~= p.data@);
            LoginPlay::can_deserialize(p.data.as_slice(), 0, &PacketContext { id: p.id, state: State::Play })
        },
    }
}

/// Reads a frame from the front of `bytes`, then its data as a `LoginPlay` packet.
pub fn decode_login_play(bytes: &[u8]) -> (r: Result<LoginPlay, Error>)
    requires
        spec_can_decode_login_play(bytes@),
    ensures
        match SerializedPacket::spec_deserialize(bytes@, ()) {
            Err(e) => r matches Err(e2) && e2 == e,
            Ok((p, _)) => match LoginPlay::spec_deserialize(p.2, play_context(p.1)) {
                Ok((v, _)) => r matches Ok(x) && x.deep_view() == v,
                Err(e) => r matches Err(e2) && packet_error(e2, e, p.2, p.1.0),
            },
        },
{
    assert(bytes@.skip(0) =~= bytes@);
    let (packet, _) = match SerializedPacket::deserialize(bytes, 0, &()) {
        Ok(v) => v,
        Err(e) => return Err(e),
    };
    packet.try_deserialize::<LoginPlay>(State::Play)
}

/// Reads `bytes` as one variable-length integer of 64 bits, which must take all of
/// them.
pub fn decode_varint(bytes: &[u8]) -> (r: Result<VarInt<i64>, Error>)
    ensures
        match VarInt::<i64>::spec_deserialize(bytes@, ()) {
            Ok((v, n)) => if n == bytes@.len() {
                r == Ok::<VarInt<i64>, Error>(v)
            } else {
                r matches Err(e) && shown_against(
                    e,
                    bytes@,
                    Error::Ser(SerializationError::ExpectedEof { found: bytes@[n as int] }),
                )
            },
            Err(e) => r matches Err(e2) && shown_against(e2, bytes@, e),
        },
{
    assert(bytes@.skip(0) =~= bytes@);
    match VarInt::<i64>::deserialize(bytes, 0, &()) {
        Err(e) => Err(reconcile(bytes, e)),
        Ok((v, n)) => {
            if n == bytes.len() {
                Ok(v)
            } else {
                Err(reconcile(bytes, Error::Ser(SerializationError::ExpectedEof { found: bytes[n] })))
            }
        },
    }
}

/// Reads `bytes` as an NBT value of kind `tag` (none for `End`).
pub fn decode_nbt(tag: NbtTagType, bytes: &[u8]) -> (r: Result<Option<Nbt>, Error>)
    ensures
        match parse_value(bytes@, tag) {
            NbtParse::Done(v, _) => r matches Ok(x) && opt_view(x) == v,
            NbtParse::Fail(e) => r matches Err(e2) && shown_against(e2, bytes@, e),
            NbtParse::Panics => false,
        },
{
    assert(bytes@.skip(0) =~= bytes@);
    proof {
        lemma_value_within(bytes@, tag);
    }
    match Nbt::single(bytes, 0, tag) {
        Ok((v, _)) => Ok(v),
        Err(e) => Err(reconcile(bytes, e)),
    }
}

} // verus!
