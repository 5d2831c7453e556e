//! What reading gives back of what was written, for the protocol types and packets.
use crate::bytes_be::{be_bytes, lemma_be_roundtrip_exact, lemma_pow256_values};
use crate::error::Error;
use crate::model::{Difficulty, GameMode, PreviousGameMode};
use crate::nbt::{entries_bytes, parse_entries, NbtCompound, NbtValue};
use crate::nbt_laws::{keys_unique, lemma_entries_roundtrip, lemma_i32_reads_back, lemma_i64_reads_back, readable_entries, reads_back};
use crate::packets::play::{Abilities, ChangeDifficulty, PlayerAbilities};
use crate::packets::status::{PingRequest, PongResponse};
use crate::packets::PacketContext;
use crate::ser::{Deserialize, Serialize};
use crate::types::{
    ident_continue, ident_end, ident_start, parse_identifier, prefixed, spec_read_prefixed, str_bytes, FixedStr,
    Json, Uuid,
};
use crate::varint::{leb_encode, lemma_i32_roundtrip, LEB128Number, VarInt};
use vstd::prelude::*;
use vstd::utf8::{decode_utf8, encode_utf8, valid_utf8};

verus! {

/// A string written by the string writer is read back by the reader of strings of
/// at most `N` bytes, when it has at most `N` bytes, whatever follows it.
pub proof fn lemma_str_reads_as_fixed<const N: usize>(s: Seq<char>, rest: Seq<u8>)
    requires
        encode_utf8(s).len() <= N,
        encode_utf8(s).len() <= i32::MAX,
    ensures
        FixedStr::<N>::spec_can_deserialize(str_bytes(s) + rest, ()),
        FixedStr::<N>::spec_deserialize(str_bytes(s) + rest, ()) == Ok::<(Seq<char>, nat), Error>(
            (s, str_bytes(s).len()),
        ),
{
    let b = encode_utf8(s);
    let x = b.len() as i32;
    assert(((x as u32) as nat) == b.len());
    let t = str_bytes(s) + rest;
    assert(t =~= leb_encode(b.len()) + (b + rest));
    lemma_i32_roundtrip(x, b + rest);
    let n = leb_encode(b.len()).len();
    assert(t.subrange(n as int, (n + b.len()) as int) =~= b);
    vstd::utf8::encode_utf8_valid_utf8(s);
    vstd::utf8::encode_utf8_decode_utf8(s);
}

/// A string of at most `N` bytes reads back as written, whatever follows it: the
/// writer puts the length of its bytes in front, and the reader takes that many.
pub proof fn lemma_fixed_str_roundtrip<const N: usize>(f: FixedStr<N>, rest: Seq<u8>)
    requires
        encode_utf8(f@).len() <= N,
        encode_utf8(f@).len() <= i32::MAX,
    ensures
        f.spec_serialize() == Ok::<Seq<u8>, Error>(str_bytes(f@)),
        FixedStr::<N>::spec_can_deserialize(f.spec_serialize().unwrap() + rest, ()),
        FixedStr::<N>::spec_deserialize(f.spec_serialize().unwrap() + rest, ()) == Ok::<(Seq<char>, nat), Error>(
            (f@, f.spec_serialize().unwrap().len()),
        ),
{
    lemma_str_reads_as_fixed::<N>(f@, rest);
}

/// Bytes given as JSON read back as written, whatever follows them.
pub proof fn lemma_json_roundtrip(j: Json, rest: Seq<u8>)
    requires
        j.0@.len() <= i32::MAX,
    ensures
        Json::spec_can_deserialize(j.spec_serialize().unwrap() + rest, ()),
        Json::spec_deserialize(j.spec_serialize().unwrap() + rest, ()) == Ok::<(Seq<u8>, nat), Error>(
            (j.0@, prefixed(j.0@).len()),
        ),
{
    let b = j.0@;
    let x = b.len() as i32;
    assert(((x as u32) as nat) == b.len());
    let t = prefixed(b) + rest;
    assert(t =~= leb_encode(b.len()) + (b + rest));
    lemma_i32_roundtrip(x, b + rest);
    let n = leb_encode(b.len()).len();
    assert(t.subrange(n as int, (n + b.len()) as int) =~= b);
}

/// A game mode reads back as written, whatever follows it.
pub proof fn lemma_game_mode_roundtrip(g: GameMode, rest: Seq<u8>)
    ensures
        GameMode::spec_deserialize(g.spec_serialize().unwrap() + rest, ()) == Ok::<(GameMode, nat), Error>((g, 1)),
{
    assert((seq![g.spec_byte()] + rest)[0] == g.spec_byte());
}

/// A previous game mode reads back as written, whatever follows it.
pub proof fn lemma_previous_game_mode_roundtrip(g: PreviousGameMode, rest: Seq<u8>)
    ensures
        PreviousGameMode::spec_deserialize(g.spec_serialize().unwrap() + rest, ()) == Ok::<(PreviousGameMode, nat), Error>(
            (g, 1),
        ),
{
    assert((seq![g.spec_byte()] + rest)[0] == g.spec_byte());
}

/// Two values one after the other read back as written, whatever follows them,
/// when values of each type do.
pub proof fn lemma_pair_reads_back<A: Serialize + Deserialize<Context = ()>, B: Serialize + Deserialize<
    Context = (),
>>()
    requires
        reads_back::<A>(),
        reads_back::<B>(),
    ensures
        reads_back::<(A, B)>(),
{
    assert forall|x: (A, B), r: Seq<u8>|
        #![trigger <(A, B)>::spec_deserialize(x.spec_serialize().unwrap() + r, ())]
        x.spec_serialize() is Ok && <(A, B)>::spec_deserialize(x.spec_serialize().unwrap() + r, ()) == Ok::<
            ((A::V, B::V), nat),
            Error,
        >((x.deep_view(), x.spec_serialize().unwrap().len())) by {
        let wa = x.0.spec_serialize().unwrap();
        let wb = x.1.spec_serialize().unwrap();
        assert(A::spec_deserialize(wa + (wb + r), ()) == Ok::<(A::V, nat), Error>((x.0.deep_view(), wa.len())));
        assert(B::spec_deserialize(wb + r, ()) == Ok::<(B::V, nat), Error>((x.1.deep_view(), wb.len())));
        assert(x.spec_serialize().unwrap() + r =~= wa + (wb + r));
        assert((wa + (wb + r)).skip(wa.len() as int) =~= wb + r);
    }
}

/// A UUID reads back as written, whatever follows it.
pub proof fn lemma_uuid_roundtrip(u: Uuid, rest: Seq<u8>)
    ensures
        Uuid::spec_deserialize(u.spec_serialize().unwrap() + rest, ()) == Ok::<(u128, nat), Error>((u.0, 16)),
{
    lemma_pow256_values();
    lemma_be_roundtrip_exact(u.0 as nat, 16);
    assert((be_bytes(u.0 as nat, 16) + rest).take(16) =~= be_bytes(u.0 as nat, 16));
}

/// An optional value reads back as written, whatever follows it, when values of
/// its type do.
pub proof fn lemma_option_roundtrip<T: Serialize + Deserialize<Context = ()>>(x: Option<T>, rest: Seq<u8>)
    requires
        reads_back::<T>(),
    ensures
        x.spec_serialize() is Ok,
        Option::<T>::spec_deserialize(x.spec_serialize().unwrap() + rest, ()) == Ok::<(Option<T::V>, nat), Error>(
            (x.deep_view(), x.spec_serialize().unwrap().len()),
        ),
{
    match x {
        Some(v) => {
            let w = v.spec_serialize().unwrap();
            assert(T::spec_deserialize(w + rest, ()) == Ok::<(T::V, nat), Error>((v.deep_view(), w.len())));
            assert((seq![1u8] + w + rest).skip(1) =~= w + rest);
            assert((seq![1u8] + w + rest)[0] == 1u8);
        },
        None => {
            assert((seq![0u8] + rest)[0] == 0u8);
        },
    }
}

/// Flags read back as written, whatever follows them.
pub proof fn lemma_abilities_roundtrip(a: Abilities, rest: Seq<u8>)
    requires
        crate::packets::play::known_flags(a.spec_bits()),
    ensures
        Abilities::spec_deserialize(a.spec_serialize().unwrap() + rest, ()) == Ok::<(u8, nat), Error>(
            (a.spec_bits(), 1),
        ),
{
    assert((seq![a.spec_bits()] + rest)[0] == a.spec_bits());
}

/// A difficulty reads back as written, whatever follows it.
pub proof fn lemma_difficulty_roundtrip(d: Difficulty, rest: Seq<u8>)
    ensures
        Difficulty::spec_deserialize(d.spec_serialize().unwrap() + rest, ()) == Ok::<(Difficulty, nat), Error>((d, 1)),
{
    assert((seq![d.spec_byte()] + rest)[0] == d.spec_byte());
}

/// A ping reads back as written, whatever follows it.
pub proof fn lemma_ping_roundtrip(p: PingRequest, rest: Seq<u8>, cx: PacketContext)
    ensures
        PingRequest::spec_deserialize(p.spec_serialize().unwrap() + rest, cx) == Ok::<(i64, nat), Error>(
            (p.payload, 8),
        ),
{
    lemma_i64_reads_back();
    assert(<i64 as Deserialize>::spec_deserialize(p.payload.spec_serialize().unwrap() + rest, ()) == Ok::<
        (i64, nat),
        Error,
    >((p.payload, p.payload.spec_serialize().unwrap().len())));
    crate::bytes_be::lemma_be_bytes_len((p.payload as u64) as nat, 8);
}

/// An answer to a ping reads back as written, whatever follows it.
pub proof fn lemma_pong_roundtrip(p: PongResponse, rest: Seq<u8>, cx: PacketContext)
    ensures
        PongResponse::spec_deserialize(p.spec_serialize().unwrap() + rest, cx) == Ok::<(i64, nat), Error>(
            (p.payload, 8),
        ),
{
    lemma_i64_reads_back();
    assert(<i64 as Deserialize>::spec_deserialize(p.payload.spec_serialize().unwrap() + rest, ()) == Ok::<
        (i64, nat),
        Error,
    >((p.payload, p.payload.spec_serialize().unwrap().len())));
    crate::bytes_be::lemma_be_bytes_len((p.payload as u64) as nat, 8);
}

/// A change of difficulty reads back as written, whatever follows it.
pub proof fn lemma_change_difficulty_roundtrip(c: ChangeDifficulty, rest: Seq<u8>, cx: PacketContext)
    ensures
        ChangeDifficulty::spec_deserialize(c.spec_serialize().unwrap() + rest, cx) == Ok::<
            ((Difficulty, bool), nat),
            Error,
        >(((c.difficulty, c.difficulty_locked), 2)),
{
    let b = if c.difficulty_locked {
        1u8
    } else {
        0u8
    };
    let w = seq![c.difficulty.spec_byte()] + seq![b];
    assert(c.spec_serialize().unwrap() == w);
    let t = w + rest;
    assert(t[0] == c.difficulty.spec_byte());
    assert(t.skip(1) =~= seq![b] + rest);
    assert((seq![b] + rest)[0] == b);
}

/// The abilities of a player read back as written, whatever follows them.
pub proof fn lemma_player_abilities_roundtrip(p: PlayerAbilities, rest: Seq<u8>, cx: PacketContext)
    requires
        crate::packets::play::known_flags(p.flags.spec_bits()),
    ensures
        PlayerAbilities::spec_deserialize(p.spec_serialize().unwrap() + rest, cx) == Ok::<
            ((u8, (u32, u32)), nat),
            Error,
        >(((p.flags.spec_bits(), (p.flying_speed, p.fov_modifier)), 9)),
{
    lemma_pow256_values();
    let a = be_bytes(p.flying_speed as nat, 4);
    let b = be_bytes(p.fov_modifier as nat, 4);
    lemma_be_roundtrip_exact(p.flying_speed as nat, 4);
    lemma_be_roundtrip_exact(p.fov_modifier as nat, 4);
    let t = seq![p.flags.spec_bits()] + (a + b) + rest;
    assert(p.spec_serialize().unwrap() + rest == t);
    assert(t[0] == p.flags.spec_bits());
    assert(t.skip(1) =~= a + (b + rest));
    assert((a + (b + rest)).take(4) =~= a);
    assert((a + (b + rest)).skip(4) =~= b + rest);
    assert((b + rest).take(4) =~= b);
}

/// The entries of a compound read back as written, whatever follows them, when
/// no name occurs twice and the values read back.
pub proof fn lemma_compound_roundtrip(e: Seq<(Seq<char>, NbtValue)>, rest: Seq<u8>)
    requires
        readable_entries(e),
        keys_unique(e),
    ensures
        parse_entries(entries_bytes(e).push(0) + rest, Seq::empty()) == crate::nbt::NbtParse::Done(
            e,
            entries_bytes(e).len() + 1,
        ),
{
    lemma_entries_roundtrip(e, rest, Seq::empty());
    assert(Seq::<(Seq<char>, NbtValue)>::empty() + e =~= e);
}

/// Text made of an identifier, `:` and an identifier.
pub open spec fn is_ident(t: Seq<char>) -> bool {
    t.len() > 0 && ident_start(t[0]) && forall|i: int| 0 <= i < t.len() ==> ident_continue(#[trigger] t[i])
}

/// The run of identifier characters at `i` in `t + more` ends where `t` does, when
/// all of `t` from `i` on continues an identifier and `more` does not start with one.
proof fn lemma_ident_end_at(t: Seq<char>, more: Seq<char>, i: nat)
    requires
        i <= t.len(),
        forall|j: int| i <= j < t.len() ==> ident_continue(#[trigger] t[j]),
        more.len() == 0 || !ident_continue(more[0]),
    ensures
        ident_end(t + more, i) == t.len(),
    decreases t.len() - i,
{
    if i < t.len() {
        assert((t + more)[i as int] == t[i as int]);
        lemma_ident_end_at(t, more, i + 1);
    } else if more.len() > 0 {
        assert((t + more)[i as int] == more[0]);
    }
}

/// The text `namespace:value` of two identifiers reads back as the two.
pub proof fn lemma_identifier_text_roundtrip(ns: Seq<char>, v: Seq<char>)
    requires
        is_ident(ns),
        is_ident(v),
    ensures
        parse_identifier(ns + seq![':'] + v) == Ok::<(Seq<char>, Seq<char>), Error>((ns, v)),
{
    let t = ns + seq![':'] + v;
    assert(!ident_continue(':'));
    assert(t =~= ns + (seq![':'] + v));
    assert((seq![':'] + v)[0] == ':');
    lemma_ident_end_at(ns, seq![':'] + v, 1);
    assert(t[0] == ns[0]);
    assert(t[ns.len() as int] == ':');
    assert(t =~= (ns + seq![':']) + v);
    assert(t[(ns.len() + 1) as int] == v[0]);
    lemma_ident_end_at_tail(ns + seq![':'], v);
    assert(t.subrange(0, ns.len() as int) =~= ns);
    assert(t.subrange((ns.len() + 1) as int, t.len() as int) =~= v);
}

/// The run of identifier characters after the first character of `v`, in `pre + v`,
/// ends at the end of `v`.
proof fn lemma_ident_end_at_tail(pre: Seq<char>, v: Seq<char>)
    requires
        is_ident(v),
    ensures
        ident_end(pre + v, pre.len() + 1) == (pre + v).len(),
{
    let t = pre + v;
    assert(t =~= t + Seq::<char>::empty());
    assert forall|j: int| pre.len() + 1 <= j < t.len() implies ident_continue(#[trigger] t[j]) by {
        assert(t[j] == v[j - pre.len()]);
    }
    lemma_ident_end_at(t, Seq::empty(), pre.len() + 1);
    assert(t + Seq::<char>::empty() =~= t);
}

} // verus!

verus! {

/// An identifier whose namespace and value are identifiers of the text grammar
/// reads back as written, whatever follows it: its namespace as `namespace_of`
/// reads the text (`minecraft` is the game's own).
pub proof fn lemma_identifier_roundtrip(i: crate::types::Identifier, rest: Seq<u8>)
    requires
        is_ident(crate::types::namespace_text(i.0)),
        is_ident(i.1@),
        encode_utf8(crate::types::identifier_text(i)).len() <= 32767,
    ensures
        i.spec_serialize() is Ok,
        crate::types::Identifier::spec_can_deserialize(i.spec_serialize().unwrap() + rest, ()),
        crate::types::Identifier::spec_deserialize(i.spec_serialize().unwrap() + rest, ()) == Ok::<
            ((Option<Seq<char>>, Seq<char>), nat),
            Error,
        >(((crate::types::namespace_of(crate::types::namespace_text(i.0)), i.1@), i.spec_serialize().unwrap().len())),
{
    let t = crate::types::identifier_text(i);
    assert(i.spec_serialize().unwrap() =~= str_bytes(t));
    lemma_str_reads_as_fixed::<32767>(t, rest);
    lemma_identifier_text_roundtrip(crate::types::namespace_text(i.0), i.1@);
}

/// A variable-length integer is written as its encoding and nothing else, so the
/// count that `length_of` gives is the count of bytes that writing it appends.
pub proof fn lemma_varint_written_length<T: LEB128Number>(v: VarInt<T>)
    ensures
        v.spec_can_serialize(),
        v.spec_serialize() == Ok::<Seq<u8>, Error>(v.spec_bytes()),
        v.spec_bytes().len() == leb_encode(v.0.spec_unsigned()).len(),
{
}

} // verus!
