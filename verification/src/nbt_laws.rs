//! What reading NBT gives back of what was written.
use crate::bytes_be::{
    be_bytes, be_value, lemma_be_bytes_len, lemma_be_roundtrip_exact, lemma_i32_be_roundtrip,
    lemma_i64_be_roundtrip, lemma_pow256_values, spec_read_be,
};
use crate::error::Error;
use crate::nbt::{
    count_bytes, entries_bytes, items_bytes, lemma_entries_insert_absent, parse_array, parse_entries,
    parse_items, parse_named, parse_string, parse_value, parse_values, string_bytes, tag_byte, tag_of,
    tag_of_byte, value_bytes, values_bytes, named_bytes, parse_tag, NbtParse, NbtTagType, NbtValue,
};
use crate::ser::{deep_views, Deserialize, Serialize};
use vstd::prelude::*;
use vstd::utf8::{decode_utf8, encode_utf8, encode_utf8_decode_utf8, encode_utf8_valid_utf8, valid_utf8};

verus! {

/// Reading back a written string gives it back, whatever follows it.
pub proof fn lemma_string_roundtrip(s: Seq<char>, rest: Seq<u8>)
    requires
        encode_utf8(s).len() <= 0xffff,
    ensures
        parse_string(string_bytes(s) + rest) == Ok::<(Seq<char>, nat), Error>(
            (s, string_bytes(s).len()),
        ),
{
    let e = encode_utf8(s);
    let t = string_bytes(s) + rest;
    lemma_pow256_values();
    lemma_be_roundtrip_exact(e.len(), 2);
    assert(t.take(2) =~= be_bytes(e.len(), 2));
    assert(t.subrange(2, (2 + e.len()) as int) =~= e);
    encode_utf8_valid_utf8(s);
    encode_utf8_decode_utf8(s);
}

} // verus!

verus! {

/// Every value of `T` is written without error and read back from the front of
/// anything that starts with its bytes.
pub open spec fn reads_back<T: Serialize + Deserialize<Context = ()>>() -> bool {
    forall|x: T, r: Seq<u8>|
        #![trigger T::spec_deserialize(x.spec_serialize().unwrap() + r, ())]
        x.spec_serialize() is Ok && T::spec_deserialize(x.spec_serialize().unwrap() + r, ())
            == Ok::<(T::V, nat), Error>((x.deep_view(), x.spec_serialize().unwrap().len()))
}

pub proof fn lemma_i8_reads_back()
    ensures
        reads_back::<i8>(),
{
    assert forall|x: i8, r: Seq<u8>| #![trigger <i8 as Deserialize>::spec_deserialize(x.spec_serialize().unwrap() + r, ())]
        x.spec_serialize() is Ok && <i8 as Deserialize>::spec_deserialize(
            x.spec_serialize().unwrap() + r,
            (),
        ) == Ok::<(i8, nat), Error>((x, 1)) by {
        assert((seq![x as u8] + r)[0] == x as u8);
        assert(((x as u8) as i8) == x) by (bit_vector);
    }
}

pub proof fn lemma_i32_reads_back()
    ensures
        reads_back::<i32>(),
{
    assert forall|x: i32, r: Seq<u8>| #![trigger <i32 as Deserialize>::spec_deserialize(x.spec_serialize().unwrap() + r, ())]
        x.spec_serialize() is Ok && <i32 as Deserialize>::spec_deserialize(
            x.spec_serialize().unwrap() + r,
            (),
        ) == Ok::<(i32, nat), Error>((x, x.spec_serialize().unwrap().len())) by {
        lemma_i32_be_roundtrip(x, r);
        lemma_be_bytes_len((x as u32) as nat, 4);
    }
}

pub proof fn lemma_i64_reads_back()
    ensures
        reads_back::<i64>(),
{
    assert forall|x: i64, r: Seq<u8>| #![trigger <i64 as Deserialize>::spec_deserialize(x.spec_serialize().unwrap() + r, ())]
        x.spec_serialize() is Ok && <i64 as Deserialize>::spec_deserialize(
            x.spec_serialize().unwrap() + r,
            (),
        ) == Ok::<(i64, nat), Error>((x, x.spec_serialize().unwrap().len())) by {
        lemma_i64_be_roundtrip(x, r);
        lemma_be_bytes_len((x as u64) as nat, 8);
    }
}

/// The bytes of an array start with those of its first element.
pub proof fn lemma_items_bytes_front<T: Serialize>(a: Seq<T>)
    requires
        a.len() > 0,
    ensures
        items_bytes(a) == a[0].spec_serialize().unwrap() + items_bytes(a.drop_first()),
    decreases a.len(),
{
    if a.len() == 1 {
        assert(a.drop_last() =~= Seq::<T>::empty());
        assert(a.drop_first() =~= Seq::<T>::empty());
        assert(items_bytes(Seq::<T>::empty()) == Seq::<u8>::empty());
        assert(a.last() == a[0]);
        assert(items_bytes(a) =~= a[0].spec_serialize().unwrap());
    } else {
        lemma_items_bytes_front(a.drop_last());
        assert(a.drop_last().drop_first() =~= a.drop_first().drop_last());
        assert(a.drop_first().last() == a.last());
        assert(items_bytes(a) =~= a[0].spec_serialize().unwrap() + items_bytes(a.drop_first()));
    }
}

/// Reading `a.len()` elements back from their bytes gives them, after `acc`.
pub proof fn lemma_items_roundtrip<T: Serialize + Deserialize<Context = ()>>(
    a: Seq<T>,
    rest: Seq<u8>,
    acc: Seq<T::V>,
)
    requires
        reads_back::<T>(),
    ensures
        parse_items::<T>(items_bytes(a) + rest, a.len(), acc) == NbtParse::Done(
            acc + deep_views(a),
            items_bytes(a).len(),
        ),
    decreases a.len(),
{
    if a.len() == 0 {
        assert(acc + deep_views(a) =~= acc);
    } else {
        let w = a[0].spec_serialize().unwrap();
        let t = a.drop_first();
        lemma_items_bytes_front(a);
        let s = items_bytes(a) + rest;
        assert(s =~= w + (items_bytes(t) + rest));
        assert(T::spec_deserialize(w + (items_bytes(t) + rest), ()) == Ok::<(T::V, nat), Error>(
            (a[0].deep_view(), w.len()),
        ));
        assert(s.skip(w.len() as int) =~= items_bytes(t) + rest);
        lemma_items_roundtrip(t, rest, acc.push(a[0].deep_view()));
        assert(acc.push(a[0].deep_view()) + deep_views(t) =~= acc
            + deep_views(a));
    }
}

/// Reading back a written array gives it back, whatever follows it.
pub proof fn lemma_array_roundtrip<T: Serialize + Deserialize<Context = ()>>(a: Seq<T>, rest: Seq<u8>)
    requires
        reads_back::<T>(),
        a.len() <= i32::MAX,
    ensures
        parse_array::<T>(count_bytes(a.len()) + items_bytes(a) + rest) == NbtParse::Done(
            deep_views(a),
            4 + items_bytes(a).len(),
        ),
{
    let c = a.len() as i32;
    assert(((c as u32) as nat) == a.len());
    let s = count_bytes(a.len()) + items_bytes(a) + rest;
    assert(s =~= be_bytes((c as u32) as nat, 4) + (items_bytes(a) + rest));
    lemma_i32_be_roundtrip(c, items_bytes(a) + rest);
    lemma_be_bytes_len(a.len(), 4);
    assert(s.skip(4) =~= items_bytes(a) + rest);
    lemma_items_roundtrip(a, rest, Seq::empty());
    assert(Seq::<T::V>::empty() + deep_views(a) =~= deep_views(a));
}

} // verus!

verus! {

/// The values that read back as written: those that can be written, with no empty
/// list anywhere (an empty list is written as nothing) and no name twice in a compound.
pub open spec fn readable(v: NbtValue) -> bool
    decreases v,
{
    match v {
        NbtValue::ByteArray(a) => a.len() <= i32::MAX,
        NbtValue::IntArray(a) => a.len() <= i32::MAX,
        NbtValue::LongArray(a) => a.len() <= i32::MAX,
        NbtValue::String(s) => encode_utf8(s).len() <= 0xffff,
        NbtValue::List(l) => 0 < l.len() <= i32::MAX && readable_values(l, tag_of(l[0])),
        NbtValue::Compound(e) => readable_entries(e) && keys_unique(e),
        _ => true,
    }
}

/// All values of `l` read back and are of the kind `t`.
pub open spec fn readable_values(l: Seq<NbtValue>, t: NbtTagType) -> bool
    decreases l,
{
    if l.len() == 0 {
        true
    } else {
        tag_of(l[0]) == t && readable(l[0]) && readable_values(l.subrange(1, l.len() as int), t)
    }
}

/// All names of `e` fit in a string and all values read back.
pub open spec fn readable_entries(e: Seq<(Seq<char>, NbtValue)>) -> bool
    decreases e,
{
    if e.len() == 0 {
        true
    } else {
        encode_utf8(e[0].0).len() <= 0xffff && readable(e[0].1) && readable_entries(
            e.subrange(1, e.len() as int),
        )
    }
}

/// No name occurs twice in `e`.
pub open spec fn keys_unique(e: Seq<(Seq<char>, NbtValue)>) -> bool {
    forall|i: int, j: int| 0 <= i < j < e.len() ==> (#[trigger] e[i]).0 != (#[trigger] e[j]).0
}

pub proof fn lemma_tag_byte(t: NbtTagType)
    ensures
        tag_byte(t) <= 12,
        tag_of_byte(tag_byte(t)) == t,
        tag_byte(t) == 0 <==> t == NbtTagType::End,
{
}

/// Reading back a written number of fixed size gives it back.
proof fn lemma_number_roundtrip(v: NbtValue, rest: Seq<u8>)
    requires
        v is Byte || v is Short || v is Int || v is Long || v is Float || v is Double,
    ensures
        parse_value(value_bytes(v) + rest, tag_of(v)) == NbtParse::Done(
            Some(v),
            value_bytes(v).len(),
        ),
{
    let s = value_bytes(v) + rest;
    lemma_pow256_values();
    match v {
        NbtValue::Byte(b) => {
            assert(value_bytes(v) == seq![b as u8]);
            assert(s[0] == b as u8);
            assert(((b as u8) as i8) == b) by (bit_vector);
            assert(parse_value(s, NbtTagType::Byte) == NbtParse::Done(Some(NbtValue::Byte(b)), 1));
        },
        NbtValue::Short(x) => {
            lemma_be_roundtrip_exact((x as u16) as nat, 2);
            assert(s.take(2) =~= value_bytes(v));
            assert(((x as u16) as i16) == x) by (bit_vector);
        },
        NbtValue::Int(x) => {
            lemma_be_roundtrip_exact((x as u32) as nat, 4);
            assert(s.take(4) =~= value_bytes(v));
            assert(((x as u32) as i32) == x) by (bit_vector);
        },
        NbtValue::Long(x) => {
            lemma_be_roundtrip_exact((x as u64) as nat, 8);
            assert(s.take(8) =~= value_bytes(v));
            assert(((x as u64) as i64) == x) by (bit_vector);
        },
        NbtValue::Float(x) => {
            lemma_be_roundtrip_exact(x as nat, 4);
            assert(s.take(4) =~= value_bytes(v));
        },
        NbtValue::Double(x) => {
            lemma_be_roundtrip_exact(x as nat, 8);
            assert(s.take(8) =~= value_bytes(v));
        },
        _ => {},
    }
}

/// Reading back a written byte array gives it back.
#[verifier::spinoff_prover]
proof fn lemma_byte_array_roundtrip(a: Seq<i8>, rest: Seq<u8>)
    requires
        a.len() <= i32::MAX,
    ensures
        parse_array::<i8>(count_bytes(a.len()) + items_bytes(a) + rest) == NbtParse::Done(
            a,
            4 + items_bytes(a).len(),
        ),
{
    lemma_i8_reads_back();
    lemma_array_roundtrip::<i8>(a, rest);
    assert(deep_views(a) =~= a);
}

/// Reading back a written int array gives it back.
#[verifier::spinoff_prover]
proof fn lemma_int_array_roundtrip(a: Seq<i32>, rest: Seq<u8>)
    requires
        a.len() <= i32::MAX,
    ensures
        parse_array::<i32>(count_bytes(a.len()) + items_bytes(a) + rest) == NbtParse::Done(
            a,
            4 + items_bytes(a).len(),
        ),
{
    lemma_i32_reads_back();
    lemma_array_roundtrip::<i32>(a, rest);
    assert(deep_views(a) =~= a);
}

/// Reading back a written long array gives it back.
#[verifier::spinoff_prover]
proof fn lemma_long_array_roundtrip(a: Seq<i64>, rest: Seq<u8>)
    requires
        a.len() <= i32::MAX,
    ensures
        parse_array::<i64>(count_bytes(a.len()) + items_bytes(a) + rest) == NbtParse::Done(
            a,
            4 + items_bytes(a).len(),
        ),
{
    lemma_i64_reads_back();
    lemma_array_roundtrip::<i64>(a, rest);
    assert(deep_views(a) =~= a);
}

/// Reading back a written array or string gives it back.
#[verifier::spinoff_prover]
proof fn lemma_flat_roundtrip(v: NbtValue, rest: Seq<u8>)
    requires
        v is ByteArray || v is IntArray || v is LongArray || v is String,
        readable(v),
    ensures
        parse_value(value_bytes(v) + rest, tag_of(v)) == NbtParse::Done(
            Some(v),
            value_bytes(v).len(),
        ),
{
    let s = value_bytes(v) + rest;
    match v {
        NbtValue::ByteArray(a) => {
            lemma_byte_array_roundtrip(a, rest);
            lemma_be_bytes_len(a.len(), 4);
            assert(s =~= count_bytes(a.len()) + items_bytes(a) + rest);
        },
        NbtValue::IntArray(a) => {
            lemma_int_array_roundtrip(a, rest);
            lemma_be_bytes_len(a.len(), 4);
            assert(s =~= count_bytes(a.len()) + items_bytes(a) + rest);
        },
        NbtValue::LongArray(a) => {
            lemma_long_array_roundtrip(a, rest);
            lemma_be_bytes_len(a.len(), 4);
            assert(s =~= count_bytes(a.len()) + items_bytes(a) + rest);
        },
        NbtValue::String(x) => {
            lemma_string_roundtrip(x, rest);
        },
        _ => {},
    }
}

/// Reading back a written value of its own kind gives it back, whatever follows it.
pub proof fn lemma_value_roundtrip(v: NbtValue, rest: Seq<u8>)
    requires
        readable(v),
    ensures
        parse_value(value_bytes(v) + rest, tag_of(v)) == NbtParse::Done(
            Some(v),
            value_bytes(v).len(),
        ),
    decreases v, 0nat,
{
    let s = value_bytes(v) + rest;
    match v {
        NbtValue::List(l) => {
            let t = tag_of(l[0]);
            lemma_tag_byte(t);
            let c = l.len() as i32;
            assert(((c as u32) as nat) == l.len());
            lemma_be_bytes_len(l.len(), 4);
            assert(s[0] == tag_byte(t));
            assert(s.skip(1) =~= be_bytes((c as u32) as nat, 4) + (values_bytes(l) + rest));
            lemma_i32_be_roundtrip(c, values_bytes(l) + rest);
            assert(s.skip(5) =~= values_bytes(l) + rest);
            lemma_values_roundtrip(l, t, rest, Seq::empty());
            assert(Seq::<NbtValue>::empty() + l =~= l);
        },
        NbtValue::Compound(e) => {
            lemma_entries_roundtrip(e, rest, Seq::empty());
            assert(s =~= entries_bytes(e).push(0) + rest);
            assert(Seq::<(Seq<char>, NbtValue)>::empty() + e =~= e);
        },
        NbtValue::ByteArray(_) | NbtValue::IntArray(_) | NbtValue::LongArray(_) | NbtValue::String(_) => {
            lemma_flat_roundtrip(v, rest);
        },
        _ => {
            lemma_number_roundtrip(v, rest);
        },
    }
}

/// Reading back the written values of a list gives them, after `acc`.
pub proof fn lemma_values_roundtrip(l: Seq<NbtValue>, t: NbtTagType, rest: Seq<u8>, acc: Seq<NbtValue>)
    requires
        readable_values(l, t),
    ensures
        parse_values(values_bytes(l) + rest, t, l.len(), acc) == NbtParse::Done(
            acc + l,
            values_bytes(l).len(),
        ),
    decreases l, 0nat,
{
    if l.len() == 0 {
        assert(acc + l =~= acc);
    } else {
        let tail = l.subrange(1, l.len() as int);
        let s = values_bytes(l) + rest;
        assert(s =~= value_bytes(l[0]) + (values_bytes(tail) + rest));
        lemma_value_roundtrip(l[0], values_bytes(tail) + rest);
        assert(s.skip(value_bytes(l[0]).len() as int) =~= values_bytes(tail) + rest);
        lemma_values_roundtrip(tail, t, rest, acc.push(l[0]));
        assert(acc.push(l[0]) + tail =~= acc + l);
    }
}

/// Reading back a written named tag gives it back, whatever follows it.
#[verifier::spinoff_prover]
pub proof fn lemma_named_roundtrip(name: Seq<char>, v: NbtValue, rest: Seq<u8>)
    requires
        encode_utf8(name).len() <= 0xffff,
        readable(v),
    ensures
        parse_named(named_bytes(name, v) + rest) == NbtParse::Done(
            Some((name, v)),
            named_bytes(name, v).len(),
        ),
    decreases v, 1nat,
{
    let t = tag_of(v);
    lemma_tag_byte(t);
    let sb = string_bytes(name);
    let vb = value_bytes(v);
    let s = named_bytes(name, v) + rest;
    assert(s =~= seq![tag_byte(t)] + (sb + (vb + rest)));
    assert(s[0] == tag_byte(t));
    assert(s.skip(1) =~= sb + (vb + rest));
    lemma_string_roundtrip(name, vb + rest);
    assert(s.skip((1 + sb.len()) as int) =~= vb + rest);
    lemma_value_roundtrip(v, rest);
}

/// Reading back the written entries of a compound and its end tag gives them, after
/// `acc`, when no name occurs twice, in them or in `acc`.
#[verifier::spinoff_prover]
#[verifier::rlimit(40)]
pub proof fn lemma_entries_roundtrip(
    e: Seq<(Seq<char>, NbtValue)>,
    rest: Seq<u8>,
    acc: Seq<(Seq<char>, NbtValue)>,
)
    requires
        readable_entries(e),
        keys_unique(e),
        forall|i: int, j: int| 0 <= i < e.len() && 0 <= j < acc.len() ==> (#[trigger] e[i]).0 != (
        #[trigger] acc[j]).0,
    ensures
        parse_entries(entries_bytes(e).push(0) + rest, acc) == NbtParse::Done(
            acc + e,
            entries_bytes(e).len() + 1,
        ),
    decreases e, 0nat,
{
    let s = entries_bytes(e).push(0) + rest;
    if e.len() == 0 {
        assert(entries_bytes(e) == Seq::<u8>::empty());
        assert(s[0] == 0);
        lemma_tag_byte(NbtTagType::End);
        assert(parse_tag(s) == Ok::<(NbtTagType, nat), Error>((NbtTagType::End, 1)));
        assert(parse_named(s) == NbtParse::<Option<(Seq<char>, NbtValue)>>::Done(None, 1));
        assert(acc + e =~= acc);
    } else {
        let (name, v) = e[0];
        let tail = e.subrange(1, e.len() as int);
        let nb = named_bytes(name, v);
        assert(s =~= nb + (entries_bytes(tail).push(0) + rest));
        lemma_named_roundtrip(name, v, entries_bytes(tail).push(0) + rest);
        let n = nb.len();
        assert(s.skip(n as int) =~= entries_bytes(tail).push(0) + rest);
        assert forall|j: int| 0 <= j < acc.len() implies (#[trigger] acc[j]).0 != name by {
            assert(e[0].0 != acc[j].0);
        }
        lemma_entries_insert_absent(acc, name, v);
        assert forall|i: int, j: int| 0 <= i < tail.len() && 0 <= j < acc.push((name, v)).len()
            implies (#[trigger] tail[i]).0 != (#[trigger] acc.push((name, v))[j]).0 by {
            assert(tail[i] == e[i + 1]);
            if j < acc.len() {
                assert(acc.push((name, v))[j] == acc[j]);
            } else {
                assert(e[0].0 != e[i + 1].0);
            }
        }
        assert forall|i: int, j: int| 0 <= i < j < tail.len() implies (#[trigger] tail[i]).0 != (
        #[trigger] tail[j]).0 by {
            assert(tail[i] == e[i + 1]);
            assert(tail[j] == e[j + 1]);
        }
        lemma_entries_roundtrip(tail, rest, acc.push((name, v)));
        assert(acc.push((name, v)) + tail =~= acc + e);
    }
}

} // verus!
