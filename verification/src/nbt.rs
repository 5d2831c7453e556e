//! NBT, the tree format of Minecraft, as the protocol writes it: a tag byte for the
//! kind of each value, strings with a two-byte length, numbers big-endian.
use crate::bytes_be::{be_bytes, be_value, lemma_pow256_values, put_be, read_be, spec_read_be};
use crate::ser::{copy_range, Deserialize, Serialize};
use vstd::utf8::{decode_utf8, encode_utf8, valid_utf8};
use crate::error::{Error, Label, NbtError, NbtExpected, SerializationError};
use vstd::prelude::*;

verus! {

/// The kinds of NBT values, with the tag byte each is written with (in order,
/// from 0 for `End` to 12 for `LongArray`).
#[derive(Clone, Copy, Debug, PartialEq, Eq, Structural)]
pub enum NbtTagType {
    End,
    Byte,
    Short,
    Int,
    Long,
    Float,
    Double,
    ByteArray,
    String,
    List,
    Compound,
    IntArray,
    LongArray,
}

/// An NBT value. Floating-point numbers are held as their IEEE 754 bits.
#[derive(Debug)]
pub enum Nbt {
    Byte(i8),
    Short(i16),
    Int(i32),
    Long(i64),
    Float(u32),
    Double(u64),
    ByteArray(Vec<i8>),
    String(String),
    List(Vec<Nbt>),
    Compound(Vec<(String, Nbt)>),
    IntArray(Vec<i32>),
    LongArray(Vec<i64>),
}

/// The mathematical form of an NBT value.
pub enum NbtValue {
    Byte(i8),
    Short(i16),
    Int(i32),
    Long(i64),
    Float(u32),
    Double(u64),
    ByteArray(Seq<i8>),
    String(Seq<char>),
    List(Seq<NbtValue>),
    Compound(Seq<(Seq<char>, NbtValue)>),
    IntArray(Seq<i32>),
    LongArray(Seq<i64>),
}

pub open spec fn nbt_view(v: Nbt) -> NbtValue
    decreases v,
{
    match v {
        Nbt::Byte(b) => NbtValue::Byte(b),
        Nbt::Short(b) => NbtValue::Short(b),
        Nbt::Int(b) => NbtValue::Int(b),
        Nbt::Long(b) => NbtValue::Long(b),
        Nbt::Float(b) => NbtValue::Float(b),
        Nbt::Double(b) => NbtValue::Double(b),
        Nbt::ByteArray(a) => NbtValue::ByteArray(a@),
        Nbt::String(s) => NbtValue::String(s@),
        Nbt::List(l) => NbtValue::List(nbt_view_seq(l@)),
        Nbt::Compound(c) => NbtValue::Compound(nbt_view_entries(c@)),
        Nbt::IntArray(a) => NbtValue::IntArray(a@),
        Nbt::LongArray(a) => NbtValue::LongArray(a@),
    }
}

pub open spec fn nbt_view_seq(s: Seq<Nbt>) -> Seq<NbtValue>
    decreases s,
{
    if s.len() == 0 {
        Seq::empty()
    } else {
        seq![nbt_view(s[0])] + nbt_view_seq(s.subrange(1, s.len() as int))
    }
}

pub open spec fn nbt_view_entries(s: Seq<(String, Nbt)>) -> Seq<(Seq<char>, NbtValue)>
    decreases s,
{
    if s.len() == 0 {
        Seq::empty()
    } else {
        seq![(s[0].0@, nbt_view(s[0].1))] + nbt_view_entries(s.subrange(1, s.len() as int))
    }
}

} // verus!

verus! {

/// The tag byte of a kind of value.
pub open spec fn tag_byte(t: NbtTagType) -> u8 {
    match t {
        NbtTagType::End => 0,
        NbtTagType::Byte => 1,
        NbtTagType::Short => 2,
        NbtTagType::Int => 3,
        NbtTagType::Long => 4,
        NbtTagType::Float => 5,
        NbtTagType::Double => 6,
        NbtTagType::ByteArray => 7,
        NbtTagType::String => 8,
        NbtTagType::List => 9,
        NbtTagType::Compound => 10,
        NbtTagType::IntArray => 11,
        NbtTagType::LongArray => 12,
    }
}

/// The kind of value that a tag byte from 0 to 12 stands for.
pub open spec fn tag_of_byte(b: u8) -> NbtTagType {
    if b == 0 {
        NbtTagType::End
    } else if b == 1 {
        NbtTagType::Byte
    } else if b == 2 {
        NbtTagType::Short
    } else if b == 3 {
        NbtTagType::Int
    } else if b == 4 {
        NbtTagType::Long
    } else if b == 5 {
        NbtTagType::Float
    } else if b == 6 {
        NbtTagType::Double
    } else if b == 7 {
        NbtTagType::ByteArray
    } else if b == 8 {
        NbtTagType::String
    } else if b == 9 {
        NbtTagType::List
    } else if b == 10 {
        NbtTagType::Compound
    } else if b == 11 {
        NbtTagType::IntArray
    } else {
        NbtTagType::LongArray
    }
}

/// The kind of a value.
pub open spec fn tag_of(v: NbtValue) -> NbtTagType {
    match v {
        NbtValue::Byte(_) => NbtTagType::Byte,
        NbtValue::Short(_) => NbtTagType::Short,
        NbtValue::Int(_) => NbtTagType::Int,
        NbtValue::Long(_) => NbtTagType::Long,
        NbtValue::Float(_) => NbtTagType::Float,
        NbtValue::Double(_) => NbtTagType::Double,
        NbtValue::ByteArray(_) => NbtTagType::ByteArray,
        NbtValue::String(_) => NbtTagType::String,
        NbtValue::List(_) => NbtTagType::List,
        NbtValue::Compound(_) => NbtTagType::Compound,
        NbtValue::IntArray(_) => NbtTagType::IntArray,
        NbtValue::LongArray(_) => NbtTagType::LongArray,
    }
}

/// A string as NBT writes it: the length of its UTF-8 bytes in two bytes, then the bytes.
pub open spec fn string_bytes(s: Seq<char>) -> Seq<u8> {
    be_bytes(encode_utf8(s).len(), 2) + encode_utf8(s)
}

/// The bytes of the elements of an array, each written as it writes itself.
pub open spec fn items_bytes<T: Serialize>(a: Seq<T>) -> Seq<u8>
    decreases a.len(),
{
    if a.len() == 0 {
        Seq::empty()
    } else {
        items_bytes(a.drop_last()) + a.last().spec_serialize().unwrap()
    }
}

/// An array count as NBT writes it: four bytes, big-endian.
pub open spec fn count_bytes(n: nat) -> Seq<u8> {
    be_bytes(n, 4)
}

/// The bytes of a value, without its tag (what `serialize_value` writes).
pub open spec fn value_bytes(v: NbtValue) -> Seq<u8>
    decreases v,
{
    match v {
        NbtValue::Byte(b) => seq![b as u8],
        NbtValue::Short(x) => be_bytes((x as u16) as nat, 2),
        NbtValue::Int(x) => be_bytes((x as u32) as nat, 4),
        NbtValue::Long(x) => be_bytes((x as u64) as nat, 8),
        NbtValue::Float(x) => be_bytes(x as nat, 4),
        NbtValue::Double(x) => be_bytes(x as nat, 8),
        NbtValue::ByteArray(a) => count_bytes(a.len()) + items_bytes(a),
        NbtValue::String(s) => string_bytes(s),
        NbtValue::List(l) => if l.len() == 0 {
            Seq::empty()
        } else {
            seq![tag_byte(tag_of(l[0]))] + count_bytes(l.len()) + values_bytes(l)
        },
        NbtValue::Compound(e) => entries_bytes(e).push(0),
        NbtValue::IntArray(a) => count_bytes(a.len()) + items_bytes(a),
        NbtValue::LongArray(a) => count_bytes(a.len()) + items_bytes(a),
    }
}

/// The bytes of the values of a list, one after the other.
pub open spec fn values_bytes(l: Seq<NbtValue>) -> Seq<u8>
    decreases l,
{
    if l.len() == 0 {
        Seq::empty()
    } else {
        value_bytes(l[0]) + values_bytes(l.subrange(1, l.len() as int))
    }
}

/// A named tag: the tag byte of the value, the name, the value.
pub open spec fn named_bytes(name: Seq<char>, v: NbtValue) -> Seq<u8> {
    seq![tag_byte(tag_of(v))] + string_bytes(name) + value_bytes(v)
}

/// The bytes of the entries of a compound, as named tags one after the other.
pub open spec fn entries_bytes(e: Seq<(Seq<char>, NbtValue)>) -> Seq<u8>
    decreases e,
{
    if e.len() == 0 {
        Seq::empty()
    } else {
        seq![tag_byte(tag_of(e[0].1))] + string_bytes(e[0].0) + value_bytes(e[0].1) + entries_bytes(
            e.subrange(1, e.len() as int),
        )
    }
}

/// The values that can be written without a panic: strings and names of at most
/// 65535 bytes, arrays and lists of at most `i32::MAX` elements, and lists whose
/// values are all of the kind of the first.
pub open spec fn can_write(v: NbtValue) -> bool
    decreases v,
{
    match v {
        NbtValue::ByteArray(a) => a.len() <= i32::MAX,
        NbtValue::IntArray(a) => a.len() <= i32::MAX,
        NbtValue::LongArray(a) => a.len() <= i32::MAX,
        NbtValue::String(s) => encode_utf8(s).len() <= 0xffff,
        NbtValue::List(l) => l.len() <= i32::MAX && can_write_values(l, if l.len() == 0 {
            NbtTagType::End
        } else {
            tag_of(l[0])
        }),
        NbtValue::Compound(e) => can_write_entries(e),
        _ => true,
    }
}

/// All values of `l` can be written and are of the kind `t`.
pub open spec fn can_write_values(l: Seq<NbtValue>, t: NbtTagType) -> bool
    decreases l,
{
    if l.len() == 0 {
        true
    } else {
        tag_of(l[0]) == t && can_write(l[0]) && can_write_values(l.subrange(1, l.len() as int), t)
    }
}

/// All entries of a compound can be written.
pub open spec fn can_write_entries(e: Seq<(Seq<char>, NbtValue)>) -> bool
    decreases e,
{
    if e.len() == 0 {
        true
    } else {
        encode_utf8(e[0].0).len() <= 0xffff && can_write(e[0].1) && can_write_entries(
            e.subrange(1, e.len() as int),
        )
    }
}

} // verus!

verus! {

pub proof fn lemma_view_seq(s: Seq<Nbt>)
    ensures
        nbt_view_seq(s).len() == s.len(),
        forall|i: int| 0 <= i < s.len() ==> #[trigger] nbt_view_seq(s)[i] == nbt_view(s[i]),
    decreases s.len(),
{
    if s.len() > 0 {
        lemma_view_seq(s.subrange(1, s.len() as int));
        assert forall|i: int| 0 <= i < s.len() implies #[trigger] nbt_view_seq(s)[i] == nbt_view(
            s[i],
        ) by {
            if i > 0 {
                assert(s.subrange(1, s.len() as int)[i - 1] == s[i]);
            }
        }
    }
}

pub proof fn lemma_view_entries(s: Seq<(String, Nbt)>)
    ensures
        nbt_view_entries(s).len() == s.len(),
        forall|i: int|
            0 <= i < s.len() ==> #[trigger] nbt_view_entries(s)[i] == (s[i].0@, nbt_view(s[i].1)),
    decreases s.len(),
{
    if s.len() > 0 {
        lemma_view_entries(s.subrange(1, s.len() as int));
        assert forall|i: int| 0 <= i < s.len() implies #[trigger] nbt_view_entries(s)[i] == (
            s[i].0@,
            nbt_view(s[i].1),
        ) by {
            if i > 0 {
                assert(s.subrange(1, s.len() as int)[i - 1] == s[i]);
            }
        }
    }
}

pub proof fn lemma_values_bytes_push(l: Seq<NbtValue>, v: NbtValue)
    ensures
        values_bytes(l.push(v)) == values_bytes(l) + value_bytes(v),
    decreases l.len(),
{
    if l.len() == 0 {
        assert(l.push(v).subrange(1, 1) =~= Seq::<NbtValue>::empty());
        assert(l.push(v)[0] == v);
        assert(values_bytes(Seq::<NbtValue>::empty()) == Seq::<u8>::empty());
        assert(values_bytes(l.push(v)) =~= value_bytes(v));
    } else {
        let t = l.subrange(1, l.len() as int);
        assert(l.push(v).subrange(1, (l.len() + 1) as int) =~= t.push(v));
        lemma_values_bytes_push(t, v);
        assert(values_bytes(l.push(v)) =~= values_bytes(l) + value_bytes(v));
    }
}

pub proof fn lemma_entries_bytes_push(e: Seq<(Seq<char>, NbtValue)>, x: (Seq<char>, NbtValue))
    ensures
        entries_bytes(e.push(x)) == entries_bytes(e) + named_bytes(x.0, x.1),
    decreases e.len(),
{
    if e.len() == 0 {
        assert(e.push(x).subrange(1, 1) =~= Seq::<(Seq<char>, NbtValue)>::empty());
        assert(e.push(x)[0] == x);
        assert(entries_bytes(Seq::<(Seq<char>, NbtValue)>::empty()) == Seq::<u8>::empty());
        assert(entries_bytes(e.push(x)) =~= named_bytes(x.0, x.1));
    } else {
        let t = e.subrange(1, e.len() as int);
        assert(e.push(x).subrange(1, (e.len() + 1) as int) =~= t.push(x));
        lemma_entries_bytes_push(t, x);
        assert(entries_bytes(e.push(x)) =~= entries_bytes(e) + named_bytes(x.0, x.1));
    }
}

pub proof fn lemma_can_write_values(l: Seq<NbtValue>, t: NbtTagType)
    requires
        can_write_values(l, t),
    ensures
        forall|i: int| 0 <= i < l.len() ==> tag_of(#[trigger] l[i]) == t && can_write(l[i]),
    decreases l.len(),
{
    if l.len() > 0 {
        lemma_can_write_values(l.subrange(1, l.len() as int), t);
        assert forall|i: int| 0 <= i < l.len() implies tag_of(#[trigger] l[i]) == t && can_write(
            l[i],
        ) by {
            if i > 0 {
                assert(l.subrange(1, l.len() as int)[i - 1] == l[i]);
            }
        }
    }
}

pub proof fn lemma_can_write_entries(e: Seq<(Seq<char>, NbtValue)>)
    requires
        can_write_entries(e),
    ensures
        forall|i: int|
            0 <= i < e.len() ==> encode_utf8((#[trigger] e[i]).0).len() <= 0xffff && can_write(
                e[i].1,
            ),
    decreases e.len(),
{
    if e.len() > 0 {
        lemma_can_write_entries(e.subrange(1, e.len() as int));
        assert forall|i: int| 0 <= i < e.len() implies encode_utf8((#[trigger] e[i]).0).len()
            <= 0xffff && can_write(e[i].1) by {
            if i > 0 {
                assert(e.subrange(1, e.len() as int)[i - 1] == e[i]);
            }
        }
    }
}

impl NbtTagType {
    /// The tag byte of `self`.
    pub fn byte(&self) -> (r: u8)
        ensures
            r == tag_byte(*self),
    {
        match self {
            NbtTagType::End => 0,
            NbtTagType::Byte => 1,
            NbtTagType::Short => 2,
            NbtTagType::Int => 3,
            NbtTagType::Long => 4,
            NbtTagType::Float => 5,
            NbtTagType::Double => 6,
            NbtTagType::ByteArray => 7,
            NbtTagType::String => 8,
            NbtTagType::List => 9,
            NbtTagType::Compound => 10,
            NbtTagType::IntArray => 11,
            NbtTagType::LongArray => 12,
        }
    }
}

/// Appends a string as NBT writes it.
fn put_string(buf: &mut Vec<u8>, s: &str)
    requires
        encode_utf8(s@).len() <= 0xffff,
    ensures
        final(buf)@ == old(buf)@ + string_bytes(s@),
{
    let len = s.len();
    put_be(buf, len as u128, 2);
    crate::ser::put_slice(buf, s.as_bytes());
    assert(final(buf)@ =~= old(buf)@ + string_bytes(s@));
}

/// An array of NBT numbers.
#[derive(Debug, Clone)]
pub struct SmolArray<T>(pub Vec<T>);

/// All elements can be written, each without an error.
pub open spec fn all_writable<T: Serialize>(a: Seq<T>) -> bool {
    forall|i: int| 0 <= i < a.len() ==> (#[trigger] a[i]).spec_can_serialize() && a[i].spec_serialize() is Ok
}

impl<T> SmolArray<T> {
    pub fn new(vec: Vec<T>) -> (r: SmolArray<T>)
        ensures
            r.0 == vec,
    {
        SmolArray(vec)
    }

    /// Appends the count of `slc` in four bytes, then its elements.
    pub fn serialize_slice(slc: &[T], buf: &mut Vec<u8>)
        where
            T: Serialize,
        requires
            slc@.len() <= i32::MAX,
            all_writable(slc@),
        ensures
            final(buf)@ == old(buf)@ + count_bytes(slc@.len()) + items_bytes(slc@),
    {
        put_be(buf, slc.len() as u128, 4);
        let ghost start = buf@;
        let mut i: usize = 0;
        while i < slc.len()
            invariant
                i <= slc@.len(),
                all_writable(slc@),
                buf@ == start + items_bytes(slc@.take(i as int)),
            decreases slc.len() - i,
        {
            let _ = slc[i].serialize_to(buf);
            proof {
                assert(slc@.take(i + 1).drop_last() =~= slc@.take(i as int));
                assert(slc@.take(i + 1).last() == slc@[i as int]);
            }
            i = i + 1;
        }
        assert(slc@.take(slc@.len() as int) =~= slc@);
    }
}

/// A named tag of a compound: the kind of the value, its name, the value.
pub struct NbtNamed {
    pub tag: NbtTagType,
    pub name: String,
    pub value: Nbt,
}

impl NbtNamed {
    /// Appends a named tag: the tag byte, the name, the value.
    pub fn serialize_named(tag: NbtTagType, name: &str, value: &Nbt, buf: &mut Vec<u8>)
        requires
            encode_utf8(name@).len() <= 0xffff,
            can_write(nbt_view(*value)),
        ensures
            final(buf)@ == old(buf)@ + seq![tag_byte(tag)] + string_bytes(name@) + value_bytes(
                nbt_view(*value),
            ),
        decreases *value, 1nat,
    {
        buf.push(tag.byte());
        put_string(buf, name);
        value.serialize_value(buf);
        assert(final(buf)@ =~= old(buf)@ + seq![tag_byte(tag)] + string_bytes(name@) + value_bytes(
            nbt_view(*value),
        ));
    }
}

impl Nbt {
    /// The kind of `self`.
    pub fn tag(&self) -> (r: NbtTagType)
        ensures
            r == tag_of(nbt_view(*self)),
    {
        match self {
            Nbt::Byte(_) => NbtTagType::Byte,
            Nbt::ByteArray(_) => NbtTagType::ByteArray,
            Nbt::Compound(_) => NbtTagType::Compound,
            Nbt::Double(_) => NbtTagType::Double,
            Nbt::Float(_) => NbtTagType::Float,
            Nbt::Int(_) => NbtTagType::Int,
            Nbt::IntArray(_) => NbtTagType::IntArray,
            Nbt::List(_) => NbtTagType::List,
            Nbt::Long(_) => NbtTagType::Long,
            Nbt::LongArray(_) => NbtTagType::LongArray,
            Nbt::Short(_) => NbtTagType::Short,
            Nbt::String(_) => NbtTagType::String,
        }
    }

    /// Appends the bytes of `self`, without its tag.
    pub fn serialize_value(&self, buf: &mut Vec<u8>)
        requires
            can_write(nbt_view(*self)),
        ensures
            final(buf)@ == old(buf)@ + value_bytes(nbt_view(*self)),
        decreases *self, 0nat,
    {
        match self {
            Nbt::Byte(b) => {
                buf.push(*b as u8);
            },
            Nbt::ByteArray(ba) => {
                SmolArray::serialize_slice(ba.as_slice(), buf);
            },
            Nbt::Compound(compound) => {
                proof {
                    lemma_view_entries(compound@);
                }
                Self::serialize_compound(compound, buf);
            },
            Nbt::Double(d) => {
                put_be(buf, *d as u128, 8);
            },
            Nbt::Float(f) => {
                put_be(buf, *f as u128, 4);
            },
            Nbt::Int(i) => {
                put_be(buf, (*i as u32) as u128, 4);
            },
            Nbt::IntArray(ia) => {
                SmolArray::serialize_slice(ia.as_slice(), buf);
            },
            Nbt::List(list) => {
                Self::serialize_list(list, buf, true);
            },
            Nbt::Long(lg) => {
                put_be(buf, (*lg as u64) as u128, 8);
            },
            Nbt::LongArray(la) => {
                SmolArray::serialize_slice(la.as_slice(), buf);
            },
            Nbt::Short(s) => {
                put_be(buf, (*s as u16) as u128, 2);
            },
            Nbt::String(s) => {
                put_string(buf, s.as_str());
            },
        }
    }

    /// Appends the entries of a compound as named tags, then the end tag.
    pub fn serialize_compound(compound: &Vec<(String, Nbt)>, buf: &mut Vec<u8>)
        requires
            can_write_entries(nbt_view_entries(compound@)),
        ensures
            final(buf)@ == old(buf)@ + entries_bytes(nbt_view_entries(compound@)).push(0),
        decreases *compound, 0nat,
    {
        let ghost start = buf@;
        proof {
            lemma_view_entries(compound@);
            lemma_can_write_entries(nbt_view_entries(compound@));
        }
        let mut i: usize = 0;
        while i < compound.len()
            invariant
                i <= compound@.len(),
                nbt_view_entries(compound@).len() == compound@.len(),
                forall|j: int|
                    0 <= j < compound@.len() ==> #[trigger] nbt_view_entries(compound@)[j] == (
                        compound@[j].0@,
                        nbt_view(compound@[j].1),
                    ),
                forall|j: int|
                    0 <= j < compound@.len() ==> encode_utf8(
                        (#[trigger] nbt_view_entries(compound@)[j]).0,
                    ).len() <= 0xffff && can_write(nbt_view_entries(compound@)[j].1),
                buf@ == start + entries_bytes(nbt_view_entries(compound@).take(i as int)),
            decreases compound.len() - i,
        {
            let (name, value) = &compound[i];
            proof {
                assert(nbt_view_entries(compound@)[i as int] == (name@, nbt_view(*value)));
            }
            NbtNamed::serialize_named(value.tag(), name.as_str(), value, buf);
            proof {
                let e = nbt_view_entries(compound@);
                assert(e.take(i + 1) =~= e.take(i as int).push(e[i as int]));
                lemma_entries_bytes_push(e.take(i as int), e[i as int]);
            }
            i = i + 1;
        }
        buf.push(0);
        assert(nbt_view_entries(compound@).take(compound@.len() as int) =~= nbt_view_entries(
            compound@,
        ));
    }

    /// Appends a list: nothing for an empty list; otherwise the tag of the first
    /// value, the count in four bytes, and the values.
    pub fn serialize_list(list: &Vec<Nbt>, buf: &mut Vec<u8>, check_type: bool)
        requires
            can_write(NbtValue::List(nbt_view_seq(list@))),
        ensures
            final(buf)@ == old(buf)@ + value_bytes(NbtValue::List(nbt_view_seq(list@))),
        decreases *list, 0nat,
    {
        proof {
            lemma_view_seq(list@);
        }
        if list.len() == 0 {
            assert(final(buf)@ =~= old(buf)@ + value_bytes(NbtValue::List(nbt_view_seq(list@))));
            return;
        }
        let tag = list[0].tag();
        buf.push(tag.byte());
        put_be(buf, list.len() as u128, 4);
        let ghost start = buf@;
        let ghost l = nbt_view_seq(list@);
        proof {
            lemma_can_write_values(l, tag_of(l[0]));
        }
        let mut i: usize = 0;
        while i < list.len()
            invariant
                i <= list@.len(),
                l == nbt_view_seq(list@),
                l.len() == list@.len(),
                forall|j: int| 0 <= j < list@.len() ==> #[trigger] l[j] == nbt_view(list@[j]),
                forall|j: int| 0 <= j < l.len() ==> tag_of(#[trigger] l[j]) == tag && can_write(l[j]),
                buf@ == start + values_bytes(l.take(i as int)),
            decreases list.len() - i,
        {
            let item = &list[i];
            proof {
                assert(l[i as int] == nbt_view(*item));
            }
            if check_type && !tag_matches(&item.tag(), &tag) {
                assert(false);
            }
            item.serialize_value(buf);
            proof {
                assert(l.take(i + 1) =~= l.take(i as int).push(l[i as int]));
                lemma_values_bytes_push(l.take(i as int), l[i as int]);
            }
            i = i + 1;
        }
        assert(l.take(l.len() as int) =~= l);
        assert(final(buf)@ =~= old(buf)@ + value_bytes(NbtValue::List(nbt_view_seq(list@))));
    }
}

/// Whether two kinds are the same.
fn tag_matches(a: &NbtTagType, b: &NbtTagType) -> (r: bool)
    ensures
        r == (*a == *b),
{
    a.byte() == b.byte()
}

} // verus!

verus! {

/// How reading NBT ends: with a value and the count of bytes it took, or with an
/// error. `Panics` stands for a step that would take no bytes or more bytes than
/// there are, or a missing value after a tag other than `End`; no input leads
/// there (see `lemma_value_within` and the lemmas beside it).
pub enum NbtParse<T> {
    Done(T, nat),
    Fail(Error),
    Panics,
}

/// `p` with `k` more bytes taken.
pub open spec fn shift<T>(p: NbtParse<T>, k: nat) -> NbtParse<T> {
    match p {
        NbtParse::Done(v, n) => NbtParse::Done(v, n + k),
        other => other,
    }
}

/// Reading a tag byte: 0 to 12.
pub open spec fn parse_tag(s: Seq<u8>) -> Result<(NbtTagType, nat), Error> {
    if s.len() == 0 {
        Err(Error::Ser(SerializationError::UnexpectedEof))
    } else if s[0] <= 12 {
        Ok((tag_of_byte(s[0]), 1))
    } else {
        Err(Error::Ser(SerializationError::Type { label: Label::NbtTagType, found: s[0] }))
    }
}

/// Reading a string: two bytes of length, then that many bytes of UTF-8.
pub open spec fn parse_string(s: Seq<u8>) -> Result<(Seq<char>, nat), Error> {
    if s.len() < 2 {
        Err(Error::Ser(SerializationError::UnexpectedEof))
    } else {
        let len = be_value(s.take(2));
        if s.len() < 2 + len {
            Err(Error::Ser(SerializationError::UnexpectedEof))
        } else if valid_utf8(s.subrange(2, (2 + len) as int)) {
            Ok((decode_utf8(s.subrange(2, (2 + len) as int)), 2 + len))
        } else {
            Err(Error::InvalidUtf8)
        }
    }
}

/// Reading `count` more elements of type `T` after `acc`.
pub open spec fn parse_items<T: Deserialize<Context = ()>>(s: Seq<u8>, count: nat, acc: Seq<T::V>) -> NbtParse<
    Seq<T::V>,
>
    decreases count,
{
    if count == 0 {
        NbtParse::Done(acc, 0)
    } else {
        match T::spec_deserialize(s, ()) {
            Ok((v, n)) => if n > s.len() {
                NbtParse::Panics
            } else {
                shift(parse_items::<T>(s.skip(n as int), (count - 1) as nat, acc.push(v)), n)
            },
            Err(e) => NbtParse::Fail(e),
        }
    }
}

/// Reading an array: a count of four bytes, then the elements. A negative count
/// is taken as the `usize` of the same bits, so reading goes on until the input
/// fails it.
pub open spec fn parse_array<T: Deserialize<Context = ()>>(s: Seq<u8>) -> NbtParse<Seq<T::V>> {
    match <i32 as Deserialize>::spec_deserialize(s, ()) {
        Err(e) => NbtParse::Fail(e),
        Ok((c, n)) => shift(parse_items::<T>(s.skip(n as int), (c as usize) as nat, Seq::empty()), n),
    }
}

/// `e` with the value of `k` set to `v`: in place when `k` is there, at the end otherwise.
pub open spec fn entries_insert(e: Seq<(Seq<char>, NbtValue)>, k: Seq<char>, v: NbtValue) -> Seq<
    (Seq<char>, NbtValue),
>
    decreases e.len(),
{
    if e.len() == 0 {
        seq![(k, v)]
    } else if e[0].0 == k {
        e.update(0, (k, v))
    } else {
        seq![e[0]] + entries_insert(e.drop_first(), k, v)
    }
}

/// Reading a value of kind `t`: none for `End`.
pub open spec fn parse_value(s: Seq<u8>, t: NbtTagType) -> NbtParse<Option<NbtValue>>
    decreases s.len(), 1nat, 0nat,
{
    match t {
        NbtTagType::End => NbtParse::Done(None, 0),
        NbtTagType::Byte => if s.len() < 1 {
            NbtParse::Fail(Error::Ser(SerializationError::UnexpectedEof))
        } else {
            NbtParse::Done(Some(NbtValue::Byte(s[0] as i8)), 1)
        },
        NbtTagType::Short => match spec_read_be(s, 2) {
            Ok((x, n)) => NbtParse::Done(Some(NbtValue::Short((x as u16) as i16)), n),
            Err(e) => NbtParse::Fail(e),
        },
        NbtTagType::Int => match spec_read_be(s, 4) {
            Ok((x, n)) => NbtParse::Done(Some(NbtValue::Int((x as u32) as i32)), n),
            Err(e) => NbtParse::Fail(e),
        },
        NbtTagType::Long => match spec_read_be(s, 8) {
            Ok((x, n)) => NbtParse::Done(Some(NbtValue::Long((x as u64) as i64)), n),
            Err(e) => NbtParse::Fail(e),
        },
        NbtTagType::Float => match spec_read_be(s, 4) {
            Ok((x, n)) => NbtParse::Done(Some(NbtValue::Float(x as u32)), n),
            Err(e) => NbtParse::Fail(e),
        },
        NbtTagType::Double => match spec_read_be(s, 8) {
            Ok((x, n)) => NbtParse::Done(Some(NbtValue::Double(x as u64)), n),
            Err(e) => NbtParse::Fail(e),
        },
        NbtTagType::ByteArray => match parse_array::<i8>(s) {
            NbtParse::Done(a, n) => NbtParse::Done(Some(NbtValue::ByteArray(a)), n),
            NbtParse::Fail(e) => NbtParse::Fail(e),
            NbtParse::Panics => NbtParse::Panics,
        },
        NbtTagType::IntArray => match parse_array::<i32>(s) {
            NbtParse::Done(a, n) => NbtParse::Done(Some(NbtValue::IntArray(a)), n),
            NbtParse::Fail(e) => NbtParse::Fail(e),
            NbtParse::Panics => NbtParse::Panics,
        },
        NbtTagType::LongArray => match parse_array::<i64>(s) {
            NbtParse::Done(a, n) => NbtParse::Done(Some(NbtValue::LongArray(a)), n),
            NbtParse::Fail(e) => NbtParse::Fail(e),
            NbtParse::Panics => NbtParse::Panics,
        },
        NbtTagType::String => match parse_string(s) {
            Ok((x, n)) => NbtParse::Done(Some(NbtValue::String(x)), n),
            Err(e) => NbtParse::Fail(e),
        },
        NbtTagType::List => match parse_list(s) {
            NbtParse::Done(l, n) => NbtParse::Done(Some(NbtValue::List(l)), n),
            NbtParse::Fail(e) => NbtParse::Fail(e),
            NbtParse::Panics => NbtParse::Panics,
        },
        NbtTagType::Compound => match parse_entries(s, Seq::empty()) {
            NbtParse::Done(e, n) => NbtParse::Done(Some(NbtValue::Compound(e)), n),
            NbtParse::Fail(e) => NbtParse::Fail(e),
            NbtParse::Panics => NbtParse::Panics,
        },
    }
}

/// Reading a list: the tag of its values (not `End`), a count of four bytes (a
/// negative one taken as the `usize` of the same bits), then the values.
pub open spec fn parse_list(s: Seq<u8>) -> NbtParse<Seq<NbtValue>>
    decreases s.len(), 0nat, 1nat,
{
    match parse_tag(s) {
        Err(e) => NbtParse::Fail(e),
        Ok((t, _)) => if t == NbtTagType::End {
            NbtParse::Fail(Error::Nbt(NbtError::ExpectedAnythingButEnd))
        } else {
            match <i32 as Deserialize>::spec_deserialize(s.skip(1), ()) {
                Err(e) => NbtParse::Fail(e),
                Ok((c, _)) => shift(parse_values(s.skip(5), t, (c as usize) as nat, Seq::empty()), 5),
            }
        },
    }
}

/// Reading `count` more values of kind `t` after `acc`.
pub open spec fn parse_values(s: Seq<u8>, t: NbtTagType, count: nat, acc: Seq<NbtValue>) -> NbtParse<
    Seq<NbtValue>,
>
    decreases s.len(), 2nat, count,
{
    if count == 0 {
        NbtParse::Done(acc, 0)
    } else {
        match parse_value(s, t) {
            NbtParse::Done(Some(v), n) => if n > s.len() {
                NbtParse::Panics
            } else {
                shift(parse_values(s.skip(n as int), t, (count - 1) as nat, acc.push(v)), n)
            },
            NbtParse::Done(None, _) => NbtParse::Fail(Error::Nbt(NbtError::ExpectedAnythingButEnd)),
            NbtParse::Fail(e) => NbtParse::Fail(e),
            NbtParse::Panics => NbtParse::Panics,
        }
    }
}

/// Reading a named tag of a compound: the tag byte, then (unless it is `End`) the
/// name and the value.
pub open spec fn parse_named(s: Seq<u8>) -> NbtParse<Option<(Seq<char>, NbtValue)>>
    decreases s.len(), 0nat, 0nat,
{
    match parse_tag(s) {
        Err(e) => NbtParse::Fail(e),
        Ok((t, _)) => if t == NbtTagType::End {
            NbtParse::Done(None, 1)
        } else {
            match parse_string(s.skip(1)) {
                Err(e) => NbtParse::Fail(e),
                Ok((name, n1)) => if 1 + n1 > s.len() {
                    NbtParse::Panics
                } else {
                    match parse_value(s.skip((1 + n1) as int), t) {
                        NbtParse::Done(Some(v), n2) => NbtParse::Done(Some((name, v)), 1 + n1 + n2),
                        NbtParse::Done(None, _) => NbtParse::Panics,
                        NbtParse::Fail(e) => NbtParse::Fail(e),
                        NbtParse::Panics => NbtParse::Panics,
                    }
                },
            }
        },
    }
}

/// Reading the entries of a compound after `acc`, up to and including the end tag;
/// a name seen again replaces the value it had.
pub open spec fn parse_entries(s: Seq<u8>, acc: Seq<(Seq<char>, NbtValue)>) -> NbtParse<
    Seq<(Seq<char>, NbtValue)>,
>
    decreases s.len(), 0nat, 2nat,
{
    match parse_named(s) {
        NbtParse::Fail(e) => NbtParse::Fail(e),
        NbtParse::Panics => NbtParse::Panics,
        NbtParse::Done(None, n) => NbtParse::Done(acc, n),
        NbtParse::Done(Some((name, v)), n) => if n == 0 || n > s.len() {
            NbtParse::Panics
        } else {
            shift(parse_entries(s.skip(n as int), entries_insert(acc, name, v)), n)
        },
    }
}

} // verus!

verus! {

/// `p` is no panic, and takes no more bytes than `s` has.
pub open spec fn within<T>(p: NbtParse<T>, s: Seq<u8>) -> bool {
    match p {
        NbtParse::Done(_, n) => n <= s.len(),
        NbtParse::Fail(_) => true,
        NbtParse::Panics => false,
    }
}

/// Values of `T` are read from no more bytes than there are.
pub open spec fn takes_within<T: Deserialize<Context = ()>>() -> bool {
    forall|s: Seq<u8>| #[trigger] T::spec_deserialize(s, ()) matches Ok((_, n)) ==> n <= s.len()
}

pub proof fn lemma_numbers_take_within()
    ensures
        takes_within::<i8>(),
        takes_within::<i32>(),
        takes_within::<i64>(),
{
}

/// Shifting by the bytes taken before keeps a reading within the whole.
proof fn lemma_shift_within<T>(p: NbtParse<T>, s: Seq<u8>, k: nat)
    requires
        k <= s.len(),
        within(p, s.skip(k as int)),
    ensures
        within(shift(p, k), s),
{
}

pub proof fn lemma_items_within<T: Deserialize<Context = ()>>(s: Seq<u8>, count: nat, acc: Seq<T::V>)
    requires
        takes_within::<T>(),
    ensures
        within(parse_items::<T>(s, count, acc), s),
    decreases count,
{
    if count > 0 {
        if let Ok((v, n)) = T::spec_deserialize(s, ()) {
            assert(n <= s.len());
            lemma_items_within::<T>(s.skip(n as int), (count - 1) as nat, acc.push(v));
            lemma_shift_within(parse_items::<T>(s.skip(n as int), (count - 1) as nat, acc.push(v)), s, n);
        }
    }
}

pub proof fn lemma_array_within<T: Deserialize<Context = ()>>(s: Seq<u8>)
    requires
        takes_within::<T>(),
    ensures
        within(parse_array::<T>(s), s),
{
    lemma_numbers_take_within();
    if let Ok((c, n)) = <i32 as Deserialize>::spec_deserialize(s, ()) {
        lemma_items_within::<T>(s.skip(n as int), (c as usize) as nat, Seq::empty());
        lemma_shift_within(parse_items::<T>(s.skip(n as int), (c as usize) as nat, Seq::empty()), s, n);
    }
}

pub proof fn lemma_string_within(s: Seq<u8>)
    ensures
        parse_string(s) matches Ok((_, n)) ==> n <= s.len(),
{
}

/// Reading a value never panics and takes no more bytes than there are; only
/// `End` gives no value.
pub proof fn lemma_value_within(s: Seq<u8>, t: NbtTagType)
    ensures
        within(parse_value(s, t), s),
        t != NbtTagType::End ==> !(parse_value(s, t) matches NbtParse::Done(None, _)),
    decreases s.len(), 1nat, 0nat,
{
    lemma_numbers_take_within();
    match t {
        NbtTagType::ByteArray => lemma_array_within::<i8>(s),
        NbtTagType::IntArray => lemma_array_within::<i32>(s),
        NbtTagType::LongArray => lemma_array_within::<i64>(s),
        NbtTagType::List => lemma_list_within(s),
        NbtTagType::Compound => lemma_entries_within(s, Seq::empty()),
        _ => {},
    }
}

pub proof fn lemma_list_within(s: Seq<u8>)
    ensures
        within(parse_list(s), s),
    decreases s.len(), 0nat, 1nat,
{
    if let Ok((t, _)) = parse_tag(s) {
        if t != NbtTagType::End {
            if let Ok((c, _)) = <i32 as Deserialize>::spec_deserialize(s.skip(1), ()) {
                lemma_values_within(s.skip(5), t, (c as usize) as nat, Seq::empty());
                lemma_shift_within(parse_values(s.skip(5), t, (c as usize) as nat, Seq::empty()), s, 5);
            }
        }
    }
}

pub proof fn lemma_values_within(s: Seq<u8>, t: NbtTagType, count: nat, acc: Seq<NbtValue>)
    ensures
        within(parse_values(s, t, count, acc), s),
    decreases s.len(), 2nat, count,
{
    if count > 0 {
        lemma_value_within(s, t);
        if let NbtParse::Done(Some(v), n) = parse_value(s, t) {
            lemma_values_within(s.skip(n as int), t, (count - 1) as nat, acc.push(v));
            lemma_shift_within(parse_values(s.skip(n as int), t, (count - 1) as nat, acc.push(v)), s, n);
        }
    }
}

pub proof fn lemma_named_within(s: Seq<u8>)
    ensures
        within(parse_named(s), s),
        parse_named(s) matches NbtParse::Done(_, n) ==> n >= 1,
    decreases s.len(), 0nat, 0nat,
{
    if let Ok((t, _)) = parse_tag(s) {
        if t != NbtTagType::End {
            lemma_string_within(s.skip(1));
            if let Ok((name, n1)) = parse_string(s.skip(1)) {
                lemma_value_within(s.skip((1 + n1) as int), t);
            }
        }
    }
}

pub proof fn lemma_entries_within(s: Seq<u8>, acc: Seq<(Seq<char>, NbtValue)>)
    ensures
        within(parse_entries(s, acc), s),
    decreases s.len(), 0nat, 2nat,
{
    lemma_named_within(s);
    if let NbtParse::Done(Some((name, v)), n) = parse_named(s) {
        lemma_entries_within(s.skip(n as int), entries_insert(acc, name, v));
        lemma_shift_within(parse_entries(s.skip(n as int), entries_insert(acc, name, v)), s, n);
    }
}

} // verus!

verus! {

/// Turns bytes into a string when they are UTF-8 (`String::from_utf8`).
/// Trusted: claims that the result is there exactly for UTF-8 bytes and holds the
/// characters they encode, as the documentation of `String::from_utf8` says.
#[verifier::external_body]
pub(crate) fn string_from_utf8(bytes: Vec<u8>) -> (r: Option<String>)
    ensures
        r is Some <==> valid_utf8(bytes@),
        r matches Some(s) ==> s@ == decode_utf8(bytes@),
{
    String::from_utf8(bytes).ok()
}

/// The mathematical form of an optional value.
pub open spec fn opt_view(x: Option<Nbt>) -> Option<NbtValue> {
    match x {
        Some(v) => Some(nbt_view(v)),
        None => None,
    }
}

/// What a reader called at `pos` gives back, against what the specification reads.
pub open spec fn parsed_at<T, V>(r: Result<(T, usize), Error>, p: NbtParse<V>, pos: usize, view: spec_fn(T) -> V) -> bool {
    match p {
        NbtParse::Done(v, n) => r matches Ok((x, q)) && view(x) == v && q == pos + n,
        NbtParse::Fail(e) => r matches Err(e2) && e2 == e,
        NbtParse::Panics => false,
    }
}

/// The kind of value of a tag byte from 0 to 12.
fn tag_from_byte(b: u8) -> (r: NbtTagType)
    requires
        b <= 12,
    ensures
        r == tag_of_byte(b),
{
    if b == 0 {
        NbtTagType::End
    } else if b == 1 {
        NbtTagType::Byte
    } else if b == 2 {
        NbtTagType::Short
    } else if b == 3 {
        NbtTagType::Int
    } else if b == 4 {
        NbtTagType::Long
    } else if b == 5 {
        NbtTagType::Float
    } else if b == 6 {
        NbtTagType::Double
    } else if b == 7 {
        NbtTagType::ByteArray
    } else if b == 8 {
        NbtTagType::String
    } else if b == 9 {
        NbtTagType::List
    } else if b == 10 {
        NbtTagType::Compound
    } else if b == 11 {
        NbtTagType::IntArray
    } else {
        NbtTagType::LongArray
    }
}

/// Reads a tag byte at `pos`.
pub fn nbt_tag(input: &[u8], pos: usize) -> (r: Result<(NbtTagType, usize), Error>)
    requires
        pos <= input@.len(),
    ensures
        match parse_tag(input@.skip(pos as int)) {
            Ok((t, n)) => r matches Ok((t2, p)) && t2 == t && p == pos + n,
            Err(e) => r matches Err(e2) && e2 == e,
        },
{
    if pos >= input.len() {
        return Err(Error::Ser(SerializationError::UnexpectedEof));
    }
    let b = input[pos];
    if b <= 12 {
        Ok((tag_from_byte(b), pos + 1))
    } else {
        Err(Error::Ser(SerializationError::Type { label: Label::NbtTagType, found: b }))
    }
}

/// Reads a string at `pos`: two bytes of length, then that many bytes of UTF-8.
pub fn nbt_string(input: &[u8], pos: usize) -> (r: Result<(String, usize), Error>)
    requires
        pos <= input@.len(),
    ensures
        match parse_string(input@.skip(pos as int)) {
            Ok((x, n)) => r matches Ok((st, p)) && st@ == x && p == pos + n,
            Err(e) => r matches Err(e2) && e2 == e,
        },
{
    let ghost s = input@.skip(pos as int);
    let (len, p1) = read_be(input, pos, 2)?;
    proof {
        lemma_pow256_values();
        assert(s.take(2) =~= input@.subrange(pos as int, pos + 2));
    }
    let len = len as usize;
    if input.len() - p1 < len {
        return Err(Error::Ser(SerializationError::UnexpectedEof));
    }
    let bytes = copy_range(input, p1, p1 + len);
    assert(bytes@ =~= s.subrange(2, (2 + len) as int));
    match string_from_utf8(bytes) {
        Some(st) => Ok((st, p1 + len)),
        None => Err(Error::InvalidUtf8),
    }
}

impl<T: Deserialize<Context = ()>> SmolArray<T> {
    /// Reads an array at `pos`: a count of four bytes, then that many elements.
    pub fn deserialize(input: &[u8], pos: usize) -> (r: Result<(SmolArray<T>, usize), Error>)
        requires
            pos <= input@.len(),
            forall|t: Seq<u8>| T::spec_can_deserialize(t, ()),
        ensures
            parsed_at(
                r,
                parse_array::<T>(input@.skip(pos as int)),
                pos,
                |x: SmolArray<T>| x.0.deep_view(),
            ),
            r matches Ok((_, q)) ==> pos <= q <= input@.len(),
    {
        let ghost s = input@.skip(pos as int);
        let (c, p0) = <i32 as Deserialize>::deserialize(input, pos, &())?;
        let count = c as usize;
        assert(input@.skip(p0 as int) =~= s.skip((p0 - pos) as int));
        let mut acc: Vec<T> = Vec::new();
        let mut cur = p0;
        let mut i: usize = 0;
        assert(acc.deep_view() =~= Seq::<T::V>::empty());
        while i < count
            invariant
                pos <= cur <= input@.len(),
                i <= count,
                s == input@.skip(pos as int),
                forall|t: Seq<u8>| T::spec_can_deserialize(t, ()),
                parse_array::<T>(s) == shift(
                    parse_items::<T>(input@.skip(cur as int), (count - i) as nat, acc.deep_view()),
                    (cur - pos) as nat,
                ),
            decreases count - i,
        {
            let ghost before = acc.deep_view();
            let (v, p) = T::deserialize(input, cur, &())?;
            acc.push(v);
            proof {
                assert(acc.deep_view() =~= before.push(v.deep_view()));
                assert(input@.skip(p as int) =~= input@.skip(cur as int).skip((p - cur) as int));
            }
            cur = p;
            i = i + 1;
        }
        Ok((SmolArray(acc), cur))
    }
}

/// A list read from NBT: the kind of its values, their count, and the values.
pub struct NbtList {
    pub tag: NbtTagType,
    pub length: usize,
    pub tags: Vec<Nbt>,
}

/// What reading one tag of a compound gives.
pub enum NbtTag {
    End,
    Named(NbtNamed),
    List(NbtList),
}

/// Sets the value of `name` in `map`: in place when it is there, at the end otherwise.
pub(crate) fn insert_entry(map: &mut Vec<(String, Nbt)>, name: String, value: Nbt)
    ensures
        nbt_view_entries(final(map)@) == entries_insert(nbt_view_entries(old(map)@), name@, nbt_view(value)),
{
    let ghost gname = name@;
    let ghost gval = nbt_view(value);
    proof {
        lemma_view_entries(map@);
    }
    let mut i: usize = 0;
    while i < map.len()
        invariant
            i <= map@.len(),
            map@ == old(map)@,
            gname == name@,
            gval == nbt_view(value),
            forall|j: int| 0 <= j < i ==> (#[trigger] map@[j]).0@ != name@,
        decreases map.len() - i,
    {
        if map[i].0 == name {
            let ghost e = nbt_view_entries(map@);
            proof {
                lemma_view_entries(map@);
                assert forall|j: int| 0 <= j < i implies (#[trigger] e[j]).0 != gname by {
                    assert(e[j].0 == map@[j].0@);
                }
            }
            map[i] = (name, value);
            proof {
                lemma_entries_insert_found(e, i as int, gname, gval);
                lemma_view_entries(map@);
                assert(nbt_view_entries(map@) =~= e.update(i as int, (gname, gval)));
            }
            return;
        }
        i = i + 1;
    }
    let ghost e = nbt_view_entries(map@);
    proof {
        lemma_view_entries(map@);
        assert forall|j: int| 0 <= j < e.len() implies (#[trigger] e[j]).0 != gname by {
            assert(e[j].0 == map@[j].0@);
        }
    }
    map.push((name, value));
    proof {
        lemma_entries_insert_absent(e, gname, gval);
        lemma_view_entries(map@);
        assert(nbt_view_entries(map@) =~= e.push((gname, gval)));
    }
}

/// Inserting a key found first at `i` replaces its value there.
pub proof fn lemma_entries_insert_found(e: Seq<(Seq<char>, NbtValue)>, i: int, k: Seq<char>, v: NbtValue)
    requires
        0 <= i < e.len(),
        e[i].0 == k,
        forall|j: int| 0 <= j < i ==> (#[trigger] e[j]).0 != k,
    ensures
        entries_insert(e, k, v) == e.update(i, (k, v)),
    decreases i,
{
    if i > 0 {
        let t = e.drop_first();
        assert forall|j: int| 0 <= j < i - 1 implies (#[trigger] t[j]).0 != k by {
            assert(t[j] == e[j + 1]);
        }
        lemma_entries_insert_found(t, i - 1, k, v);
        assert(e.update(i, (k, v)) =~= seq![e[0]] + t.update(i - 1, (k, v)));
    }
}

/// Inserting a key that is not there appends it.
pub proof fn lemma_entries_insert_absent(e: Seq<(Seq<char>, NbtValue)>, k: Seq<char>, v: NbtValue)
    requires
        forall|j: int| 0 <= j < e.len() ==> (#[trigger] e[j]).0 != k,
    ensures
        entries_insert(e, k, v) == e.push((k, v)),
    decreases e.len(),
{
    if e.len() > 0 {
        let t = e.drop_first();
        assert forall|j: int| 0 <= j < t.len() implies (#[trigger] t[j]).0 != k by {
            assert(t[j] == e[j + 1]);
        }
        lemma_entries_insert_absent(t, k, v);
        assert(e.push((k, v)) =~= seq![e[0]] + t.push((k, v)));
    }
}

} // verus!

verus! {

pub proof fn lemma_view_seq_push(s: Seq<Nbt>, v: Nbt)
    ensures
        nbt_view_seq(s.push(v)) == nbt_view_seq(s).push(nbt_view(v)),
{
    lemma_view_seq(s);
    lemma_view_seq(s.push(v));
    assert(nbt_view_seq(s.push(v)) =~= nbt_view_seq(s).push(nbt_view(v)));
}

impl Nbt {
    /// Reads a value of kind `tag` at `pos`: none for `End`.
    pub fn single(input: &[u8], pos: usize, tag: NbtTagType) -> (r: Result<(Option<Nbt>, usize), Error>)
        requires
            pos <= input@.len(),
        ensures
            parsed_at(r, parse_value(input@.skip(pos as int), tag), pos, |x: Option<Nbt>| opt_view(x)),
            r matches Ok((_, q)) ==> pos <= q <= input@.len(),
        decreases input@.len() - pos, 1nat, 0nat,
    {
        let ghost s = input@.skip(pos as int);
        proof {
            lemma_pow256_values();
            lemma_value_within(s, tag);
        }
        match tag {
            NbtTagType::End => Ok((None, pos)),
            NbtTagType::Byte => {
                if pos >= input.len() {
                    Err(Error::Ser(SerializationError::UnexpectedEof))
                } else {
                    Ok((Some(Nbt::Byte(input[pos] as i8)), pos + 1))
                }
            },
            NbtTagType::Short => {
                let (x, p) = read_be(input, pos, 2)?;
                Ok((Some(Nbt::Short((x as u16) as i16)), p))
            },
            NbtTagType::Int => {
                let (x, p) = read_be(input, pos, 4)?;
                Ok((Some(Nbt::Int((x as u32) as i32)), p))
            },
            NbtTagType::Long => {
                let (x, p) = read_be(input, pos, 8)?;
                Ok((Some(Nbt::Long((x as u64) as i64)), p))
            },
            NbtTagType::Float => {
                let (x, p) = read_be(input, pos, 4)?;
                Ok((Some(Nbt::Float(x as u32)), p))
            },
            NbtTagType::Double => {
                let (x, p) = read_be(input, pos, 8)?;
                Ok((Some(Nbt::Double(x as u64)), p))
            },
            NbtTagType::ByteArray => {
                let (a, p) = SmolArray::<i8>::deserialize(input, pos)?;
                proof {
                    assert(a.0.deep_view() =~= a.0@);
                }
                Ok((Some(Nbt::ByteArray(a.0)), p))
            },
            NbtTagType::IntArray => {
                let (a, p) = SmolArray::<i32>::deserialize(input, pos)?;
                proof {
                    assert(a.0.deep_view() =~= a.0@);
                }
                Ok((Some(Nbt::IntArray(a.0)), p))
            },
            NbtTagType::LongArray => {
                let (a, p) = SmolArray::<i64>::deserialize(input, pos)?;
                proof {
                    assert(a.0.deep_view() =~= a.0@);
                }
                Ok((Some(Nbt::LongArray(a.0)), p))
            },
            NbtTagType::List => {
                let (l, p) = NbtTag::list(input, pos)?;
                Ok((Some(Nbt::List(l.tags)), p))
            },
            NbtTagType::Compound => {
                let (c, p) = Nbt::compound(input, pos)?;
                Ok((Some(Nbt::Compound(c)), p))
            },
            NbtTagType::String => {
                let (st, p) = nbt_string(input, pos)?;
                Ok((Some(Nbt::String(st)), p))
            },
        }
    }

    /// Reads the entries of a compound at `pos`, up to and including the end tag; a
    /// name seen again replaces the value it had.
    pub fn compound(input: &[u8], pos: usize) -> (r: Result<(Vec<(String, Nbt)>, usize), Error>)
        requires
            pos <= input@.len(),
        ensures
            parsed_at(
                r,
                parse_entries(input@.skip(pos as int), Seq::empty()),
                pos,
                |x: Vec<(String, Nbt)>| nbt_view_entries(x@),
            ),
            r matches Ok((_, q)) ==> pos <= q <= input@.len(),
        decreases input@.len() - pos, 0nat, 2nat,
    {
        let ghost s = input@.skip(pos as int);
        proof {
            lemma_entries_within(s, Seq::empty());
        }
        let mut map: Vec<(String, Nbt)> = Vec::new();
        let mut cur = pos;
        assert(input@.skip(cur as int) =~= s);
        assert(nbt_view_entries(map@) =~= Seq::<(Seq<char>, NbtValue)>::empty());
        loop
            invariant
                pos <= cur <= input@.len(),
                s == input@.skip(pos as int),
                parse_entries(s, Seq::empty()) == shift(
                    parse_entries(input@.skip(cur as int), nbt_view_entries(map@)),
                    (cur - pos) as nat,
                ),
            decreases input@.len() - cur,
        {
            proof {
                lemma_named_within(input@.skip(cur as int));
            }
            let (tag, p) = NbtTag::named(input, cur)?;
            match tag {
                NbtTag::End => {
                    return Ok((map, p));
                },
                NbtTag::Named(named) => {
                    let NbtNamed { tag: _, name, value } = named;
                    let ghost before = nbt_view_entries(map@);
                    insert_entry(&mut map, name, value);
                    proof {
                        assert(input@.skip(p as int) =~= input@.skip(cur as int).skip(
                            (p - cur) as int,
                        ));
                    }
                    cur = p;
                },
                NbtTag::List(l) => {
                    return Err(Error::Nbt(NbtError::Expected { expected: NbtExpected::NamedTag, actual: Nbt::List(l.tags) }));
                },
            }
        }
    }
}

impl NbtTag {
    /// Reads a named tag of a compound at `pos`: the tag byte, then (unless it is
    /// `End`) the name and the value.
    pub fn named(input: &[u8], pos: usize) -> (r: Result<(NbtTag, usize), Error>)
        requires
            pos <= input@.len(),
        ensures
            match parse_named(input@.skip(pos as int)) {
                NbtParse::Done(None, n) => r matches Ok((NbtTag::End, q)) && q == pos + n,
                NbtParse::Done(Some((name, v)), n) => r matches Ok((NbtTag::Named(nn), q))
                    && nn.name@ == name && nbt_view(nn.value) == v && q == pos + n,
                NbtParse::Fail(e) => r matches Err(e2) && e2 == e,
                NbtParse::Panics => false,
            },
            r matches Ok((_, q)) ==> pos < q <= input@.len(),
        decreases input@.len() - pos, 0nat, 0nat,
    {
        let ghost s = input@.skip(pos as int);
        proof {
            lemma_named_within(s);
        }
        let (tag, p1) = nbt_tag(input, pos)?;
        if tag_matches(&tag, &NbtTagType::End) {
            return Ok((NbtTag::End, p1));
        }
        assert(input@.skip(p1 as int) =~= s.skip(1));
        let (name, p2) = nbt_string(input, p1)?;
        assert(input@.skip(p2 as int) =~= s.skip((p2 - pos) as int));
        let (v, p3) = Nbt::single(input, p2, tag)?;
        match v {
            Some(value) => Ok((NbtTag::Named(NbtNamed { tag, name, value }), p3)),
            None => {
                assert(false);
                Err(Error::Nbt(NbtError::ExpectedAnythingButEnd))
            },
        }
    }

    /// Reads a list at `pos`: the tag of its values (not `End`), a count of four
    /// bytes, then the values.
    pub fn list(input: &[u8], pos: usize) -> (r: Result<(NbtList, usize), Error>)
        requires
            pos <= input@.len(),
        ensures
            parsed_at(r, parse_list(input@.skip(pos as int)), pos, |x: NbtList| nbt_view_seq(x.tags@)),
            r matches Ok((l, q)) ==> pos <= q <= input@.len() && l.length == l.tags@.len(),
            r matches Ok((l, _)) ==> parse_tag(input@.skip(pos as int)) matches Ok((t, _)) && l.tag == t,
            r matches Ok((l, _)) ==> <i32 as Deserialize>::spec_deserialize(input@.skip(pos + 1), ())
                matches Ok((c, _)) && l.length == c as usize,
        decreases input@.len() - pos, 0nat, 1nat,
    {
        let ghost s = input@.skip(pos as int);
        proof {
            lemma_list_within(s);
        }
        let (tag, p1) = nbt_tag(input, pos)?;
        if tag_matches(&tag, &NbtTagType::End) {
            return Err(Error::Nbt(NbtError::ExpectedAnythingButEnd));
        }
        assert(input@.skip(p1 as int) =~= s.skip(1));
        assert(input@.skip(p1 as int) =~= input@.skip(pos + 1));
        let (c, p2) = <i32 as Deserialize>::deserialize(input, p1, &())?;
        let length = c as usize;
        let mut tags: Vec<Nbt> = Vec::new();
        let mut cur = p2;
        let mut i: usize = 0;
        assert(input@.skip(cur as int) =~= s.skip(5));
        assert(nbt_view_seq(tags@) =~= Seq::<NbtValue>::empty());
        while i < length
            invariant
                pos + 5 <= cur <= input@.len(),
                i <= length,
                tags@.len() == i,
                s == input@.skip(pos as int),
                tag != NbtTagType::End,
                parse_list(s) == shift(
                    parse_values(input@.skip(cur as int), tag, (length - i) as nat, nbt_view_seq(tags@)),
                    (cur - pos) as nat,
                ),
            decreases length - i,
        {
            proof {
                lemma_value_within(input@.skip(cur as int), tag);
            }
            let (v, p) = Nbt::single(input, cur, tag)?;
            match v {
                Some(v) => {
                    let ghost before = tags@;
                    tags.push(v);
                    proof {
                        lemma_view_seq_push(before, v);
                        assert(input@.skip(p as int) =~= input@.skip(cur as int).skip(
                            (p - cur) as int,
                        ));
                    }
                },
                None => {
                    return Err(Error::Nbt(NbtError::ExpectedAnythingButEnd));
                },
            }
            cur = p;
            i = i + 1;
        }
        Ok((NbtList { tag, length, tags }, cur))
    }
}

} // verus!

verus! {

impl Serialize for Nbt {
    open spec fn spec_can_serialize(&self) -> bool {
        can_write(nbt_view(*self))
    }

    fn can_serialize(&self) -> (r: bool) {
        self.writable()
    }

    /// The bytes of the value, without its tag.
    open spec fn spec_serialize(&self) -> Result<Seq<u8>, Error> {
        Ok(value_bytes(nbt_view(*self)))
    }

    fn serialize_to(&self, buf: &mut Vec<u8>) -> (r: Result<(), Error>) {
        self.serialize_value(buf);
        Ok(())
    }
}

impl Serialize for Vec<Nbt> {
    open spec fn spec_can_serialize(&self) -> bool {
        can_write(NbtValue::List(nbt_view_seq(self@)))
    }

    fn can_serialize(&self) -> (r: bool) {
        Nbt::writable_list(self)
    }

    /// The bytes of the values as a list.
    open spec fn spec_serialize(&self) -> Result<Seq<u8>, Error> {
        Ok(value_bytes(NbtValue::List(nbt_view_seq(self@))))
    }

    fn serialize_to(&self, buf: &mut Vec<u8>) -> (r: Result<(), Error>) {
        Nbt::serialize_list(self, buf, true);
        Ok(())
    }
}

impl Serialize for NbtNamed {
    open spec fn spec_can_serialize(&self) -> bool {
        encode_utf8(self.name@).len() <= 0xffff && can_write(nbt_view(self.value))
    }

    fn can_serialize(&self) -> (r: bool) {
        self.name.as_str().as_bytes().len() <= 0xffff && self.value.writable()
    }

    /// The tag byte, the name, the value.
    open spec fn spec_serialize(&self) -> Result<Seq<u8>, Error> {
        Ok(seq![tag_byte(self.tag)] + string_bytes(self.name@) + value_bytes(nbt_view(self.value)))
    }

    fn serialize_to(&self, buf: &mut Vec<u8>) -> (r: Result<(), Error>) {
        NbtNamed::serialize_named(self.tag, self.name.as_str(), &self.value, buf);
        Ok(())
    }
}

/// The entries of a compound, written as named tags and the end tag.
#[derive(Debug)]
pub struct NbtCompound(pub Vec<(String, Nbt)>);

impl DeepView for NbtCompound {
    type V = Seq<(Seq<char>, NbtValue)>;

    open spec fn deep_view(&self) -> Seq<(Seq<char>, NbtValue)> {
        nbt_view_entries(self.0@)
    }
}

impl Serialize for NbtCompound {
    open spec fn spec_can_serialize(&self) -> bool {
        can_write_entries(nbt_view_entries(self.0@))
    }

    fn can_serialize(&self) -> (r: bool) {
        Nbt::writable_entries(&self.0)
    }

    open spec fn spec_serialize(&self) -> Result<Seq<u8>, Error> {
        Ok(entries_bytes(nbt_view_entries(self.0@)).push(0))
    }

    fn serialize_to(&self, buf: &mut Vec<u8>) -> (r: Result<(), Error>) {
        Nbt::serialize_compound(&self.0, buf);
        Ok(())
    }
}

impl Deserialize for NbtCompound {
    type Context = ();

    open spec fn spec_can_deserialize(s: Seq<u8>, cx: ()) -> bool {
        true
    }

    fn can_deserialize(input: &[u8], pos: usize, cx: &()) -> (r: bool) {
        true
    }

    /// The entries up to and including the end tag (a name seen again replaces
    /// the value it had).
    open spec fn spec_deserialize(s: Seq<u8>, cx: ()) -> Result<(Seq<(Seq<char>, NbtValue)>, nat), Error> {
        match parse_entries(s, Seq::empty()) {
            NbtParse::Done(e, n) => Ok((e, n)),
            NbtParse::Fail(e) => Err(e),
            NbtParse::Panics => Err(Error::Nbt(NbtError::NoKeyInMap)),
        }
    }

    fn deserialize(input: &[u8], pos: usize, cx: &()) -> (r: Result<(NbtCompound, usize), Error>) {
        proof {
            lemma_entries_within(input@.skip(pos as int), Seq::empty());
        }
        let (entries, p) = Nbt::compound(input, pos)?;
        Ok((NbtCompound(entries), p))
    }
}

} // verus!
