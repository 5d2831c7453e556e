//! The rules by which values become NBT and are read back from it: which numbers
//! NBT holds and in which kind, how maps, structs, sequences and enum variants
//! become compounds and lists, and which kind a reader expects.
use crate::client::{decimal_text, decimal_with};
use crate::error::{NbtError, NbtExpected};
use crate::nbt::{
    entries_insert, insert_entry, lemma_view_entries, lemma_view_seq, nbt_view, nbt_view_entries,
    nbt_view_seq, Nbt, NbtTagType, NbtValue,
};
use vstd::prelude::*;

verus! {

impl Nbt {
    /// A copy of the value.
    pub fn duplicate(&self) -> (r: Nbt)
        ensures
            nbt_view(r) == nbt_view(*self),
        decreases *self, 0nat,
    {
        match self {
            Nbt::Byte(b) => Nbt::Byte(*b),
            Nbt::Short(b) => Nbt::Short(*b),
            Nbt::Int(b) => Nbt::Int(*b),
            Nbt::Long(b) => Nbt::Long(*b),
            Nbt::Float(b) => Nbt::Float(*b),
            Nbt::Double(b) => Nbt::Double(*b),
            Nbt::ByteArray(a) => {
                let c = a.clone();
                assert(c@ =~= a@);
                Nbt::ByteArray(c)
            },
            Nbt::IntArray(a) => {
                let c = a.clone();
                assert(c@ =~= a@);
                Nbt::IntArray(c)
            },
            Nbt::LongArray(a) => {
                let c = a.clone();
                assert(c@ =~= a@);
                Nbt::LongArray(c)
            },
            Nbt::String(s) => Nbt::String(s.clone()),
            Nbt::List(l) => Nbt::List(Self::duplicate_list(l)),
            Nbt::Compound(c) => Nbt::Compound(Self::duplicate_entries(c)),
        }
    }

    /// A copy of a list of values.
    fn duplicate_list(l: &Vec<Nbt>) -> (r: Vec<Nbt>)
        ensures
            nbt_view_seq(r@) == nbt_view_seq(l@),
        decreases *l, 0nat,
    {
        let mut out: Vec<Nbt> = Vec::new();
        let mut i: usize = 0;
        while i < l.len()
            invariant
                i <= l@.len(),
                out@.len() == i,
                forall|j: int| 0 <= j < i ==> nbt_view(#[trigger] out@[j]) == nbt_view(l@[j]),
            decreases l@.len() - i,
        {
            let v = l[i].duplicate();
            out.push(v);
            i = i + 1;
        }
        proof {
            lemma_view_seq(out@);
            lemma_view_seq(l@);
            assert(nbt_view_seq(out@) =~= nbt_view_seq(l@));
        }
        out
    }

    /// A copy of the entries of a compound.
    fn duplicate_entries(c: &Vec<(String, Nbt)>) -> (r: Vec<(String, Nbt)>)
        ensures
            nbt_view_entries(r@) == nbt_view_entries(c@),
        decreases *c, 0nat,
    {
        let mut out: Vec<(String, Nbt)> = Vec::new();
        let mut i: usize = 0;
        while i < c.len()
            invariant
                i <= c@.len(),
                out@.len() == i,
                forall|j: int|
                    0 <= j < i ==> (#[trigger] out@[j]).0@ == c@[j].0@ && nbt_view(out@[j].1) == nbt_view(
                        c@[j].1,
                    ),
            decreases c@.len() - i,
        {
            let v = c[i].1.duplicate();
            out.push((c[i].0.clone(), v));
            i = i + 1;
        }
        proof {
            lemma_view_entries(out@);
            lemma_view_entries(c@);
            assert(nbt_view_entries(out@) =~= nbt_view_entries(c@));
        }
        out
    }
}

} // verus!

verus! {

/// `e` tells that `value` (a number of type `actual`) does not fit the type `nbt`
/// that NBT holds it in.
pub open spec fn out_of_bounds(e: NbtError, value: Seq<char>, actual: Seq<char>, nbt: Seq<char>) -> bool {
    e matches NbtError::OutOfBounds { value: v, actual_type, type_for_nbt } && v@ == value
        && actual_type@ == actual && type_for_nbt@ == nbt
}

/// A `bool` in NBT: the byte 1 or 0.
pub fn nbt_of_bool(v: bool) -> (r: Nbt)
    ensures
        r == Nbt::Byte(if v { 1 } else { 0 }),
{
    Nbt::Byte(if v { 1 } else { 0 })
}

/// A `u8` in NBT: a byte when it is at most 127, an error otherwise.
pub fn nbt_of_u8(v: u8) -> (r: Result<Nbt, NbtError>)
    ensures
        v <= 127 ==> r == Ok::<Nbt, NbtError>(Nbt::Byte(v as i8)),
        v > 127 ==> (r matches Err(e) && out_of_bounds(e, decimal_text(v as nat) + "u8"@, "u8"@, "i8"@)),
{
    if v <= 127 {
        Ok(Nbt::Byte(v as i8))
    } else {
        proof {
            reveal_strlit("u8");
            reveal_strlit("i8");
        }
        Err(NbtError::OutOfBounds { value: decimal_with(v as u64, "u8"), actual_type: "u8", type_for_nbt: "i8" })
    }
}

/// A `u16` in NBT: a short when it is at most 32767, an error otherwise.
pub fn nbt_of_u16(v: u16) -> (r: Result<Nbt, NbtError>)
    ensures
        v <= 0x7fff ==> r == Ok::<Nbt, NbtError>(Nbt::Short(v as i16)),
        v > 0x7fff ==> (r matches Err(e) && out_of_bounds(e, decimal_text(v as nat) + "u16"@, "u16"@, "i16"@)),
{
    if v <= 0x7fff {
        Ok(Nbt::Short(v as i16))
    } else {
        proof {
            reveal_strlit("u16");
            reveal_strlit("i16");
        }
        Err(NbtError::OutOfBounds { value: decimal_with(v as u64, "u16"), actual_type: "u16", type_for_nbt: "i16" })
    }
}

/// A `u32` in NBT: an int when it fits an `i32`, an error otherwise.
pub fn nbt_of_u32(v: u32) -> (r: Result<Nbt, NbtError>)
    ensures
        v <= i32::MAX ==> r == Ok::<Nbt, NbtError>(Nbt::Int(v as i32)),
        v > i32::MAX ==> (r matches Err(e) && out_of_bounds(e, decimal_text(v as nat) + "u32"@, "u32"@, "i32"@)),
{
    if v <= 0x7fff_ffff {
        Ok(Nbt::Int(v as i32))
    } else {
        proof {
            reveal_strlit("u32");
            reveal_strlit("i32");
        }
        Err(NbtError::OutOfBounds { value: decimal_with(v as u64, "u32"), actual_type: "u32", type_for_nbt: "i32" })
    }
}

/// A `u64` in NBT: a long when it fits an `i64`, an error otherwise.
pub fn nbt_of_u64(v: u64) -> (r: Result<Nbt, NbtError>)
    ensures
        v <= i64::MAX ==> r == Ok::<Nbt, NbtError>(Nbt::Long(v as i64)),
        v > i64::MAX ==> (r matches Err(e) && out_of_bounds(e, decimal_text(v as nat) + "u64"@, "u64"@, "i64"@)),
{
    if v <= 0x7fff_ffff_ffff_ffff {
        Ok(Nbt::Long(v as i64))
    } else {
        proof {
            reveal_strlit("u64");
            reveal_strlit("i64");
        }
        Err(NbtError::OutOfBounds { value: decimal_with(v, "u64"), actual_type: "u64", type_for_nbt: "i64" })
    }
}

/// Bytes in NBT: a byte array when every byte is at most 127; otherwise the error
/// of the first that is not.
pub fn nbt_of_bytes(v: &[u8]) -> (r: Result<Nbt, NbtError>)
    ensures
        r is Ok <==> forall|i: int| 0 <= i < v@.len() ==> v@[i] <= 127,
        r matches Ok(n) ==> (n matches Nbt::ByteArray(a) && a@.len() == v@.len() && forall|i: int|
            0 <= i < v@.len() ==> a@[i] == v@[i] as i8),
        r matches Err(e) ==> exists|k: int|
            0 <= k < v@.len() && v@[k] > 127 && (forall|j: int| 0 <= j < k ==> v@[j] <= 127) && out_of_bounds(
                e,
                decimal_text(v@[k] as nat) + "u8"@,
                "u8"@,
                "i8"@,
            ),
{
    let mut out: Vec<i8> = Vec::new();
    let mut i: usize = 0;
    while i < v.len()
        invariant
            i <= v@.len(),
            out@.len() == i,
            forall|j: int| 0 <= j < i ==> #[trigger] v@[j] <= 127 && out@[j] == v@[j] as i8,
        decreases v@.len() - i,
    {
        let b = v[i];
        if b > 127 {
            proof {
                reveal_strlit("u8");
                reveal_strlit("i8");
            }
            let e = NbtError::OutOfBounds { value: decimal_with(b as u64, "u8"), actual_type: "u8", type_for_nbt: "i8" };
            assert(0 <= i < v@.len() && v@[i as int] > 127 && (forall|j: int| 0 <= j < i ==> v@[j] <= 127)
                && out_of_bounds(e, decimal_text(v@[i as int] as nat) + "u8"@, "u8"@, "i8"@));
            return Err(e);
        }
        out.push(b as i8);
        assert(v@[i as int] <= 127);
        i = i + 1;
    }
    Ok(Nbt::ByteArray(out))
}

/// A string used as a key of a compound: only an NBT string can be one.
pub fn key_of(key: Nbt) -> (r: Result<String, NbtError>)
    ensures
        key matches Nbt::String(s) ==> r == Ok::<String, NbtError>(s),
        !(key is String) ==> r == Err::<String, NbtError>(NbtError::InvalidKey(key)),
{
    match key {
        Nbt::String(s) => Ok(s),
        other => Err(NbtError::InvalidKey(other)),
    }
}

/// The value of an enum variant that holds one value: a compound of that value
/// under the variant's name.
pub fn variant_value(variant: String, value: Nbt) -> (r: Nbt)
    ensures
        r matches Nbt::Compound(c) && c@.len() == 1 && c@[0].0 == variant && c@[0].1 == value,
{
    let mut c: Vec<(String, Nbt)> = Vec::new();
    c.push((variant, value));
    Nbt::Compound(c)
}

/// What NBT cannot hold or give, each with its hint.
#[derive(Debug, Clone, Copy, PartialEq, Eq, Structural)]
pub enum Refused {
    /// A 128-bit signed number, written.
    I128,
    /// A 128-bit unsigned number, written.
    U128,
    /// A missing value, written.
    Null,
    /// A unit, a unit struct or a unit variant, written.
    Unit,
    /// Unsigned bytes, read as a slice.
    Bytes,
    /// Unsigned bytes, read as a vector.
    ByteBuf,
    /// An optional value, read.
    Optional,
    /// A unit, read.
    ReadUnit,
    /// A value read only to be ignored.
    IgnoredAny,
}

/// The name of what is refused and the hint.
pub open spec fn refusal_text(what: Refused) -> (Seq<char>, Seq<char>) {
    match what {
        Refused::I128 => (
            "i128"@,
            "NBT does not have a 128-bit number type. Store it as 2 longs - 64 least significant bits, and 64 most significant bits."@,
        ),
        Refused::U128 => (
            "u128"@,
            "NBT does not support unsigned integers, and even 128-bit numbers. Store it as 2 longs - 64 LSBs, and 64 MSBs."@,
        ),
        Refused::Null => ("null"@, "NBT does not support nulls"@),
        Refused::Unit => ("()"@, "NBT does not support nulls, nor unit types."@),
        Refused::Bytes => ("&[u8]"@, "NBT does not have an unsigned byte type"@),
        Refused::ByteBuf => ("Vec<u8>"@, "NBT does not have an unsigned byte type"@),
        Refused::Optional => (
            "Option"@,
            "NBT does not suport nulls, so just use `#[serde(skip_serializing_if = \"Option::is_none\")]`"@,
        ),
        Refused::ReadUnit => ("()"@, "NBT does not support nulls nor unit types."@),
        Refused::IgnoredAny => ("IgnoredAny"@, "NBT does not support nulls and IgnoredAny is confusing aaaaa help please"@),
    }
}

/// The error for what NBT cannot hold or give.
pub fn refused(what: Refused) -> (r: NbtError)
    ensures
        r matches NbtError::UnsupportedType(name, Some(hint)) && name@ == refusal_text(what).0 && hint@
            == refusal_text(what).1,
{
    match what {
        Refused::I128 => NbtError::UnsupportedType(
            "i128",
            Some("NBT does not have a 128-bit number type. Store it as 2 longs - 64 least significant bits, and 64 most significant bits."),
        ),
        Refused::U128 => NbtError::UnsupportedType(
            "u128",
            Some("NBT does not support unsigned integers, and even 128-bit numbers. Store it as 2 longs - 64 LSBs, and 64 MSBs."),
        ),
        Refused::Null => NbtError::UnsupportedType("null", Some("NBT does not support nulls")),
        Refused::Unit => NbtError::UnsupportedType("()", Some("NBT does not support nulls, nor unit types.")),
        Refused::Bytes => NbtError::UnsupportedType("&[u8]", Some("NBT does not have an unsigned byte type")),
        Refused::ByteBuf => NbtError::UnsupportedType("Vec<u8>", Some("NBT does not have an unsigned byte type")),
        Refused::Optional => NbtError::UnsupportedType(
            "Option",
            Some("NBT does not suport nulls, so just use `#[serde(skip_serializing_if = \"Option::is_none\")]`"),
        ),
        Refused::ReadUnit => NbtError::UnsupportedType("()", Some("NBT does not support nulls nor unit types.")),
        Refused::IgnoredAny => NbtError::UnsupportedType(
            "IgnoredAny",
            Some("NBT does not support nulls and IgnoredAny is confusing aaaaa help please"),
        ),
    }
}

} // verus!

verus! {

/// A compound being built from a map, a struct or a struct variant: the entries
/// so far, the name of the variant it is the value of (if any), and a key that
/// waits for its value.
pub struct NbtMapBuilder {
    pub entries: Vec<(String, Nbt)>,
    pub variant: Option<String>,
    pub key: Option<String>,
}

impl NbtMapBuilder {
    /// An empty compound, inside the variant `variant` if there is one.
    pub fn new(variant: Option<String>) -> (r: NbtMapBuilder)
        ensures
            r.entries@.len() == 0,
            r.variant == variant,
            r.key is None,
    {
        NbtMapBuilder { entries: Vec::new(), variant, key: None }
    }

    /// Takes the next key: it must be a string; it replaces a key that had no
    /// value yet.
    pub fn set_key(&mut self, key: Nbt) -> (r: Result<(), NbtError>)
        ensures
            key matches Nbt::String(s) ==> r is Ok && final(self).key == Some(s),
            !(key is String) ==> r == Err::<(), NbtError>(NbtError::InvalidKey(key)) && final(self).key == old(
                self,
            ).key,
            final(self).entries == old(self).entries,
            final(self).variant == old(self).variant,
    {
        let k = key_of(key)?;
        self.key = Some(k);
        Ok(())
    }

    /// Takes the key that waits for its value; an error when there is none.
    pub fn take_key(&mut self) -> (r: Result<String, NbtError>)
        ensures
            old(self).key matches Some(k) ==> r == Ok::<String, NbtError>(k),
            old(self).key is None ==> r == Err::<String, NbtError>(NbtError::NoKeyInMap),
            final(self).key is None,
            final(self).entries == old(self).entries,
            final(self).variant == old(self).variant,
    {
        let mut k: Option<String> = None;
        std::mem::swap(&mut k, &mut self.key);
        match k {
            Some(k) => Ok(k),
            None => Err(NbtError::NoKeyInMap),
        }
    }

    /// Sets the value of `key`: in place when it is there, at the end otherwise.
    pub fn insert(&mut self, key: String, value: Nbt)
        ensures
            nbt_view_entries(final(self).entries@) == entries_insert(
                nbt_view_entries(old(self).entries@),
                key@,
                nbt_view(value),
            ),
            final(self).key == old(self).key,
            final(self).variant == old(self).variant,
    {
        insert_entry(&mut self.entries, key, value);
    }

    /// The compound, or a compound of one entry, the variant's name and the
    /// compound.
    pub fn end(self) -> (r: Nbt)
        ensures
            match self.variant {
                Some(k) => r matches Nbt::Compound(c) && c@.len() == 1 && c@[0].0 == k && nbt_view(c@[0].1)
                    == NbtValue::Compound(nbt_view_entries(self.entries@)),
                None => nbt_view(r) == NbtValue::Compound(nbt_view_entries(self.entries@)),
            },
    {
        let NbtMapBuilder { entries, variant, key: _ } = self;
        match variant {
            Some(k) => variant_value(k, Nbt::Compound(entries)),
            None => Nbt::Compound(entries),
        }
    }
}

/// A list being built from a sequence, a tuple or a tuple variant: the values so
/// far and the name of the variant it is the value of (if any).
pub struct NbtSeqBuilder {
    pub items: Vec<Nbt>,
    pub variant: Option<String>,
}

impl NbtSeqBuilder {
    /// An empty list, inside the variant `variant` if there is one.
    pub fn new(variant: Option<String>) -> (r: NbtSeqBuilder)
        ensures
            r.items@.len() == 0,
            r.variant == variant,
    {
        NbtSeqBuilder { items: Vec::new(), variant }
    }

    /// Adds a value at the end.
    pub fn push(&mut self, value: Nbt)
        ensures
            final(self).items@ == old(self).items@.push(value),
            final(self).variant == old(self).variant,
    {
        self.items.push(value);
    }

    /// The list, or a compound of one entry, the variant's name and the list.
    pub fn end(self) -> (r: Nbt)
        ensures
            match self.variant {
                Some(k) => r matches Nbt::Compound(c) && c@.len() == 1 && c@[0].0 == k && c@[0].1
                    == Nbt::List(self.items),
                None => r == Nbt::List(self.items),
            },
    {
        let NbtSeqBuilder { items, variant } = self;
        match variant {
            Some(k) => variant_value(k, Nbt::List(items)),
            None => Nbt::List(items),
        }
    }
}

} // verus!

verus! {

/// `e` tells that a value of kind `t` was expected where `n` was found.
pub open spec fn expected_kind(e: NbtError, t: NbtTagType, n: Nbt) -> bool {
    e matches NbtError::Expected { expected: NbtExpected::Type(t2), actual } && t2 == t && nbt_view(actual)
        == nbt_view(n)
}

/// The error for a value of another kind than `t`.
fn wrong_kind(t: NbtTagType, n: &Nbt) -> (r: NbtError)
    ensures
        expected_kind(r, t, *n),
{
    NbtError::Expected { expected: NbtExpected::Type(t), actual: n.duplicate() }
}

/// Reading a `bool`: the byte 0 or 1.
pub fn bool_of(n: &Nbt) -> (r: Result<bool, NbtError>)
    ensures
        *n == Nbt::Byte(0) ==> r == Ok::<bool, NbtError>(false),
        *n == Nbt::Byte(1) ==> r == Ok::<bool, NbtError>(true),
        !(*n == Nbt::Byte(0) || *n == Nbt::Byte(1)) ==> (r matches Err(
            NbtError::Expected { expected: NbtExpected::AnyOf(v), actual },
        ) && v@ == seq![Nbt::Byte(0), Nbt::Byte(1)] && nbt_view(actual) == nbt_view(*n)),
{
    match n {
        Nbt::Byte(0) => Ok(false),
        Nbt::Byte(1) => Ok(true),
        _ => {
            let mut v: Vec<Nbt> = Vec::new();
            v.push(Nbt::Byte(0));
            v.push(Nbt::Byte(1));
            assert(v@ =~= seq![Nbt::Byte(0), Nbt::Byte(1)]);
            Err(NbtError::Expected { expected: NbtExpected::AnyOf(v), actual: n.duplicate() })
        },
    }
}

/// Reading an `i8`: a byte.
pub fn i8_of(n: &Nbt) -> (r: Result<i8, NbtError>)
    ensures
        *n matches Nbt::Byte(b) ==> r == Ok::<i8, NbtError>(b),
        !(n is Byte) ==> (r matches Err(e) && expected_kind(e, NbtTagType::Byte, *n)),
{
    match n {
        Nbt::Byte(b) => Ok(*b),
        _ => Err(wrong_kind(NbtTagType::Byte, n)),
    }
}

/// Reading an `i16`: a short.
pub fn i16_of(n: &Nbt) -> (r: Result<i16, NbtError>)
    ensures
        *n matches Nbt::Short(b) ==> r == Ok::<i16, NbtError>(b),
        !(n is Short) ==> (r matches Err(e) && expected_kind(e, NbtTagType::Short, *n)),
{
    match n {
        Nbt::Short(b) => Ok(*b),
        _ => Err(wrong_kind(NbtTagType::Short, n)),
    }
}

/// Reading an `i32`: an int.
pub fn i32_of(n: &Nbt) -> (r: Result<i32, NbtError>)
    ensures
        *n matches Nbt::Int(b) ==> r == Ok::<i32, NbtError>(b),
        !(n is Int) ==> (r matches Err(e) && expected_kind(e, NbtTagType::Int, *n)),
{
    match n {
        Nbt::Int(b) => Ok(*b),
        _ => Err(wrong_kind(NbtTagType::Int, n)),
    }
}

/// Reading an `i64`: a long.
pub fn i64_of(n: &Nbt) -> (r: Result<i64, NbtError>)
    ensures
        *n matches Nbt::Long(b) ==> r == Ok::<i64, NbtError>(b),
        !(n is Long) ==> (r matches Err(e) && expected_kind(e, NbtTagType::Long, *n)),
{
    match n {
        Nbt::Long(b) => Ok(*b),
        _ => Err(wrong_kind(NbtTagType::Long, n)),
    }
}

/// Reading an `f32`: a float, given as its bits.
pub fn f32_bits_of(n: &Nbt) -> (r: Result<u32, NbtError>)
    ensures
        *n matches Nbt::Float(b) ==> r == Ok::<u32, NbtError>(b),
        !(n is Float) ==> (r matches Err(e) && expected_kind(e, NbtTagType::Float, *n)),
{
    match n {
        Nbt::Float(b) => Ok(*b),
        _ => Err(wrong_kind(NbtTagType::Float, n)),
    }
}

/// Reading an `f64`: a double, given as its bits.
pub fn f64_bits_of(n: &Nbt) -> (r: Result<u64, NbtError>)
    ensures
        *n matches Nbt::Double(b) ==> r == Ok::<u64, NbtError>(b),
        !(n is Double) ==> (r matches Err(e) && expected_kind(e, NbtTagType::Double, *n)),
{
    match n {
        Nbt::Double(b) => Ok(*b),
        _ => Err(wrong_kind(NbtTagType::Double, n)),
    }
}

/// Reading a `u8`: a byte that is not negative.
pub fn u8_of(n: &Nbt) -> (r: Result<u8, NbtError>)
    ensures
        *n matches Nbt::Byte(b) ==> (b >= 0 ==> r == Ok::<u8, NbtError>(b as u8)),
        !(*n matches Nbt::Byte(b) && b >= 0) ==> (r matches Err(e) && expected_kind(e, NbtTagType::Byte, *n)),
{
    match n {
        Nbt::Byte(b) if *b >= 0 => Ok(*b as u8),
        _ => Err(wrong_kind(NbtTagType::Byte, n)),
    }
}

/// Reading a `u16`: a short that is not negative.
pub fn u16_of(n: &Nbt) -> (r: Result<u16, NbtError>)
    ensures
        *n matches Nbt::Short(b) ==> (b >= 0 ==> r == Ok::<u16, NbtError>(b as u16)),
        !(*n matches Nbt::Short(b) && b >= 0) ==> (r matches Err(e) && expected_kind(e, NbtTagType::Short, *n)),
{
    match n {
        Nbt::Short(b) if *b >= 0 => Ok(*b as u16),
        _ => Err(wrong_kind(NbtTagType::Short, n)),
    }
}

/// Reading a `u32`: an int that is not negative.
pub fn u32_of(n: &Nbt) -> (r: Result<u32, NbtError>)
    ensures
        *n matches Nbt::Int(b) ==> (b >= 0 ==> r == Ok::<u32, NbtError>(b as u32)),
        !(*n matches Nbt::Int(b) && b >= 0) ==> (r matches Err(e) && expected_kind(e, NbtTagType::Int, *n)),
{
    match n {
        Nbt::Int(b) if *b >= 0 => Ok(*b as u32),
        _ => Err(wrong_kind(NbtTagType::Int, n)),
    }
}

/// Reading a `u64`: a long that is not negative.
pub fn u64_of(n: &Nbt) -> (r: Result<u64, NbtError>)
    ensures
        *n matches Nbt::Long(b) ==> (b >= 0 ==> r == Ok::<u64, NbtError>(b as u64)),
        !(*n matches Nbt::Long(b) && b >= 0) ==> (r matches Err(e) && expected_kind(e, NbtTagType::Long, *n)),
{
    match n {
        Nbt::Long(b) if *b >= 0 => Ok(*b as u64),
        _ => Err(wrong_kind(NbtTagType::Long, n)),
    }
}

/// Whether `v` is the code point of a character: not a surrogate, at most `0x10FFFF`.
pub open spec fn is_scalar(v: u32) -> bool {
    v < 0xD800 || (0xE000 <= v && v <= 0x10FFFF)
}

/// The character of a code point (`char::from_u32`).
/// Trusted: claims, as the documentation of `char::from_u32` says, that there is
/// a character exactly for the code points that are not surrogates and are at
/// most `char::MAX`, and that it is the character of that code point.
#[verifier::external_body]
fn char_from_u32(v: u32) -> (r: Option<char>)
    ensures
        r is Some <==> is_scalar(v),
        r matches Some(c) ==> c as u32 == v,
{
    char::from_u32(v)
}

/// Reading a `char`: an int that is not negative, the code point of a character.
pub fn char_of(n: &Nbt) -> (r: Result<char, NbtError>)
    ensures
        *n matches Nbt::Int(i) ==> (i >= 0 && is_scalar(i as u32) ==> (r matches Ok(c) && c as u32 == i)),
        *n matches Nbt::Int(i) ==> (i >= 0 && !is_scalar(i as u32) ==> (r matches Err(e) && out_of_bounds(
            e,
            decimal_text(i as nat) + "i32"@,
            "i32"@,
            "char"@,
        ))),
        !(*n matches Nbt::Int(i) && i >= 0) ==> (r matches Err(e) && expected_kind(e, NbtTagType::Int, *n)),
{
    match n {
        Nbt::Int(i) if *i >= 0 => match char_from_u32(*i as u32) {
            Some(c) => Ok(c),
            None => {
                proof {
                    reveal_strlit("i32");
                    reveal_strlit("char");
                }
                Err(NbtError::OutOfBounds { value: decimal_with(*i as u64, "i32"), actual_type: "i32", type_for_nbt: "char" })
            },
        },
        _ => Err(wrong_kind(NbtTagType::Int, n)),
    }
}

/// Reading a string.
pub fn str_of(n: &Nbt) -> (r: Result<&String, NbtError>)
    ensures
        *n matches Nbt::String(s) ==> (r matches Ok(t) && *t == s),
        !(n is String) ==> (r matches Err(e) && expected_kind(e, NbtTagType::String, *n)),
{
    match n {
        Nbt::String(s) => Ok(s),
        _ => Err(wrong_kind(NbtTagType::String, n)),
    }
}

/// Reading a sequence: a list.
pub fn list_of(n: &Nbt) -> (r: Result<&Vec<Nbt>, NbtError>)
    ensures
        *n matches Nbt::List(l) ==> (r matches Ok(t) && *t == l),
        !(n is List) ==> (r matches Err(e) && expected_kind(e, NbtTagType::List, *n)),
{
    match n {
        Nbt::List(l) => Ok(l),
        _ => Err(wrong_kind(NbtTagType::List, n)),
    }
}

/// Reading a map or a struct: a compound.
pub fn compound_of(n: &Nbt) -> (r: Result<&Vec<(String, Nbt)>, NbtError>)
    ensures
        *n matches Nbt::Compound(c) ==> (r matches Ok(t) && *t == c),
        !(n is Compound) ==> (r matches Err(e) && expected_kind(e, NbtTagType::Compound, *n)),
{
    match n {
        Nbt::Compound(c) => Ok(c),
        _ => Err(wrong_kind(NbtTagType::Compound, n)),
    }
}

/// Where the reading of a compound's entries stands: the next entry, and the
/// entry whose key was given and whose value was not yet.
pub struct EntryCursor {
    pub next: usize,
    pub pending: Option<usize>,
}

impl EntryCursor {
    /// At the first entry, none pending.
    pub fn new() -> (r: EntryCursor)
        ensures
            r.next == 0,
            r.pending is None,
    {
        EntryCursor { next: 0, pending: None }
    }

    /// The entry whose key comes next, out of `len`; it then waits for its value.
    /// None when all were given.
    pub fn next_key(&mut self, len: usize) -> (r: Option<usize>)
        requires
            old(self).next <= len,
        ensures
            old(self).next < len ==> r == Some(old(self).next) && final(self).next == old(self).next + 1
                && final(self).pending == Some(old(self).next),
            old(self).next == len ==> r is None && *final(self) == *old(self),
    {
        if self.next < len {
            let i = self.next;
            self.next = i + 1;
            self.pending = Some(i);
            Some(i)
        } else {
            None
        }
    }

    /// The entry whose value comes now; an error when no key was given.
    pub fn take_value(&mut self) -> (r: Result<usize, NbtError>)
        ensures
            old(self).pending matches Some(i) ==> r == Ok::<usize, NbtError>(i),
            old(self).pending is None ==> r == Err::<usize, NbtError>(NbtError::NoKeyInMap),
            final(self).pending is None,
            final(self).next == old(self).next,
    {
        match self.pending {
            Some(i) => {
                self.pending = None;
                Ok(i)
            },
            None => Err(NbtError::NoKeyInMap),
        }
    }

    /// The next entry, key and value together, out of `len`; none when all were
    /// given.
    pub fn next_entry(&mut self, len: usize) -> (r: Option<usize>)
        requires
            old(self).next <= len,
        ensures
            old(self).next < len ==> r == Some(old(self).next) && final(self).next == old(self).next + 1,
            old(self).next == len ==> r is None && final(self).next == old(self).next,
            final(self).pending == old(self).pending,
    {
        if self.next < len {
            let i = self.next;
            self.next = i + 1;
            Some(i)
        } else {
            None
        }
    }
}

} // verus!

verus! {

/// Values that each have the kind `t` and can be written make a list that can be
/// written.
pub proof fn lemma_can_write_values_from(l: Seq<NbtValue>, t: crate::nbt::NbtTagType)
    requires
        forall|i: int| 0 <= i < l.len() ==> crate::nbt::tag_of(#[trigger] l[i]) == t && crate::nbt::can_write(l[i]),
    ensures
        crate::nbt::can_write_values(l, t),
    decreases l.len(),
{
    if l.len() > 0 {
        let r = l.subrange(1, l.len() as int);
        assert forall|i: int| 0 <= i < r.len() implies crate::nbt::tag_of(#[trigger] r[i]) == t
            && crate::nbt::can_write(r[i]) by {
            assert(r[i] == l[i + 1]);
        }
        lemma_can_write_values_from(r, t);
        assert(crate::nbt::tag_of(l[0]) == t && crate::nbt::can_write(l[0]));
    }
}

/// Entries whose names and values can each be written make a compound that can
/// be written.
pub proof fn lemma_can_write_entries_from(e: Seq<(Seq<char>, NbtValue)>)
    requires
        forall|i: int|
            0 <= i < e.len() ==> vstd::utf8::encode_utf8((#[trigger] e[i]).0).len() <= 0xffff
                && crate::nbt::can_write(e[i].1),
    ensures
        crate::nbt::can_write_entries(e),
    decreases e.len(),
{
    if e.len() > 0 {
        let r = e.subrange(1, e.len() as int);
        assert forall|i: int| 0 <= i < r.len() implies vstd::utf8::encode_utf8((#[trigger] r[i]).0).len()
            <= 0xffff && crate::nbt::can_write(r[i].1) by {
            assert(r[i] == e[i + 1]);
        }
        lemma_can_write_entries_from(r);
        assert(vstd::utf8::encode_utf8(e[0].0).len() <= 0xffff && crate::nbt::can_write(e[0].1));
    }
}

impl Nbt {
    /// Whether the value can be written: strings and names of at most 65535
    /// bytes, arrays and lists of at most `i32::MAX` elements, the values of each
    /// list all of one kind.
    pub fn writable(&self) -> (r: bool)
        ensures
            r == crate::nbt::can_write(nbt_view(*self)),
        decreases *self, 0nat,
    {
        match self {
            Nbt::ByteArray(a) => a.len() <= 0x7fff_ffff,
            Nbt::IntArray(a) => a.len() <= 0x7fff_ffff,
            Nbt::LongArray(a) => a.len() <= 0x7fff_ffff,
            Nbt::String(s) => s.as_str().as_bytes().len() <= 0xffff,
            Nbt::List(l) => Self::writable_list(l),
            Nbt::Compound(c) => Self::writable_entries(c),
            _ => true,
        }
    }

    /// Whether a list of values can be written.
    pub(crate) fn writable_list(l: &Vec<Nbt>) -> (r: bool)
        ensures
            r == crate::nbt::can_write(NbtValue::List(nbt_view_seq(l@))),
        decreases *l, 0nat,
    {
        let ghost v = nbt_view_seq(l@);
        proof {
            lemma_view_seq(l@);
        }
        if l.len() > 0x7fff_ffff {
            return false;
        }
        if l.len() == 0 {
            return true;
        }
        let t = l[0].tag();
        let mut i: usize = 0;
        while i < l.len()
            invariant
                i <= l@.len(),
                v == nbt_view_seq(l@),
                v.len() == l@.len(),
                forall|j: int| 0 <= j < l@.len() ==> #[trigger] v[j] == nbt_view(l@[j]),
                t == crate::nbt::tag_of(v[0]),
                l@.len() > 0,
                forall|j: int| 0 <= j < i ==> crate::nbt::tag_of(#[trigger] v[j]) == t && crate::nbt::can_write(v[j]),
            decreases l@.len() - i,
        {
            let item = &l[i];
            assert(v[i as int] == nbt_view(*item));
            if item.tag().byte() != t.byte() || !item.writable() {
                proof {
                    if crate::nbt::can_write_values(v, t) {
                        crate::nbt::lemma_can_write_values(v, t);
                        assert(crate::nbt::tag_of(v[i as int]) == t);
                        crate::nbt_laws::lemma_tag_byte(t);
                        crate::nbt_laws::lemma_tag_byte(crate::nbt::tag_of(v[i as int]));
                    }
                }
                return false;
            }
            proof {
                crate::nbt_laws::lemma_tag_byte(t);
                crate::nbt_laws::lemma_tag_byte(crate::nbt::tag_of(v[i as int]));
            }
            i = i + 1;
        }
        proof {
            lemma_can_write_values_from(v, t);
        }
        true
    }

    /// Whether the entries of a compound can be written.
    pub(crate) fn writable_entries(c: &Vec<(String, Nbt)>) -> (r: bool)
        ensures
            r == crate::nbt::can_write_entries(nbt_view_entries(c@)),
        decreases *c, 0nat,
    {
        let ghost e = nbt_view_entries(c@);
        proof {
            lemma_view_entries(c@);
        }
        let mut i: usize = 0;
        while i < c.len()
            invariant
                i <= c@.len(),
                e == nbt_view_entries(c@),
                e.len() == c@.len(),
                forall|j: int| 0 <= j < c@.len() ==> #[trigger] e[j] == (c@[j].0@, nbt_view(c@[j].1)),
                forall|j: int|
                    0 <= j < i ==> vstd::utf8::encode_utf8((#[trigger] e[j]).0).len() <= 0xffff
                        && crate::nbt::can_write(e[j].1),
            decreases c@.len() - i,
        {
            let entry = &c[i];
            assert(e[i as int] == (entry.0@, nbt_view(entry.1)));
            if entry.0.as_str().as_bytes().len() > 0xffff || !entry.1.writable() {
                proof {
                    if crate::nbt::can_write_entries(e) {
                        crate::nbt::lemma_can_write_entries(e);
                        assert(vstd::utf8::encode_utf8(e[i as int].0).len() <= 0xffff);
                    }
                }
                return false;
            }
            i = i + 1;
        }
        proof {
            lemma_can_write_entries_from(e);
        }
        true
    }
}

} // verus!
