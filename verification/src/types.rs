//! Protocol types: strings, strings of bounded length, optional values, UUIDs,
//! JSON text and arrays.
use crate::bytes_be::{be_bytes, be_value, lemma_pow256_values, put_be, read_be, spec_read_be};
use crate::error::{Error, SerializationError, StrError};
use crate::nbt::string_from_utf8;
use crate::ser::{copy_range, deep_views, extends, put_slice, read_at, Deserialize, Serialize};
use crate::varint::{leb_encode, LEB128Number, VarInt};
use vstd::prelude::*;
use vstd::utf8::{decode_utf8, encode_utf8, valid_utf8};

verus! {

/// A string as the protocol writes it: the length of its UTF-8 bytes as a
/// variable-length integer, then the bytes.
pub open spec fn str_bytes(s: Seq<char>) -> Seq<u8> {
    leb_encode(encode_utf8(s).len()) + encode_utf8(s)
}

/// Bytes with their length in front, as a variable-length integer.
pub open spec fn prefixed(b: Seq<u8>) -> Seq<u8> {
    leb_encode(b.len()) + b
}

/// Appends `data` with its length in front (a length past `i32::MAX` panics).
pub fn put_prefixed(buf: &mut Vec<u8>, data: &[u8])
    requires
        data@.len() <= i32::MAX,
    ensures
        final(buf)@ == old(buf)@ + prefixed(data@),
{
    let n = data.len() as i32;
    assert(((n as u32) as nat) == data@.len());
    n.write_to(buf);
    put_slice(buf, data);
    assert(final(buf)@ =~= old(buf)@ + prefixed(data@));
}

/// Appends a string as the protocol writes it.
pub fn put_str(buf: &mut Vec<u8>, s: &str)
    requires
        encode_utf8(s@).len() <= i32::MAX,
    ensures
        final(buf)@ == old(buf)@ + str_bytes(s@),
{
    put_prefixed(buf, s.as_bytes());
}

impl Serialize for String {
    /// Strings whose length fits into an `i32`.
    open spec fn spec_can_serialize(&self) -> bool {
        encode_utf8(self@).len() <= i32::MAX
    }

    fn can_serialize(&self) -> (r: bool) {
        self.as_str().as_bytes().len() <= 0x7fff_ffff
    }

    open spec fn spec_serialize(&self) -> Result<Seq<u8>, Error> {
        Ok(str_bytes(self@))
    }

    fn serialize_to(&self, buf: &mut Vec<u8>) -> (r: Result<(), Error>) {
        put_str(buf, self.as_str());
        Ok(())
    }
}

impl Serialize for str {
    /// Strings whose length fits into an `i32`.
    open spec fn spec_can_serialize(&self) -> bool {
        encode_utf8(self@).len() <= i32::MAX
    }

    fn can_serialize(&self) -> (r: bool) {
        self.as_bytes().len() <= 0x7fff_ffff
    }

    /// The length of the UTF-8 bytes, then the bytes.
    open spec fn spec_serialize(&self) -> Result<Seq<u8>, Error> {
        Ok(str_bytes(self@))
    }

    fn serialize_to(&self, buf: &mut Vec<u8>) -> (r: Result<(), Error>) {
        put_str(buf, self);
        Ok(())
    }
}

/// What reading bytes with their length in front gives: a length that is not
/// negative, then that many bytes.
pub open spec fn spec_read_prefixed(s: Seq<u8>) -> Result<(Seq<u8>, nat), Error> {
    match i32::spec_read(s) {
        Err(e) => Err(e),
        Ok((l, n)) => Ok((s.subrange(n as int, n + l), n + l as nat)),
    }
}

/// The inputs on which reading bytes with their length in front does not panic:
/// the length is not negative and the bytes are all there.
pub open spec fn can_read_prefixed(s: Seq<u8>) -> bool {
    match i32::spec_read(s) {
        Err(_) => true,
        Ok((l, n)) => 0 <= l && n + l <= s.len(),
    }
}

/// Whether bytes with their length in front can be read at `pos` without a panic.
pub fn check_prefixed(input: &[u8], pos: usize) -> (r: bool)
    requires
        pos <= input@.len(),
    ensures
        r == can_read_prefixed(input@.skip(pos as int)),
{
    match i32::read(input, pos) {
        Err(_) => true,
        Ok((l, p)) => 0 <= l && l as usize <= input.len() - p,
    }
}

/// Reads bytes with their length in front, at `pos`.
pub fn read_prefixed(input: &[u8], pos: usize) -> (r: Result<(Vec<u8>, usize), Error>)
    requires
        pos <= input@.len(),
        can_read_prefixed(input@.skip(pos as int)),
    ensures
        match spec_read_prefixed(input@.skip(pos as int)) {
            Ok((b, n)) => r matches Ok((v, p)) && v@ == b && p == pos + n,
            Err(e) => r matches Err(e2) && e2 == e,
        },
        r matches Ok((_, p)) ==> pos <= p <= input@.len(),
{
    let ghost s = input@.skip(pos as int);
    let (length, p) = i32::read(input, pos)?;
    let length = length as usize;
    let ilen = input.len();
    assert(s.len() == ilen - pos);
    assert(p - pos + length <= s.len());
    let end = p + length;
    let data = copy_range(input, p, end);
    assert(data@ =~= s.subrange((p - pos) as int, (p - pos) + length));
    Ok((data, end))
}

/// Turns bytes into a string; the bytes must be UTF-8.
fn utf8_string(bytes: Vec<u8>) -> (r: String)
    requires
        valid_utf8(bytes@),
    ensures
        r@ == decode_utf8(bytes@),
{
    match string_from_utf8(bytes) {
        Some(s) => s,
        None => {
            assert(false);
            String::new()
        },
    }
}

/// A string of at most `N` bytes of UTF-8.
#[derive(Debug)]
pub struct FixedStr<const N: usize> {
    inner: String,
}

impl<const N: usize> View for FixedStr<N> {
    type V = Seq<char>;

    closed spec fn view(&self) -> Seq<char> {
        self.inner@
    }
}

impl<const N: usize> DeepView for FixedStr<N> {
    type V = Seq<char>;

    open spec fn deep_view(&self) -> Seq<char> {
        self@
    }
}

impl<const N: usize> Clone for FixedStr<N> {
    fn clone(&self) -> (r: Self)
        ensures
            r@ == self@,
    {
        proof {
            use_type_invariant(self);
        }
        FixedStr { inner: self.inner.clone() }
    }
}

impl<const N: usize> FixedStr<N> {
    /// Every string of the type has at most `N` bytes.
    #[verifier::type_invariant]
    pub open spec fn fits(&self) -> bool {
        encode_utf8(self@).len() <= N
    }

    /// The string `string`, when it has at most `N` bytes.
    pub fn from_string(string: &str) -> (r: Option<Self>)
        ensures
            r is Some <==> encode_utf8(string@).len() <= N,
            r matches Some(f) ==> f@ == string@,
    {
        let len = string.as_bytes().len();
        if len > N {
            None
        } else {
            let inner = string.to_owned();
            assert(encode_utf8(inner@).len() <= N);
            Some(FixedStr { inner })
        }
    }

    /// The string (of at most `N` bytes).
    pub fn as_str(&self) -> (r: &str)
        ensures
            r@ == self@,
            encode_utf8(r@).len() <= N,
    {
        proof {
            use_type_invariant(self);
        }
        self.inner.as_str()
    }
}

impl<const N: usize> Serialize for FixedStr<N> {
    /// Strings whose length fits into an `i32`.
    open spec fn spec_can_serialize(&self) -> bool {
        encode_utf8(self@).len() <= i32::MAX
    }

    fn can_serialize(&self) -> (r: bool) {
        self.as_str().as_bytes().len() <= 0x7fff_ffff
    }

    /// The length of the UTF-8 bytes as a variable-length integer, then the bytes.
    open spec fn spec_serialize(&self) -> Result<Seq<u8>, Error> {
        Ok(str_bytes(self@))
    }

    fn serialize_to(&self, buf: &mut Vec<u8>) -> (r: Result<(), Error>) {
        put_str(buf, self.as_str());
        Ok(())
    }
}

impl<const N: usize> Deserialize for FixedStr<N> {
    type Context = ();

    /// Panics: a negative length, a length past `N`, bytes that are not all
    /// there, bytes that are not UTF-8.
    open spec fn spec_can_deserialize(s: Seq<u8>, cx: ()) -> bool {
        &&& can_read_prefixed(s)
        &&& spec_read_prefixed(s) matches Ok((b, _)) ==> b.len() <= N && valid_utf8(b)
    }

    fn can_deserialize(input: &[u8], pos: usize, cx: &()) -> (r: bool) {
        if !check_prefixed(input, pos) {
            return false;
        }
        match read_prefixed(input, pos) {
            Err(_) => true,
            Ok((b, _)) => b.len() <= N && string_from_utf8(b).is_some(),
        }
    }

    open spec fn spec_deserialize(s: Seq<u8>, cx: ()) -> Result<(Seq<char>, nat), Error> {
        match spec_read_prefixed(s) {
            Ok((b, n)) => Ok((decode_utf8(b), n)),
            Err(e) => Err(e),
        }
    }

    fn deserialize(input: &[u8], pos: usize, cx: &()) -> (r: Result<(FixedStr<N>, usize), Error>) {
        let (bytes, p) = read_prefixed(input, pos)?;
        proof {
            vstd::utf8::decode_utf8_encode_utf8(bytes@);
        }
        let inner = utf8_string(bytes);
        Ok((FixedStr { inner }, p))
    }
}

} // verus!

verus! {

impl<T: Serialize> Serialize for Option<T> {
    open spec fn spec_can_serialize(&self) -> bool {
        match self {
            Some(v) => v.spec_can_serialize(),
            None => true,
        }
    }

    fn can_serialize(&self) -> (r: bool) {
        match self {
            Some(v) => v.can_serialize(),
            None => true,
        }
    }

    /// `1` and the value, or `0`.
    open spec fn spec_serialize(&self) -> Result<Seq<u8>, Error> {
        match self {
            Some(v) => match v.spec_serialize() {
                Ok(w) => Ok(seq![1u8] + w),
                Err(e) => Err(e),
            },
            None => Ok(seq![0u8]),
        }
    }

    fn serialize_to(&self, buf: &mut Vec<u8>) -> (r: Result<(), Error>) {
        match self {
            Some(val) => {
                buf.push(1);
                let ghost mid = buf@;
                let r = val.serialize_to(buf);
                proof {
                    assert(mid.subrange(0, old(buf)@.len() as int) =~= old(buf)@);
                    if let Ok(w) = val.spec_serialize() {
                        assert(final(buf)@ =~= old(buf)@ + (seq![1u8] + w));
                    } else {
                        assert(final(buf)@.subrange(0, old(buf)@.len() as int) =~= final(buf)@.subrange(
                            0,
                            mid.len() as int,
                        ).subrange(0, old(buf)@.len() as int));
                    }
                }
                r
            },
            None => {
                buf.push(0);
                Ok(())
            },
        }
    }
}

impl<T: Deserialize> Deserialize for Option<T> {
    type Context = T::Context;

    open spec fn spec_can_deserialize(s: Seq<u8>, cx: T::Context) -> bool {
        s.len() > 0 && s[0] == 1 ==> T::spec_can_deserialize(s.skip(1), cx)
    }

    fn can_deserialize(input: &[u8], pos: usize, cx: &T::Context) -> (r: bool) {
        if pos < input.len() && input[pos] == 1 {
            assert(input@.skip(pos + 1) =~= input@.skip(pos as int).skip(1));
            T::can_deserialize(input, pos + 1, cx)
        } else {
            true
        }
    }

    /// A byte `0` (none) or `1` (then the value).
    open spec fn spec_deserialize(s: Seq<u8>, cx: T::Context) -> Result<(Option<T::V>, nat), Error> {
        if s.len() == 0 {
            Err(Error::Ser(SerializationError::UnexpectedEof))
        } else if s[0] == 0 {
            Ok((None, 1))
        } else if s[0] == 1 {
            match T::spec_deserialize(s.skip(1), cx) {
                Ok((v, n)) => Ok((Some(v), n + 1)),
                Err(e) => Err(e),
            }
        } else {
            Err(Error::Ser(SerializationError::Expected { low: 0, high: 1, found: s[0] }))
        }
    }

    fn deserialize(input: &[u8], pos: usize, cx: &T::Context) -> (r: Result<(Option<T>, usize), Error>) {
        if pos >= input.len() {
            Err(Error::Ser(SerializationError::UnexpectedEof))
        } else if input[pos] == 0 {
            Ok((None, pos + 1))
        } else if input[pos] == 1 {
            assert(input@.skip(pos + 1) =~= input@.skip(pos as int).skip(1));
            let (v, p) = T::deserialize(input, pos + 1, cx)?;
            Ok((Some(v), p))
        } else {
            Err(Error::Ser(SerializationError::Expected { low: 0, high: 1, found: input[pos] }))
        }
    }
}

/// A UUID, as its 128 bits.
#[derive(Clone, Copy, Debug, PartialEq, Eq)]
pub struct Uuid(pub u128);

impl DeepView for Uuid {
    type V = u128;

    open spec fn deep_view(&self) -> u128 {
        self.0
    }
}

impl Serialize for Uuid {
    open spec fn spec_can_serialize(&self) -> bool {
        true
    }

    fn can_serialize(&self) -> (r: bool) {
        true
    }

    /// Sixteen bytes, big-endian.
    open spec fn spec_serialize(&self) -> Result<Seq<u8>, Error> {
        Ok(be_bytes(self.0 as nat, 16))
    }

    fn serialize_to(&self, buf: &mut Vec<u8>) -> (r: Result<(), Error>) {
        put_be(buf, self.0, 16);
        Ok(())
    }
}

impl Deserialize for Uuid {
    type Context = ();

    open spec fn spec_can_deserialize(s: Seq<u8>, cx: ()) -> bool {
        true
    }

    fn can_deserialize(input: &[u8], pos: usize, cx: &()) -> (r: bool) {
        true
    }

    open spec fn spec_deserialize(s: Seq<u8>, cx: ()) -> Result<(u128, nat), Error> {
        match spec_read_be(s, 16) {
            Ok((v, n)) => Ok((v as u128, n)),
            Err(e) => Err(e),
        }
    }

    fn deserialize(input: &[u8], pos: usize, cx: &()) -> (r: Result<(Uuid, usize), Error>) {
        let (v, p) = read_be(input, pos, 16)?;
        Ok((Uuid(v), p))
    }
}

/// The name-based UUID (version 3) of `name` in the DNS namespace.
pub uninterp spec fn uuid_v3_dns(name: Seq<u8>) -> u128;

/// Calls `uuid::Uuid::new_v3(&Uuid::NAMESPACE_DNS, name)` and takes its 128 bits.
/// Trusted: the contract only names the result, a function of `name` alone (an MD5
/// digest of the namespace and the name, with the version and variant bits set).
#[verifier::external_body]
fn uuid_v3_dns_of(name: &[u8]) -> (r: u128)
    ensures
        r == uuid_v3_dns(name@),
{
    uuid::Uuid::new_v3(&uuid::Uuid::NAMESPACE_DNS, name).as_u128()
}

/// The name that a player without an account is hashed under: `OfflinePlayer:`
/// and the player's name.
pub open spec fn offline_name(name: Seq<char>) -> Seq<u8> {
    encode_utf8("OfflinePlayer:"@) + encode_utf8(name)
}

impl Uuid {
    /// The UUID of a player in offline mode: the name-based UUID of
    /// `OfflinePlayer:<name>`.
    pub fn offline(name: &str) -> (r: Uuid)
        ensures
            r.0 == uuid_v3_dns(offline_name(name@)),
    {
        let mut b: Vec<u8> = Vec::new();
        put_slice(&mut b, "OfflinePlayer:".as_bytes());
        put_slice(&mut b, name.as_bytes());
        assert(b@ =~= offline_name(name@));
        Uuid(uuid_v3_dns_of(b.as_slice()))
    }
}

/// JSON text, written as a string.
#[derive(Clone, Debug, PartialEq, Eq)]
pub struct Json(pub Vec<u8>);

impl DeepView for Json {
    type V = Seq<u8>;

    open spec fn deep_view(&self) -> Seq<u8> {
        self.0@
    }
}

impl Serialize for Json {
    open spec fn spec_can_serialize(&self) -> bool {
        self.0@.len() <= i32::MAX
    }

    fn can_serialize(&self) -> (r: bool) {
        self.0.len() <= 0x7fff_ffff
    }

    /// The length of the text, then the text.
    open spec fn spec_serialize(&self) -> Result<Seq<u8>, Error> {
        Ok(prefixed(self.0@))
    }

    fn serialize_to(&self, buf: &mut Vec<u8>) -> (r: Result<(), Error>) {
        put_prefixed(buf, self.0.as_slice());
        Ok(())
    }
}

impl Deserialize for Json {
    type Context = ();

    /// Panics: a negative length, or bytes that are not all there.
    open spec fn spec_can_deserialize(s: Seq<u8>, cx: ()) -> bool {
        can_read_prefixed(s)
    }

    fn can_deserialize(input: &[u8], pos: usize, cx: &()) -> (r: bool) {
        check_prefixed(input, pos)
    }

    open spec fn spec_deserialize(s: Seq<u8>, cx: ()) -> Result<(Seq<u8>, nat), Error> {
        spec_read_prefixed(s)
    }

    fn deserialize(input: &[u8], pos: usize, cx: &()) -> (r: Result<(Json, usize), Error>) {
        let (b, p) = read_prefixed(input, pos)?;
        Ok((Json(b), p))
    }
}

} // verus!

verus! {

/// The bytes of the elements of `a`, each written as it writes itself, or the
/// error of the first that cannot be written.
pub open spec fn all_bytes<T: Serialize>(a: Seq<T>) -> Result<Seq<u8>, Error>
    decreases a.len(),
{
    if a.len() == 0 {
        Ok(Seq::empty())
    } else {
        match all_bytes(a.drop_last()) {
            Err(e) => Err(e),
            Ok(b) => match a.last().spec_serialize() {
                Ok(w) => Ok(b + w),
                Err(e) => Err(e),
            },
        }
    }
}

/// Once a prefix of `a` fails to be written, all of `a` fails with its error.
pub proof fn lemma_all_bytes_err<T: Serialize>(a: Seq<T>, k: int)
    requires
        0 <= k <= a.len(),
        all_bytes(a.take(k)) is Err,
    ensures
        all_bytes(a) == all_bytes(a.take(k)),
    decreases a.len() - k,
{
    if k < a.len() {
        assert(a.take(k + 1).drop_last() =~= a.take(k));
        lemma_all_bytes_err(a, k + 1);
    } else {
        assert(a.take(k) =~= a);
    }
}

/// What reading `count` values of `T` from the front of `s` gives: their views
/// and the bytes they took, or the first error.
pub open spec fn read_items<T: Deserialize>(s: Seq<u8>, count: nat, cx: T::Context) -> Result<
    (Seq<T::V>, nat),
    Error,
>
    decreases count,
{
    if count == 0 {
        Ok((Seq::empty(), 0))
    } else {
        match T::spec_deserialize(s, cx) {
            Err(e) => Err(e),
            Ok((v, n)) => match read_items::<T>(s.skip(n as int), (count - 1) as nat, cx) {
                Err(e) => Err(e),
                Ok((vs, m)) => Ok((seq![v] + vs, n + m)),
            },
        }
    }
}

/// The inputs on which reading `count` values of `T` does not panic.
pub open spec fn can_read_items<T: Deserialize>(s: Seq<u8>, count: nat, cx: T::Context) -> bool
    decreases count,
{
    count == 0 || (T::spec_can_deserialize(s, cx) && match T::spec_deserialize(s, cx) {
        Err(_) => true,
        Ok((_, n)) => n <= s.len() && can_read_items::<T>(s.skip(n as int), (count - 1) as nat, cx),
    })
}

/// `r` with `vs` in front of the values and `k` more bytes taken.
pub open spec fn after<V>(vs: Seq<V>, k: nat, r: Result<(Seq<V>, nat), Error>) -> Result<
    (Seq<V>, nat),
    Error,
> {
    match r {
        Ok((ws, m)) => Ok((vs + ws, k + m)),
        Err(e) => Err(e),
    }
}

/// Whether `count` values of `T` can be read at `pos` without a panic.
pub fn can_read_many<T: Deserialize>(input: &[u8], pos: usize, count: usize, cx: &T::Context) -> (r: bool)
    requires
        pos <= input@.len(),
    ensures
        r == can_read_items::<T>(input@.skip(pos as int), count as nat, *cx),
{
    let mut p = pos;
    let mut i: usize = 0;
    while i < count
        invariant
            i <= count,
            pos <= p <= input@.len(),
            can_read_items::<T>(input@.skip(pos as int), count as nat, *cx) == can_read_items::<T>(
                input@.skip(p as int),
                (count - i) as nat,
                *cx,
            ),
        decreases count - i,
    {
        if !T::can_deserialize(input, p, cx) {
            return false;
        }
        match T::deserialize(input, p, cx) {
            Err(_) => {
                return true;
            },
            Ok((_, q)) => {
                assert(input@.skip(q as int) =~= input@.skip(p as int).skip((q - p) as int));
                p = q;
            },
        }
        i = i + 1;
    }
    true
}

/// Reads `count` values of `T` at `pos`.
pub fn read_many<T: Deserialize>(input: &[u8], pos: usize, count: usize, cx: &T::Context) -> (r: Result<
    (Vec<T>, usize),
    Error,
>)
    requires
        pos <= input@.len(),
        can_read_items::<T>(input@.skip(pos as int), count as nat, *cx),
    ensures
        match read_items::<T>(input@.skip(pos as int), count as nat, *cx) {
            Ok((vs, n)) => r matches Ok((v, p)) && deep_views(v@) == vs && p == pos + n,
            Err(e) => r matches Err(e2) && e2 == e,
        },
        r matches Ok((_, p)) ==> pos <= p <= input@.len(),
{
    let mut acc: Vec<T> = Vec::new();
    let mut p = pos;
    let mut i: usize = 0;
    assert(deep_views(acc@) =~= Seq::<T::V>::empty());
    assert(after(Seq::<T::V>::empty(), 0, read_items::<T>(input@.skip(pos as int), count as nat, *cx))
        =~= read_items::<T>(input@.skip(pos as int), count as nat, *cx));
    while i < count
        invariant
            i <= count,
            pos <= p <= input@.len(),
            can_read_items::<T>(input@.skip(p as int), (count - i) as nat, *cx),
            read_items::<T>(input@.skip(pos as int), count as nat, *cx) == after(
                deep_views(acc@),
                (p - pos) as nat,
                read_items::<T>(input@.skip(p as int), (count - i) as nat, *cx),
            ),
        decreases count - i,
    {
        let ghost s = input@.skip(p as int);
        match T::deserialize(input, p, cx) {
            Err(e) => {
                return Err(e);
            },
            Ok((v, q)) => {
                proof {
                    assert(s.skip((q - p) as int) =~= input@.skip(q as int));
                    assert(deep_views(acc@.push(v)) =~= deep_views(acc@).push(v.deep_view()));
                    let rest = read_items::<T>(input@.skip(q as int), (count - i - 1) as nat, *cx);
                    assert(after(deep_views(acc@), (p - pos) as nat, after(seq![v.deep_view()], (q - p) as nat, rest))
                        =~= after(deep_views(acc@).push(v.deep_view()), (q - pos) as nat, rest)) by {
                        if let Ok((ws, m)) = rest {
                            assert(deep_views(acc@) + (seq![v.deep_view()] + ws) =~= deep_views(acc@).push(
                                v.deep_view(),
                            ) + ws);
                        }
                    }
                }
                acc.push(v);
                p = q;
            },
        }
        i = i + 1;
    }
    proof {
        if let Ok((ws, m)) = read_items::<T>(input@.skip(p as int), 0, *cx) {
            assert(deep_views(acc@) + ws =~= deep_views(acc@));
        }
    }
    Ok((acc, p))
}

/// An array: its length as a variable-length integer, then its elements.
#[derive(Debug)]
pub struct Array<T>(pub Vec<T>);

impl<T: DeepView> DeepView for Array<T> {
    type V = Seq<T::V>;

    open spec fn deep_view(&self) -> Seq<T::V> {
        deep_views(self.0@)
    }
}

impl<T: Serialize> Serialize for Array<T> {
    /// A length that fits into an `i32`, and elements that can be written.
    open spec fn spec_can_serialize(&self) -> bool {
        &&& self.0@.len() <= i32::MAX
        &&& forall|i: int| 0 <= i < self.0@.len() ==> (#[trigger] self.0@[i]).spec_can_serialize()
    }

    fn can_serialize(&self) -> (r: bool) {
        if self.0.len() > 0x7fff_ffff {
            return false;
        }
        let mut i: usize = 0;
        while i < self.0.len()
            invariant
                i <= self.0@.len(),
                forall|j: int| 0 <= j < i ==> (#[trigger] self.0@[j]).spec_can_serialize(),
            decreases self.0@.len() - i,
        {
            if !self.0[i].can_serialize() {
                return false;
            }
            i = i + 1;
        }
        true
    }

    open spec fn spec_serialize(&self) -> Result<Seq<u8>, Error> {
        match all_bytes(self.0@) {
            Ok(b) => Ok(leb_encode(self.0@.len()) + b),
            Err(e) => Err(e),
        }
    }

    fn serialize_to(&self, buf: &mut Vec<u8>) -> (r: Result<(), Error>) {
        let n = self.0.len() as i32;
        assert(((n as u32) as nat) == self.0@.len());
        n.write_to(buf);
        let ghost start = buf@;
        let mut i: usize = 0;
        assert(self.0@.take(0) =~= Seq::<T>::empty());
        while i < self.0.len()
            invariant
                i <= self.0@.len(),
                forall|j: int| 0 <= j < self.0@.len() ==> (#[trigger] self.0@[j]).spec_can_serialize(),
                start == old(buf)@ + leb_encode(self.0@.len()),
                all_bytes(self.0@.take(i as int)) matches Ok(b) && buf@ == start + b,
            decreases self.0.len() - i,
        {
            let ghost before = buf@;
            let ghost b = all_bytes(self.0@.take(i as int))->Ok_0;
            assert(self.0@.take(i + 1).drop_last() =~= self.0@.take(i as int));
            assert(self.0@.take(i + 1).last() == self.0@[i as int]);
            match self.0[i].serialize_to(buf) {
                Ok(()) => {
                    assert(buf@ =~= start + (b + self.0@[i as int].spec_serialize()->Ok_0));
                },
                Err(e) => {
                    proof {
                        lemma_all_bytes_err(self.0@, i + 1);
                        assert(before.subrange(0, old(buf)@.len() as int) =~= old(buf)@);
                        assert(buf@.subrange(0, old(buf)@.len() as int) =~= buf@.subrange(
                            0,
                            before.len() as int,
                        ).subrange(0, old(buf)@.len() as int));
                    }
                    return Err(e);
                },
            }
            i = i + 1;
        }
        assert(self.0@.take(self.0@.len() as int) =~= self.0@);
        Ok(())
    }
}

impl<T: Deserialize> Deserialize for Array<T> {
    type Context = T::Context;

    /// Panics: a negative length, or elements whose readers panic.
    open spec fn spec_can_deserialize(s: Seq<u8>, cx: T::Context) -> bool {
        match i32::spec_read(s) {
            Err(_) => true,
            Ok((l, n)) => 0 <= l && can_read_items::<T>(s.skip(n as int), l as nat, cx),
        }
    }

    fn can_deserialize(input: &[u8], pos: usize, cx: &T::Context) -> (r: bool) {
        match i32::read(input, pos) {
            Err(_) => true,
            Ok((l, p)) => {
                if l < 0 {
                    return false;
                }
                assert(input@.skip(p as int) =~= input@.skip(pos as int).skip((p - pos) as int));
                can_read_many::<T>(input, p, l as usize, cx)
            },
        }
    }

    open spec fn spec_deserialize(s: Seq<u8>, cx: T::Context) -> Result<(Seq<T::V>, nat), Error> {
        match i32::spec_read(s) {
            Err(e) => Err(e),
            Ok((l, n)) => after(Seq::empty(), n, read_items::<T>(s.skip(n as int), l as nat, cx)),
        }
    }

    fn deserialize(input: &[u8], pos: usize, cx: &T::Context) -> (r: Result<(Array<T>, usize), Error>) {
        let (length, p) = i32::read(input, pos)?;
        let length = length as usize;
        assert(input@.skip(p as int) =~= input@.skip(pos as int).skip((p - pos) as int));
        let (items, q) = read_many::<T>(input, p, length, cx)?;
        proof {
            if let Ok((vs, m)) = read_items::<T>(input@.skip(p as int), length as nat, *cx) {
                assert(Seq::<T::V>::empty() + vs =~= vs);
            }
        }
        Ok((Array(items), q))
    }
}

} // verus!

verus! {

/// The UTF-8 bytes of two strings one after the other are those of the two.
pub proof fn lemma_encode_utf8_concat(a: Seq<char>, b: Seq<char>)
    ensures
        encode_utf8(a + b) == encode_utf8(a) + encode_utf8(b),
    decreases a.len(),
{
    if a.len() == 0 {
        assert(a + b =~= b);
    } else {
        assert((a + b).drop_first() =~= a.drop_first() + b);
        lemma_encode_utf8_concat(a.drop_first(), b);
        assert((a + b)[0] == a[0]);
    }
}

/// Each character takes at most four bytes of UTF-8.
pub proof fn lemma_encode_utf8_len(s: Seq<char>)
    ensures
        encode_utf8(s).len() <= 4 * s.len(),
    decreases s.len(),
{
    if s.len() > 0 {
        lemma_encode_utf8_len(s.drop_first());
    }
}

/// Whether two strings hold the same characters.
pub fn str_eq(a: &str, b: &str) -> (r: bool)
    ensures
        r == (a@ == b@),
{
    let n = a.unicode_len();
    if n != b.unicode_len() {
        return false;
    }
    let mut i: usize = 0;
    while i < n
        invariant
            i <= n,
            n == a@.len(),
            n == b@.len(),
            forall|j: int| 0 <= j < i ==> a@[j] == b@[j],
        decreases n - i,
    {
        if a.get_char(i) != b.get_char(i) {
            return false;
        }
        i = i + 1;
    }
    assert(a@ =~= b@);
    true
}

/// A character that can start an identifier: an ASCII letter or `_`.
pub open spec fn ident_start(c: char) -> bool {
    ('a' <= c && c <= 'z') || ('A' <= c && c <= 'Z') || c == '_'
}

/// A character that can continue an identifier: an ASCII letter or digit, or `_`.
pub open spec fn ident_continue(c: char) -> bool {
    ident_start(c) || ('0' <= c && c <= '9')
}

/// Where the run of identifier characters of `s` that starts at `i` ends.
pub open spec fn ident_end(s: Seq<char>, i: nat) -> nat
    decreases s.len() - i,
{
    if i < s.len() && ident_continue(s[i as int]) {
        ident_end(s, i + 1)
    } else {
        i
    }
}

/// Reading an identifier at `i`: where it ends.
pub open spec fn parse_ident(s: Seq<char>, i: nat) -> Result<nat, Error> {
    if i >= s.len() {
        Err(Error::SerStr(StrError::UnexpectedEof))
    } else if !ident_start(s[i as int]) {
        Err(Error::SerStr(StrError::Expected { expected: None, found: s[i as int] }))
    } else {
        Ok(ident_end(s, i + 1))
    }
}

/// Reading `namespace:value`, both identifiers, from the front of `s`: the two
/// texts (whatever follows is left).
pub open spec fn parse_identifier(s: Seq<char>) -> Result<(Seq<char>, Seq<char>), Error> {
    match parse_ident(s, 0) {
        Err(e) => Err(e),
        Ok(e1) => if e1 >= s.len() {
            Err(Error::SerStr(StrError::UnexpectedEof))
        } else if s[e1 as int] != ':' {
            Err(Error::SerStr(StrError::Expected { expected: Some(':'), found: s[e1 as int] }))
        } else {
            match parse_ident(s, e1 + 1) {
                Err(e) => Err(e),
                Ok(e2) => Ok((s.subrange(0, e1 as int), s.subrange((e1 + 1) as int, e2 as int))),
            }
        },
    }
}

fn is_ident_start(c: char) -> (r: bool)
    ensures
        r == ident_start(c),
{
    ('a' <= c && c <= 'z') || ('A' <= c && c <= 'Z') || c == '_'
}

fn is_ident_continue(c: char) -> (r: bool)
    ensures
        r == ident_continue(c),
{
    is_ident_start(c) || ('0' <= c && c <= '9')
}

/// Reads an identifier of `s` at `i`; gives where it ends.
fn read_ident(s: &str, n: usize, i: usize) -> (r: Result<usize, Error>)
    requires
        n == s@.len(),
        i <= n,
    ensures
        match parse_ident(s@, i as nat) {
            Ok(e) => r == Ok::<usize, Error>(e as usize) && i < e <= n,
            Err(e) => r == Err::<usize, Error>(e),
        },
{
    if i >= n {
        return Err(Error::SerStr(StrError::UnexpectedEof));
    }
    let c = s.get_char(i);
    if !is_ident_start(c) {
        return Err(Error::SerStr(StrError::Expected { expected: None, found: c }));
    }
    let mut j = i + 1;
    while j < n && is_ident_continue(s.get_char(j))
        invariant
            i < j <= n,
            n == s@.len(),
            ident_end(s@, j as nat) == ident_end(s@, (i + 1) as nat),
        decreases n - j,
    {
        j = j + 1;
    }
    Ok(j)
}

/// The namespace of an identifier.
#[derive(Debug, Clone)]
pub enum Namespace {
    Minecraft,
    Custom(String),
}

/// The text of a namespace.
pub open spec fn namespace_text(ns: Namespace) -> Seq<char> {
    match ns {
        Namespace::Minecraft => "minecraft"@,
        Namespace::Custom(s) => s@,
    }
}

impl DeepView for Namespace {
    /// `None` for `minecraft`, the text of a custom namespace otherwise.
    type V = Option<Seq<char>>;

    open spec fn deep_view(&self) -> Option<Seq<char>> {
        match self {
            Namespace::Minecraft => None,
            Namespace::Custom(s) => Some(s@),
        }
    }
}

impl Namespace {
    /// The text of the namespace.
    pub fn as_str(&self) -> (r: &str)
        ensures
            r@ == namespace_text(*self),
    {
        match self {
            Namespace::Minecraft => "minecraft",
            Namespace::Custom(s) => s.as_str(),
        }
    }
}

/// A namespaced identifier, such as `minecraft:overworld`.
#[derive(Debug, Clone)]
pub struct Identifier(pub Namespace, pub String);

/// The text of an identifier: the namespace, `:`, the value.
pub open spec fn identifier_text(id: Identifier) -> Seq<char> {
    namespace_text(id.0) + seq![':'] + id.1@
}

impl DeepView for Identifier {
    type V = (Option<Seq<char>>, Seq<char>);

    open spec fn deep_view(&self) -> (Option<Seq<char>>, Seq<char>) {
        (self.0.deep_view(), self.1@)
    }
}

/// The namespace read as `t`: `minecraft` is the game's own.
pub open spec fn namespace_of(t: Seq<char>) -> Option<Seq<char>> {
    if t == "minecraft"@ {
        None
    } else {
        Some(t)
    }
}

impl Identifier {
    pub fn new(namespace: Namespace, value: &str) -> (r: Identifier)
        ensures
            r.0 == namespace,
            r.1@ == value@,
    {
        Identifier(namespace, value.to_owned())
    }

    /// The UTF-8 bytes of the text of the identifier.
    fn text_bytes(&self) -> (r: Vec<u8>)
        ensures
            r@ == encode_utf8(identifier_text(*self)),
    {
        let mut b: Vec<u8> = Vec::new();
        put_slice(&mut b, self.0.as_str().as_bytes());
        b.push(58);
        put_slice(&mut b, self.1.as_str().as_bytes());
        proof {
            let n = namespace_text(self.0);
            lemma_encode_utf8_concat(n + seq![':'], self.1@);
            lemma_encode_utf8_concat(n, seq![':']);
            assert(seq![':'].drop_first() =~= Seq::<char>::empty());
            assert((58u32 & 0x7F) as u8 == 58u8) by (bit_vector);
            assert((':' as u32) == 58u32);
            let colon = seq![':'];
            assert(colon[0] == ':');
            assert(vstd::utf8::encode_scalar(58u32) =~= seq![58u8]);
            assert(encode_utf8(colon.drop_first()) =~= Seq::<u8>::empty());
            assert(encode_utf8(colon) =~= seq![58u8]);
            assert(b@ =~= encode_utf8(identifier_text(*self)));
        }
        b
    }

    /// The text of the identifier, `namespace:value`.
    pub fn to_string(&self) -> (r: String)
        ensures
            r@ == identifier_text(*self),
    {
        let b = self.text_bytes();
        proof {
            vstd::utf8::encode_utf8_valid_utf8(identifier_text(*self));
            vstd::utf8::encode_utf8_decode_utf8(identifier_text(*self));
        }
        utf8_string(b)
    }

    /// Reads `namespace:value` from the front of `s`.
    pub fn parse(s: &str) -> (r: Result<Identifier, Error>)
        ensures
            match parse_identifier(s@) {
                Ok((ns, v)) => r matches Ok(id) && id.deep_view() == (namespace_of(ns), v),
                Err(e) => r matches Err(e2) && e2 == e,
            },
    {
        let n = s.unicode_len();
        let e1 = read_ident(s, n, 0)?;
        if e1 >= n {
            return Err(Error::SerStr(StrError::UnexpectedEof));
        }
        let c = s.get_char(e1);
        if c != ':' {
            return Err(Error::SerStr(StrError::Expected { expected: Some(':'), found: c }));
        }
        let e2 = read_ident(s, n, e1 + 1)?;
        let ns = s.substring_char(0, e1);
        let value = s.substring_char(e1 + 1, e2);
        let namespace = if str_eq(ns, "minecraft") {
            Namespace::Minecraft
        } else {
            Namespace::Custom(ns.to_owned())
        };
        Ok(Identifier(namespace, value.to_owned()))
    }
}

impl Serialize for Identifier {
    /// Text whose length fits into an `i32`.
    open spec fn spec_can_serialize(&self) -> bool {
        encode_utf8(identifier_text(*self)).len() <= i32::MAX
    }

    fn can_serialize(&self) -> (r: bool) {
        self.text_bytes().len() <= 0x7fff_ffff
    }

    /// The text `namespace:value`, written as a string.
    open spec fn spec_serialize(&self) -> Result<Seq<u8>, Error> {
        Ok(str_bytes(identifier_text(*self)))
    }

    fn serialize_to(&self, buf: &mut Vec<u8>) -> (r: Result<(), Error>) {
        let b = self.text_bytes();
        put_prefixed(buf, b.as_slice());
        Ok(())
    }
}

impl Deserialize for Identifier {
    type Context = ();

    /// Panics as reading a string of at most 32767 bytes does.
    open spec fn spec_can_deserialize(s: Seq<u8>, cx: ()) -> bool {
        FixedStr::<32767>::spec_can_deserialize(s, ())
    }

    fn can_deserialize(input: &[u8], pos: usize, cx: &()) -> (r: bool) {
        FixedStr::<32767>::can_deserialize(input, pos, &())
    }

    /// A string of at most 32767 bytes, read as `namespace:value`.
    open spec fn spec_deserialize(s: Seq<u8>, cx: ()) -> Result<((Option<Seq<char>>, Seq<char>), nat), Error> {
        match FixedStr::<32767>::spec_deserialize(s, ()) {
            Err(e) => Err(e),
            Ok((t, n)) => match parse_identifier(t) {
                Ok((ns, v)) => Ok(((namespace_of(ns), v), n)),
                Err(e) => Err(e),
            },
        }
    }

    fn deserialize(input: &[u8], pos: usize, cx: &()) -> (r: Result<(Identifier, usize), Error>) {
        let (f, p) = FixedStr::<32767>::deserialize(input, pos, &())?;
        let id = Identifier::parse(f.as_str())?;
        Ok((id, p))
    }
}

} // verus!
