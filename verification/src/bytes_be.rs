//! Fixed-size numbers in big-endian byte order.
use crate::error::{Error, SerializationError};
use crate::ser::{Deserialize, Serialize};
use vstd::prelude::*;

verus! {

/// `256` to the power `n`.
pub open spec fn pow256(n: nat) -> nat
    decreases n,
{
    if n == 0 {
        1
    } else {
        256 * pow256((n - 1) as nat)
    }
}

/// The `n` low bytes of `v`, most significant first.
pub open spec fn be_bytes(v: nat, n: nat) -> Seq<u8>
    decreases n,
{
    if n == 0 {
        Seq::empty()
    } else {
        be_bytes(v / 256, (n - 1) as nat).push((v % 256) as u8)
    }
}

/// The number that the bytes of `s` spell, most significant first.
pub open spec fn be_value(s: Seq<u8>) -> nat
    decreases s.len(),
{
    if s.len() == 0 {
        0
    } else {
        be_value(s.drop_last()) * 256 + s.last() as nat
    }
}

/// What reading an `n`-byte number from the front of `s` gives.
pub open spec fn spec_read_be(s: Seq<u8>, n: nat) -> Result<(nat, nat), Error> {
    if s.len() < n {
        Err(Error::Ser(SerializationError::UnexpectedEof))
    } else {
        Ok((be_value(s.take(n as int)), n))
    }
}

pub proof fn lemma_be_bytes_len(v: nat, n: nat)
    ensures
        be_bytes(v, n).len() == n,
    decreases n,
{
    if n > 0 {
        lemma_be_bytes_len(v / 256, (n - 1) as nat);
    }
}

pub proof fn lemma_pow256_pos(n: nat)
    ensures
        pow256(n) >= 1,
    decreases n,
{
    if n > 0 {
        lemma_pow256_pos((n - 1) as nat);
    }
}

/// The powers of 256 of the fixed-size numbers.
pub proof fn lemma_pow256_values()
    ensures
        pow256(1) == 0x100,
        pow256(2) == 0x1_0000,
        pow256(4) == 0x1_0000_0000,
        pow256(8) == 0x1_0000_0000_0000_0000,
        pow256(16) == 0x1_0000_0000_0000_0000_0000_0000_0000_0000,
{
    reveal_with_fuel(pow256, 17);
}

/// Reading back the bytes of `v` gives `v` modulo `256^n`.
pub proof fn lemma_be_roundtrip(v: nat, n: nat)
    ensures
        be_value(be_bytes(v, n)) == v % pow256(n),
    decreases n,
{
    lemma_be_bytes_len(v, n);
    if n == 0 {
        assert(v % 1 == 0);
    } else {
        let m = (n - 1) as nat;
        lemma_be_roundtrip(v / 256, m);
        let b = be_bytes(v, n);
        assert(b.drop_last() =~= be_bytes(v / 256, m));
        let p = pow256(m);
        lemma_pow256_pos(m);
        assert(((v / 256) % p) * 256 + v % 256 == v % (256 * p)) by (nonlinear_arith)
            requires
                p >= 1,
        {
            let q = v / 256;
            let r = v % 256;
            assert(v == q * 256 + r);
            let qq = q / p;
            let qr = q % p;
            assert(q == qq * p + qr);
            assert(v == qq * (256 * p) + (qr * 256 + r));
            assert(0 <= qr * 256 + r < 256 * p);
            vstd::arithmetic::div_mod::lemma_fundamental_div_mod_converse(
                v as int,
                (256 * p) as int,
                qq as int,
                (qr * 256 + r) as int,
            );
        }
    }
}

/// Reading the bytes of a number below `256^n` gives it back.
pub proof fn lemma_be_roundtrip_exact(v: nat, n: nat)
    requires
        v < pow256(n),
    ensures
        be_value(be_bytes(v, n)) == v,
        be_bytes(v, n).len() == n,
{
    lemma_be_roundtrip(v, n);
    lemma_be_bytes_len(v, n);
    vstd::arithmetic::div_mod::lemma_small_mod(v, pow256(n));
}

/// The number that `n` bytes spell is below `256^n`.
pub proof fn lemma_be_value_bound(s: Seq<u8>)
    ensures
        be_value(s) < pow256(s.len()),
    decreases s.len(),
{
    if s.len() > 0 {
        lemma_be_value_bound(s.drop_last());
        let a = be_value(s.drop_last());
        let p = pow256((s.len() - 1) as nat);
        assert(a * 256 + (s.last() as nat) < 256 * p) by (nonlinear_arith)
            requires
                a < p,
                s.last() < 256,
        ;
    }
}

/// Appends the `n` low bytes of `v`, most significant first.
pub fn put_be(buf: &mut Vec<u8>, v: u128, n: usize)
    ensures
        final(buf)@ == old(buf)@ + be_bytes(v as nat, n as nat),
    decreases n,
{
    if n == 0 {
        assert(old(buf)@ + be_bytes(v as nat, 0) =~= old(buf)@);
    } else {
        put_be(buf, v / 256, n - 1);
        buf.push((v % 256) as u8);
        assert(final(buf)@ =~= old(buf)@ + be_bytes(v as nat, n as nat)) by {
            assert(be_bytes(v as nat, n as nat) == be_bytes((v / 256) as nat, (n - 1) as nat).push(
                (v % 256) as u8,
            ));
        }
    }
}

/// Reads `n` bytes at `pos` as a number, most significant first.
pub fn get_be(input: &[u8], pos: usize, n: usize) -> (r: u128)
    requires
        n <= 16,
        pos + n <= input@.len(),
    ensures
        r == be_value(input@.subrange(pos as int, pos + n)),
{
    let mut acc: u128 = 0;
    let mut i: usize = 0;
    while i < n
        invariant
            n <= 16,
            pos + n <= input@.len(),
            input@.len() == input.len(),
            i <= n,
            acc == be_value(input@.subrange(pos as int, pos + i)),
        decreases n - i,
    {
        let ghost s = input@.subrange(pos as int, pos + i + 1);
        proof {
            assert(s.drop_last() =~= input@.subrange(pos as int, pos + i));
            lemma_be_value_bound(input@.subrange(pos as int, pos + i));
            lemma_pow256_values();
            lemma_pow256_mono(i as nat, 15);
            assert(acc * 256 + 255 < 0x1_0000_0000_0000_0000_0000_0000_0000_0000) by (nonlinear_arith)
                requires
                    acc < pow256(i as nat),
                    pow256(i as nat) <= pow256(15),
                    pow256(16) == 256 * pow256(15),
                    pow256(16) == 0x1_0000_0000_0000_0000_0000_0000_0000_0000,
            ;
        }
        acc = acc * 256 + input[pos + i] as u128;
        i = i + 1;
    }
    acc
}

pub proof fn lemma_pow256_mono(a: nat, b: nat)
    requires
        a <= b,
    ensures
        pow256(a) <= pow256(b),
    decreases b - a,
{
    if a < b {
        lemma_pow256_mono(a, (b - 1) as nat);
        lemma_pow256_pos((b - 1) as nat);
    }
}

/// Reads an `n`-byte number at `pos`.
pub fn read_be(input: &[u8], pos: usize, n: usize) -> (r: Result<(u128, usize), Error>)
    requires
        n <= 16,
        pos <= input@.len(),
    ensures
        match r {
            Ok((v, p)) => spec_read_be(input@.skip(pos as int), n as nat) == Ok::<(nat, nat), Error>(
                (v as nat, n as nat),
            ) && p == pos + n && v < pow256(n as nat),
            Err(e) => spec_read_be(input@.skip(pos as int), n as nat) == Err::<(nat, nat), Error>(e),
        },
{
    if input.len() - pos < n {
        Err(Error::Ser(SerializationError::UnexpectedEof))
    } else {
        let v = get_be(input, pos, n);
        assert(input@.skip(pos as int).take(n as int) =~= input@.subrange(pos as int, pos + n));
        proof {
            lemma_be_value_bound(input@.subrange(pos as int, pos + n));
        }
        Ok((v, pos + n))
    }
}

} // verus!

verus! {

impl Serialize for u8 {
    open spec fn spec_can_serialize(&self) -> bool {
        true
    }

    fn can_serialize(&self) -> (r: bool) {
        true
    }

    open spec fn spec_serialize(&self) -> Result<Seq<u8>, Error> {
        Ok(seq![*self])
    }

    fn serialize_to(&self, buf: &mut Vec<u8>) -> (r: Result<(), Error>) {
        buf.push(*self);
        Ok(())
    }
}

impl Deserialize for u8 {
    type Context = ();

    open spec fn spec_can_deserialize(s: Seq<u8>, cx: ()) -> bool {
        true
    }

    fn can_deserialize(input: &[u8], pos: usize, cx: &()) -> (r: bool) {
        true
    }

    open spec fn spec_deserialize(s: Seq<u8>, cx: ()) -> Result<(u8, nat), Error> {
        if s.len() == 0 {
            Err(Error::Ser(SerializationError::UnexpectedEof))
        } else {
            Ok((s[0], 1))
        }
    }

    fn deserialize(input: &[u8], pos: usize, cx: &()) -> (r: Result<(u8, usize), Error>) {
        if pos >= input.len() {
            Err(Error::Ser(SerializationError::UnexpectedEof))
        } else {
            Ok((input[pos], pos + 1))
        }
    }
}

impl Serialize for i8 {
    open spec fn spec_can_serialize(&self) -> bool {
        true
    }

    fn can_serialize(&self) -> (r: bool) {
        true
    }

    open spec fn spec_serialize(&self) -> Result<Seq<u8>, Error> {
        Ok(seq![*self as u8])
    }

    fn serialize_to(&self, buf: &mut Vec<u8>) -> (r: Result<(), Error>) {
        buf.push(*self as u8);
        Ok(())
    }
}

impl Deserialize for i8 {
    type Context = ();

    open spec fn spec_can_deserialize(s: Seq<u8>, cx: ()) -> bool {
        true
    }

    fn can_deserialize(input: &[u8], pos: usize, cx: &()) -> (r: bool) {
        true
    }

    open spec fn spec_deserialize(s: Seq<u8>, cx: ()) -> Result<(i8, nat), Error> {
        if s.len() == 0 {
            Err(Error::Ser(SerializationError::UnexpectedEof))
        } else {
            Ok((s[0] as i8, 1))
        }
    }

    fn deserialize(input: &[u8], pos: usize, cx: &()) -> (r: Result<(i8, usize), Error>) {
        if pos >= input.len() {
            Err(Error::Ser(SerializationError::UnexpectedEof))
        } else {
            Ok((input[pos] as i8, pos + 1))
        }
    }
}

/// A boolean is one byte, `1` for true and `0` for false.
impl Serialize for bool {
    open spec fn spec_can_serialize(&self) -> bool {
        true
    }

    fn can_serialize(&self) -> (r: bool) {
        true
    }

    open spec fn spec_serialize(&self) -> Result<Seq<u8>, Error> {
        Ok(seq![if *self { 1u8 } else { 0u8 }])
    }

    fn serialize_to(&self, buf: &mut Vec<u8>) -> (r: Result<(), Error>) {
        buf.push(if *self { 1u8 } else { 0u8 });
        Ok(())
    }
}

impl Deserialize for bool {
    type Context = ();

    open spec fn spec_can_deserialize(s: Seq<u8>, cx: ()) -> bool {
        true
    }

    fn can_deserialize(input: &[u8], pos: usize, cx: &()) -> (r: bool) {
        true
    }

    open spec fn spec_deserialize(s: Seq<u8>, cx: ()) -> Result<(bool, nat), Error> {
        if s.len() == 0 {
            Err(Error::Ser(SerializationError::UnexpectedEof))
        } else if s[0] == 0 {
            Ok((false, 1))
        } else if s[0] == 1 {
            Ok((true, 1))
        } else {
            Err(Error::Ser(SerializationError::Expected { low: 0, high: 1, found: s[0] }))
        }
    }

    fn deserialize(input: &[u8], pos: usize, cx: &()) -> (r: Result<(bool, usize), Error>) {
        if pos >= input.len() {
            Err(Error::Ser(SerializationError::UnexpectedEof))
        } else if input[pos] == 0 {
            Ok((false, pos + 1))
        } else if input[pos] == 1 {
            Ok((true, pos + 1))
        } else {
            Err(Error::Ser(SerializationError::Expected { low: 0, high: 1, found: input[pos] }))
        }
    }
}

impl Serialize for u16 {
    open spec fn spec_can_serialize(&self) -> bool {
        true
    }

    fn can_serialize(&self) -> (r: bool) {
        true
    }

    open spec fn spec_serialize(&self) -> Result<Seq<u8>, Error> {
        Ok(be_bytes(*self as nat, 2))
    }

    fn serialize_to(&self, buf: &mut Vec<u8>) -> (r: Result<(), Error>) {
        put_be(buf, *self as u128, 2);
        Ok(())
    }
}

impl Deserialize for u16 {
    type Context = ();

    open spec fn spec_can_deserialize(s: Seq<u8>, cx: ()) -> bool {
        true
    }

    fn can_deserialize(input: &[u8], pos: usize, cx: &()) -> (r: bool) {
        true
    }

    open spec fn spec_deserialize(s: Seq<u8>, cx: ()) -> Result<(u16, nat), Error> {
        match spec_read_be(s, 2) {
            Ok((v, n)) => Ok((v as u16, n)),
            Err(e) => Err(e),
        }
    }

    fn deserialize(input: &[u8], pos: usize, cx: &()) -> (r: Result<(u16, usize), Error>) {
        proof {
            lemma_pow256_values();
        }
        match read_be(input, pos, 2) {
            Ok((v, p)) => Ok((v as u16, p)),
            Err(e) => Err(e),
        }
    }
}

impl Serialize for u32 {
    open spec fn spec_can_serialize(&self) -> bool {
        true
    }

    fn can_serialize(&self) -> (r: bool) {
        true
    }

    open spec fn spec_serialize(&self) -> Result<Seq<u8>, Error> {
        Ok(be_bytes(*self as nat, 4))
    }

    fn serialize_to(&self, buf: &mut Vec<u8>) -> (r: Result<(), Error>) {
        put_be(buf, *self as u128, 4);
        Ok(())
    }
}

impl Deserialize for u32 {
    type Context = ();

    open spec fn spec_can_deserialize(s: Seq<u8>, cx: ()) -> bool {
        true
    }

    fn can_deserialize(input: &[u8], pos: usize, cx: &()) -> (r: bool) {
        true
    }

    open spec fn spec_deserialize(s: Seq<u8>, cx: ()) -> Result<(u32, nat), Error> {
        match spec_read_be(s, 4) {
            Ok((v, n)) => Ok((v as u32, n)),
            Err(e) => Err(e),
        }
    }

    fn deserialize(input: &[u8], pos: usize, cx: &()) -> (r: Result<(u32, usize), Error>) {
        proof {
            lemma_pow256_values();
        }
        match read_be(input, pos, 4) {
            Ok((v, p)) => Ok((v as u32, p)),
            Err(e) => Err(e),
        }
    }
}

impl Serialize for u64 {
    open spec fn spec_can_serialize(&self) -> bool {
        true
    }

    fn can_serialize(&self) -> (r: bool) {
        true
    }

    open spec fn spec_serialize(&self) -> Result<Seq<u8>, Error> {
        Ok(be_bytes(*self as nat, 8))
    }

    fn serialize_to(&self, buf: &mut Vec<u8>) -> (r: Result<(), Error>) {
        put_be(buf, *self as u128, 8);
        Ok(())
    }
}

impl Deserialize for u64 {
    type Context = ();

    open spec fn spec_can_deserialize(s: Seq<u8>, cx: ()) -> bool {
        true
    }

    fn can_deserialize(input: &[u8], pos: usize, cx: &()) -> (r: bool) {
        true
    }

    open spec fn spec_deserialize(s: Seq<u8>, cx: ()) -> Result<(u64, nat), Error> {
        match spec_read_be(s, 8) {
            Ok((v, n)) => Ok((v as u64, n)),
            Err(e) => Err(e),
        }
    }

    fn deserialize(input: &[u8], pos: usize, cx: &()) -> (r: Result<(u64, usize), Error>) {
        proof {
            lemma_pow256_values();
        }
        match read_be(input, pos, 8) {
            Ok((v, p)) => Ok((v as u64, p)),
            Err(e) => Err(e),
        }
    }
}

impl Serialize for i16 {
    open spec fn spec_can_serialize(&self) -> bool {
        true
    }

    fn can_serialize(&self) -> (r: bool) {
        true
    }

    open spec fn spec_serialize(&self) -> Result<Seq<u8>, Error> {
        Ok(be_bytes((*self as u16) as nat, 2))
    }

    fn serialize_to(&self, buf: &mut Vec<u8>) -> (r: Result<(), Error>) {
        put_be(buf, (*self as u16) as u128, 2);
        Ok(())
    }
}

impl Deserialize for i16 {
    type Context = ();

    open spec fn spec_can_deserialize(s: Seq<u8>, cx: ()) -> bool {
        true
    }

    fn can_deserialize(input: &[u8], pos: usize, cx: &()) -> (r: bool) {
        true
    }

    open spec fn spec_deserialize(s: Seq<u8>, cx: ()) -> Result<(i16, nat), Error> {
        match spec_read_be(s, 2) {
            Ok((v, n)) => Ok(((v as u16) as i16, n)),
            Err(e) => Err(e),
        }
    }

    fn deserialize(input: &[u8], pos: usize, cx: &()) -> (r: Result<(i16, usize), Error>) {
        proof {
            lemma_pow256_values();
        }
        match read_be(input, pos, 2) {
            Ok((v, p)) => Ok(((v as u16) as i16, p)),
            Err(e) => Err(e),
        }
    }
}

impl Serialize for i32 {
    open spec fn spec_can_serialize(&self) -> bool {
        true
    }

    fn can_serialize(&self) -> (r: bool) {
        true
    }

    open spec fn spec_serialize(&self) -> Result<Seq<u8>, Error> {
        Ok(be_bytes((*self as u32) as nat, 4))
    }

    fn serialize_to(&self, buf: &mut Vec<u8>) -> (r: Result<(), Error>) {
        put_be(buf, (*self as u32) as u128, 4);
        Ok(())
    }
}

impl Deserialize for i32 {
    type Context = ();

    open spec fn spec_can_deserialize(s: Seq<u8>, cx: ()) -> bool {
        true
    }

    fn can_deserialize(input: &[u8], pos: usize, cx: &()) -> (r: bool) {
        true
    }

    open spec fn spec_deserialize(s: Seq<u8>, cx: ()) -> Result<(i32, nat), Error> {
        match spec_read_be(s, 4) {
            Ok((v, n)) => Ok(((v as u32) as i32, n)),
            Err(e) => Err(e),
        }
    }

    fn deserialize(input: &[u8], pos: usize, cx: &()) -> (r: Result<(i32, usize), Error>) {
        proof {
            lemma_pow256_values();
        }
        match read_be(input, pos, 4) {
            Ok((v, p)) => Ok(((v as u32) as i32, p)),
            Err(e) => Err(e),
        }
    }
}

impl Serialize for i64 {
    open spec fn spec_can_serialize(&self) -> bool {
        true
    }

    fn can_serialize(&self) -> (r: bool) {
        true
    }

    open spec fn spec_serialize(&self) -> Result<Seq<u8>, Error> {
        Ok(be_bytes((*self as u64) as nat, 8))
    }

    fn serialize_to(&self, buf: &mut Vec<u8>) -> (r: Result<(), Error>) {
        put_be(buf, (*self as u64) as u128, 8);
        Ok(())
    }
}

impl Deserialize for i64 {
    type Context = ();

    open spec fn spec_can_deserialize(s: Seq<u8>, cx: ()) -> bool {
        true
    }

    fn can_deserialize(input: &[u8], pos: usize, cx: &()) -> (r: bool) {
        true
    }

    open spec fn spec_deserialize(s: Seq<u8>, cx: ()) -> Result<(i64, nat), Error> {
        match spec_read_be(s, 8) {
            Ok((v, n)) => Ok(((v as u64) as i64, n)),
            Err(e) => Err(e),
        }
    }

    fn deserialize(input: &[u8], pos: usize, cx: &()) -> (r: Result<(i64, usize), Error>) {
        proof {
            lemma_pow256_values();
        }
        match read_be(input, pos, 8) {
            Ok((v, p)) => Ok(((v as u64) as i64, p)),
            Err(e) => Err(e),
        }
    }
}

/// Reading back a written 32-bit number gives it back, whatever follows it.
pub proof fn lemma_i32_be_roundtrip(x: i32, rest: Seq<u8>)
    ensures
        <i32 as Deserialize>::spec_deserialize(be_bytes((x as u32) as nat, 4) + rest, ()) == Ok::<
            (i32, nat),
            Error,
        >((x, 4)),
{
    lemma_pow256_values();
    lemma_be_roundtrip_exact((x as u32) as nat, 4);
    assert((be_bytes((x as u32) as nat, 4) + rest).take(4) =~= be_bytes((x as u32) as nat, 4));
    assert(((x as u32) as i32) == x) by (bit_vector);
}

/// Reading back a written 64-bit number gives it back, whatever follows it.
pub proof fn lemma_i64_be_roundtrip(x: i64, rest: Seq<u8>)
    ensures
        <i64 as Deserialize>::spec_deserialize(be_bytes((x as u64) as nat, 8) + rest, ()) == Ok::<
            (i64, nat),
            Error,
        >((x, 8)),
{
    lemma_pow256_values();
    lemma_be_roundtrip_exact((x as u64) as nat, 8);
    assert((be_bytes((x as u64) as nat, 8) + rest).take(8) =~= be_bytes((x as u64) as nat, 8));
    assert(((x as u64) as i64) == x) by (bit_vector);
}

} // verus!
