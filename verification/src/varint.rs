//! Variable-length integers as the protocol writes them: the two's complement bit
//! pattern of the number, little-endian in groups of seven bits, the high bit of each
//! byte set when another byte follows.
use crate::error::{Error, SerializationError};
use vstd::prelude::*;

verus! {

/// `128` to the power `n`.
pub open spec fn pow128(n: nat) -> nat
    decreases n,
{
    if n == 0 {
        1
    } else {
        128 * pow128((n - 1) as nat)
    }
}

/// The bytes that encode the unsigned number `u`: seven bits per byte, least
/// significant group first, continuation bit on all but the last byte.
pub open spec fn leb_encode(u: nat) -> Seq<u8>
    decreases u,
{
    if u < 128 {
        seq![u as u8]
    } else {
        seq![(u % 128 + 128) as u8] + leb_encode(u / 128)
    }
}

/// The number that the seven-bit groups of `s` spell, least significant first
/// (the continuation bits are ignored).
pub open spec fn leb_value(s: Seq<u8>) -> nat
    decreases s.len(),
{
    if s.len() == 0 {
        0
    } else {
        (s[0] % 128) as nat + 128 * leb_value(s.drop_first())
    }
}

/// How a scan for the last byte of an encoding ends.
pub enum LebScan {
    /// The encoding is the first `n` bytes.
    Done(nat),
    /// The input ends while every byte so far announces another one.
    Eof,
    /// `max` bytes all announce another one.
    TooBig,
}

/// Scans `s` from index `i` for the first byte without the continuation bit,
/// giving up after `max` bytes in all.
pub open spec fn leb_scan(s: Seq<u8>, i: nat, max: nat) -> LebScan
    decreases max - i,
{
    if i >= s.len() {
        LebScan::Eof
    } else if s[i as int] < 128 {
        LebScan::Done(i + 1)
    } else if i + 1 >= max {
        LebScan::TooBig
    } else {
        leb_scan(s, i + 1, max)
    }
}

/// Relates the result of a decoding function called at `pos` to what the
/// specification says of the input from `pos` on.
pub open spec fn decoded_at<T>(r: Result<(T, usize), Error>, s: Result<(T, nat), Error>, pos: usize) -> bool {
    match s {
        Ok((v, n)) => pos + n <= usize::MAX && r == Ok::<(T, usize), Error>((v, (pos + n) as usize)),
        Err(e) => r == Err::<(T, usize), Error>(e),
    }
}

/// A number that can be written as a variable-length integer.
pub trait LEB128Number: Sized + Copy {
    /// The bit pattern of the number, read as an unsigned number.
    spec fn spec_unsigned(&self) -> nat;

    /// What decoding the front of `s` gives: the number and the count of bytes it took.
    spec fn spec_read(s: Seq<u8>) -> Result<(Self, nat), Error>;

    /// Decodes a number from `input`, starting at `pos`; gives the number and the
    /// position after it.
    fn read(input: &[u8], pos: usize) -> (r: Result<(Self, usize), Error>)
        requires
            pos <= input@.len(),
        ensures
            decoded_at(r, Self::spec_read(input@.skip(pos as int)), pos),
            r matches Ok((_, p)) ==> pos < p <= input@.len(),
    ;

    /// Appends the encoding of `self` to `buf`.
    fn write_to(self, buf: &mut Vec<u8>)
        ensures
            final(buf)@ == old(buf)@ + leb_encode(self.spec_unsigned()),
    ;

    /// The encoding of `self`.
    fn write(self) -> (r: Vec<u8>)
        ensures
            r@ == leb_encode(self.spec_unsigned()),
    ;

    /// The number of bytes of the encoding of `self`.
    fn leb128_length(&self) -> (r: usize)
        ensures
            r == leb_encode(self.spec_unsigned()).len(),
    ;

    /// The type takes at least a byte, and the bit pattern of `self` no more bits
    /// than the type has.
    proof fn lemma_unsigned_fits(&self)
        ensures
            vstd::layout::size_of::<Self>() >= 1,
            self.spec_unsigned() < vstd::arithmetic::power2::pow2(
                (8 * vstd::layout::size_of::<Self>()) as nat,
            ),
    ;
}

/// What decoding a 32-bit number from the front of `s` gives: at most five bytes;
/// the groups beyond 32 bits are dropped.
pub open spec fn spec_read_i32(s: Seq<u8>) -> Result<(i32, nat), Error> {
    match leb_scan(s, 0, 5) {
        LebScan::Done(n) => Ok((((leb_value(s.take(n as int)) % 0x1_0000_0000) as u32) as i32, n)),
        LebScan::Eof => Err(Error::Ser(SerializationError::UnexpectedEof)),
        LebScan::TooBig => Err(Error::VarIntTooBig),
    }
}

/// What decoding a 64-bit number from the front of `s` gives: at most ten bytes;
/// the groups beyond 64 bits are dropped.
pub open spec fn spec_read_i64(s: Seq<u8>) -> Result<(i64, nat), Error> {
    match leb_scan(s, 0, 10) {
        LebScan::Done(n) => Ok(
            (((leb_value(s.take(n as int)) % 0x1_0000_0000_0000_0000) as u64) as i64, n),
        ),
        LebScan::Eof => Err(Error::Ser(SerializationError::UnexpectedEof)),
        LebScan::TooBig => Err(Error::VarIntTooBig),
    }
}

/// The powers of 128 that bound the encodings of 32- and 64-bit numbers.
pub proof fn lemma_pow128_values()
    ensures
        pow128(4) == 0x1000_0000,
        pow128(5) == 0x8_0000_0000,
        pow128(9) == 0x8000_0000_0000_0000,
        pow128(10) == 0x4000_0000_0000_0000_00,
{
    reveal_with_fuel(pow128, 11);
}

pub proof fn lemma_pow128_pos(n: nat)
    ensures
        pow128(n) >= 1,
    decreases n,
{
    if n > 0 {
        lemma_pow128_pos((n - 1) as nat);
    }
}

/// Appending a byte adds its group at the next power of 128.
pub proof fn lemma_leb_value_push(s: Seq<u8>, b: u8)
    ensures
        leb_value(s.push(b)) == leb_value(s) + (b % 128) as nat * pow128(s.len()),
    decreases s.len(),
{
    if s.len() == 0 {
        assert(s.push(b).drop_first() =~= Seq::<u8>::empty());
        assert(leb_value(Seq::<u8>::empty()) == 0);
        assert(s.push(b)[0] == b);
        assert(leb_value(s.push(b)) == (b % 128) as nat);
        assert(pow128(0) == 1);
    } else {
        assert(s.push(b).drop_first() =~= s.drop_first().push(b));
        assert(s.push(b)[0] == s[0]);
        lemma_leb_value_push(s.drop_first(), b);
        let x = leb_value(s.drop_first());
        let y = (b % 128) as nat * pow128((s.len() - 1) as nat);
        assert(128 * (x + y) == 128 * x + 128 * y);
        assert(leb_value(s.push(b)) == (s[0] % 128) as nat + 128 * (x + y));
        assert(leb_value(s) == (s[0] % 128) as nat + 128 * x);
        assert(pow128(s.len()) == 128 * pow128((s.len() - 1) as nat));
        assert(128 * ((b % 128) as nat * pow128((s.len() - 1) as nat)) == (b % 128) as nat * pow128(
            s.len(),
        )) by (nonlinear_arith)
            requires
                pow128(s.len()) == 128 * pow128((s.len() - 1) as nat),
        ;
    }
}

/// The number spelled by `n` bytes is below `128^n`.
pub proof fn lemma_leb_value_bound(s: Seq<u8>)
    ensures
        leb_value(s) < pow128(s.len()),
    decreases s.len(),
{
    if s.len() > 0 {
        lemma_leb_value_bound(s.drop_first());
        let r = leb_value(s.drop_first());
        let p = pow128((s.len() - 1) as nat);
        assert((s[0] % 128) as nat + 128 * r < 128 * p) by (nonlinear_arith)
            requires
                r < p,
                (s[0] % 128) < 128,
        ;
    }
}

/// Decoding what `leb_encode` wrote gives the number back.
pub proof fn lemma_leb_value_encode(u: nat)
    ensures
        leb_value(leb_encode(u)) == u,
    decreases u,
{
    if u >= 128 {
        lemma_leb_value_encode(u / 128);
        let e = leb_encode(u);
        assert(e.drop_first() =~= leb_encode(u / 128));
        assert(e[0] == (u % 128 + 128) as u8);
        assert(e[0] % 128 == u % 128);
        assert(u == u % 128 + 128 * (u / 128)) by (nonlinear_arith);
        assert(leb_value(e) == (e[0] % 128) as nat + 128 * leb_value(e.drop_first()));
    } else {
        let e = leb_encode(u);
        assert(e.drop_first() =~= Seq::<u8>::empty());
        assert(leb_value(Seq::<u8>::empty()) == 0);
        assert(e[0] == u as u8);
        assert(leb_value(e) == (e[0] % 128) as nat + 128 * leb_value(e.drop_first()));
    }
}

/// Every byte of an encoding but the last carries the continuation bit; the last
/// does not.
pub proof fn lemma_leb_encode_shape(u: nat)
    ensures
        leb_encode(u).len() >= 1,
        forall|j: int| 0 <= j < leb_encode(u).len() - 1 ==> leb_encode(u)[j] >= 128,
        leb_encode(u)[leb_encode(u).len() - 1] < 128,
    decreases u,
{
    if u >= 128 {
        lemma_leb_encode_shape(u / 128);
        let e = leb_encode(u);
        let t = leb_encode(u / 128);
        assert(e =~= seq![(u % 128 + 128) as u8] + t);
        assert forall|j: int| 0 <= j < e.len() - 1 implies e[j] >= 128 by {
            if j > 0 {
                assert(e[j] == t[j - 1]);
            }
        }
    }
}

/// An encoding of a number below `128^k` takes at most `k` bytes.
pub proof fn lemma_leb_encode_len(u: nat, k: nat)
    requires
        k >= 1,
        u < pow128(k),
    ensures
        leb_encode(u).len() <= k,
    decreases u,
{
    if u >= 128 {
        assert(k >= 2) by {
            if k == 1 {
                assert(pow128(1) == 128 * pow128(0));
            }
        }
        assert(pow128(k) == 128 * pow128((k - 1) as nat));
        assert(u / 128 < pow128((k - 1) as nat)) by (nonlinear_arith)
            requires
                u < 128 * pow128((k - 1) as nat),
        ;
        lemma_leb_encode_len(u / 128, (k - 1) as nat);
    }
}

/// A scan over an encoding followed by anything stops at the end of the encoding.
pub proof fn lemma_leb_scan_encoding(u: nat, rest: Seq<u8>, i: nat, max: nat)
    requires
        i < leb_encode(u).len(),
        leb_encode(u).len() <= max,
    ensures
        leb_scan(leb_encode(u) + rest, i, max) == LebScan::Done(leb_encode(u).len()),
    decreases leb_encode(u).len() - i,
{
    lemma_leb_encode_shape(u);
    let e = leb_encode(u);
    let t = e + rest;
    assert(t[i as int] == e[i as int]);
    if i + 1 < e.len() {
        lemma_leb_scan_encoding(u, rest, i + 1, max);
    }
}

/// The value of the first `n` bytes of a scanned input, one byte at a time.
proof fn lemma_take_push(s: Seq<u8>, i: int)
    requires
        0 <= i < s.len(),
    ensures
        s.take(i + 1) == s.take(i).push(s[i]),
{
    assert(s.take(i + 1) =~= s.take(i).push(s[i]));
}

/// Encoding then decoding a 32-bit number gives it back, whatever follows it.
pub proof fn lemma_i32_roundtrip(x: i32, rest: Seq<u8>)
    ensures
        spec_read_i32(leb_encode((x as u32) as nat) + rest) == Ok::<(i32, nat), Error>(
            (x, leb_encode((x as u32) as nat).len()),
        ),
{
    let u = (x as u32) as nat;
    let e = leb_encode(u);
    lemma_pow128_values();
    lemma_leb_encode_len(u, 5);
    lemma_leb_encode_shape(u);
    lemma_leb_scan_encoding(u, rest, 0, 5);
    assert((e + rest).take(e.len() as int) =~= e);
    lemma_leb_value_encode(u);
    assert(((x as u32) as i32) == x) by (bit_vector);
}

/// Encoding then decoding a 64-bit number gives it back, whatever follows it.
pub proof fn lemma_i64_roundtrip(x: i64, rest: Seq<u8>)
    ensures
        spec_read_i64(leb_encode((x as u64) as nat) + rest) == Ok::<(i64, nat), Error>(
            (x, leb_encode((x as u64) as nat).len()),
        ),
{
    let u = (x as u64) as nat;
    let e = leb_encode(u);
    lemma_pow128_values();
    lemma_leb_encode_len(u, 10);
    lemma_leb_encode_shape(u);
    lemma_leb_scan_encoding(u, rest, 0, 10);
    assert((e + rest).take(e.len() as int) =~= e);
    lemma_leb_value_encode(u);
    assert(((x as u64) as i64) == x) by (bit_vector);
}

/// Appends the encoding of the unsigned number `u`.
fn write_unsigned_u64(u: u64, buf: &mut Vec<u8>)
    ensures
        final(buf)@ == old(buf)@ + leb_encode(u as nat),
{
    let ghost start = buf@;
    let mut v = u;
    while v >= 128
        invariant
            start + leb_encode(u as nat) == buf@ + leb_encode(v as nat),
        decreases v,
    {
        let ghost before = buf@;
        buf.push((v % 128 + 128) as u8);
        assert(leb_encode(v as nat) =~= seq![(v % 128 + 128) as u8] + leb_encode((v / 128) as nat));
        assert(before + leb_encode(v as nat) =~= buf@ + leb_encode((v / 128) as nat));
        v = v / 128;
    }
    buf.push(v as u8);
    assert(buf@ =~= start + leb_encode(u as nat));
}

/// The number of bytes in the encoding of the unsigned number `u`.
fn length_unsigned_u64(u: u64) -> (r: usize)
    ensures
        r == leb_encode(u as nat).len(),
{
    let mut v = u;
    let mut l: usize = 0;
    assert(pow128(0) == 1);
    while v >= 128
        invariant
            l + leb_encode(v as nat).len() == leb_encode(u as nat).len(),
            l <= 10,
            v * pow128(l as nat) <= u,
        decreases v,
    {
        proof {
            assert(leb_encode(v as nat).len() == 1 + leb_encode((v / 128) as nat).len());
            assert(pow128((l + 1) as nat) == 128 * pow128(l as nat));
            lemma_pow128_pos(l as nat);
            assert((v / 128) * pow128((l + 1) as nat) <= v * pow128(l as nat)) by (nonlinear_arith)
                requires
                    pow128((l + 1) as nat) == 128 * pow128(l as nat),
            ;
            assert(v * pow128(l as nat) >= 128 * pow128(l as nat)) by (nonlinear_arith)
                requires
                    v >= 128,
            ;
            if l >= 10 {
                lemma_pow128_values();
                lemma_pow_mono(10, l as nat);
                assert(128 * pow128(l as nat) >= 128 * pow128(10)) by (nonlinear_arith)
                    requires
                        pow128(l as nat) >= pow128(10),
                ;
            }
        }
        v = v / 128;
        l = l + 1;
    }
    l + 1
}

proof fn lemma_pow_mono(a: nat, b: nat)
    requires
        a <= b,
    ensures
        pow128(a) <= pow128(b),
    decreases b - a,
{
    if a < b {
        lemma_pow_mono(a, (b - 1) as nat);
        lemma_pow128_pos((b - 1) as nat);
    }
}

impl LEB128Number for i32 {
    open spec fn spec_unsigned(&self) -> nat {
        (*self as u32) as nat
    }

    open spec fn spec_read(s: Seq<u8>) -> Result<(i32, nat), Error> {
        spec_read_i32(s)
    }

    fn read(input: &[u8], pos: usize) -> (r: Result<(i32, usize), Error>) {
        let ghost s = input@.skip(pos as int);
        let mut acc: u64 = 0;
        let mut mult: u64 = 1;
        let mut i: usize = 0;
        loop
            invariant
                pos <= input@.len(),
                s == input@.skip(pos as int),
                i < 5,
                pos + i <= input@.len(),
                acc == leb_value(s.take(i as int)),
                mult == pow128(i as nat),
                leb_scan(s, 0, 5) == leb_scan(s, i as nat, 5),
            decreases 5 - i,
        {
            proof {
                lemma_leb_value_bound(s.take(i as int));
                lemma_pow128_values();
                lemma_pow_mono(i as nat, 4);
            }
            if i >= input.len() - pos {
                return Err(Error::Ser(SerializationError::UnexpectedEof));
            }
            let b = input[pos + i];
            proof {
                assert(s[i as int] == b);
                lemma_take_push(s, i as int);
                lemma_leb_value_push(s.take(i as int), b);
                assert((b % 128) as nat * pow128(i as nat) <= 127 * 0x1000_0000) by (nonlinear_arith)
                    requires
                        pow128(i as nat) <= 0x1000_0000,
                        b % 128 <= 127,
                ;
            }
            acc = acc + (b % 128) as u64 * mult;
            if b < 128 {
                return Ok((((acc % 0x1_0000_0000) as u32) as i32, pos + i + 1));
            }
            if i + 1 >= 5 {
                return Err(Error::VarIntTooBig);
            }
            i = i + 1;
            mult = mult * 128;
        }
    }

    fn write_to(self, buf: &mut Vec<u8>) {
        let u = self as u32;
        let w = u as u64;
        assert(w as nat == self.spec_unsigned());
        write_unsigned_u64(w, buf);
    }

    fn write(self) -> (r: Vec<u8>) {
        let mut b = Vec::new();
        self.write_to(&mut b);
        assert(b@ =~= leb_encode(self.spec_unsigned()));
        b
    }

    fn leb128_length(&self) -> (r: usize) {
        length_unsigned_u64((*self as u32) as u64)
    }

    proof fn lemma_unsigned_fits(&self) {
        broadcast use vstd::layout::layout_of_primitives;
        vstd::arithmetic::power2::lemma2_to64();
    }
}

impl LEB128Number for i64 {
    open spec fn spec_unsigned(&self) -> nat {
        (*self as u64) as nat
    }

    open spec fn spec_read(s: Seq<u8>) -> Result<(i64, nat), Error> {
        spec_read_i64(s)
    }

    fn read(input: &[u8], pos: usize) -> (r: Result<(i64, usize), Error>) {
        let ghost s = input@.skip(pos as int);
        let mut acc: u128 = 0;
        let mut mult: u128 = 1;
        let mut i: usize = 0;
        loop
            invariant
                pos <= input@.len(),
                s == input@.skip(pos as int),
                i < 10,
                pos + i <= input@.len(),
                acc == leb_value(s.take(i as int)),
                mult == pow128(i as nat),
                leb_scan(s, 0, 10) == leb_scan(s, i as nat, 10),
            decreases 10 - i,
        {
            proof {
                lemma_leb_value_bound(s.take(i as int));
                lemma_pow128_values();
                lemma_pow_mono(i as nat, 9);
            }
            if i >= input.len() - pos {
                return Err(Error::Ser(SerializationError::UnexpectedEof));
            }
            let b = input[pos + i];
            proof {
                assert(s[i as int] == b);
                lemma_take_push(s, i as int);
                lemma_leb_value_push(s.take(i as int), b);
                assert((b % 128) as nat * pow128(i as nat) <= 127 * 0x8000_0000_0000_0000) by (nonlinear_arith)
                    requires
                        pow128(i as nat) <= 0x8000_0000_0000_0000,
                        b % 128 <= 127,
                ;
            }
            acc = acc + (b % 128) as u128 * mult;
            if b < 128 {
                return Ok((((acc % 0x1_0000_0000_0000_0000) as u64) as i64, pos + i + 1));
            }
            if i + 1 >= 10 {
                return Err(Error::VarIntTooBig);
            }
            i = i + 1;
            mult = mult * 128;
        }
    }

    fn write_to(self, buf: &mut Vec<u8>) {
        write_unsigned_u64(self as u64, buf);
    }

    fn write(self) -> (r: Vec<u8>) {
        let mut b = Vec::new();
        self.write_to(&mut b);
        assert(b@ =~= leb_encode(self.spec_unsigned()));
        b
    }

    fn leb128_length(&self) -> (r: usize) {
        length_unsigned_u64(*self as u64)
    }

    proof fn lemma_unsigned_fits(&self) {
        broadcast use vstd::layout::layout_of_primitives;
        vstd::arithmetic::power2::lemma2_to64();
    }
}

} // verus!

verus! {

/// A number written as a variable-length integer.
#[derive(Clone, Copy, Debug, PartialEq, Eq)]
pub struct VarInt<T = i32>(pub T);

impl<T: Copy> DeepView for VarInt<T> {
    type V = VarInt<T>;

    open spec fn deep_view(&self) -> VarInt<T> {
        *self
    }
}

impl<T: LEB128Number> VarInt<T> {
    /// The bytes that `self` is written as.
    pub open spec fn spec_bytes(&self) -> Seq<u8> {
        leb_encode(self.0.spec_unsigned())
    }

    /// The number of bytes that `self` is written as.
    pub fn length_of(&self) -> (r: usize)
        ensures
            r == self.spec_bytes().len(),
    {
        self.0.leb128_length()
    }

    /// The most bytes that a value of `T` can be written as.
    pub fn max_length() -> (r: usize)
        requires
            vstd::layout::size_of::<T>() * 8 + 6 <= usize::MAX,
        ensures
            r == (vstd::layout::size_of::<T>() * 8 + 6) / 7,
    {
        max_leb128_len::<T>()
    }
}

/// The most bytes that a value of `T` can take as a variable-length integer: seven
/// bits a byte.
pub fn max_leb128_len<T>() -> (r: usize)
    requires
        vstd::layout::size_of::<T>() * 8 + 6 <= usize::MAX,
    ensures
        r == (vstd::layout::size_of::<T>() * 8 + 6) / 7,
{
    let s = std::mem::size_of::<T>();
    (s * 8 + 6) / 7
}

/// The most bytes that any integer takes as a variable-length integer, those of a
/// `u128`.
pub fn largest_max_leb128_len() -> (r: usize)
    ensures
        r == 19,
{
    proof {
        broadcast use vstd::layout::layout_of_primitives;
        assert(vstd::layout::size_of::<u128>() == 16);
    }
    max_leb128_len::<u128>()
}

/// An encoding of a number of at least `128^k` takes more than `k` bytes.
pub proof fn lemma_leb_encode_len_lower(u: nat, k: nat)
    requires
        u >= pow128(k),
    ensures
        leb_encode(u).len() > k,
    decreases k,
{
    lemma_leb_encode_shape(u);
    if k > 0 {
        assert(pow128(k) == 128 * pow128((k - 1) as nat));
        lemma_pow128_pos((k - 1) as nat);
        assert(u / 128 >= pow128((k - 1) as nat)) by (nonlinear_arith)
            requires
                u >= 128 * pow128((k - 1) as nat),
        ;
        lemma_leb_encode_len_lower(u / 128, (k - 1) as nat);
        assert(leb_encode(u) =~= seq![(u % 128 + 128) as u8] + leb_encode(u / 128));
    }
}

/// A 32-bit number is written in one to five bytes, as many as `max_length` gives
/// for its type at most: in one byte exactly when it is 0 to 127, and in five when
/// it is negative.
pub proof fn lemma_i32_length(x: i32)
    ensures
        1 <= VarInt(x).spec_bytes().len() <= 5,
        VarInt(x).spec_bytes().len() == 1 <==> 0 <= x <= 127,
        x < 0 ==> VarInt(x).spec_bytes().len() == 5,
        VarInt(x).spec_bytes().len() <= (vstd::layout::size_of::<i32>() * 8 + 6) / 7,
        (vstd::layout::size_of::<i32>() * 8 + 6) / 7 == 5,
{
    broadcast use vstd::layout::layout_of_primitives;
    lemma_pow128_values();
    let u = (x as u32) as nat;
    lemma_leb_encode_shape(u);
    lemma_leb_encode_len(u, 5);
    assert(0 <= x ==> (x as u32) == x) by (bit_vector);
    assert(x < 0 ==> (x as u32) >= 0x8000_0000u32) by (bit_vector);
    if u >= 128 {
        assert(pow128(1) == 128) by {
            reveal_with_fuel(pow128, 2);
        }
        lemma_leb_encode_len_lower(u, 1);
    }
    if x < 0 {
        lemma_leb_encode_len_lower(u, 4);
    }
}

/// A 64-bit number is written in one to ten bytes, as many as `max_length` gives
/// for its type at most: in one byte exactly when it is 0 to 127, and in ten when
/// it is negative.
pub proof fn lemma_i64_length(x: i64)
    ensures
        1 <= VarInt(x).spec_bytes().len() <= 10,
        VarInt(x).spec_bytes().len() == 1 <==> 0 <= x <= 127,
        x < 0 ==> VarInt(x).spec_bytes().len() == 10,
        VarInt(x).spec_bytes().len() <= (vstd::layout::size_of::<i64>() * 8 + 6) / 7,
        (vstd::layout::size_of::<i64>() * 8 + 6) / 7 == 10,
{
    broadcast use vstd::layout::layout_of_primitives;
    lemma_pow128_values();
    let u = (x as u64) as nat;
    lemma_leb_encode_shape(u);
    lemma_leb_encode_len(u, 10);
    assert(0 <= x ==> (x as u64) == x) by (bit_vector);
    assert(x < 0 ==> (x as u64) >= 0x8000_0000_0000_0000u64) by (bit_vector);
    if u >= 128 {
        assert(pow128(1) == 128) by {
            reveal_with_fuel(pow128, 2);
        }
        lemma_leb_encode_len_lower(u, 1);
    }
    if x < 0 {
        lemma_leb_encode_len_lower(u, 9);
    }
}

/// `128^k` is `2^(7k)`.
proof fn lemma_pow128_pow2(k: nat)
    ensures
        pow128(k) == vstd::arithmetic::power2::pow2(7 * k),
    decreases k,
{
    vstd::arithmetic::power2::lemma2_to64();
    if k > 0 {
        lemma_pow128_pow2((k - 1) as nat);
        vstd::arithmetic::power2::lemma_pow2_adds((7 * (k - 1)) as nat, 7);
        assert(7 * k == 7 * (k - 1) + 7);
    }
}

/// Every value of a type that is written as a variable-length integer takes at
/// most as many bytes as `max_leb128_len` gives for the type: seven bits to a
/// byte of its size.
pub proof fn lemma_length_within_max<T: LEB128Number>(v: T)
    ensures
        VarInt(v).spec_bytes().len() <= (vstd::layout::size_of::<T>() * 8 + 6) / 7,
{
    v.lemma_unsigned_fits();
    let sz = vstd::layout::size_of::<T>();
    let k = ((sz * 8 + 6) / 7) as nat;
    assert(8 * sz <= 7 * k && k >= 1) by (nonlinear_arith)
        requires
            k == (sz * 8 + 6) / 7,
            sz >= 1,
    ;
    lemma_pow128_pow2(k);
    if 8 * sz < 7 * k {
        vstd::arithmetic::power2::lemma_pow2_strictly_increases((8 * sz) as nat, 7 * k);
    }
    lemma_leb_encode_len(v.spec_unsigned(), k);
}

/// The most bytes that `max_leb128_len` gives for each integer type, seven bits to
/// a byte of its size: 3 for 16 bits, 5 for 32, 10 for 64 and 19 for 128, and those
/// of 32 or 64 bits for `usize` and `isize`; none is more than
/// `largest_max_leb128_len` gives.
pub proof fn lemma_max_lengths_of_integers()
    ensures
        (vstd::layout::size_of::<u16>() * 8 + 6) / 7 == 3,
        (vstd::layout::size_of::<i16>() * 8 + 6) / 7 == 3,
        (vstd::layout::size_of::<u32>() * 8 + 6) / 7 == 5,
        (vstd::layout::size_of::<i32>() * 8 + 6) / 7 == 5,
        (vstd::layout::size_of::<u64>() * 8 + 6) / 7 == 10,
        (vstd::layout::size_of::<i64>() * 8 + 6) / 7 == 10,
        (vstd::layout::size_of::<u128>() * 8 + 6) / 7 == 19,
        (vstd::layout::size_of::<i128>() * 8 + 6) / 7 == 19,
        (vstd::layout::size_of::<usize>() * 8 + 6) / 7 == (vstd::layout::size_of::<isize>() * 8
            + 6) / 7,
        (vstd::layout::size_of::<usize>() * 8 + 6) / 7 == 5 || (vstd::layout::size_of::<usize>()
            * 8 + 6) / 7 == 10,
        (vstd::layout::size_of::<usize>() * 8 + 6) / 7 <= (vstd::layout::size_of::<u128>() * 8
            + 6) / 7,
{
    broadcast use vstd::layout::layout_of_primitives;
    assert(usize::BITS == 32 || usize::BITS == 64);
}

} // verus!
