//! The encoding of values as bytes and back.
use crate::error::Error;
use crate::varint::{LEB128Number, VarInt};
use vstd::prelude::*;

verus! {

/// `new` is `old` with bytes appended.
pub open spec fn extends(new: Seq<u8>, old: Seq<u8>) -> bool {
    old.len() <= new.len() && new.subrange(0, old.len() as int) == old
}

/// A value that can be written as bytes.
pub trait Serialize {
    /// The values that can be written (the others make the writer panic).
    spec fn spec_can_serialize(&self) -> bool;

    /// The bytes written for `self`, or the error that writing it gives.
    spec fn spec_serialize(&self) -> Result<Seq<u8>, Error>;

    /// Tells whether `self` can be written: the writer does not panic on it.
    fn can_serialize(&self) -> (r: bool)
        ensures
            r == self.spec_can_serialize(),
    ;

    /// Appends the bytes of `self` to `buf`.
    fn serialize_to(&self, buf: &mut Vec<u8>) -> (r: Result<(), Error>)
        requires
            self.spec_can_serialize(),
        ensures
            match self.spec_serialize() {
                Ok(w) => r is Ok && final(buf)@ == old(buf)@ + w,
                Err(e) => r == Err::<(), Error>(e) && extends(final(buf)@, old(buf)@),
            },
    ;

    /// The bytes of `self`.
    fn serialize(&self) -> (r: Result<Vec<u8>, Error>)
        requires
            self.spec_can_serialize(),
        ensures
            match self.spec_serialize() {
                Ok(w) => r matches Ok(v) && v@ == w,
                Err(e) => r == Err::<Vec<u8>, Error>(e),
            },
    {
        let mut b: Vec<u8> = Vec::new();
        match self.serialize_to(&mut b) {
            Ok(()) => {
                proof {
                    if let Ok(w) = self.spec_serialize() {
                        assert(b@ =~= w);
                    }
                }
                Ok(b)
            },
            Err(e) => Err(e),
        }
    }
}

/// The deep views of the elements of `a`, in order.
pub open spec fn deep_views<T: DeepView>(a: Seq<T>) -> Seq<T::V> {
    Seq::new(a.len(), |i: int| a[i].deep_view())
}

/// Relates the result of a reader called at `pos` to what the specification says
/// of the input from `pos` on: the value read (by its deep view) and the bytes it took,
/// or the error.
pub open spec fn read_at<T: DeepView>(
    r: Result<(T, usize), Error>,
    s: Result<(T::V, nat), Error>,
    pos: usize,
) -> bool {
    match s {
        Ok((v, n)) => r matches Ok((x, p)) && x.deep_view() == v && p == pos + n,
        Err(e) => r matches Err(e2) && e2 == e,
    }
}

/// A value that can be read from bytes.
pub trait Deserialize: Sized + DeepView {
    /// What the reader is told besides the bytes.
    type Context;

    /// The inputs that can be read (on the others the reader panics).
    spec fn spec_can_deserialize(s: Seq<u8>, cx: Self::Context) -> bool;

    /// What reading the front of `s` gives: the value and the number of bytes
    /// it took, or the error.
    spec fn spec_deserialize(s: Seq<u8>, cx: Self::Context) -> Result<(<Self as DeepView>::V, nat), Error>;

    /// Tells whether `deserialize` may be called at `pos`: the reader does not
    /// panic there.
    fn can_deserialize(input: &[u8], pos: usize, cx: &Self::Context) -> (r: bool)
        requires
            pos <= input@.len(),
        ensures
            r == Self::spec_can_deserialize(input@.skip(pos as int), *cx),
    ;

    /// Reads a value from `input` at `pos`; gives it and the position after it.
    fn deserialize(input: &[u8], pos: usize, cx: &Self::Context) -> (r: Result<(Self, usize), Error>)
        requires
            pos <= input@.len(),
            Self::spec_can_deserialize(input@.skip(pos as int), *cx),
        ensures
            read_at(r, Self::spec_deserialize(input@.skip(pos as int), *cx), pos),
            r matches Ok((_, p)) ==> pos <= p <= input@.len(),
    ;
}

impl<T: LEB128Number> Serialize for VarInt<T> {
    open spec fn spec_can_serialize(&self) -> bool {
        true
    }

    fn can_serialize(&self) -> (r: bool) {
        true
    }

    open spec fn spec_serialize(&self) -> Result<Seq<u8>, Error> {
        Ok(self.spec_bytes())
    }

    fn serialize_to(&self, buf: &mut Vec<u8>) -> (r: Result<(), Error>) {
        self.0.write_to(buf);
        Ok(())
    }
}

impl<T: LEB128Number> Deserialize for VarInt<T> {
    type Context = ();

    open spec fn spec_can_deserialize(s: Seq<u8>, cx: ()) -> bool {
        true
    }

    fn can_deserialize(input: &[u8], pos: usize, cx: &()) -> (r: bool) {
        true
    }

    open spec fn spec_deserialize(s: Seq<u8>, cx: ()) -> Result<(VarInt<T>, nat), Error> {
        match T::spec_read(s) {
            Ok((v, n)) => Ok((VarInt(v), n)),
            Err(e) => Err(e),
        }
    }

    fn deserialize(input: &[u8], pos: usize, cx: &()) -> (r: Result<(VarInt<T>, usize), Error>) {
        match T::read(input, pos) {
            Ok((v, p)) => Ok((VarInt(v), p)),
            Err(e) => Err(e),
        }
    }
}

} // verus!

verus! {

/// The bytes of `input` from `start` up to `end`.
pub fn copy_range(input: &[u8], start: usize, end: usize) -> (r: Vec<u8>)
    requires
        start <= end <= input@.len(),
    ensures
        r@ == input@.subrange(start as int, end as int),
{
    let mut r: Vec<u8> = Vec::new();
    let mut i = start;
    while i < end
        invariant
            start <= i <= end <= input@.len(),
            r@ == input@.subrange(start as int, i as int),
        decreases end - i,
    {
        r.push(input[i]);
        i = i + 1;
        assert(r@ =~= input@.subrange(start as int, i as int));
    }
    r
}

/// Appends all of `data` to `buf`.
pub fn put_slice(buf: &mut Vec<u8>, data: &[u8])
    ensures
        final(buf)@ == old(buf)@ + data@,
{
    let ghost start = buf@;
    let mut i: usize = 0;
    while i < data.len()
        invariant
            i <= data@.len(),
            buf@ == start + data@.subrange(0, i as int),
            start == old(buf)@,
        decreases data.len() - i,
    {
        buf.push(data[i]);
        i = i + 1;
        assert(buf@ =~= start + data@.subrange(0, i as int));
    }
    assert(data@.subrange(0, data@.len() as int) =~= data@);
}

} // verus!

verus! {

/// Writing one value and then another: the bytes of both, or the first error.
pub open spec fn then_bytes(a: Result<Seq<u8>, Error>, b: Result<Seq<u8>, Error>) -> Result<Seq<u8>, Error> {
    match a {
        Err(e) => Err(e),
        Ok(x) => match b {
            Err(e) => Err(e),
            Ok(y) => Ok(x + y),
        },
    }
}

/// Appending bytes to something that extends `a` extends `a`.
pub proof fn lemma_extends_trans(a: Seq<u8>, b: Seq<u8>, c: Seq<u8>)
    requires
        extends(b, a),
        extends(c, b),
    ensures
        extends(c, a),
{
    assert(c.subrange(0, a.len() as int) =~= c.subrange(0, b.len() as int).subrange(0, a.len() as int));
}

impl<'a, T: Serialize> Serialize for &'a T {
    open spec fn spec_can_serialize(&self) -> bool {
        (**self).spec_can_serialize()
    }

    fn can_serialize(&self) -> (r: bool) {
        (**self).can_serialize()
    }

    open spec fn spec_serialize(&self) -> Result<Seq<u8>, Error> {
        (**self).spec_serialize()
    }

    fn serialize_to(&self, buf: &mut Vec<u8>) -> (r: Result<(), Error>) {
        (**self).serialize_to(buf)
    }
}

impl<A: Serialize, B: Serialize> Serialize for (A, B) {
    open spec fn spec_can_serialize(&self) -> bool {
        self.0.spec_can_serialize() && (self.0.spec_serialize() is Ok ==> self.1.spec_can_serialize())
    }

    fn can_serialize(&self) -> (r: bool) {
        if !self.0.can_serialize() {
            return false;
        }
        if self.1.can_serialize() {
            return true;
        }
        self.0.serialize().is_err()
    }

    /// The first value, then the second.
    open spec fn spec_serialize(&self) -> Result<Seq<u8>, Error> {
        then_bytes(self.0.spec_serialize(), self.1.spec_serialize())
    }

    fn serialize_to(&self, buf: &mut Vec<u8>) -> (r: Result<(), Error>) {
        self.0.serialize_to(buf)?;
        let ghost mid = buf@;
        let r = self.1.serialize_to(buf);
        proof {
            assert(mid.subrange(0, old(buf)@.len() as int) =~= old(buf)@);
            if r is Ok {
                assert(final(buf)@ =~= old(buf)@ + (self.0.spec_serialize()->Ok_0
                    + self.1.spec_serialize()->Ok_0));
            } else {
                lemma_extends_trans(old(buf)@, mid, final(buf)@);
            }
        }
        r
    }
}

impl<A: Deserialize<Context = ()>, B: Deserialize<Context = ()>> Deserialize for (A, B) {
    type Context = ();

    open spec fn spec_can_deserialize(s: Seq<u8>, cx: ()) -> bool {
        &&& A::spec_can_deserialize(s, ())
        &&& A::spec_deserialize(s, ()) matches Ok((_, n)) ==> B::spec_can_deserialize(s.skip(n as int), ())
    }

    fn can_deserialize(input: &[u8], pos: usize, cx: &()) -> (r: bool) {
        if !A::can_deserialize(input, pos, &()) {
            return false;
        }
        match A::deserialize(input, pos, &()) {
            Err(_) => true,
            Ok((_, p)) => {
                assert(input@.skip(p as int) =~= input@.skip(pos as int).skip((p - pos) as int));
                B::can_deserialize(input, p, &())
            },
        }
    }

    /// The first value, then the second from where the first ended.
    open spec fn spec_deserialize(s: Seq<u8>, cx: ()) -> Result<((A::V, B::V), nat), Error> {
        match A::spec_deserialize(s, ()) {
            Err(e) => Err(e),
            Ok((a, n)) => match B::spec_deserialize(s.skip(n as int), ()) {
                Err(e) => Err(e),
                Ok((b, m)) => Ok(((a, b), n + m)),
            },
        }
    }

    fn deserialize(input: &[u8], pos: usize, cx: &()) -> (r: Result<((A, B), usize), Error>) {
        let (a, p) = A::deserialize(input, pos, &())?;
        assert(input@.skip(p as int) =~= input@.skip(pos as int).skip((p - pos) as int));
        let (b, q) = B::deserialize(input, p, &())?;
        Ok(((a, b), q))
    }
}

} // verus!
