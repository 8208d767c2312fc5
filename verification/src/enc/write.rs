//! This module contains writer-based structs and traits.
//!
//! Because `std::io::Write` is only limited to `std` and not `core`, we provide our own [Writer].
use crate::error::EncodeError;
use vstd::prelude::*;

verus! {

/// How a write of `bytes` that returned `r` took the writer from `before` to `after`: it
/// succeeded exactly when `bytes` fitted, and then `bytes` were appended and the room shrank by
/// their length.
pub open spec fn appended<W: Writer>(
    before: W,
    after: W,
    bytes: Seq<u8>,
    r: Result<(), EncodeError>,
) -> bool {
    &&& (r is Ok <==> before.room(bytes.len()))
    &&& (r is Ok ==> after.written() == before.written() + bytes)
    &&& (r is Ok ==> forall|n: nat| #[trigger] after.room(n) == before.room(bytes.len() + n))
}

/// Two writes in a row: if the first succeeded, the pair behaves as one write of both byte runs;
/// if the first failed, there was no room for both either.
pub proof fn lemma_appended_then<W: Writer>(
    w0: W,
    w1: W,
    w2: W,
    a: Seq<u8>,
    b: Seq<u8>,
    r1: Result<(), EncodeError>,
    r2: Result<(), EncodeError>,
)
    requires
        appended(w0, w1, a, r1),
        r1 is Ok ==> appended(w1, w2, b, r2),
    ensures
        r1 is Ok ==> appended(w0, w2, a + b, r2),
        r1 is Err ==> !w0.room((a + b).len()),
{
    if r1 is Err {
        if w0.room((a + b).len()) {
            w0.lemma_room_prefix((a + b).len(), a.len());
        }
    } else {
        assert(w1.room(b.len()) == w0.room(a.len() + b.len()));
        if r2 is Ok {
            assert(w2.written() == w0.written() + (a + b));
            assert forall|n: nat| #[trigger] w2.room(n) == w0.room((a + b).len() + n) by {
                assert(w2.room(n) == w1.room(b.len() + n));
                assert(w1.room(b.len() + n) == w0.room(a.len() + (b.len() + n)));
            }
        }
    }
}

/// Trait that indicates that a struct can be used as a destination to encode data too. This is used by [Encode]
///
/// A writer is seen as the bytes it has accepted so far (`written`) and a capacity test (`room`):
/// a write of `n` bytes succeeds exactly when there is room for `n` more bytes.
///
/// [Encode]: ../trait.Encode.html
pub trait Writer {
    /// The bytes this writer has accepted so far.
    spec fn written(&self) -> Seq<u8>;

    /// Whether `n` more bytes fit into this writer.
    spec fn room(&self, n: nat) -> bool;

    /// Room for some bytes is room for fewer bytes too.
    proof fn lemma_room_prefix(&self, n: nat, m: nat)
        requires
            self.room(n),
            m <= n,
        ensures
            self.room(m),
    ;

    /// There is always room for nothing.
    proof fn lemma_room_empty(&self)
        ensures
            self.room(0),
    ;

    /// Write `bytes` to the underlying writer. Exactly `bytes.len()` bytes must be written, or else an error should be returned.
    fn write(&mut self, bytes: &[u8]) -> (r: Result<(), EncodeError>)
        ensures
            r is Ok <==> old(self).room(bytes@.len() as nat),
            r is Ok ==> final(self).written() == old(self).written() + bytes@,
            r is Ok ==> forall|n: nat| #[trigger]
                final(self).room(n) == old(self).room(bytes@.len() + n),
    ;

    /// Write a single byte to the underlying writer.
    fn write_u8(&mut self, value: u8) -> (r: Result<(), EncodeError>)
        ensures
            r is Ok <==> old(self).room(1),
            r is Ok ==> final(self).written() == old(self).written().push(value),
            r is Ok ==> forall|n: nat| #[trigger] final(self).room(n) == old(self).room(1 + n),
    {
        let buf = [value];
        let r = self.write(&buf);
        proof {
            assert(buf@ =~= seq![value]);
            assert(old(self).written() + seq![value] =~= old(self).written().push(value));
        }
        r
    }
}

impl<T: Writer> Writer for &mut T {
    open spec fn written(&self) -> Seq<u8> {
        (**self).written()
    }

    open spec fn room(&self, n: nat) -> bool {
        (**self).room(n)
    }

    proof fn lemma_room_prefix(&self, n: nat, m: nat) {
        (**self).lemma_room_prefix(n, m);
    }

    proof fn lemma_room_empty(&self) {
        (**self).lemma_room_empty();
    }

    fn write(&mut self, bytes: &[u8]) -> (r: Result<(), EncodeError>) {
        (**self).write(bytes)
    }
}

impl Writer for Vec<u8> {
    open spec fn written(&self) -> Seq<u8> {
        self@
    }

    open spec fn room(&self, n: nat) -> bool {
        true
    }

    proof fn lemma_room_prefix(&self, n: nat, m: nat) {
    }

    proof fn lemma_room_empty(&self) {
    }

    fn write(&mut self, bytes: &[u8]) -> (r: Result<(), EncodeError>) {
        let mut i: usize = 0;
        while i < bytes.len()
            invariant
                i <= bytes@.len(),
                self@ == old(self)@ + bytes@.take(i as int),
            decreases bytes@.len() - i,
        {
            self.push(bytes[i]);
            proof {
                assert(bytes@.take(i + 1) =~= bytes@.take(i as int).push(bytes@[i as int]));
            }
            i = i + 1;
        }
        proof {
            assert(bytes@.take(i as int) =~= bytes@);
        }
        Ok(())
    }
}

/// A helper struct that implements `Writer` for a `&[u8]` slice.
///
/// Bytes are written from the start of the slice on; a write that does not fit in the rest of the
/// slice fails with `EncodeError::UnexpectedEnd` and writes nothing.
pub struct SliceWriter<'storage> {
    slice: &'storage mut [u8],
    pos: usize,
}

impl<'storage> SliceWriter<'storage> {
    #[verifier::type_invariant]
    spec fn inv(self) -> bool {
        self.pos <= self.slice@.len()
    }

    /// The whole slice as it stands now.
    pub closed spec fn buffer(&self) -> Seq<u8> {
        self.slice@
    }

    /// The number of bytes written so far.
    pub closed spec fn position(&self) -> nat {
        self.pos as nat
    }

    /// Create a new instance of `SliceWriter` with the given byte array.
    pub fn new(bytes: &'storage mut [u8]) -> (w: Self)
        ensures
            w.position() == 0,
            w.buffer() == old(bytes)@,
            w.written() == Seq::<u8>::empty(),
            forall|n: nat| #[trigger] w.room(n) <==> (n == 0 || n <= old(bytes)@.len()),
    {
        let w = SliceWriter { slice: bytes, pos: 0 };
        assert(w.slice@.take(0) =~= Seq::<u8>::empty());
        w
    }

    /// What a slice writer holds: the bytes written are the front of the slice, up to the
    /// position; a write of `n` bytes fits exactly when `n` is 0 or the slice has `n` bytes left.
    pub proof fn lemma_slice_contents(&self, n: nat)
        ensures
            self.written() == self.buffer().take(self.position() as int),
            self.room(n) <==> (n == 0 || self.position() + n <= self.buffer().len()),
    {
    }

    /// Return the amount of bytes written so far.
    pub fn bytes_written(&self) -> (n: usize)
        ensures
            n == self.position(),
            n == self.written().len(),
    {
        proof {
            use_type_invariant(self);
        }
        self.pos
    }
}

impl<'storage> Writer for SliceWriter<'storage> {
    closed spec fn written(&self) -> Seq<u8> {
        self.slice@.take(self.pos as int)
    }

    closed spec fn room(&self, n: nat) -> bool {
        n == 0 || self.pos + n <= self.slice@.len()
    }

    proof fn lemma_room_prefix(&self, n: nat, m: nat) {
    }

    proof fn lemma_room_empty(&self) {
    }

    fn write(&mut self, bytes: &[u8]) -> (r: Result<(), EncodeError>)
        ensures
            r is Err ==> r == Err::<(), EncodeError>(EncodeError::UnexpectedEnd) && final(self).position()
                == old(self).position() && final(self).buffer() == old(self).buffer(),
            r is Ok ==> final(self).position() == old(self).position() + bytes@.len() && final(self).buffer()
                == old(self).buffer().take(old(self).position() as int) + bytes@ + old(self).buffer().skip(
                (old(self).position() + bytes@.len()) as int,
            ),
    {
        proof {
            use_type_invariant(&*self);
        }
        if bytes.len() > self.slice.len() - self.pos {
            return Err(EncodeError::UnexpectedEnd);
        }
        let pos = self.pos;
        let len = self.slice.len();
        let mut i: usize = 0;
        while i < bytes.len()
            invariant
                i <= bytes@.len(),
                pos + bytes@.len() <= self.slice@.len(),
                self.slice@.len() == old(self).slice@.len(),
                self.slice@.len() == len,
                self.pos == pos,
                pos == old(self).pos,
                self.slice@.take(pos as int) == old(self).slice@.take(pos as int),
                forall|j: int| 0 <= j < i ==> self.slice@[pos + j] == bytes@[j],
                forall|j: int| pos + i <= j < len ==> self.slice@[j] == old(self).slice@[j],
            decreases bytes@.len() - i,
        {
            self.slice[pos + i] = bytes[i];
            proof {
                assert(self.slice@.take(pos as int) =~= old(self).slice@.take(pos as int));
            }
            i = i + 1;
        }
        proof {
            assert(self.slice@.take(pos + bytes@.len()) =~= old(self).slice@.take(pos as int)
                + bytes@);
            assert(self.slice@ =~= old(self).slice@.take(pos as int) + bytes@ + old(self).slice@.skip(
                pos + bytes@.len(),
            ));
        }
        self.pos = pos + bytes.len();
        Ok(())
    }
}

/// A writer that counts how many bytes were written. This is useful for e.g. pre-allocating buffers before writing to them.
///
/// A write fails only when the count would pass `usize::MAX`.
pub struct SizeWriter {
    /// the amount of bytes that were written so far
    pub bytes_written: usize,
    /// The bytes written so far, kept for the proofs only.
    pub seen: Ghost<Seq<u8>>,
}

impl SizeWriter {
    /// A new writer that has counted nothing yet.
    pub fn new() -> (w: Self)
        ensures
            w.bytes_written == 0,
            w.written() == Seq::<u8>::empty(),
    {
        SizeWriter { bytes_written: 0, seen: Ghost(Seq::empty()) }
    }
}

impl Default for SizeWriter {
    fn default() -> (w: Self)
        ensures
            w.bytes_written == 0,
            w.written() == Seq::<u8>::empty(),
    {
        SizeWriter::new()
    }
}

impl Writer for SizeWriter {
    open spec fn written(&self) -> Seq<u8> {
        self.seen@
    }

    open spec fn room(&self, n: nat) -> bool {
        self.bytes_written + n <= usize::MAX
    }

    proof fn lemma_room_prefix(&self, n: nat, m: nat) {
    }

    proof fn lemma_room_empty(&self) {
    }

    fn write(&mut self, bytes: &[u8]) -> (r: Result<(), EncodeError>) {
        if bytes.len() > usize::MAX - self.bytes_written {
            return Err(EncodeError::UnexpectedEnd);
        }
        self.bytes_written = self.bytes_written + bytes.len();
        self.seen = Ghost(self.seen@ + bytes@);
        Ok(())
    }
}

} // verus!
