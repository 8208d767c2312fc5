//! This module contains reader-based structs and traits.
//!
//! [`Reader`] is a reader for sources that do not own their data. It is incapable of reading borrowed data, like `&str` and `&[u8]`.
//!
//! [`BorrowReader`] is an extension of `Reader` that also allows returning borrowed data. A `BorrowReader` allows reading `&str` and `&[u8]`.
use crate::error::DecodeError;
use vstd::prelude::*;
use vstd::slice::slice_subrange;

verus! {

/// The error of a read of `wanted` bytes from a source that holds only `available` bytes.
pub open spec fn short_read(wanted: nat, available: nat) -> DecodeError {
    DecodeError::UnexpectedEnd { additional: (wanted - available) as usize }
}

/// A reader for owned data. See the module documentation for more information.
///
/// A reader is seen as the bytes it will still deliver (`pending`).
pub trait Reader {
    /// The bytes this reader will still deliver, in order.
    spec fn pending(&self) -> Seq<u8>;

    /// Fill the given `bytes` argument with values. Exactly the length of the given slice must be filled, or else an error must be returned.
    ///
    /// Reading fails with `UnexpectedEnd` exactly when fewer bytes are pending than asked for.
    fn read(&mut self, bytes: &mut [u8]) -> (r: Result<(), DecodeError>)
        ensures
            final(bytes)@.len() == old(bytes)@.len(),
            r is Ok <==> old(bytes)@.len() <= old(self).pending().len(),
            r is Ok ==> final(bytes)@ == old(self).pending().take(old(bytes)@.len() as int),
            r is Ok ==> final(self).pending() == old(self).pending().skip(old(bytes)@.len() as int),
            r is Err ==> r == Err::<(), DecodeError>(
                short_read(old(bytes)@.len() as nat, old(self).pending().len()),
            ),
    ;

    /// The next byte, without reading it; `None` when nothing is pending.
    fn peek_u8(&mut self) -> (r: Option<u8>)
        ensures
            final(self).pending() == old(self).pending(),
            r == (if old(self).pending().len() > 0 {
                Some(old(self).pending()[0])
            } else {
                None::<u8>
            }),
    ;

    /// Read a single byte from the reader.
    fn read_u8(&mut self) -> (r: Result<u8, DecodeError>)
        ensures
            r is Ok <==> 1 <= old(self).pending().len(),
            r matches Ok(b) ==> b == old(self).pending()[0] && final(self).pending()
                == old(self).pending().skip(1),
            r is Err ==> r == Err::<u8, DecodeError>(short_read(1, old(self).pending().len())),
    {
        let mut byte = [0u8; 1];
        let r = self.read(&mut byte);
        match r {
            Ok(()) => Ok(byte[0]),
            Err(e) => Err(e),
        }
    }
}

/// A reader for borrowed data. Implementers of this must also implement the [`Reader`] trait. See the module documentation for more information.
pub trait BorrowReader<'storage>: Reader {
    /// Read exactly `length` bytes and return a slice to this data. If not enough bytes could be read, an error should be returned.
    fn take_bytes(&mut self, length: usize) -> (r: Result<&'storage [u8], DecodeError>)
        ensures
            r is Ok <==> length <= old(self).pending().len(),
            r matches Ok(s) ==> s@ == old(self).pending().take(length as int),
            r is Ok ==> final(self).pending() == old(self).pending().skip(length as int),
            r is Err ==> r == Err::<&'storage [u8], DecodeError>(
                short_read(length as nat, old(self).pending().len()),
            ),
    ;
}

impl<T: Reader> Reader for &mut T {
    open spec fn pending(&self) -> Seq<u8> {
        (**self).pending()
    }

    fn read(&mut self, bytes: &mut [u8]) -> (r: Result<(), DecodeError>) {
        (**self).read(bytes)
    }

    fn peek_u8(&mut self) -> (r: Option<u8>) {
        (**self).peek_u8()
    }
}

/// A reader type for `&[u8]` slices. Implements both [`Reader`] and [`BorrowReader`], and thus can be used for borrowed data.
pub struct SliceReader<'storage> {
    pub slice: &'storage [u8],
}

impl<'storage> SliceReader<'storage> {
    /// Constructs a slice reader
    pub fn new(bytes: &'storage [u8]) -> (r: Self)
        ensures
            r.pending() == bytes@,
    {
        SliceReader { slice: bytes }
    }

    /// The number of bytes not read yet.
    pub fn remaining(&self) -> (n: usize)
        ensures
            n == self.pending().len(),
    {
        self.slice.len()
    }
}

impl<'storage> Reader for SliceReader<'storage> {
    open spec fn pending(&self) -> Seq<u8> {
        self.slice@
    }

    fn peek_u8(&mut self) -> (r: Option<u8>) {
        if self.slice.len() > 0 {
            Some(self.slice[0])
        } else {
            None
        }
    }

    fn read(&mut self, bytes: &mut [u8]) -> (r: Result<(), DecodeError>) {
        let n = bytes.len();
        if n > self.slice.len() {
            return Err(DecodeError::UnexpectedEnd { additional: n - self.slice.len() });
        }
        let mut i: usize = 0;
        while i < n
            invariant
                i <= n,
                n == bytes@.len(),
                n <= self.slice@.len(),
                self.slice@ == old(self).slice@,
                bytes@.len() == old(bytes)@.len(),
                forall|j: int| 0 <= j < i ==> bytes@[j] == self.slice@[j],
            decreases n - i,
        {
            bytes[i] = self.slice[i];
            i = i + 1;
        }
        proof {
            assert(bytes@ =~= old(self).slice@.take(n as int));
        }
        self.slice = slice_subrange(self.slice, n, self.slice.len());
        proof {
            assert(self.slice@ =~= old(self).slice@.skip(n as int));
        }
        Ok(())
    }
}

impl<'storage> BorrowReader<'storage> for SliceReader<'storage> {
    fn take_bytes(&mut self, length: usize) -> (r: Result<&'storage [u8], DecodeError>) {
        if length > self.slice.len() {
            return Err(DecodeError::UnexpectedEnd { additional: length - self.slice.len() });
        }
        let taken = slice_subrange(self.slice, 0, length);
        self.slice = slice_subrange(self.slice, length, self.slice.len());
        proof {
            assert(taken@ =~= old(self).slice@.take(length as int));
            assert(self.slice@ =~= old(self).slice@.skip(length as int));
        }
        Ok(taken)
    }
}

} // verus!
