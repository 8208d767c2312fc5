//! Bounded types for compile-time size guarantees.
//!
//! These types enforce capacity limits both at construction time and during
//! decoding, preventing Denial-of-Service attacks via unbounded allocations.
use crate::config::{Configuration, Format};
use crate::de::impls::{str_from_utf8, utf8_text};
use crate::de::{
    claim_container, dec_slice_len, decoded_as, take_exact, BorrowDecode, BorrowDecoder, Decode, Decoder, Model,
};
use crate::enc::{Encode, Encoder};
use crate::error::{DecodeError, EncodeError};
use crate::features::impl_alloc::{items_decoding, lemma_items_decoding_len, models, shifted, Decoding};
use crate::features::static_size::helpers::VARINT_MAX_64;
use crate::features::static_size::StaticSize;
use std::ops::Deref;
use vstd::layout::size_of;
use vstd::prelude::*;
use vstd::utf8::encode_utf8;

verus! {

/// A `Vec` wrapper with a compile-time capacity limit.
///
/// During decoding, the length is validated *before* allocation to prevent
/// OOM attacks from malicious length prefixes.
#[derive(Debug, Clone, PartialEq, Eq, PartialOrd, Ord, Hash)]
pub struct BoundedVec<T, const CAP: usize>(pub Vec<T>);

/// A `String` wrapper with a compile-time byte-length capacity limit.
///
/// During decoding, the byte length is validated *before* allocation to
/// prevent OOM attacks from malicious length prefixes.
#[derive(Debug, Clone, PartialEq, Eq, PartialOrd, Ord, Hash)]
pub struct BoundedString<const CAP: usize>(pub String);

/// Error returned when a value exceeds a bounded type's capacity.
#[derive(Debug, Clone, PartialEq, Eq, Structural)]
pub struct BoundsExceeded;

impl BoundsExceeded {
    /// The message this error stands for.
    pub fn to_string(&self) -> (m: String)
        ensures
            m@ == "value exceeds bounded capacity"@,
    {
        String::from_str("value exceeds bounded capacity")
    }
}

impl<T, const CAP: usize> StaticSize for BoundedVec<T, CAP> where T: StaticSize {
    const MAX_SIZE: usize = VARINT_MAX_64 + T::MAX_SIZE * CAP;
}

impl<const CAP: usize> StaticSize for BoundedString<CAP> {
    const MAX_SIZE: usize = VARINT_MAX_64 + CAP;
}

impl<T, const CAP: usize> BoundedVec<T, CAP> {
    /// Create a new empty `BoundedVec`.
    pub fn new() -> (v: Self)
        ensures
            v.0@ == Seq::<T>::empty(),
    {
        BoundedVec(Vec::new())
    }

    /// Try to push an element, returning an error if the capacity would be exceeded.
    ///
    /// Returns `BoundsExceeded` if the vector is already at its maximum capacity.
    pub fn try_push(&mut self, value: T) -> (r: Result<(), BoundsExceeded>)
        ensures
            old(self).0@.len() >= CAP ==> r is Err && final(self).0@ == old(self).0@,
            old(self).0@.len() < CAP ==> r is Ok && final(self).0@ == old(self).0@.push(value),
    {
        if self.0.len() >= CAP {
            Err(BoundsExceeded)
        } else {
            self.0.push(value);
            Ok(())
        }
    }

    /// Wrap `v`, or refuse it with `BoundsExceeded` when it holds more than `CAP` items.
    pub fn try_from(v: Vec<T>) -> (r: Result<Self, BoundsExceeded>)
        ensures
            v@.len() > CAP ==> r is Err,
            v@.len() <= CAP ==> (r matches Ok(b) && b.0@ == v@),
    {
        if v.len() > CAP {
            Err(BoundsExceeded)
        } else {
            Ok(BoundedVec(v))
        }
    }

    /// Returns the inner `Vec<T>`.
    pub fn into_inner(self) -> (v: Vec<T>)
        ensures
            v@ == self.0@,
    {
        self.0
    }
}

impl<T, const CAP: usize> Default for BoundedVec<T, CAP> {
    fn default() -> (v: Self)
        ensures
            v.0@ == Seq::<T>::empty(),
    {
        Self::new()
    }
}

impl<T, const CAP: usize> Deref for BoundedVec<T, CAP> {
    type Target = Vec<T>;

    fn deref(&self) -> (v: &Vec<T>)
        ensures
            *v == self.0,
    {
        &self.0
    }
}

impl<const CAP: usize> BoundedString<CAP> {
    /// Create a new empty `BoundedString`.
    pub fn new() -> (s: Self)
        ensures
            s.0@ == Seq::<char>::empty(),
    {
        BoundedString(String::new())
    }

    /// Wrap `s`, or refuse it with `BoundsExceeded` when its UTF-8 bytes are more than `CAP`.
    pub fn try_from(s: String) -> (r: Result<Self, BoundsExceeded>)
        ensures
            encode_utf8(s@).len() > CAP ==> r is Err,
            encode_utf8(s@).len() <= CAP ==> (r matches Ok(b) && b.0@ == s@),
    {
        if s.as_str().as_bytes().len() > CAP {
            Err(BoundsExceeded)
        } else {
            Ok(BoundedString(s))
        }
    }

    /// Returns the inner `String`.
    pub fn into_inner(self) -> (s: String)
        ensures
            s@ == self.0@,
    {
        self.0
    }
}

impl<const CAP: usize> Default for BoundedString<CAP> {
    fn default() -> (s: Self)
        ensures
            s.0@ == Seq::<char>::empty(),
    {
        Self::new()
    }
}

impl<const CAP: usize> Deref for BoundedString<CAP> {
    type Target = String;

    fn deref(&self) -> (s: &String)
        ensures
            *s == self.0,
    {
        &self.0
    }
}

impl<T: Encode, const CAP: usize> Encode for BoundedVec<T, CAP> {
    open spec fn encoding(&self, c: Configuration) -> Result<Seq<u8>, EncodeError> {
        if self.0@.len() > CAP {
            Err(EncodeError::CapacityExceeded)
        } else {
            self.0.encoding(c)
        }
    }

    fn encode<E: Encoder>(&self, encoder: &mut E) -> (r: Result<(), EncodeError>) {
        if self.0.len() > CAP {
            return Err(EncodeError::CapacityExceeded);
        }
        self.0.encode(encoder)
    }
}

impl<const CAP: usize> Encode for BoundedString<CAP> {
    open spec fn encoding(&self, c: Configuration) -> Result<Seq<u8>, EncodeError> {
        if encode_utf8(self.0@).len() > CAP {
            Err(EncodeError::CapacityExceeded)
        } else {
            self.0.encoding(c)
        }
    }

    fn encode<E: Encoder>(&self, encoder: &mut E) -> (r: Result<(), EncodeError>) {
        if self.0.as_str().as_bytes().len() > CAP {
            return Err(EncodeError::CapacityExceeded);
        }
        self.0.encode(encoder)
    }
}

impl<T: Model, const CAP: usize> Model for BoundedVec<T, CAP> {
    type V = Seq<T::V>;

    open spec fn model(&self) -> Seq<T::V> {
        models(self.0@)
    }

    open spec fn byte_sized() -> bool {
        false
    }

    fn is_byte_sized() -> (r: bool) {
        false
    }

    open spec fn byte_value(b: u8) -> Seq<T::V> {
        Seq::empty()
    }

    open spec fn byte_of(&self) -> u8 {
        0
    }

    fn to_byte(&self) -> (b: u8) {
        0
    }
}

impl<const CAP: usize> Model for BoundedString<CAP> {
    type V = Seq<char>;

    open spec fn model(&self) -> Seq<char> {
        self.0@
    }

    open spec fn byte_sized() -> bool {
        false
    }

    fn is_byte_sized() -> (r: bool) {
        false
    }

    open spec fn byte_value(b: u8) -> Seq<char> {
        Seq::empty()
    }

    open spec fn byte_of(&self) -> u8 {
        0
    }

    fn to_byte(&self) -> (b: u8) {
        0
    }
}

/// The claim count `k` after giving `n` bytes back: with a limit the count goes down, without one
/// nothing is counted.
pub open spec fn given_back(c: Configuration, k: nat, n: nat) -> nat {
    if c.limit is Some {
        (k - n) as nat
    } else {
        k
    }
}

/// Decoding as `dec` does, after giving back the `size` bytes claimed for the value in advance.
pub open spec fn after_give_back<V>(dec: Decoding<V>, size: nat) -> Decoding<V> {
    |c: Configuration, k: nat, s: Seq<u8>| dec(c, given_back(c, k, size), s)
}

/// What decoding a `BoundedVec` of capacity `cap` makes of `s`: a sequence length, refused with
/// `CapacityExceeded` above the capacity; then the items' memory (`size` bytes each) is claimed,
/// and each item gives its share back before it is decoded.
pub open spec fn bounded_vec_decoding<V>(dec: Decoding<V>, size: nat, cap: nat, c: Configuration, k: nat, s: Seq<u8>) -> Result<(Seq<V>, nat, nat), DecodeError> {
    match dec_slice_len(c, k, s) {
        Ok((len, n1, k1)) => if len > cap {
            Err(DecodeError::CapacityExceeded)
        } else {
            match claim_container(c, k1, len as nat, size) {
                Ok(k2) => shifted(n1, items_decoding(after_give_back(dec, size), c, k2, s.skip(n1 as int), len as nat)),
                Err(e) => Err(e),
            }
        },
        Err(e) => Err(e),
    }
}

/// What decoding a `BoundedString` of capacity `cap` makes of `s`: a sequence length, refused with
/// `CapacityExceeded` above the capacity; then that many bytes are claimed and taken, and have to
/// be UTF-8.
pub open spec fn bounded_string_decoding(cap: nat, c: Configuration, k: nat, s: Seq<u8>) -> Result<(Seq<char>, nat, nat), DecodeError> {
    match dec_slice_len(c, k, s) {
        Ok((len, n1, k1)) => if len > cap {
            Err(DecodeError::CapacityExceeded)
        } else {
            match claim_container(c, k1, len as nat, 1) {
                Ok(k2) => match take_exact(s.skip(n1 as int), len as nat) {
                    Ok(b) => utf8_text(b, n1 + len as nat, k2),
                    Err(e) => Err(e),
                },
                Err(e) => Err(e),
            }
        },
        Err(e) => Err(e),
    }
}

/// How values of `T` decode, as a function.
pub open spec fn bounded_decoding_of<Context, T: Decode<Context>>() -> Decoding<T::V> {
    |c: Configuration, k: nat, s: Seq<u8>| T::decoding(c, k, s)
}

/// Decode `len` values one after the other, each after giving back the bytes claimed for it.
fn decode_bounded_items<Context, D: Decoder<Context = Context>, T: Decode<Context>>(decoder: &mut D, len: usize) -> (r: Result<Vec<T>, DecodeError>)
    requires
        old(decoder).settings().limit is Some ==> len * size_of::<T>() <= old(decoder).claimed(),
    ensures
        final(decoder).settings() == old(decoder).settings(),
        r is Ok ==> if old(decoder).settings().limit is Some {
            old(decoder).claimed() - len * size_of::<T>() <= final(decoder).claimed()
        } else {
            old(decoder).claimed() <= final(decoder).claimed()
        },
        decoded_as::<Vec<T>>(
            old(decoder).pending(),
            final(decoder).pending(),
            final(decoder).claimed(),
            items_decoding(
                after_give_back(bounded_decoding_of::<Context, T>(), size_of::<T>()),
                old(decoder).settings(),
                old(decoder).claimed(),
                old(decoder).pending(),
                len as nat,
            ),
            r,
        ),
{
    let ghost c = decoder.settings();
    let ghost s0 = decoder.pending();
    let ghost k0 = decoder.claimed();
    let ghost size = size_of::<T>();
    let ghost dec = after_give_back(bounded_decoding_of::<Context, T>(), size);
    let sz = core::mem::size_of::<T>();
    let mut vec: Vec<T> = Vec::new();
    let mut i: usize = 0;
    proof {
        assert(models(vec@) =~= Seq::<T::V>::empty());
    }
    while i < len
        invariant
            i <= len,
            sz == size,
            size == size_of::<T>(),
            c == old(decoder).settings(),
            s0 == old(decoder).pending(),
            k0 == old(decoder).claimed(),
            dec == after_give_back(bounded_decoding_of::<Context, T>(), size),
            decoder.settings() == c,
            c.limit is Some ==> k0 - len * size + (len - i) * size <= decoder.claimed(),
            c.limit is Some ==> len * size <= k0,
            c.limit is None ==> k0 <= decoder.claimed(),
            decoder.pending().len() <= s0.len(),
            decoder.pending() == s0.skip(s0.len() - decoder.pending().len()),
            items_decoding(dec, c, k0, s0, i as nat) == Ok::<(Seq<T::V>, nat, nat), DecodeError>(
                (models(vec@), (s0.len() - decoder.pending().len()) as nat, decoder.claimed()),
            ),
        decreases len - i,
    {
        let ghost p = decoder.pending();
        let ghost n: nat = (s0.len() - p.len()) as nat;
        let ghost kk = decoder.claimed();
        proof {
            if c.limit is Some {
                assert((len - i) * size >= size && (len - i) * size - size == (len - i - 1) * size) by (nonlinear_arith)
                    requires
                        len - i >= 1,
                        size >= 0,
                ;
            }
        }
        decoder.unclaim_bytes_read(sz);
        match T::decode(decoder) {
            Ok(v) => {
                proof {
                    let m = T::decoding(c, given_back(c, kk, size), p)->Ok_0.1;
                    assert(decoder.pending() =~= s0.skip((n + m) as int));
                    assert(models(vec@.push(v)) =~= models(vec@).push(v.model()));
                }
                vec.push(v);
            },
            Err(e) => {
                proof {
                    crate::features::impl_alloc::lemma_items_err(dec, c, k0, s0, (i + 1) as nat, len as nat);
                }
                return Err(e);
            },
        }
        i = i + 1;
    }
    Ok(vec)
}

impl<Context, T: Decode<Context>, const CAP: usize> Decode<Context> for BoundedVec<T, CAP> {
    open spec fn decoding(c: Configuration, k: nat, s: Seq<u8>) -> Result<(Seq<T::V>, nat, nat), DecodeError> {
        bounded_vec_decoding(bounded_decoding_of::<Context, T>(), size_of::<T>(), CAP as nat, c, k, s)
    }

    fn from_byte(b: u8) -> (r: Option<Self>) {
        None
    }

    fn decode<D: Decoder<Context = Context>>(decoder: &mut D) -> (r: Result<Self, DecodeError>) {
        let len = match decoder.decode_slice_len() {
            Ok(len) => len,
            Err(e) => return Err(e),
        };
        if len > CAP {
            return Err(DecodeError::CapacityExceeded);
        }
        let ghost d1 = *decoder;
        match decoder.claim_container_read::<T>(len) {
            Ok(()) => {},
            Err(e) => return Err(e),
        }
        let ghost d2 = *decoder;
        let r = decode_bounded_items::<Context, D, T>(decoder, len);
        proof {
            let n1 = (old(decoder).pending().len() - d1.pending().len()) as nat;
            if let Ok((vs, m, k3)) = items_decoding(
                after_give_back(bounded_decoding_of::<Context, T>(), size_of::<T>()),
                d2.settings(),
                d2.claimed(),
                d2.pending(),
                len as nat,
            ) {
                assert(decoder.pending() =~= old(decoder).pending().skip((n1 + m) as int));
            }
        }
        match r {
            Ok(v) => Ok(BoundedVec(v)),
            Err(e) => Err(e),
        }
    }
}

impl<Context, const CAP: usize> Decode<Context> for BoundedString<CAP> {
    open spec fn decoding(c: Configuration, k: nat, s: Seq<u8>) -> Result<(Seq<char>, nat, nat), DecodeError> {
        bounded_string_decoding(CAP as nat, c, k, s)
    }

    fn from_byte(b: u8) -> (r: Option<Self>) {
        None
    }

    fn decode<D: Decoder<Context = Context>>(decoder: &mut D) -> (r: Result<Self, DecodeError>) {
        decode_bounded_string(decoder)
    }
}

/// Decode a string of at most `CAP` bytes.
fn decode_bounded_string<D: Decoder, const CAP: usize>(decoder: &mut D) -> (r: Result<BoundedString<CAP>, DecodeError>)
    ensures
        final(decoder).settings() == old(decoder).settings(),
        r is Ok ==> old(decoder).claimed() <= final(decoder).claimed(),
        decoded_as(
            old(decoder).pending(),
            final(decoder).pending(),
            final(decoder).claimed(),
            bounded_string_decoding(CAP as nat, old(decoder).settings(), old(decoder).claimed(), old(decoder).pending()),
            r,
        ),
{
    broadcast use vstd::layout::layout_of_primitives;

    let len = match decoder.decode_slice_len() {
        Ok(len) => len,
        Err(e) => return Err(e),
    };
    if len > CAP {
        return Err(DecodeError::CapacityExceeded);
    }
    let ghost d1 = *decoder;
    assert(size_of::<u8>() == 1);
    match decoder.claim_container_read::<u8>(len) {
        Ok(()) => {},
        Err(e) => return Err(e),
    }
    let mut bytes: Vec<u8> = vec![0u8; len];
    match decoder.read(bytes.as_mut_slice()) {
        Ok(()) => {},
        Err(e) => return Err(e),
    }
    proof {
        let n1 = (old(decoder).pending().len() - d1.pending().len()) as nat;
        assert(decoder.pending() =~= old(decoder).pending().skip(n1 + len));
    }
    match str_from_utf8(bytes.as_slice()) {
        Some(s) => {
            proof {
                vstd::utf8::encode_utf8_decode_utf8(s@);
            }
            Ok(BoundedString(s.to_owned()))
        },
        None => Err(DecodeError::Utf8),
    }
}

/// How values of `T` decode with borrowing, as a function.
pub open spec fn bounded_borrow_decoding_of<'de, Context, T: BorrowDecode<'de, Context>>() -> Decoding<T::V> {
    |c: Configuration, k: nat, s: Seq<u8>| T::borrow_decoding(c, k, s)
}

/// Decode `len` values one after the other, each after giving back the bytes claimed for it.
fn borrow_decode_bounded_items<'de, Context, D: BorrowDecoder<'de, Context = Context>, T: BorrowDecode<'de, Context>>(decoder: &mut D, len: usize) -> (r: Result<Vec<T>, DecodeError>)
    requires
        old(decoder).settings().limit is Some ==> len * size_of::<T>() <= old(decoder).claimed(),
    ensures
        final(decoder).settings() == old(decoder).settings(),
        r is Ok ==> if old(decoder).settings().limit is Some {
            old(decoder).claimed() - len * size_of::<T>() <= final(decoder).claimed()
        } else {
            old(decoder).claimed() <= final(decoder).claimed()
        },
        decoded_as::<Vec<T>>(
            old(decoder).pending(),
            final(decoder).pending(),
            final(decoder).claimed(),
            items_decoding(
                after_give_back(bounded_borrow_decoding_of::<Context, T>(), size_of::<T>()),
                old(decoder).settings(),
                old(decoder).claimed(),
                old(decoder).pending(),
                len as nat,
            ),
            r,
        ),
{
    let ghost c = decoder.settings();
    let ghost s0 = decoder.pending();
    let ghost k0 = decoder.claimed();
    let ghost size = size_of::<T>();
    let ghost dec = after_give_back(bounded_borrow_decoding_of::<Context, T>(), size);
    let sz = core::mem::size_of::<T>();
    let mut vec: Vec<T> = Vec::new();
    let mut i: usize = 0;
    proof {
        assert(models(vec@) =~= Seq::<T::V>::empty());
    }
    while i < len
        invariant
            i <= len,
            sz == size,
            size == size_of::<T>(),
            c == old(decoder).settings(),
            s0 == old(decoder).pending(),
            k0 == old(decoder).claimed(),
            dec == after_give_back(bounded_borrow_decoding_of::<Context, T>(), size),
            decoder.settings() == c,
            c.limit is Some ==> k0 - len * size + (len - i) * size <= decoder.claimed(),
            c.limit is Some ==> len * size <= k0,
            c.limit is None ==> k0 <= decoder.claimed(),
            decoder.pending().len() <= s0.len(),
            decoder.pending() == s0.skip(s0.len() - decoder.pending().len()),
            items_decoding(dec, c, k0, s0, i as nat) == Ok::<(Seq<T::V>, nat, nat), DecodeError>(
                (models(vec@), (s0.len() - decoder.pending().len()) as nat, decoder.claimed()),
            ),
        decreases len - i,
    {
        let ghost p = decoder.pending();
        let ghost n: nat = (s0.len() - p.len()) as nat;
        let ghost kk = decoder.claimed();
        proof {
            if c.limit is Some {
                assert((len - i) * size >= size && (len - i) * size - size == (len - i - 1) * size) by (nonlinear_arith)
                    requires
                        len - i >= 1,
                        size >= 0,
                ;
            }
        }
        decoder.unclaim_bytes_read(sz);
        match T::borrow_decode(decoder) {
            Ok(v) => {
                proof {
                    let m = T::borrow_decoding(c, given_back(c, kk, size), p)->Ok_0.1;
                    assert(decoder.pending() =~= s0.skip((n + m) as int));
                    assert(models(vec@.push(v)) =~= models(vec@).push(v.model()));
                }
                vec.push(v);
            },
            Err(e) => {
                proof {
                    crate::features::impl_alloc::lemma_items_err(dec, c, k0, s0, (i + 1) as nat, len as nat);
                }
                return Err(e);
            },
        }
        i = i + 1;
    }
    Ok(vec)
}

impl<'de, Context, T: BorrowDecode<'de, Context>, const CAP: usize> BorrowDecode<'de, Context> for BoundedVec<T, CAP> {
    open spec fn borrow_decoding(c: Configuration, k: nat, s: Seq<u8>) -> Result<(Seq<T::V>, nat, nat), DecodeError> {
        bounded_vec_decoding(bounded_borrow_decoding_of::<Context, T>(), size_of::<T>(), CAP as nat, c, k, s)
    }

    fn borrow_from_byte(b: u8) -> (r: Option<Self>) {
        None
    }

    fn borrow_decode<D: BorrowDecoder<'de, Context = Context>>(decoder: &mut D) -> (r: Result<Self, DecodeError>) {
        let len = match decoder.decode_slice_len() {
            Ok(len) => len,
            Err(e) => return Err(e),
        };
        if len > CAP {
            return Err(DecodeError::CapacityExceeded);
        }
        let ghost d1 = *decoder;
        match decoder.claim_container_read::<T>(len) {
            Ok(()) => {},
            Err(e) => return Err(e),
        }
        let ghost d2 = *decoder;
        let r = borrow_decode_bounded_items::<Context, D, T>(decoder, len);
        proof {
            let n1 = (old(decoder).pending().len() - d1.pending().len()) as nat;
            if let Ok((vs, m, k3)) = items_decoding(
                after_give_back(bounded_borrow_decoding_of::<Context, T>(), size_of::<T>()),
                d2.settings(),
                d2.claimed(),
                d2.pending(),
                len as nat,
            ) {
                assert(decoder.pending() =~= old(decoder).pending().skip((n1 + m) as int));
            }
        }
        match r {
            Ok(v) => Ok(BoundedVec(v)),
            Err(e) => Err(e),
        }
    }
}

impl<'de, Context, const CAP: usize> BorrowDecode<'de, Context> for BoundedString<CAP> {
    open spec fn borrow_decoding(c: Configuration, k: nat, s: Seq<u8>) -> Result<(Seq<char>, nat, nat), DecodeError> {
        bounded_string_decoding(CAP as nat, c, k, s)
    }

    fn borrow_from_byte(b: u8) -> (r: Option<Self>) {
        None
    }

    fn borrow_decode<D: BorrowDecoder<'de, Context = Context>>(decoder: &mut D) -> (r: Result<Self, DecodeError>) {
        decode_bounded_string(decoder)
    }
}

/// A bounded vector decodes to no more items than its capacity: a length prefix above the
/// capacity is refused with `CapacityExceeded`, and a decoded vector holds as many items as its
/// length prefix says.
pub proof fn lemma_bounded_vec_decode_capacity<Context, T: Decode<Context>, const CAP: usize>(
    c: Configuration,
    k: nat,
    s: Seq<u8>,
)
    ensures
        dec_slice_len(c, k, s) matches Ok((len, n, k1)) && len > CAP ==> <BoundedVec<T, CAP> as Decode<
            Context,
        >>::decoding(c, k, s) == Err::<(Seq<T::V>, nat, nat), DecodeError>(DecodeError::CapacityExceeded),
        <BoundedVec<T, CAP> as Decode<Context>>::decoding(c, k, s) matches Ok((v, m, k2)) ==> v.len() <= CAP
            && dec_slice_len(c, k, s) is Ok && v.len() == (dec_slice_len(c, k, s)->Ok_0).0,
{
    if let Ok((len, n1, k1)) = dec_slice_len(c, k, s) {
        if len <= CAP {
            if let Ok(k2) = claim_container(c, k1, len as nat, size_of::<T>()) {
                lemma_items_decoding_len(
                    after_give_back(bounded_decoding_of::<Context, T>(), size_of::<T>()),
                    c,
                    k2,
                    s.skip(n1 as int),
                    len as nat,
                );
            }
        }
    }
}

/// The same law for borrow decoding: a borrowed bounded vector never holds more items than its
/// capacity.
pub proof fn lemma_bounded_vec_borrow_decode_capacity<'de, Context, T: BorrowDecode<'de, Context>, const CAP: usize>(
    c: Configuration,
    k: nat,
    s: Seq<u8>,
)
    ensures
        dec_slice_len(c, k, s) matches Ok((len, n, k1)) && len > CAP ==> <BoundedVec<T, CAP> as BorrowDecode<
            'de,
            Context,
        >>::borrow_decoding(c, k, s) == Err::<(Seq<T::V>, nat, nat), DecodeError>(DecodeError::CapacityExceeded),
        <BoundedVec<T, CAP> as BorrowDecode<'de, Context>>::borrow_decoding(c, k, s) matches Ok((v, m, k2)) ==> v.len()
            <= CAP && dec_slice_len(c, k, s) is Ok && v.len() == (dec_slice_len(c, k, s)->Ok_0).0,
{
    if let Ok((len, n1, k1)) = dec_slice_len(c, k, s) {
        if len <= CAP {
            if let Ok(k2) = claim_container(c, k1, len as nat, size_of::<T>()) {
                lemma_items_decoding_len(
                    after_give_back(bounded_borrow_decoding_of::<Context, T>(), size_of::<T>()),
                    c,
                    k2,
                    s.skip(n1 as int),
                    len as nat,
                );
            }
        }
    }
}

/// A bounded string refuses a byte length above its capacity with `CapacityExceeded`, owned or
/// borrowed.
pub proof fn lemma_bounded_string_capacity<'de, Context, const CAP: usize>(c: Configuration, k: nat, s: Seq<u8>)
    ensures
        dec_slice_len(c, k, s) matches Ok((len, n, k1)) && len > CAP ==> <BoundedString<CAP> as Decode<
            Context,
        >>::decoding(c, k, s) == Err::<(Seq<char>, nat, nat), DecodeError>(DecodeError::CapacityExceeded)
            && <BoundedString<CAP> as BorrowDecode<'de, Context>>::borrow_decoding(c, k, s) == Err::<
            (Seq<char>, nat, nat),
            DecodeError,
        >(DecodeError::CapacityExceeded),
{
}

} // verus!
