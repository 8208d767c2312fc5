//! Decoder-based structs and traits.
use crate::bytes::{endian_value, lemma_endian_value_bound, lemma_pow256_values, pow256};
use crate::config::{Config, Configuration, IntEncoding};
use crate::de::cbor::{
    cbor_decode_bool, cbor_decode_bytes_or_array_len, cbor_decode_i128, cbor_decode_i64,
    cbor_decode_header, cbor_decode_len, cbor_decode_small_int, cbor_decode_u128, cbor_decode_uint,
    lemma_bignum_bound,
};
use crate::de::read::{short_read, BorrowReader, Reader};
use crate::enc::is_bincode;
use crate::error::{DecodeError, IntegerType};
use crate::float_bits::{dec_f32, dec_f64, FloatBits};
use crate::varint::varint_decode_signed;
use crate::varint::{lemma_varint_decode_bound, varint_decode};
use vstd::layout::size_of;
use vstd::prelude::*;

pub mod bit_reader;
pub mod cbor;
pub mod deterministic;
mod decoder;
mod impl_tuples;
pub mod impls;
pub mod read;

pub use self::decoder::{DecoderImpl, WithContext};

verus! {

/// The unsigned integer type of `width` bytes (2, 4, 8 or 16).
pub open spec fn uint_type(width: nat) -> IntegerType {
    if width == 2 {
        IntegerType::U16
    } else if width == 4 {
        IntegerType::U32
    } else if width == 8 {
        IntegerType::U64
    } else {
        IntegerType::U128
    }
}

/// The signed value of the two's complement number `v` of `width` bytes.
pub open spec fn from_twos_complement(v: nat, width: nat) -> int {
    if v * 2 >= pow256(width) {
        v - pow256(width)
    } else {
        v as int
    }
}

/// Take the first `n` bytes of `s`, or fail with the number of bytes missing.
pub open spec fn take_exact(s: Seq<u8>, n: nat) -> Result<Seq<u8>, DecodeError> {
    if s.len() < n {
        Err(short_read(n, s.len()))
    } else {
        Ok(s.take(n as int))
    }
}

/// What reading an unsigned integer of `width` bytes (2, 4, 8 or 16) under configuration `c`
/// makes of `s`: the value and the number of bytes taken, or the error.
pub open spec fn dec_uint(c: Configuration, s: Seq<u8>, width: nat) -> Result<(nat, nat), DecodeError> {
    if is_bincode(c) {
        match c.int_encoding {
            IntEncoding::Variable => varint_decode(c.endian, uint_type(width), s),
            IntEncoding::Fixed => match take_exact(s, width) {
                Ok(b) => Ok((endian_value(c.endian, b), width)),
                Err(e) => Err(e),
            },
        }
    } else if width == 16 {
        cbor_decode_u128(s)
    } else {
        cbor_decode_uint(s, (pow256(width) - 1) as nat)
    }
}

/// What reading a signed integer of `width` bytes (2, 4, 8 or 16) under configuration `c` makes
/// of `s`: the value and the number of bytes taken, or the error.
pub open spec fn dec_int(c: Configuration, s: Seq<u8>, width: nat) -> Result<(int, nat), DecodeError> {
    if is_bincode(c) {
        match c.int_encoding {
            IntEncoding::Variable => varint_decode_signed(c.endian, uint_type(width), s),
            IntEncoding::Fixed => match take_exact(s, width) {
                Ok(b) => Ok((from_twos_complement(endian_value(c.endian, b), width), width)),
                Err(e) => Err(e),
            },
        }
    } else if width == 2 {
        cbor_decode_small_int(s, -0x8000, 0x7FFF)
    } else if width == 4 {
        cbor_decode_small_int(s, -0x8000_0000, 0x7FFF_FFFF)
    } else if width == 8 {
        cbor_decode_i64(s)
    } else {
        cbor_decode_i128(s)
    }
}

/// What reading a `u16` makes of `s`.
pub open spec fn dec_u16(c: Configuration, s: Seq<u8>) -> Result<(u16, nat), DecodeError> {
    match dec_uint(c, s, 2) {
        Ok((v, n)) => Ok((v as u16, n)),
        Err(e) => Err(e),
    }
}

/// What reading a `u32` makes of `s`.
pub open spec fn dec_u32(c: Configuration, s: Seq<u8>) -> Result<(u32, nat), DecodeError> {
    match dec_uint(c, s, 4) {
        Ok((v, n)) => Ok((v as u32, n)),
        Err(e) => Err(e),
    }
}

/// What reading a `u64` makes of `s`.
pub open spec fn dec_u64(c: Configuration, s: Seq<u8>) -> Result<(u64, nat), DecodeError> {
    match dec_uint(c, s, 8) {
        Ok((v, n)) => Ok((v as u64, n)),
        Err(e) => Err(e),
    }
}

/// What reading a `u128` makes of `s`.
pub open spec fn dec_u128(c: Configuration, s: Seq<u8>) -> Result<(u128, nat), DecodeError> {
    match dec_uint(c, s, 16) {
        Ok((v, n)) => Ok((v as u128, n)),
        Err(e) => Err(e),
    }
}

/// What reading an `i16` makes of `s`.
pub open spec fn dec_i16(c: Configuration, s: Seq<u8>) -> Result<(i16, nat), DecodeError> {
    match dec_int(c, s, 2) {
        Ok((v, n)) => Ok((v as i16, n)),
        Err(e) => Err(e),
    }
}

/// What reading an `i32` makes of `s`.
pub open spec fn dec_i32(c: Configuration, s: Seq<u8>) -> Result<(i32, nat), DecodeError> {
    match dec_int(c, s, 4) {
        Ok((v, n)) => Ok((v as i32, n)),
        Err(e) => Err(e),
    }
}

/// What reading an `i64` makes of `s`.
pub open spec fn dec_i64(c: Configuration, s: Seq<u8>) -> Result<(i64, nat), DecodeError> {
    match dec_int(c, s, 8) {
        Ok((v, n)) => Ok((v as i64, n)),
        Err(e) => Err(e),
    }
}

/// What reading an `i128` makes of `s`.
pub open spec fn dec_i128(c: Configuration, s: Seq<u8>) -> Result<(i128, nat), DecodeError> {
    match dec_int(c, s, 16) {
        Ok((v, n)) => Ok((v as i128, n)),
        Err(e) => Err(e),
    }
}

/// What reading a `u8` makes of `s`.
pub open spec fn dec_u8(c: Configuration, s: Seq<u8>) -> Result<(u8, nat), DecodeError> {
    if is_bincode(c) {
        match take_exact(s, 1) {
            Ok(b) => Ok((b[0], 1)),
            Err(e) => Err(e),
        }
    } else {
        match cbor_decode_uint(s, 0xFF) {
            Ok((v, n)) => Ok((v as u8, n)),
            Err(e) => Err(e),
        }
    }
}

/// What reading an `i8` makes of `s`.
pub open spec fn dec_i8(c: Configuration, s: Seq<u8>) -> Result<(i8, nat), DecodeError> {
    if is_bincode(c) {
        match take_exact(s, 1) {
            Ok(b) => Ok((b[0] as i8, 1)),
            Err(e) => Err(e),
        }
    } else {
        match cbor_decode_small_int(s, -0x80, 0x7F) {
            Ok((v, n)) => Ok((v as i8, n)),
            Err(e) => Err(e),
        }
    }
}

/// What reading a `bool` makes of `s`: in bincode a `0` or `1` byte, anything else is refused.
pub open spec fn dec_bool(c: Configuration, s: Seq<u8>) -> Result<(bool, nat), DecodeError> {
    if is_bincode(c) {
        match take_exact(s, 1) {
            Ok(b) => if b[0] == 0 {
                Ok((false, 1))
            } else if b[0] == 1 {
                Ok((true, 1))
            } else {
                Err(DecodeError::InvalidBooleanValue(b[0]))
            },
            Err(e) => Err(e),
        }
    } else {
        cbor_decode_bool(s)
    }
}

/// The running count of claimed bytes after claiming `n` more: refused with `LimitExceeded` when
/// a limit is set and the count would pass it; without a limit nothing is counted.
pub open spec fn claim(c: Configuration, claimed: nat, n: nat) -> Result<nat, DecodeError> {
    match c.limit {
        Some(limit) => if claimed + n > limit {
            Err(DecodeError::LimitExceeded)
        } else {
            Ok(claimed + n)
        },
        None => Ok(claimed),
    }
}

/// Claims add up: claiming `a` bytes and then `b` more is claiming `a + b` at once, and once a
/// claim is refused for passing the limit, any larger one is refused too; under a limit a claim
/// fails exactly when the running total would pass it.
pub proof fn lemma_claims_accumulate(c: Configuration, k: nat, a: nat, b: nat)
    ensures
        claim(c, k, a) matches Ok(k1) ==> claim(c, k1, b) == claim(c, k, a + b),
        claim(c, k, a) is Err ==> claim(c, k, a + b) == Err::<nat, DecodeError>(DecodeError::LimitExceeded),
        c.limit matches Some(limit) ==> (claim(c, k, a) is Err <==> k + a > limit),
        c.limit matches Some(limit) && k + a <= limit ==> claim(c, k, a) == Ok::<nat, DecodeError>(k + a),
{
}

/// The claim count after the claims `ns`, made one after the other from the count `k`: a granted
/// claim moves the count, a refused one leaves it.
pub open spec fn claims_after(c: Configuration, k: nat, ns: Seq<nat>) -> nat
    decreases ns.len(),
{
    if ns.len() == 0 {
        k
    } else {
        let k1 = claims_after(c, k, ns.drop_last());
        match claim(c, k1, ns.last()) {
            Ok(k2) => k2,
            Err(_) => k1,
        }
    }
}

/// The sum of the claims among `ns`, made one after the other from the count `k`, that were
/// granted.
pub open spec fn granted_sum(c: Configuration, k: nat, ns: Seq<nat>) -> nat
    decreases ns.len(),
{
    if ns.len() == 0 {
        0
    } else {
        let k1 = claims_after(c, k, ns.drop_last());
        granted_sum(c, k, ns.drop_last()) + if claim(c, k1, ns.last()) is Ok {
            ns.last()
        } else {
            0
        }
    }
}

/// A run of claims under a limit: the count is the start plus the claims granted, it never passes
/// the limit when it started within it, and each claim is granted exactly when the count so far
/// plus that claim stays within the limit (a refusal is `LimitExceeded`). Without a limit every
/// claim is granted and the count never moves.
pub proof fn lemma_claim_run(c: Configuration, k: nat, ns: Seq<nat>)
    ensures
        c.limit is Some ==> claims_after(c, k, ns) == k + granted_sum(c, k, ns),
        c.limit is Some && k <= c.limit->0 ==> claims_after(c, k, ns) <= c.limit->0,
        forall|j: int|
            0 <= j < ns.len() ==> #[trigger] claim(c, claims_after(c, k, ns.take(j)), ns[j]) == match c.limit {
                Some(limit) => if claims_after(c, k, ns.take(j)) + ns[j] > limit {
                    Err::<nat, DecodeError>(DecodeError::LimitExceeded)
                } else {
                    Ok(claims_after(c, k, ns.take(j)) + ns[j])
                },
                None => Ok(k),
            },
        c.limit is None ==> claims_after(c, k, ns) == k,
    decreases ns.len(),
{
    if ns.len() > 0 {
        lemma_claim_run(c, k, ns.drop_last());
        assert forall|j: int| 0 <= j < ns.len() implies #[trigger] claim(c, claims_after(c, k, ns.take(j)), ns[j])
            == match c.limit {
            Some(limit) => if claims_after(c, k, ns.take(j)) + ns[j] > limit {
                Err::<nat, DecodeError>(DecodeError::LimitExceeded)
            } else {
                Ok(claims_after(c, k, ns.take(j)) + ns[j])
            },
            None => Ok(k),
        } by {
            if c.limit is None {
                lemma_claim_run(c, k, ns.take(j));
            }
        }
    }
}

/// A decoding step that claims nothing: the outcome `o` of a read, with the claim count `k`.
pub open spec fn unclaimed<T>(o: Result<(T, nat), DecodeError>, k: nat) -> Result<(T, nat, nat), DecodeError> {
    match o {
        Ok((v, n)) => Ok((v, n, k)),
        Err(e) => Err(e),
    }
}

/// A decoding step that first claims `n` bytes, then reads with outcome `o`.
pub open spec fn claimed_then<T>(
    c: Configuration,
    k: nat,
    n: nat,
    o: Result<(T, nat), DecodeError>,
) -> Result<(T, nat, nat), DecodeError> {
    match claim(c, k, n) {
        Ok(k2) => unclaimed(o, k2),
        Err(e) => Err(e),
    }
}

/// The claim count after claiming a container of `len` items of `size` bytes each: with a limit,
/// a byte count that does not fit a `usize` is refused with `LimitExceeded`.
pub open spec fn claim_container(c: Configuration, k: nat, len: nat, size: nat) -> Result<nat, DecodeError> {
    if c.limit is Some && len * size > usize::MAX {
        Err(DecodeError::LimitExceeded)
    } else {
        claim(c, k, len * size)
    }
}

/// A `u64` read as a length, which has to fit a `usize`.
pub open spec fn as_usize(o: Result<(nat, nat), DecodeError>) -> Result<(usize, nat), DecodeError> {
    match o {
        Ok((v, n)) => if v <= usize::MAX {
            Ok((v as usize, n))
        } else {
            Err(DecodeError::OutsideUsizeRange(v as u64))
        },
        Err(e) => Err(e),
    }
}

/// What reading a `usize` does: claim 8 bytes, then read a `u64` that has to fit a `usize`.
pub open spec fn dec_usize(c: Configuration, k: nat, s: Seq<u8>) -> Result<(usize, nat, nat), DecodeError> {
    claimed_then(c, k, 8, as_usize(dec_uint(c, s, 8)))
}

/// What reading an `isize` does: claim 8 bytes, then read an `i64` that has to fit an `isize`.
pub open spec fn dec_isize(c: Configuration, k: nat, s: Seq<u8>) -> Result<(isize, nat, nat), DecodeError> {
    claimed_then(
        c,
        k,
        8,
        match dec_int(c, s, 8) {
            Ok((v, n)) => if isize::MIN <= v <= isize::MAX {
                Ok((v as isize, n))
            } else {
                Err(DecodeError::OutsideIsizeRange(v as i64))
            },
            Err(e) => Err(e),
        },
    )
}

/// A length in the CBOR format of major type `major`, which has to fit a `usize`.
pub open spec fn cbor_len(s: Seq<u8>, major: u8) -> Result<(usize, nat), DecodeError> {
    match cbor_decode_len(s, major) {
        Ok((v, n)) => Ok((v as usize, n)),
        Err(e) => Err(e),
    }
}

/// What reading the length of a sequence does: in bincode claim 8 bytes and read a `u64` that
/// has to fit a `usize`; in CBOR claim 9 bytes and read an array head.
pub open spec fn dec_slice_len(c: Configuration, k: nat, s: Seq<u8>) -> Result<(usize, nat, nat), DecodeError> {
    if is_bincode(c) {
        dec_usize(c, k, s)
    } else {
        claimed_then(c, k, 9, cbor_len(s, 4))
    }
}

/// What reading a length of CBOR major type `major` (a map, byte string or text string) does;
/// in bincode it is read as the length of a sequence.
pub open spec fn dec_len_of(c: Configuration, k: nat, s: Seq<u8>, major: u8) -> Result<(usize, nat, nat), DecodeError> {
    if is_bincode(c) {
        dec_slice_len(c, k, s)
    } else {
        claimed_then(c, k, 9, cbor_len(s, major))
    }
}

/// What reading an enum variant index does: in bincode claim 1 byte and read a `u32`; in CBOR
/// claim 5 bytes and read a `u32`.
pub open spec fn dec_variant_index(c: Configuration, k: nat, s: Seq<u8>) -> Result<(u32, nat, nat), DecodeError> {
    if is_bincode(c) {
        claimed_then(
            c,
            k,
            1,
            dec_u32(c, s),
        )
    } else {
        claimed_then(
            c,
            k,
            5,
            match cbor_decode_uint(s, 0xFFFF_FFFF) {
                Ok((v, n)) => Ok((v as u32, n)),
                Err(e) => Err(e),
            },
        )
    }
}

/// What reading the length of a byte string or an array does: in bincode a sequence length
/// (with major type 0); in CBOR claim 9 bytes and read a head of major type 2 or 4.
pub open spec fn dec_bytes_or_array_len(c: Configuration, k: nat, s: Seq<u8>) -> Result<((u8, usize), nat, nat), DecodeError> {
    if is_bincode(c) {
        match dec_slice_len(c, k, s) {
            Ok((len, n, k2)) => Ok(((0u8, len), n, k2)),
            Err(e) => Err(e),
        }
    } else {
        claimed_then(
            c,
            k,
            9,
            match cbor_decode_bytes_or_array_len(s) {
                Ok((m, v, n)) => Ok(((m, v as usize), n)),
                Err(e) => Err(e),
            },
        )
    }
}

/// What reading a struct header of `len` fields does: nothing in bincode; in CBOR an array head
/// whose length is `len` or indefinite.
pub open spec fn dec_struct_header(c: Configuration, s: Seq<u8>, len: usize) -> Result<((), nat), DecodeError> {
    if is_bincode(c) {
        Ok(((), 0))
    } else {
        match cbor_len(s, 4) {
            Ok((actual, n)) => if actual != len && actual != usize::MAX {
                Err(DecodeError::StructLengthMismatch)
            } else {
                Ok(((), n))
            },
            Err(e) => Err(e),
        }
    }
}

/// How a decoding step with outcome `o` (value, bytes taken, claim count after) that returned `r`
/// moved the pending bytes and the claim count; the bytes taken were there.
pub open spec fn decoded<T>(
    pending_before: Seq<u8>,
    pending_after: Seq<u8>,
    claimed_after: nat,
    o: Result<(T, nat, nat), DecodeError>,
    r: Result<T, DecodeError>,
) -> bool {
    match o {
        Ok((v, n, k)) => r == Ok::<T, DecodeError>(v) && n <= pending_before.len() && pending_after
            == pending_before.skip(n as int) && claimed_after == k,
        Err(e) => r == Err::<T, DecodeError>(e),
    }
}

/// A decoded unsigned integer of `width` bytes fits in `width` bytes.
pub proof fn lemma_dec_uint_bound(c: Configuration, s: Seq<u8>, width: nat)
    requires
        width == 2 || width == 4 || width == 8 || width == 16,
    ensures
        dec_uint(c, s, width) matches Ok((v, n)) ==> v < pow256(width),
{
    lemma_pow256_values();
    if is_bincode(c) {
        match c.int_encoding {
            IntEncoding::Variable => {
                lemma_varint_decode_bound(c.endian, uint_type(width), s);
            },
            IntEncoding::Fixed => {
                if s.len() >= width {
                    lemma_endian_value_bound(c.endian, s.take(width as int));
                }
            },
        }
    } else if width == 16 {
        if let Ok((major, val, indefinite, n)) = cbor_decode_header(s) {
            lemma_bignum_bound(s.skip(n as int));
        }
    }
}

/// A decoded signed integer of `width` bytes fits in `width` bytes.
pub proof fn lemma_dec_int_bound(c: Configuration, s: Seq<u8>, width: nat)
    requires
        width == 2 || width == 4 || width == 8 || width == 16,
    ensures
        dec_int(c, s, width) matches Ok((v, n)) ==> -(pow256(width) / 2) <= v < pow256(width) / 2,
{
    lemma_pow256_values();
    if is_bincode(c) {
        match c.int_encoding {
            IntEncoding::Variable => {
                lemma_varint_decode_bound(c.endian, uint_type(width), s);
            },
            IntEncoding::Fixed => {
                if s.len() >= width {
                    lemma_endian_value_bound(c.endian, s.take(width as int));
                }
            },
        }
    }
}

/// Any source that can decode basic types. This type is most notably implemented for [DecoderImpl].
///
/// A decoder is seen as the bytes it will still read (`pending`), the number of bytes claimed
/// so far against the configured limit (`claimed`) and its configuration (`settings`).
pub trait Decoder: Sized {
    /// The concrete [Reader] type
    type R: Reader;

    /// The concrete [Config] type
    type C: Config;

    /// The decoding context type
    type Context;

    /// The bytes this decoder will still read, in order.
    spec fn pending(&self) -> Seq<u8>;

    /// The number of bytes claimed so far.
    spec fn claimed(&self) -> nat;

    /// The configuration this decoder reads with.
    spec fn settings(&self) -> Configuration;

    /// Returns the decoding context; using it leaves what the decoder reads as it was.
    fn context(&mut self) -> (ctx: &mut Self::Context)
        ensures
            final(self).pending() == old(self).pending(),
            final(self).claimed() == old(self).claimed(),
            final(self).settings() == old(self).settings(),
    ;

    /// Wraps decoder with a context: the wrapper reads what this decoder reads, and this decoder
    /// ends as the wrapper leaves it.
    fn with_context<Ctx>(&mut self, context: Ctx) -> (w: WithContext<'_, Self, Ctx>)
        ensures
            *w.decoder == *old(self),
            *final(self) == *final(w.decoder),
    {
        WithContext { decoder: self, context }
    }

    /// Returns a reference to the config
    fn config(&self) -> (c: &Self::C)
        ensures
            c.settings() == self.settings(),
    ;

    /// Read exactly `bytes.len()` raw bytes.
    fn read(&mut self, bytes: &mut [u8]) -> (r: Result<(), DecodeError>)
        ensures
            final(self).settings() == old(self).settings(),
            final(self).claimed() == old(self).claimed(),
            final(bytes)@.len() == old(bytes)@.len(),
            r is Ok <==> old(bytes)@.len() <= old(self).pending().len(),
            r is Ok ==> final(bytes)@ == old(self).pending().take(old(bytes)@.len() as int),
            r is Ok ==> final(self).pending() == old(self).pending().skip(old(bytes)@.len() as int),
            r is Err ==> r == Err::<(), DecodeError>(
                short_read(old(bytes)@.len() as nat, old(self).pending().len()),
            ),
    ;

    /// The next byte, without reading it; `None` when nothing is pending.
    fn peek_u8(&mut self) -> (r: Option<u8>)
        ensures
            final(self).settings() == old(self).settings(),
            final(self).claimed() == old(self).claimed(),
            final(self).pending() == old(self).pending(),
            r == (if old(self).pending().len() > 0 {
                Some(old(self).pending()[0])
            } else {
                None::<u8>
            }),
    ;

    /// Claim that `n` bytes are going to be read from the decoder.
    /// This can be used to validate `Configuration::Limit<N>()`.
    ///
    /// Returns `DecodeError::LimitExceeded` if the limit is exceeded.
    fn claim_bytes_read(&mut self, n: usize) -> (r: Result<(), DecodeError>)
        ensures
            final(self).settings() == old(self).settings(),
            final(self).pending() == old(self).pending(),
            match claim(old(self).settings(), old(self).claimed(), n as nat) {
                Ok(k) => r is Ok && final(self).claimed() == k,
                Err(e) => r == Err::<(), DecodeError>(e) && final(self).claimed() == old(self).claimed(),
            },
    ;

    /// Claim that we're going to read a container which contains `len` entries of `T`.
    /// This will correctly handle overflowing if `len * size_of::<T>() > usize::max_value`
    ///
    /// Returns `DecodeError::LimitExceeded` if the limit is exceeded or if `len * size_of::<T>()` overflows.
    fn claim_container_read<T>(&mut self, len: usize) -> (r: Result<(), DecodeError>)
        ensures
            final(self).settings() == old(self).settings(),
            final(self).pending() == old(self).pending(),
            match claim_container(old(self).settings(), old(self).claimed(), len as nat, size_of::<T>()) {
                Ok(k) => r is Ok && final(self).claimed() == k,
                Err(e) => r == Err::<(), DecodeError>(e) && final(self).claimed() == old(self).claimed(),
            },
    {
        match self.config().limit() {
            Some(_) => match len.checked_mul(core::mem::size_of::<T>()) {
                Some(n) => self.claim_bytes_read(n),
                None => Err(DecodeError::LimitExceeded),
            },
            None => {
                proof {
                    assert(claim(self.settings(), self.claimed(), (len * size_of::<T>()) as nat) == Ok::<nat, DecodeError>(self.claimed()));
                }
                Ok(())
            },
        }
    }

    /// Notify the decoder that `n` bytes are being reclaimed.
    ///
    /// Without a limit nothing is counted; with one, at most what was claimed can be given back.
    fn unclaim_bytes_read(&mut self, n: usize)
        requires
            old(self).settings().limit is Some ==> n <= old(self).claimed(),
        ensures
            final(self).settings() == old(self).settings(),
            final(self).pending() == old(self).pending(),
            final(self).claimed() == if old(self).settings().limit is Some {
                (old(self).claimed() - n) as nat
            } else {
                old(self).claimed()
            },
    ;

    /// Decode a `u8` value.
    fn decode_u8(&mut self) -> (r: Result<u8, DecodeError>)
        ensures
            final(self).settings() == old(self).settings(),
            decoded(
                old(self).pending(),
                final(self).pending(),
                final(self).claimed(),
                unclaimed(dec_u8(old(self).settings(), old(self).pending()), old(self).claimed()),
                r,
            ),
    ;

    /// Decode a `u16` value.
    fn decode_u16(&mut self) -> (r: Result<u16, DecodeError>)
        ensures
            final(self).settings() == old(self).settings(),
            decoded(
                old(self).pending(),
                final(self).pending(),
                final(self).claimed(),
                unclaimed(dec_u16(old(self).settings(), old(self).pending()), old(self).claimed()),
                r,
            ),
    ;

    /// Decode a `u32` value.
    fn decode_u32(&mut self) -> (r: Result<u32, DecodeError>)
        ensures
            final(self).settings() == old(self).settings(),
            decoded(
                old(self).pending(),
                final(self).pending(),
                final(self).claimed(),
                unclaimed(dec_u32(old(self).settings(), old(self).pending()), old(self).claimed()),
                r,
            ),
    ;

    /// Decode a `u64` value.
    fn decode_u64(&mut self) -> (r: Result<u64, DecodeError>)
        ensures
            final(self).settings() == old(self).settings(),
            decoded(
                old(self).pending(),
                final(self).pending(),
                final(self).claimed(),
                unclaimed(dec_u64(old(self).settings(), old(self).pending()), old(self).claimed()),
                r,
            ),
    ;

    /// Decode a `u128` value.
    fn decode_u128(&mut self) -> (r: Result<u128, DecodeError>)
        ensures
            final(self).settings() == old(self).settings(),
            decoded(
                old(self).pending(),
                final(self).pending(),
                final(self).claimed(),
                unclaimed(dec_u128(old(self).settings(), old(self).pending()), old(self).claimed()),
                r,
            ),
    ;

    /// Decode a `usize` value: 8 bytes are claimed, then a `u64` is read that has to fit a `usize`.
    fn decode_usize(&mut self) -> (r: Result<usize, DecodeError>)
        ensures
            final(self).settings() == old(self).settings(),
            decoded(
                old(self).pending(),
                final(self).pending(),
                final(self).claimed(),
                dec_usize(old(self).settings(), old(self).claimed(), old(self).pending()),
                r,
            ),
    ;

    /// Decode an `i8` value.
    fn decode_i8(&mut self) -> (r: Result<i8, DecodeError>)
        ensures
            final(self).settings() == old(self).settings(),
            decoded(
                old(self).pending(),
                final(self).pending(),
                final(self).claimed(),
                unclaimed(dec_i8(old(self).settings(), old(self).pending()), old(self).claimed()),
                r,
            ),
    ;

    /// Decode an `i16` value.
    fn decode_i16(&mut self) -> (r: Result<i16, DecodeError>)
        ensures
            final(self).settings() == old(self).settings(),
            decoded(
                old(self).pending(),
                final(self).pending(),
                final(self).claimed(),
                unclaimed(dec_i16(old(self).settings(), old(self).pending()), old(self).claimed()),
                r,
            ),
    ;

    /// Decode an `i32` value.
    fn decode_i32(&mut self) -> (r: Result<i32, DecodeError>)
        ensures
            final(self).settings() == old(self).settings(),
            decoded(
                old(self).pending(),
                final(self).pending(),
                final(self).claimed(),
                unclaimed(dec_i32(old(self).settings(), old(self).pending()), old(self).claimed()),
                r,
            ),
    ;

    /// Decode an `i64` value.
    fn decode_i64(&mut self) -> (r: Result<i64, DecodeError>)
        ensures
            final(self).settings() == old(self).settings(),
            decoded(
                old(self).pending(),
                final(self).pending(),
                final(self).claimed(),
                unclaimed(dec_i64(old(self).settings(), old(self).pending()), old(self).claimed()),
                r,
            ),
    ;

    /// Decode an `i128` value.
    fn decode_i128(&mut self) -> (r: Result<i128, DecodeError>)
        ensures
            final(self).settings() == old(self).settings(),
            decoded(
                old(self).pending(),
                final(self).pending(),
                final(self).claimed(),
                unclaimed(dec_i128(old(self).settings(), old(self).pending()), old(self).claimed()),
                r,
            ),
    ;

    /// Decode an `isize` value: 8 bytes are claimed, then an `i64` is read that has to fit an `isize`.
    fn decode_isize(&mut self) -> (r: Result<isize, DecodeError>)
        ensures
            final(self).settings() == old(self).settings(),
            decoded(
                old(self).pending(),
                final(self).pending(),
                final(self).claimed(),
                dec_isize(old(self).settings(), old(self).claimed(), old(self).pending()),
                r,
            ),
    ;

    /// Decode an `f32`, as the bits of the float that was read.
    fn decode_f32(&mut self) -> (r: Result<FloatBits, DecodeError>)
        ensures
            final(self).settings() == old(self).settings(),
            decoded(
                old(self).pending(),
                final(self).pending(),
                final(self).claimed(),
                unclaimed(dec_f32(old(self).settings(), old(self).pending()), old(self).claimed()),
                r,
            ),
    ;

    /// Decode an `f64`, as the bits of the float that was read.
    fn decode_f64(&mut self) -> (r: Result<FloatBits, DecodeError>)
        ensures
            final(self).settings() == old(self).settings(),
            decoded(
                old(self).pending(),
                final(self).pending(),
                final(self).claimed(),
                unclaimed(dec_f64(old(self).settings(), old(self).pending()), old(self).claimed()),
                r,
            ),
    ;

    /// Decode a `bool` value.
    fn decode_bool(&mut self) -> (r: Result<bool, DecodeError>)
        ensures
            final(self).settings() == old(self).settings(),
            decoded(
                old(self).pending(),
                final(self).pending(),
                final(self).claimed(),
                unclaimed(dec_bool(old(self).settings(), old(self).pending()), old(self).claimed()),
                r,
            ),
    ;

    /// Decode the length of a slice.
    fn decode_slice_len(&mut self) -> (r: Result<usize, DecodeError>)
        ensures
            final(self).settings() == old(self).settings(),
            decoded(
                old(self).pending(),
                final(self).pending(),
                final(self).claimed(),
                dec_slice_len(old(self).settings(), old(self).claimed(), old(self).pending()),
                r,
            ),
    ;

    /// Decode the length of an array.
    fn decode_array_len(&mut self) -> (r: Result<usize, DecodeError>)
        ensures
            final(self).settings() == old(self).settings(),
            decoded(
                old(self).pending(),
                final(self).pending(),
                final(self).claimed(),
                dec_slice_len(old(self).settings(), old(self).claimed(), old(self).pending()),
                r,
            ),
    ;

    /// Decode the length of a map.
    fn decode_map_len(&mut self) -> (r: Result<usize, DecodeError>)
        ensures
            final(self).settings() == old(self).settings(),
            decoded(
                old(self).pending(),
                final(self).pending(),
                final(self).claimed(),
                dec_len_of(old(self).settings(), old(self).claimed(), old(self).pending(), 5),
                r,
            ),
    ;

    /// Decode an enum variant index.
    fn decode_variant_index(&mut self) -> (r: Result<u32, DecodeError>)
        ensures
            final(self).settings() == old(self).settings(),
            decoded(
                old(self).pending(),
                final(self).pending(),
                final(self).claimed(),
                dec_variant_index(old(self).settings(), old(self).claimed(), old(self).pending()),
                r,
            ),
    ;

    /// Decode the length of a byte slice (Major Type 2 in CBOR).
    fn decode_byte_slice_len(&mut self) -> (r: Result<usize, DecodeError>)
        ensures
            final(self).settings() == old(self).settings(),
            decoded(
                old(self).pending(),
                final(self).pending(),
                final(self).claimed(),
                dec_len_of(old(self).settings(), old(self).claimed(), old(self).pending(), 2),
                r,
            ),
    ;

    /// Decode the length of a byte slice or an array (Major Type 2 or 4 in CBOR).
    fn decode_byte_slice_or_array_len(&mut self) -> (r: Result<(u8, usize), DecodeError>)
        ensures
            final(self).settings() == old(self).settings(),
            decoded(
                old(self).pending(),
                final(self).pending(),
                final(self).claimed(),
                dec_bytes_or_array_len(old(self).settings(), old(self).claimed(), old(self).pending()),
                r,
            ),
    ;

    /// Decode the length of a string (Major Type 3 in CBOR).
    fn decode_str_len(&mut self) -> (r: Result<usize, DecodeError>)
        ensures
            final(self).settings() == old(self).settings(),
            decoded(
                old(self).pending(),
                final(self).pending(),
                final(self).claimed(),
                dec_len_of(old(self).settings(), old(self).claimed(), old(self).pending(), 3),
                r,
            ),
    ;

    /// Decode the header for a struct of `len` fields.
    fn decode_struct_header(&mut self, len: usize) -> (r: Result<(), DecodeError>)
        ensures
            final(self).settings() == old(self).settings(),
            decoded(
                old(self).pending(),
                final(self).pending(),
                final(self).claimed(),
                unclaimed(dec_struct_header(old(self).settings(), old(self).pending(), len), old(self).claimed()),
                r,
            ),
    ;
}

/// Any source that can decode basic types. This type is most notably implemented for [DecoderImpl].
///
/// This is an extension of [Decoder] that can also return borrowed data.
pub trait BorrowDecoder<'de>: Decoder {
    /// The concrete [`BorrowReader`] type
    type BR: BorrowReader<'de>;

    /// Read exactly `length` bytes and return them as a slice of the input.
    fn take_bytes(&mut self, length: usize) -> (r: Result<&'de [u8], DecodeError>)
        ensures
            final(self).settings() == old(self).settings(),
            final(self).claimed() == old(self).claimed(),
            r is Ok <==> length <= old(self).pending().len(),
            r matches Ok(s) ==> s@ == old(self).pending().take(length as int),
            r is Ok ==> final(self).pending() == old(self).pending().skip(length as int),
            r is Err ==> r == Err::<&'de [u8], DecodeError>(
                short_read(length as nat, old(self).pending().len()),
            ),
    ;
}

/// The mathematical value that a decoded value stands for in contracts: the value itself for
/// numbers, the characters of a string, the items of a sequence.
pub trait Model {
    /// The type of the mathematical value.
    type V;

    /// The mathematical value of `self`.
    spec fn model(&self) -> Self::V;

    /// Whether values of this type are single bytes (`u8` and `i8`), which sequences carry as
    /// byte strings.
    spec fn byte_sized() -> bool;

    /// Whether values of this type are single bytes.
    fn is_byte_sized() -> (r: bool)
        ensures
            r == Self::byte_sized(),
    ;

    /// The value of a single-byte type that the byte `b` stands for.
    spec fn byte_value(b: u8) -> Self::V;

    /// The byte that a value of a single-byte type is stored as (`0` for other types).
    spec fn byte_of(&self) -> u8;

    /// The byte that a value of a single-byte type is stored as.
    fn to_byte(&self) -> (b: u8)
        ensures
            b == self.byte_of(),
    ;
}

/// How a decoding step with outcome `o` (the model of the value, bytes taken, claim count after)
/// that returned `r` moved the pending bytes and the claim count.
pub open spec fn decoded_as<T: Model>(
    pending_before: Seq<u8>,
    pending_after: Seq<u8>,
    claimed_after: nat,
    o: Result<(T::V, nat, nat), DecodeError>,
    r: Result<T, DecodeError>,
) -> bool {
    match o {
        Ok((v, n, k)) => r matches Ok(x) && x.model() == v && n <= pending_before.len()
            && pending_after == pending_before.skip(n as int) && claimed_after == k,
        Err(e) => r == Err::<T, DecodeError>(e),
    }
}

/// Trait that makes a type able to be decoded, akin to serde's `DeserializeOwned` trait.
///
/// Some types may require specific contexts. For example, to decode arena-based collections, an arena allocator must be provided as a context. In these cases, the context type `Context` should be specified or bounded.
///
/// This trait should be implemented for types which do not have references to data in the reader. For types that contain e.g. `&str` and `&[u8]`, implement [`BorrowDecode`] instead.
///
/// `decoding` says what decoding makes of the bytes `s` under the configuration `c` when `k`
/// bytes are claimed already: the model of the value, the bytes taken and the claim count
/// after; or the error.
pub trait Decode<Context>: Sized + Model {
    /// What decoding a value of this type makes of `s` under `c` with `k` bytes claimed.
    spec fn decoding(c: Configuration, k: nat, s: Seq<u8>) -> Result<(Self::V, nat, nat), DecodeError>;

    /// Attempt to decode this type with the given [`Decode`].
    fn decode<D: Decoder<Context = Context>>(decoder: &mut D) -> (r: Result<Self, DecodeError>)
        ensures
            final(decoder).settings() == old(decoder).settings(),
            decoded_as(
                old(decoder).pending(),
                final(decoder).pending(),
                final(decoder).claimed(),
                Self::decoding(old(decoder).settings(), old(decoder).claimed(), old(decoder).pending()),
                r,
            ),
            r is Ok ==> old(decoder).claimed() <= final(decoder).claimed(),
    ;

    /// The value that the byte `b` stands for, for single-byte types: a byte string carries
    /// a sequence of such values byte by byte. Other types give `None`.
    fn from_byte(b: u8) -> (r: Option<Self>)
        ensures
            Self::byte_sized() ==> (r matches Some(x) && x.model() == Self::byte_value(b)),
    ;
}

/// Trait that makes a type able to be decoded, akin to serde's `Deserialize` trait.
///
/// This trait should be implemented for types that contain borrowed data, like `&str` and `&[u8]`. If your type does not have borrowed data, consider implementing [`Decode`] instead.
pub trait BorrowDecode<'de, Context>: Sized + Model {
    /// What decoding a value of this type makes of `s` under `c` with `k` bytes claimed.
    spec fn borrow_decoding(c: Configuration, k: nat, s: Seq<u8>) -> Result<(Self::V, nat, nat), DecodeError>;

    /// What borrow decoding promises of the form of a value beyond its model: for a `Cow`, that it
    /// borrows from the input. Most types promise nothing more.
    open spec fn borrowed_form(&self) -> bool {
        true
    }

    /// Attempt to decode this type with the given [`BorrowDecode`].
    fn borrow_decode<D: BorrowDecoder<'de, Context = Context>>(decoder: &mut D) -> (r: Result<Self, DecodeError>)
        ensures
            final(decoder).settings() == old(decoder).settings(),
            decoded_as(
                old(decoder).pending(),
                final(decoder).pending(),
                final(decoder).claimed(),
                Self::borrow_decoding(old(decoder).settings(), old(decoder).claimed(), old(decoder).pending()),
                r,
            ),
            r is Ok ==> old(decoder).claimed() <= final(decoder).claimed(),
            r matches Ok(x) ==> x.borrowed_form(),
    ;

    /// The value that the byte `b` stands for, for single-byte types: a byte string carries
    /// a sequence of such values byte by byte. Other types give `None`.
    fn borrow_from_byte(b: u8) -> (r: Option<Self>)
        ensures
            Self::byte_sized() ==> (r matches Some(x) && x.model() == Self::byte_value(b)),
    ;
}

} // verus!
