//! Bincode-next is a crate for encoding and decoding using a tiny binary
//! serialization strategy.
use crate::config::{fingerprint_taken, Config, InternalFingerprintGuard};
use crate::de::read::{Reader, SliceReader};
use crate::de::{BorrowDecode, Decode, DecoderImpl, Model};
use crate::enc::write::{lemma_appended_then, Writer};
use crate::enc::{Encode, Encoder, EncoderImpl};
use crate::error::{DecodeError, EncodeError};
use vstd::prelude::*;

pub mod bit_laws;
pub mod bits;
pub mod bytes;
pub mod config;
pub mod de;
pub mod derive_input;
pub mod enc;
pub mod error;
pub mod error_path;
pub mod features;
pub mod fingerprint;
pub mod float_bits;
pub mod round_trip;
pub mod tuple_laws;
pub mod utils;
pub mod varint;

pub use crate::features::impl_alloc::encode_to_vec;
pub use crate::features::static_size;
pub use crate::features::static_size::StaticSize;

verus! {

/// The major version of the format, which the configuration hash covers.
pub const BINCODE_MAJOR_VERSION: u64 = 3;

/// The bytes that encoding `val` under the configuration `config` writes: the fingerprint guard's
/// prefix, then the value's own bytes; or the refusal of the value.
pub open spec fn framed_encoding<E: Encode, C: Config>(val: E, config: C) -> Result<Seq<u8>, EncodeError>
    where C::Mode: InternalFingerprintGuard<E, C>,
{
    match val.encoding(config.settings()) {
        Ok(b) => Ok(<C::Mode as InternalFingerprintGuard<E, C>>::prefix(config.settings()) + b),
        Err(e) => Err(e),
    }
}

/// Encode `val` into a new `Vec` with the guard's prefix in front.
fn encode_framed<E: Encode, C: Config>(val: &E, config: &C) -> (r: Result<Vec<u8>, EncodeError>)
    where C::Mode: InternalFingerprintGuard<E, C>,
    ensures
        match framed_encoding(*val, *config) {
            Ok(b) => r matches Ok(v) && v@ == b,
            Err(e) => r is Err,
        },
{
    let mut out: Vec<u8> = Vec::new();
    let ghost w0 = out;
    match <C::Mode as InternalFingerprintGuard<E, C>>::encode_check(config, &mut out) {
        Ok(()) => {},
        Err(e) => return Err(e),
    }
    let ghost w1 = out;
    let mut encoder = EncoderImpl::<Vec<u8>, C>::new(out, config.duplicate());
    proof {
        encoder.lemma_inner();
    }
    let ghost e1 = encoder;
    let r = val.encode(&mut encoder);
    proof {
        encoder.lemma_inner();
    }
    match r {
        Ok(()) => {},
        Err(e) => return Err(e),
    }
    let out = encoder.into_writer();
    proof {
        assert(w0@ =~= Seq::<u8>::empty());
        if let Ok(b) = val.encoding(config.settings()) {
            assert(out@ =~= <C::Mode as InternalFingerprintGuard<E, C>>::prefix(config.settings()) + b);
        }
    }
    Ok(out)
}

/// Encode the given value into the given slice. Returns the amount of bytes that have been written.
///
/// See the [config] module for more information on configurations.
///
/// Returns an `EncodeError` if the slice is too small or the value cannot be encoded; the slice
/// is then left as it was.
///
/// [config]: config/index.html
pub fn encode_into_slice<E: Encode, C: Config>(val: E, dst: &mut [u8], config: C) -> (r: Result<usize, EncodeError>)
    where C::Mode: InternalFingerprintGuard<E, C>,
    ensures
        match framed_encoding(val, config) {
            Ok(b) => if b.len() <= old(dst)@.len() {
                r == Ok::<usize, EncodeError>(b.len() as usize) && final(dst)@ == b + old(dst)@.skip(
                    b.len() as int,
                )
            } else {
                r == Err::<usize, EncodeError>(EncodeError::UnexpectedEnd) && final(dst)@ == old(dst)@
            },
            Err(e) => r is Err && final(dst)@ == old(dst)@,
        },
{
    let bytes = match encode_framed(&val, &config) {
        Ok(b) => b,
        Err(e) => return Err(e),
    };
    if bytes.len() > dst.len() {
        return Err(EncodeError::UnexpectedEnd);
    }
    let n = bytes.len();
    let mut i: usize = 0;
    while i < n
        invariant
            n == bytes@.len(),
            n <= dst@.len(),
            i <= n,
            dst@.len() == old(dst)@.len(),
            forall|j: int| 0 <= j < i ==> dst@[j] == bytes@[j],
            forall|j: int| n <= j < dst@.len() ==> dst@[j] == old(dst)@[j],
        decreases n - i,
    {
        dst[i] = bytes[i];
        i = i + 1;
    }
    proof {
        assert(dst@ =~= bytes@ + old(dst)@.skip(n as int));
    }
    Ok(n)
}

/// Encode the given value into a custom [`Writer`].
///
/// See the [config] module for more information on configurations.
///
/// Returns an `EncodeError` if the writer fails or the value cannot be encoded.
///
/// [config]: config/index.html
pub fn encode_into_writer<E: Encode, W: Writer, C: Config>(val: E, writer: W, config: C) -> (r: Result<(), EncodeError>)
    where C::Mode: InternalFingerprintGuard<E, C>,
    ensures
        match framed_encoding(val, config) {
            Ok(b) => r is Ok <==> writer.room(b.len()),
            Err(e) => r is Err,
        },
{
    let mut writer = writer;
    let ghost w0 = writer;
    let r1 = <C::Mode as InternalFingerprintGuard<E, C>>::encode_check(&config, &mut writer);
    let ghost pre = <C::Mode as InternalFingerprintGuard<E, C>>::prefix(config.settings());
    if r1.is_err() {
        proof {
            if let Ok(b) = val.encoding(config.settings()) {
                lemma_appended_then(w0, writer, writer, pre, b, r1, r1);
            }
        }
        return r1;
    }
    let ghost w1 = writer;
    let mut encoder = EncoderImpl::<W, C>::new(writer, config.duplicate());
    let ghost e1 = encoder;
    proof {
        e1.lemma_inner();
    }
    let r2 = val.encode(&mut encoder);
    proof {
        encoder.lemma_inner();
        if let Ok(b) = val.encoding(config.settings()) {
            if r2 is Ok {
                assert forall|n: nat| #[trigger] encoder.inner().room(n) == w1.room(b.len() + n) by {
                    assert(encoder.room(n) == e1.room(b.len() + n));
                }
            }
            lemma_appended_then(w0, w1, encoder.inner(), pre, b, r1, r2);
        }
    }
    r2
}

/// What decoding a `D` from `s` under the configuration `config` gives: the fingerprint check,
/// then the value; the model of the value and the number of bytes read, or the error.
pub open spec fn framed_decoding<V>(
    expected: Option<u64>,
    s: Seq<u8>,
    value: spec_fn(Seq<u8>) -> Result<(V, nat, nat), DecodeError>,
) -> Result<(V, nat), DecodeError> {
    match fingerprint_taken(expected, s) {
        Ok(h) => match value(s.skip(h as int)) {
            Ok((v, n, k)) => Ok((v, h + n)),
            Err(e) => Err(e),
        },
        Err(e) => Err(e),
    }
}

/// How a decoding call that returned `r` (a value and a count) agrees with the outcome `o`.
pub open spec fn framed_result<T: Model>(o: Result<(T::V, nat), DecodeError>, r: Result<(T, usize), DecodeError>) -> bool {
    match o {
        Ok((v, n)) => r matches Ok((x, m)) && x.model() == v && m == n,
        Err(e) => r == Err::<(T, usize), DecodeError>(e),
    }
}

/// Attempt to decode a given type `D` from the given slice. Returns the decoded output and the amount of bytes read.
///
/// Note that this does not work with borrowed types like `&str` or `&[u8]`. For that use [`borrow_decode_from_slice`].
///
/// See the [config] module for more information on configurations.
///
/// Returns a `DecodeError` if the slice is too small or the data is invalid.
///
/// [config]: config/index.html
pub fn decode_from_slice<D: Decode<()>, C: Config>(src: &[u8], config: C) -> (r: Result<(D, usize), DecodeError>)
    where C::Mode: InternalFingerprintGuard<D, C>,
    ensures
        framed_result(
            framed_decoding(
                <C::Mode as InternalFingerprintGuard<D, C>>::expected(config.settings()),
                src@,
                |s: Seq<u8>| D::decoding(config.settings(), 0, s),
            ),
            r,
        ),
{
    decode_from_slice_with_context(src, config, ())
}

/// Attempt to decode a given type `D` from the given slice with `Context`. Returns the decoded output and the amount of bytes read.
///
/// Note that this does not work with borrowed types like `&str` or `&[u8]`. For that use [`borrow_decode_from_slice`].
///
/// See the [config] module for more information on configurations.
///
/// Returns a `DecodeError` if the slice is too small or the data is invalid.
///
/// [config]: config/index.html
pub fn decode_from_slice_with_context<Context, D: Decode<Context>, C: Config>(
    src: &[u8],
    config: C,
    context: Context,
) -> (r: Result<(D, usize), DecodeError>)
    where C::Mode: InternalFingerprintGuard<D, C>,
    ensures
        framed_result(
            framed_decoding(
                <C::Mode as InternalFingerprintGuard<D, C>>::expected(config.settings()),
                src@,
                |s: Seq<u8>| D::decoding(config.settings(), 0, s),
            ),
            r,
        ),
{
    let mut reader = SliceReader::new(src);
    match <C::Mode as InternalFingerprintGuard<D, C>>::decode_check(&config, &mut reader) {
        Ok(()) => {},
        Err(e) => return Err(e),
    }
    let mut decoder = DecoderImpl::<SliceReader, C, Context>::new(reader, config.duplicate(), context);
    let result = match D::decode(&mut decoder) {
        Ok(v) => v,
        Err(e) => return Err(e),
    };
    let bytes_read = src.len() - decoder.reader_ref().slice.len();
    Ok((result, bytes_read))
}

/// Attempt to decode a given type `D` from the given slice. Returns the decoded output and the amount of bytes read.
///
/// See the [config] module for more information on configurations.
///
/// Returns a `DecodeError` if the slice is too small or the data is invalid.
///
/// [config]: config/index.html
pub fn borrow_decode_from_slice<'a, D: BorrowDecode<'a, ()>, C: Config>(src: &'a [u8], config: C) -> (r: Result<(D, usize), DecodeError>)
    where C::Mode: InternalFingerprintGuard<D, C>,
    ensures
        framed_result(
            framed_decoding(
                <C::Mode as InternalFingerprintGuard<D, C>>::expected(config.settings()),
                src@,
                |s: Seq<u8>| D::borrow_decoding(config.settings(), 0, s),
            ),
            r,
        ),
        r matches Ok((x, n)) ==> x.borrowed_form(),
{
    borrow_decode_from_slice_with_context(src, config, ())
}

/// Attempt to decode a given type `D` from the given slice with `Context`. Returns the decoded output and the amount of bytes read.
///
/// See the [config] module for more information on configurations.
///
/// Returns a `DecodeError` if the slice is too small or the data is invalid.
///
/// [config]: config/index.html
pub fn borrow_decode_from_slice_with_context<'a, Context, D: BorrowDecode<'a, Context>, C: Config>(
    src: &'a [u8],
    config: C,
    context: Context,
) -> (r: Result<(D, usize), DecodeError>)
    where C::Mode: InternalFingerprintGuard<D, C>,
    ensures
        framed_result(
            framed_decoding(
                <C::Mode as InternalFingerprintGuard<D, C>>::expected(config.settings()),
                src@,
                |s: Seq<u8>| D::borrow_decoding(config.settings(), 0, s),
            ),
            r,
        ),
        r matches Ok((x, n)) ==> x.borrowed_form(),
{
    let mut reader = SliceReader::new(src);
    match <C::Mode as InternalFingerprintGuard<D, C>>::decode_check(&config, &mut reader) {
        Ok(()) => {},
        Err(e) => return Err(e),
    }
    let mut decoder = DecoderImpl::<SliceReader<'a>, C, Context>::new(reader, config.duplicate(), context);
    let result = match D::borrow_decode(&mut decoder) {
        Ok(v) => v,
        Err(e) => return Err(e),
    };
    let bytes_read = src.len() - decoder.reader_ref().slice.len();
    Ok((result, bytes_read))
}

/// Attempt to decode a given type `D` from the given [`Reader`].
///
/// See the [config] module for more information on configurations.
///
/// Returns a `DecodeError` if the reader fails or the data is invalid.
///
/// [config]: config/index.html
pub fn decode_from_reader<D: Decode<()>, R: Reader, C: Config>(reader: R, config: C) -> (r: Result<D, DecodeError>)
    where C::Mode: InternalFingerprintGuard<D, C>,
    ensures
        match framed_decoding(
            <C::Mode as InternalFingerprintGuard<D, C>>::expected(config.settings()),
            reader.pending(),
            |s: Seq<u8>| D::decoding(config.settings(), 0, s),
        ) {
            Ok((v, n)) => r matches Ok(x) && x.model() == v,
            Err(e) => r == Err::<D, DecodeError>(e),
        },
{
    let mut reader = reader;
    match <C::Mode as InternalFingerprintGuard<D, C>>::decode_check(&config, &mut reader) {
        Ok(()) => {},
        Err(e) => return Err(e),
    }
    let mut decoder = DecoderImpl::<R, C, ()>::new(reader, config.duplicate(), ());
    D::decode(&mut decoder)
}

/// How a decoding call that returned only a value `r` agrees with the outcome `o`.
pub open spec fn framed_value<T: Model>(o: Result<(T::V, nat), DecodeError>, r: Result<T, DecodeError>) -> bool {
    match o {
        Ok((v, n)) => r matches Ok(x) && x.model() == v,
        Err(e) => r == Err::<T, DecodeError>(e),
    }
}

/// The decoding functions agree: the ones that give back the value alone (from a reader, from a
/// fixed buffer) and the ones that also give back the count (from a slice) report, on the same
/// bytes, the same value or the same error.
pub proof fn lemma_decoders_agree<T: Model>(
    o: Result<(T::V, nat), DecodeError>,
    alone: Result<T, DecodeError>,
    counted: Result<(T, usize), DecodeError>,
)
    requires
        framed_value(o, alone),
        framed_result(o, counted),
    ensures
        alone is Ok <==> counted is Ok,
        alone matches Ok(x) ==> counted matches Ok((y, n)) && x.model() == y.model(),
        alone matches Err(e) ==> counted == Err::<(T, usize), DecodeError>(e),
{
}

/// Attempt to decode a given type `D` from the given slice with a compile-time bound check.
///
/// This function ensures that the target type `D` cannot exceed the provided buffer capacity `CAP` at compile-time.
///
/// Returns a `DecodeError` if the slice contains invalid data.
pub fn decode_from_slice_static<D: Decode<()> + StaticSize, const CAP: usize, C: Config>(src: &[u8; CAP], config: C) -> (r: Result<D, DecodeError>)
    where C::Mode: InternalFingerprintGuard<D, C>,
    requires
        D::MAX_SIZE <= CAP,
    ensures
        framed_value(
            framed_decoding(
                <C::Mode as InternalFingerprintGuard<D, C>>::expected(config.settings()),
                src@,
                |s: Seq<u8>| D::decoding(config.settings(), 0, s),
            ),
            r,
        ),
{
    match decode_from_slice(src, config) {
        Ok((val, _)) => Ok(val),
        Err(e) => Err(e),
    }
}

/// Attempt to decode a given type `D` from the given slice with a compile-time bound check and a
/// decoding context.
///
/// This function ensures that the target type `D` cannot exceed the provided buffer capacity `CAP`
/// at compile-time.
///
/// Returns a `DecodeError` if the slice contains invalid data.
pub fn decode_from_slice_static_with_context<Context, D: Decode<Context> + StaticSize, const CAP: usize, C: Config>(
    src: &[u8; CAP],
    config: C,
    context: Context,
) -> (r: Result<D, DecodeError>)
    where C::Mode: InternalFingerprintGuard<D, C>,
    requires
        D::MAX_SIZE <= CAP,
    ensures
        framed_value(
            framed_decoding(
                <C::Mode as InternalFingerprintGuard<D, C>>::expected(config.settings()),
                src@,
                |s: Seq<u8>| D::decoding(config.settings(), 0, s),
            ),
            r,
        ),
{
    match decode_from_slice_with_context(src, config, context) {
        Ok((val, _)) => Ok(val),
        Err(e) => Err(e),
    }
}

/// Attempt to decode a given type `D` from the given slice with a compile-time bound check.
///
/// This function ensures that the target type `D` cannot exceed the provided buffer capacity `CAP`
/// at compile-time.
///
/// Returns a `DecodeError` if the slice contains invalid data.
pub fn borrow_decode_from_slice_static<'a, D: BorrowDecode<'a, ()> + StaticSize, const CAP: usize, C: Config>(
    src: &'a [u8; CAP],
    config: C,
) -> (r: Result<D, DecodeError>)
    where C::Mode: InternalFingerprintGuard<D, C>,
    requires
        D::MAX_SIZE <= CAP,
    ensures
        framed_value(
            framed_decoding(
                <C::Mode as InternalFingerprintGuard<D, C>>::expected(config.settings()),
                src@,
                |s: Seq<u8>| D::borrow_decoding(config.settings(), 0, s),
            ),
            r,
        ),
{
    match borrow_decode_from_slice(src, config) {
        Ok((val, _)) => Ok(val),
        Err(e) => Err(e),
    }
}

/// Attempt to borrow-decode a given type `D` from the given slice with a compile-time bound check
/// and a decoding context.
///
/// This function ensures that the target type `D` cannot exceed the provided buffer capacity `CAP`
/// at compile-time.
///
/// Returns a `DecodeError` if the slice contains invalid data.
pub fn borrow_decode_from_slice_static_with_context<'a, Context, D: BorrowDecode<'a, Context> + StaticSize, const CAP: usize, C: Config>(
    src: &'a [u8; CAP],
    config: C,
    context: Context,
) -> (r: Result<D, DecodeError>)
    where C::Mode: InternalFingerprintGuard<D, C>,
    requires
        D::MAX_SIZE <= CAP,
    ensures
        framed_value(
            framed_decoding(
                <C::Mode as InternalFingerprintGuard<D, C>>::expected(config.settings()),
                src@,
                |s: Seq<u8>| D::borrow_decoding(config.settings(), 0, s),
            ),
            r,
        ),
{
    match borrow_decode_from_slice_with_context(src, config, context) {
        Ok((val, _)) => Ok(val),
        Err(e) => Err(e),
    }
}

} // verus!
