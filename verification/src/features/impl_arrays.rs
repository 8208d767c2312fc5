//! Encoding and decoding of slices and arrays.
use crate::config::{Config, Configuration, Format};
use crate::de::{
    claim, dec_len_of, dec_slice_len, decoded_as, take_exact, BorrowDecode, BorrowDecoder, Decode, Decoder, Model,
};
use crate::enc::{emitted, enc_byte_slice, enc_slice_len, is_bincode, lemma_emitted_then, Encode, Encoder};
use crate::error::{DecodeError, EncodeError};
use crate::features::impl_alloc::{
    borrow_decode_items, borrow_decoding_of, borrow_items_from_bytes, byte_value_of, decode_items, decoding_of,
    items_decoding, items_encoding, items_from_bytes, lemma_items_decoding_len, models, shifted, Decoding, encode_items,
};
use vstd::prelude::*;

verus! {

/// The bytes that single-byte items are stored as.
pub open spec fn bytes_of<T: Model>(items: Seq<T>) -> Seq<u8> {
    items.map_values(|x: T| x.byte_of())
}

/// The bytes that the single-byte `items` are stored as, in a `Vec`.
fn collect_bytes<T: Model>(items: &[T]) -> (v: Vec<u8>)
    ensures
        v@ == bytes_of(items@),
{
    let mut v: Vec<u8> = Vec::new();
    let mut i: usize = 0;
    while i < items.len()
        invariant
            i <= items@.len(),
            v@ == bytes_of(items@.take(i as int)),
        decreases items@.len() - i,
    {
        let b = items[i].to_byte();
        proof {
            assert(bytes_of(items@.take(i + 1)) =~= bytes_of(items@.take(i as int)).push(b));
        }
        v.push(b);
        i = i + 1;
    }
    proof {
        assert(items@.take(items@.len() as int) =~= items@);
    }
    v
}

/// Write the length of a sequence, then its items.
fn encode_len_and_items<E: Encoder, T: Encode>(encoder: &mut E, items: &[T]) -> (r: Result<(), EncodeError>)
    ensures
        final(encoder).settings() == old(encoder).settings(),
        match items_encoding(items@, old(encoder).settings()) {
            Ok(b) => emitted(*old(encoder), *final(encoder), enc_slice_len(old(encoder).settings(), items@.len()) + b, r),
            Err(e) => r is Err,
        },
{
    let ghost c = encoder.settings();
    let ghost e0 = *encoder;
    let r1 = encoder.encode_slice_len(items.len());
    if r1.is_err() {
        proof {
            if let Ok(b) = items_encoding(items@, c) {
                lemma_emitted_then(e0, *encoder, *encoder, enc_slice_len(c, items@.len()), b, r1, r1);
            }
        }
        return r1;
    }
    encode_items(encoder, items, Ghost(e0), Ghost(enc_slice_len(c, items@.len())))
}

impl<T: Encode + Model> Encode for [T] {
    open spec fn encoding(&self, c: Configuration) -> Result<Seq<u8>, EncodeError> {
        if T::byte_sized() {
            Ok(enc_byte_slice(c, bytes_of(self@)))
        } else {
            match items_encoding(self@, c) {
                Ok(b) => Ok(enc_slice_len(c, self@.len()) + b),
                Err(e) => Err(e),
            }
        }
    }

    fn encode<E: Encoder>(&self, encoder: &mut E) -> (r: Result<(), EncodeError>) {
        if T::is_byte_sized() {
            let bytes = collect_bytes(self);
            return encoder.encode_byte_slice(bytes.as_slice());
        }
        encode_len_and_items(encoder, self)
    }
}

impl<T: Encode + Model, const N: usize> Encode for [T; N] {
    open spec fn encoding(&self, c: Configuration) -> Result<Seq<u8>, EncodeError> {
        if T::byte_sized() && !is_bincode(c) {
            Ok(enc_byte_slice(c, bytes_of(self@)))
        } else if is_bincode(c) {
            items_encoding(self@, c)
        } else {
            match items_encoding(self@, c) {
                Ok(b) => Ok(enc_slice_len(c, N as nat) + b),
                Err(e) => Err(e),
            }
        }
    }

    fn encode<E: Encoder>(&self, encoder: &mut E) -> (r: Result<(), EncodeError>) {
        let is_bincode = match encoder.configuration().format {
            Format::Bincode | Format::BincodeDeterministic => true,
            _ => false,
        };
        if T::is_byte_sized() && !is_bincode {
            let bytes = collect_bytes(self.as_slice());
            return encoder.encode_byte_slice(bytes.as_slice());
        }
        if is_bincode {
            let ghost e0 = *encoder;
            proof {
                e0.lemma_room_empty();
                assert(e0.written() + Seq::<u8>::empty() =~= e0.written());
            }
            let r = encode_items(encoder, self.as_slice(), Ghost(e0), Ghost(Seq::<u8>::empty()));
            proof {
                if let Ok(b) = items_encoding(self@, e0.settings()) {
                    assert(Seq::<u8>::empty() + b =~= b);
                }
            }
            return r;
        }
        encode_len_and_items(encoder, self.as_slice())
    }
}

impl<T: Model, const N: usize> Model for [T; N] {
    type V = Seq<T::V>;

    open spec fn model(&self) -> Seq<T::V> {
        models(self@)
    }

    open spec fn byte_sized() -> bool {
        false
    }

    fn is_byte_sized() -> (r: bool) {
        false
    }

    open spec fn byte_value(b: u8) -> Seq<T::V> {
        Seq::empty()
    }

    open spec fn byte_of(&self) -> u8 {
        0
    }

    fn to_byte(&self) -> (b: u8) {
        0
    }
}

/// What decoding an array of `n` items makes of `s`. In CBOR a byte string of exactly `n` bytes
/// (for single-byte items, whose bytes are claimed) or an array of `n` items (or of indefinite
/// length, whose break is not read); in bincode the items alone, single-byte items as raw bytes
/// whose count is claimed. A length other than `n` is refused with `ArrayLengthMismatch`.
pub open spec fn array_decoding<V>(
    dec: Decoding<V>,
    byte_sized: bool,
    byte_value: spec_fn(u8) -> V,
    n: usize,
    c: Configuration,
    k: nat,
    s: Seq<u8>,
) -> Result<(Seq<V>, nat, nat), DecodeError> {
    if !is_bincode(c) && byte_sized {
        match dec_len_of(c, k, s, 2) {
            Ok((len, n1, k1)) => if len != n {
                Err(DecodeError::ArrayLengthMismatch { required: n, found: len })
            } else {
                match claim(c, k1, n as nat) {
                    Ok(k2) => match take_exact(s.skip(n1 as int), n as nat) {
                        Ok(b) => Ok((b.map_values(byte_value), n1 + n as nat, k2)),
                        Err(e) => Err(e),
                    },
                    Err(e) => Err(e),
                }
            },
            Err(e) => Err(e),
        }
    } else if !is_bincode(c) {
        match dec_slice_len(c, k, s) {
            Ok((len, n1, k1)) => if len != n && len != usize::MAX {
                Err(DecodeError::ArrayLengthMismatch { required: n, found: len })
            } else {
                shifted(n1, items_decoding(dec, c, k1, s.skip(n1 as int), n as nat))
            },
            Err(e) => Err(e),
        }
    } else if byte_sized {
        match claim(c, k, n as nat) {
            Ok(k1) => match take_exact(s, n as nat) {
                Ok(b) => Ok((b.map_values(byte_value), n as nat, k1)),
                Err(e) => Err(e),
            },
            Err(e) => Err(e),
        }
    } else {
        items_decoding(dec, c, k, s, n as nat)
    }
}

/// The array holding the items of `v`.
///
/// Trusted: std's `TryFrom<Vec<T>> for [T; N]` succeeds exactly when the vector has `N` items,
/// and then holds them in order; otherwise it hands the vector back.
#[verifier::external_body]
fn array_from_vec<T, const N: usize>(v: Vec<T>) -> (r: Result<[T; N], Vec<T>>)
    ensures
        r is Ok <==> v@.len() == N,
        r matches Ok(a) ==> a@ == v@,
{
    <[T; N]>::try_from(v)
}

/// Decode the items of an array of `N` items.
fn decode_array_items<Context, D: Decoder<Context = Context>, T: Decode<Context>, const N: usize>(decoder: &mut D) -> (r: Result<Vec<T>, DecodeError>)
    ensures
        final(decoder).settings() == old(decoder).settings(),
        r is Ok ==> old(decoder).claimed() <= final(decoder).claimed(),
        decoded_as::<Vec<T>>(
            old(decoder).pending(),
            final(decoder).pending(),
            final(decoder).claimed(),
            array_decoding(
                decoding_of::<Context, T>(),
                T::byte_sized(),
                byte_value_of::<T>(),
                N,
                old(decoder).settings(),
                old(decoder).claimed(),
                old(decoder).pending(),
            ),
            r,
        ),
{
    let is_u8 = T::is_byte_sized();
    let is_bincode = match decoder.config().format() {
        Format::Bincode | Format::BincodeDeterministic => true,
        _ => false,
    };
    if !is_bincode {
        if is_u8 {
            let len = match decoder.decode_byte_slice_len() {
                Ok(len) => len,
                Err(e) => return Err(e),
            };
            if len != N {
                return Err(DecodeError::ArrayLengthMismatch { required: N, found: len });
            }
            let ghost d1 = *decoder;
            match decoder.claim_bytes_read(N) {
                Ok(()) => {},
                Err(e) => return Err(e),
            }
            let mut bytes: Vec<u8> = vec![0u8; N];
            match decoder.read(bytes.as_mut_slice()) {
                Ok(()) => {},
                Err(e) => return Err(e),
            }
            proof {
                let n1 = (old(decoder).pending().len() - d1.pending().len()) as nat;
                assert(decoder.pending() =~= old(decoder).pending().skip(n1 + N));
            }
            return Ok(items_from_bytes::<Context, T>(bytes.as_slice()));
        }
        let len = match decoder.decode_array_len() {
            Ok(len) => len,
            Err(e) => return Err(e),
        };
        if len != N && len != usize::MAX {
            return Err(DecodeError::ArrayLengthMismatch { required: N, found: len });
        }
        let ghost d1 = *decoder;
        let r = decode_items::<Context, D, T>(decoder, N);
        proof {
            let n1 = (old(decoder).pending().len() - d1.pending().len()) as nat;
            if let Ok((vs, m, k2)) = items_decoding(decoding_of::<Context, T>(), d1.settings(), d1.claimed(), d1.pending(), N as nat) {
                assert(decoder.pending() =~= old(decoder).pending().skip((n1 + m) as int));
            }
        }
        return r;
    }
    if is_u8 {
        match decoder.claim_bytes_read(N) {
            Ok(()) => {},
            Err(e) => return Err(e),
        }
        let mut bytes: Vec<u8> = vec![0u8; N];
        match decoder.read(bytes.as_mut_slice()) {
            Ok(()) => {},
            Err(e) => return Err(e),
        }
        return Ok(items_from_bytes::<Context, T>(bytes.as_slice()));
    }
    decode_items::<Context, D, T>(decoder, N)
}

impl<Context, T: Decode<Context>, const N: usize> Decode<Context> for [T; N] {
    open spec fn decoding(c: Configuration, k: nat, s: Seq<u8>) -> Result<(Seq<T::V>, nat, nat), DecodeError> {
        array_decoding(decoding_of::<Context, T>(), T::byte_sized(), byte_value_of::<T>(), N, c, k, s)
    }

    fn from_byte(b: u8) -> (r: Option<Self>) {
        None
    }

    fn decode<D: Decoder<Context = Context>>(decoder: &mut D) -> (r: Result<Self, DecodeError>) {
        let items = match decode_array_items::<Context, D, T, N>(decoder) {
            Ok(v) => v,
            Err(e) => return Err(e),
        };
        let ghost seen = items@;
        proof {
            let c = old(decoder).settings();
            let k = old(decoder).claimed();
            let s = old(decoder).pending();
            lemma_items_decoding_len(decoding_of::<Context, T>(), c, k, s, N as nat);
            if let Ok((len, n1, k1)) = dec_slice_len(c, k, s) {
                lemma_items_decoding_len(decoding_of::<Context, T>(), c, k1, s.skip(n1 as int), N as nat);
            }
            assert(models(seen).len() == seen.len());
        }
        match array_from_vec::<T, N>(items) {
            Ok(a) => {
                proof {
                    assert(a@ == seen);
                    assert(a.model() == models(seen));
                }
                Ok(a)
            },
            Err(v) => Err(DecodeError::ArrayLengthMismatch { required: N, found: v.len() }),
        }
    }
}

/// Decode (borrowing) the items of an array of `N` items.
fn borrow_decode_array_items<'de, Context, D: BorrowDecoder<'de, Context = Context>, T: BorrowDecode<'de, Context>, const N: usize>(decoder: &mut D) -> (r: Result<Vec<T>, DecodeError>)
    ensures
        final(decoder).settings() == old(decoder).settings(),
        r is Ok ==> old(decoder).claimed() <= final(decoder).claimed(),
        decoded_as::<Vec<T>>(
            old(decoder).pending(),
            final(decoder).pending(),
            final(decoder).claimed(),
            array_decoding(
                borrow_decoding_of::<Context, T>(),
                T::byte_sized(),
                byte_value_of::<T>(),
                N,
                old(decoder).settings(),
                old(decoder).claimed(),
                old(decoder).pending(),
            ),
            r,
        ),
{
    let is_u8 = T::is_byte_sized();
    let is_bincode = match decoder.config().format() {
        Format::Bincode | Format::BincodeDeterministic => true,
        _ => false,
    };
    if !is_bincode {
        if is_u8 {
            let len = match decoder.decode_byte_slice_len() {
                Ok(len) => len,
                Err(e) => return Err(e),
            };
            if len != N {
                return Err(DecodeError::ArrayLengthMismatch { required: N, found: len });
            }
            let ghost d1 = *decoder;
            match decoder.claim_bytes_read(N) {
                Ok(()) => {},
                Err(e) => return Err(e),
            }
            let mut bytes: Vec<u8> = vec![0u8; N];
            match decoder.read(bytes.as_mut_slice()) {
                Ok(()) => {},
                Err(e) => return Err(e),
            }
            proof {
                let n1 = (old(decoder).pending().len() - d1.pending().len()) as nat;
                assert(decoder.pending() =~= old(decoder).pending().skip(n1 + N));
            }
            return Ok(borrow_items_from_bytes::<Context, T>(bytes.as_slice()));
        }
        let len = match decoder.decode_array_len() {
            Ok(len) => len,
            Err(e) => return Err(e),
        };
        if len != N && len != usize::MAX {
            return Err(DecodeError::ArrayLengthMismatch { required: N, found: len });
        }
        let ghost d1 = *decoder;
        let r = borrow_decode_items::<Context, D, T>(decoder, N);
        proof {
            let n1 = (old(decoder).pending().len() - d1.pending().len()) as nat;
            if let Ok((vs, m, k2)) = items_decoding(borrow_decoding_of::<Context, T>(), d1.settings(), d1.claimed(), d1.pending(), N as nat) {
                assert(decoder.pending() =~= old(decoder).pending().skip((n1 + m) as int));
            }
        }
        return r;
    }
    if is_u8 {
        match decoder.claim_bytes_read(N) {
            Ok(()) => {},
            Err(e) => return Err(e),
        }
        let mut bytes: Vec<u8> = vec![0u8; N];
        match decoder.read(bytes.as_mut_slice()) {
            Ok(()) => {},
            Err(e) => return Err(e),
        }
        return Ok(borrow_items_from_bytes::<Context, T>(bytes.as_slice()));
    }
    borrow_decode_items::<Context, D, T>(decoder, N)
}

impl<'de, Context, T: BorrowDecode<'de, Context>, const N: usize> BorrowDecode<'de, Context> for [T; N] {
    open spec fn borrow_decoding(c: Configuration, k: nat, s: Seq<u8>) -> Result<(Seq<T::V>, nat, nat), DecodeError> {
        array_decoding(borrow_decoding_of::<Context, T>(), T::byte_sized(), byte_value_of::<T>(), N, c, k, s)
    }

    fn borrow_from_byte(b: u8) -> (r: Option<Self>) {
        None
    }

    fn borrow_decode<D: BorrowDecoder<'de, Context = Context>>(decoder: &mut D) -> (r: Result<Self, DecodeError>) {
        let items = match borrow_decode_array_items::<Context, D, T, N>(decoder) {
            Ok(v) => v,
            Err(e) => return Err(e),
        };
        let ghost seen = items@;
        proof {
            let c = old(decoder).settings();
            let k = old(decoder).claimed();
            let s = old(decoder).pending();
            lemma_items_decoding_len(borrow_decoding_of::<Context, T>(), c, k, s, N as nat);
            if let Ok((len, n1, k1)) = dec_slice_len(c, k, s) {
                lemma_items_decoding_len(borrow_decoding_of::<Context, T>(), c, k1, s.skip(n1 as int), N as nat);
            }
            assert(models(seen).len() == seen.len());
        }
        match array_from_vec::<T, N>(items) {
            Ok(a) => {
                proof {
                    assert(a@ == seen);
                    assert(a.model() == models(seen));
                }
                Ok(a)
            },
            Err(v) => Err(DecodeError::ArrayLengthMismatch { required: N, found: v.len() }),
        }
    }
}

} // verus!
