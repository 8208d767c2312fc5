//! Encoding into a `Vec<u8>`, and the encoding of vectors.
use crate::config::{Config, Configuration, InternalFingerprintGuard};
use crate::enc::write::{lemma_appended_then, SizeWriter, Writer};
use crate::enc::{emitted, enc_slice_len, lemma_emitted_then, Encode, Encoder, EncoderImpl};
use crate::config::Format;
use crate::de::{
    claim, claim_container, dec_bytes_or_array_len, dec_len_of, dec_slice_len, decoded_as, take_exact, BorrowDecode,
    BorrowDecoder, Decode, Decoder, Model,
};
use crate::enc::is_bincode;
use crate::error::{DecodeError, EncodeError};
use crate::framed_encoding;
use std::collections::VecDeque;
use std::rc::Rc;
use std::sync::Arc;
use vstd::layout::size_of;
use vstd::prelude::*;

verus! {

/// A writer that writes into a `Vec<u8>`.
pub struct VecWriter {
    inner: Vec<u8>,
}

impl VecWriter {
    /// Create a new vec writer with the given capacity
    pub fn with_capacity(cap: usize) -> (w: Self)
        ensures
            w.written() == Seq::<u8>::empty(),
    {
        VecWriter { inner: Vec::with_capacity(cap) }
    }

    /// The bytes written so far, as a `Vec`.
    pub(crate) fn collect(self) -> (v: Vec<u8>)
        ensures
            v@ == self.written(),
    {
        self.inner
    }
}

impl Default for VecWriter {
    fn default() -> (w: Self)
        ensures
            w.written() == Seq::<u8>::empty(),
    {
        VecWriter { inner: Vec::new() }
    }
}

impl Writer for VecWriter {
    closed spec fn written(&self) -> Seq<u8> {
        self.inner@
    }

    closed spec fn room(&self, n: nat) -> bool {
        true
    }

    proof fn lemma_room_prefix(&self, n: nat, m: nat) {
    }

    proof fn lemma_room_empty(&self) {
    }

    fn write(&mut self, bytes: &[u8]) -> (r: Result<(), EncodeError>) {
        self.inner.write(bytes)
    }
}

/// Encode the given value into a `Vec<u8>` with the given `Config`. See the [config] module for more information.
///
/// The value is encoded twice: once to count its bytes, which must not pass `usize::MAX`, and
/// once into a `Vec` of that capacity (with room for a fingerprint).
///
/// [config]: config/index.html
pub fn encode_to_vec<E: Encode, C: Config>(val: E, config: C) -> (r: Result<Vec<u8>, EncodeError>)
    where C::Mode: InternalFingerprintGuard<E, C>,
    ensures
        match val.encoding(config.settings()) {
            Ok(b) => if b.len() <= usize::MAX {
                framed_encoding(val, config) matches Ok(all) && r matches Ok(v) && v@ == all
            } else {
                r is Err
            },
            Err(e) => r is Err,
        },
{
    let mut size_encoder = EncoderImpl::<SizeWriter, C>::new(SizeWriter::default(), config.duplicate());
    proof {
        size_encoder.lemma_inner();
    }
    match val.encode(&mut size_encoder) {
        Ok(()) => {},
        Err(e) => return Err(e),
    }
    let size = size_encoder.into_writer().bytes_written;
    let cap = match size.checked_add(8) {
        Some(c) => c,
        None => size,
    };
    let mut writer = VecWriter::with_capacity(cap);
    let ghost w0 = writer;
    match <C::Mode as InternalFingerprintGuard<E, C>>::encode_check(&config, &mut writer) {
        Ok(()) => {},
        Err(e) => return Err(e),
    }
    let ghost w1 = writer;
    let mut encoder = EncoderImpl::<VecWriter, C>::new(writer, config.duplicate());
    let ghost e1 = encoder;
    proof {
        e1.lemma_inner();
    }
    let r = val.encode(&mut encoder);
    proof {
        encoder.lemma_inner();
    }
    match r {
        Ok(()) => {},
        Err(e) => return Err(e),
    }
    let out = encoder.into_writer();
    proof {
        assert(w0.written() =~= Seq::<u8>::empty());
        if let Ok(b) = val.encoding(config.settings()) {
            assert(out.written() =~= <C::Mode as InternalFingerprintGuard<E, C>>::prefix(config.settings()) + b);
        }
    }
    Ok(out.collect())
}

/// The bytes of `items` written one after the other, or the refusal of the first item that has
/// no bytes.
pub open spec fn items_encoding<T: Encode>(items: Seq<T>, c: Configuration) -> Result<Seq<u8>, EncodeError>
    decreases items.len(),
{
    if items.len() == 0 {
        Ok(Seq::empty())
    } else {
        match items_encoding(items.drop_last(), c) {
            Ok(b) => match items.last().encoding(c) {
                Ok(x) => Ok(b + x),
                Err(e) => Err(e),
            },
            Err(e) => Err(e),
        }
    }
}

/// When a run of items has bytes, so has each of its prefixes, and they are no longer.
pub proof fn lemma_items_prefix<T: Encode>(items: Seq<T>, c: Configuration, i: int)
    requires
        0 <= i <= items.len(),
        items_encoding(items, c) is Ok,
    ensures
        items_encoding(items.take(i), c) is Ok,
        items_encoding(items.take(i), c)->Ok_0.len() <= items_encoding(items, c)->Ok_0.len(),
    decreases items.len(),
{
    if i == items.len() {
        assert(items.take(i) =~= items);
    } else {
        lemma_items_prefix(items.drop_last(), c, i);
        assert(items.drop_last().take(i) =~= items.take(i));
    }
}

/// Write the items of a sequence one after the other, after the bytes `head` already written.
pub(crate) fn encode_items<E: Encoder, T: Encode>(encoder: &mut E, items: &[T], Ghost(e0): Ghost<E>, Ghost(head): Ghost<Seq<u8>>) -> (r: Result<(), EncodeError>)
    requires
        emitted(e0, *old(encoder), head, Ok(())),
    ensures
        final(encoder).settings() == e0.settings(),
        match items_encoding(items@, e0.settings()) {
            Ok(b) => emitted(e0, *final(encoder), head + b, r),
            Err(e) => r is Err,
        },
{
    let ghost c = e0.settings();
    let mut i: usize = 0;
    while i < items.len()
        invariant
            0 <= i <= items@.len(),
            c == e0.settings(),
            encoder.settings() == c,
            items_encoding(items@.take(i as int), c) is Ok,
            emitted(e0, *encoder, head + items_encoding(items@.take(i as int), c)->Ok_0, Ok(())),
        decreases items@.len() - i,
    {
        let ghost ei = *encoder;
        let ghost done = head + items_encoding(items@.take(i as int), c)->Ok_0;
        let r = items[i].encode(encoder);
        proof {
            assert(items@.take(i + 1).drop_last() =~= items@.take(i as int));
            assert(items@.take(i + 1).last() == items@[i as int]);
        }
        if r.is_err() {
            proof {
                if let Ok(t) = items_encoding(items@, c) {
                    lemma_items_prefix(items@, c, i + 1);
                    let x = items@[i as int].encoding(c)->Ok_0;
                    assert(!ei.room(x.len()));
                    assert(ei.room(x.len()) == e0.room(done.len() + x.len()));
                    if e0.room((head + t).len()) {
                        e0.lemma_room_prefix((head + t).len(), done.len() + x.len());
                    }
                }
            }
            return r;
        }
        proof {
            let x = items@[i as int].encoding(c)->Ok_0;
            lemma_emitted_then(e0, ei, *encoder, done, x, Ok(()), r);
            assert(done + x =~= head + items_encoding(items@.take(i + 1), c)->Ok_0);
        }
        i = i + 1;
    }
    proof {
        assert(items@.take(items@.len() as int) =~= items@);
    }
    Ok(())
}

impl<T: Encode> Encode for Vec<T> {
    open spec fn encoding(&self, c: Configuration) -> Result<Seq<u8>, EncodeError> {
        match items_encoding(self@, c) {
            Ok(b) => Ok(enc_slice_len(c, self@.len()) + b),
            Err(e) => Err(e),
        }
    }

    fn encode<E: Encoder>(&self, encoder: &mut E) -> (r: Result<(), EncodeError>) {
        let ghost c = encoder.settings();
        let ghost e0 = *encoder;
        let r1 = encoder.encode_slice_len(self.len());
        if r1.is_err() {
            proof {
                if let Ok(b) = items_encoding(self@, c) {
                    lemma_emitted_then(e0, *encoder, *encoder, enc_slice_len(c, self@.len()), b, r1, r1);
                }
            }
            return r1;
        }
        encode_items(encoder, self.as_slice(), Ghost(e0), Ghost(enc_slice_len(c, self@.len())))
    }
}

/// The models of a sequence of values.
pub open spec fn models<T: Model>(items: Seq<T>) -> Seq<T::V> {
    items.map_values(|x: T| x.model())
}

impl<T: Model> Model for Vec<T> {
    type V = Seq<T::V>;

    open spec fn model(&self) -> Seq<T::V> {
        models(self@)
    }

    open spec fn byte_sized() -> bool {
        false
    }

    fn is_byte_sized() -> (r: bool) {
        false
    }

    open spec fn byte_value(b: u8) -> Seq<T::V> {
        Seq::empty()
    }

    open spec fn byte_of(&self) -> u8 {
        0
    }

    fn to_byte(&self) -> (b: u8) {
        0
    }
}

/// How a value of some type is decoded: what decoding makes of the bytes `s` under `c` with
/// `k` bytes claimed (the value's model, the bytes taken, the claim count after).
pub type Decoding<V> = spec_fn(Configuration, nat, Seq<u8>) -> Result<(V, nat, nat), DecodeError>;

/// What decoding `count` values one after the other, each as `dec` decodes it, makes of `s`.
pub open spec fn items_decoding<V>(dec: Decoding<V>, c: Configuration, k: nat, s: Seq<u8>, count: nat) -> Result<(Seq<V>, nat, nat), DecodeError>
    decreases count,
{
    if count == 0 {
        Ok((Seq::empty(), 0, k))
    } else {
        match items_decoding(dec, c, k, s, (count - 1) as nat) {
            Ok((vs, n, k1)) => match dec(c, k1, s.skip(n as int)) {
                Ok((v, m, k2)) => Ok((vs.push(v), n + m, k2)),
                Err(e) => Err(e),
            },
            Err(e) => Err(e),
        }
    }
}

/// Decoding `count` values gives `count` values.
pub proof fn lemma_items_decoding_len<V>(dec: Decoding<V>, c: Configuration, k: nat, s: Seq<u8>, count: nat)
    ensures
        items_decoding(dec, c, k, s, count) matches Ok((vs, n, k2)) ==> vs.len() == count,
    decreases count,
{
    if count > 0 {
        lemma_items_decoding_len(dec, c, k, s, (count - 1) as nat);
    }
}

/// Once decoding a run of values fails, decoding a longer run fails the same way.
pub proof fn lemma_items_err<V>(dec: Decoding<V>, c: Configuration, k: nat, s: Seq<u8>, j: nat, m: nat)
    requires
        j <= m,
        items_decoding(dec, c, k, s, j) is Err,
    ensures
        items_decoding(dec, c, k, s, m) == items_decoding(dec, c, k, s, j),
    decreases m - j,
{
    if j < m {
        lemma_items_err(dec, c, k, s, j, (m - 1) as nat);
    }
}

/// What decoding the items of an indefinite-length CBOR array makes of `s`: values as `dec`
/// decodes them, up to the `0xFF` break (taken too). A `Vec` holds at most `room` more items;
/// one more is refused with `LimitExceeded`.
pub open spec fn indefinite_items<V>(dec: Decoding<V>, c: Configuration, k: nat, s: Seq<u8>, room: nat) -> Result<(Seq<V>, nat, nat), DecodeError>
    decreases room,
{
    if s.len() > 0 && s[0] == 0xFF {
        Ok((Seq::empty(), 1, k))
    } else {
        match dec(c, k, s) {
            Ok((v, m, k2)) => if room == 0 {
                Err(DecodeError::LimitExceeded)
            } else {
                match indefinite_items(dec, c, k2, s.skip(m as int), (room - 1) as nat) {
                    Ok((vs, n, k3)) => Ok((seq![v] + vs, m + n, k3)),
                    Err(e) => Err(e),
                }
            },
            Err(e) => Err(e),
        }
    }
}

/// What reading the chunks of an indefinite-length CBOR byte string makes of `s`: each chunk is
/// a byte string whose length is claimed, up to the `0xFF` break (taken too).
pub open spec fn byte_chunks(c: Configuration, k: nat, s: Seq<u8>) -> Result<(Seq<u8>, nat, nat), DecodeError>
    decreases s.len(),
{
    if s.len() > 0 && s[0] == 0xFF {
        Ok((Seq::empty(), 1, k))
    } else {
        match dec_len_of(c, k, s, 2) {
            Ok((len, n1, k1)) => match claim(c, k1, len as nat) {
                Ok(k2) => match take_exact(s.skip(n1 as int), len as nat) {
                    Ok(b) => if 0 < n1 && n1 + len <= s.len() {
                        match byte_chunks(c, k2, s.skip(n1 + len)) {
                            Ok((rest, m, k3)) => Ok((b + rest, n1 + len as nat + m, k3)),
                            Err(e) => Err(e),
                        }
                    } else {
                        Err(DecodeError::UnexpectedEnd { additional: 0 })
                    },
                    Err(e) => Err(e),
                },
                Err(e) => Err(e),
            },
            Err(e) => Err(e),
        }
    }
}

/// The outcome `o` of decoding what follows `n` bytes that were taken first.
pub open spec fn shifted<V>(n: nat, o: Result<(V, nat, nat), DecodeError>) -> Result<(V, nat, nat), DecodeError> {
    match o {
        Ok((v, m, k)) => Ok((v, n + m, k)),
        Err(e) => Err(e),
    }
}

/// What reading the length of a `Vec` does: for single-byte items a byte string or array length
/// (with its CBOR major type), otherwise a sequence length (with major type 4).
pub open spec fn vec_head(byte_sized: bool, c: Configuration, k: nat, s: Seq<u8>) -> Result<((u8, usize), nat, nat), DecodeError> {
    if byte_sized {
        dec_bytes_or_array_len(c, k, s)
    } else {
        match dec_slice_len(c, k, s) {
            Ok((len, n, k1)) => Ok(((4u8, len), n, k1)),
            Err(e) => Err(e),
        }
    }
}

/// What decoding the items of a `Vec` of length `len` (of CBOR major type `major`) makes of `s`.
/// An indefinite CBOR length reads items (or byte-string chunks) up to the break; otherwise the
/// items' memory (`size` bytes each) is claimed first, and single-byte items of a byte string (or
/// of any sequence in bincode) are the raw bytes.
pub open spec fn vec_items<V>(
    dec: Decoding<V>,
    byte_sized: bool,
    byte_value: spec_fn(u8) -> V,
    size: nat,
    c: Configuration,
    k: nat,
    s: Seq<u8>,
    major: u8,
    len: usize,
) -> Result<(Seq<V>, nat, nat), DecodeError> {
    if !is_bincode(c) && len == usize::MAX {
        if byte_sized && major == 2 {
            match byte_chunks(c, k, s) {
                Ok((b, m, k2)) => Ok((b.map_values(byte_value), m, k2)),
                Err(e) => Err(e),
            }
        } else {
            indefinite_items(dec, c, k, s, usize::MAX as nat)
        }
    } else {
        match claim_container(c, k, len as nat, size) {
            Ok(k2) => if byte_sized && (is_bincode(c) || major == 2) {
                match take_exact(s, len as nat) {
                    Ok(b) => Ok((b.map_values(byte_value), len as nat, k2)),
                    Err(e) => Err(e),
                }
            } else {
                items_decoding(dec, c, k2, s, len as nat)
            },
            Err(e) => Err(e),
        }
    }
}

/// What decoding a `Vec` makes of `s`: its length, then its items.
pub open spec fn vec_decoding<V>(
    dec: Decoding<V>,
    byte_sized: bool,
    byte_value: spec_fn(u8) -> V,
    size: nat,
    c: Configuration,
    k: nat,
    s: Seq<u8>,
) -> Result<(Seq<V>, nat, nat), DecodeError> {
    match vec_head(byte_sized, c, k, s) {
        Ok(((major, len), n1, k1)) => shifted(
            n1,
            vec_items(dec, byte_sized, byte_value, size, c, k1, s.skip(n1 as int), major, len),
        ),
        Err(e) => Err(e),
    }
}

/// The outcome `o` of decoding what follows `taken` bytes that decoded to `prefix`: the whole
/// outcome, or the same error.
pub open spec fn after_prefix<V>(prefix: Seq<V>, taken: nat, o: Result<(Seq<V>, nat, nat), DecodeError>) -> Result<(Seq<V>, nat, nat), DecodeError> {
    match o {
        Ok((b, m, k)) => Ok((prefix + b, taken + m, k)),
        Err(e) => Err(e),
    }
}

/// Outcomes after two prefixes in a row are the outcome after both.
proof fn lemma_after_prefix_twice<V>(p: Seq<V>, t: nat, q: Seq<V>, u: nat, o: Result<(Seq<V>, nat, nat), DecodeError>)
    ensures
        after_prefix(p, t, after_prefix(q, u, o)) == after_prefix(p + q, t + u, o),
{
    if let Ok((b, m, k)) = o {
        assert(p + q + b =~= p + (q + b));
    }
}

/// One chunk of an indefinite-length byte string: its head and bytes come first, then the rest.
proof fn lemma_byte_chunk_step(c: Configuration, k: nat, s: Seq<u8>)
    requires
        !is_bincode(c),
        !(s.len() > 0 && s[0] == 0xFF),
        dec_len_of(c, k, s, 2) is Ok,
    ensures
        ({
            let (len, n1, k1) = dec_len_of(c, k, s, 2)->Ok_0;
            &&& 0 < n1 <= s.len()
            &&& match claim(c, k1, len as nat) {
                Ok(k2) => match take_exact(s.skip(n1 as int), len as nat) {
                    Ok(b) => n1 + len <= s.len() && byte_chunks(c, k, s) == after_prefix(
                        b,
                        n1 + len as nat,
                        byte_chunks(c, k2, s.skip(n1 + len)),
                    ),
                    Err(e) => byte_chunks(c, k, s) == Err::<(Seq<u8>, nat, nat), DecodeError>(e),
                },
                Err(e) => byte_chunks(c, k, s) == Err::<(Seq<u8>, nat, nat), DecodeError>(e),
            }
        }),
{
    crate::de::cbor::lemma_cbor_header_taken(s);
}

/// Read the chunks of an indefinite-length CBOR byte string, up to and with the break.
fn decode_byte_chunks<D: Decoder>(decoder: &mut D) -> (r: Result<Vec<u8>, DecodeError>)
    requires
        !is_bincode(old(decoder).settings()),
    ensures
        final(decoder).settings() == old(decoder).settings(),
        r is Ok ==> old(decoder).claimed() <= final(decoder).claimed(),
        match byte_chunks(old(decoder).settings(), old(decoder).claimed(), old(decoder).pending()) {
            Ok((b, m, k)) => r matches Ok(v) && v@ == b && m <= old(decoder).pending().len()
                && final(decoder).pending() == old(decoder).pending().skip(m as int)
                && final(decoder).claimed() == k,
            Err(e) => r == Err::<Vec<u8>, DecodeError>(e),
        },
{
    let ghost c = decoder.settings();
    let ghost start = decoder.pending();
    let ghost k0 = decoder.claimed();
    let ghost mut taken: nat = 0;
    let mut out: Vec<u8> = Vec::new();
    proof {
        lemma_after_prefix_twice(Seq::<u8>::empty(), 0, Seq::empty(), 0, byte_chunks(c, k0, start));
        assert(Seq::<u8>::empty() + Seq::<u8>::empty() =~= Seq::<u8>::empty());
        if let Ok((b, m, k)) = byte_chunks(c, k0, start) {
            assert(Seq::<u8>::empty() + b =~= b);
        }
    }
    while decoder.peek_u8() != Some(0xFFu8)
        invariant
            decoder.settings() == c,
            c == old(decoder).settings(),
            !is_bincode(c),
            start == old(decoder).pending(),
            k0 == old(decoder).claimed(),
            k0 <= decoder.claimed(),
            taken <= start.len(),
            decoder.pending() == start.skip(taken as int),
            byte_chunks(c, k0, start) == after_prefix(out@, taken, byte_chunks(c, decoder.claimed(), decoder.pending())),
        decreases decoder.pending().len(),
    {
        let ghost before = decoder.pending();
        let ghost kb = decoder.claimed();
        let len = match decoder.decode_byte_slice_len() {
            Ok(len) => len,
            Err(e) => return Err(e),
        };
        proof {
            lemma_byte_chunk_step(c, kb, before);
        }
        let ghost n1: nat = dec_len_of(c, kb, before, 2)->Ok_0.1;
        match decoder.claim_bytes_read(len) {
            Ok(()) => {},
            Err(e) => return Err(e),
        }
        let mut buf: Vec<u8> = vec![0u8; len];
        match decoder.read(buf.as_mut_slice()) {
            Ok(()) => {},
            Err(e) => return Err(e),
        }
        proof {
            assert(decoder.pending() =~= before.skip(n1 + len));
            assert(decoder.pending() =~= start.skip(taken + n1 + len));
            lemma_after_prefix_twice(out@, taken, buf@, n1 + len as nat, byte_chunks(c, decoder.claimed(), decoder.pending()));
            taken = taken + n1 + len as nat;
        }
        out.append(&mut buf);
    }
    let ghost before_brk = decoder.pending();
    let mut brk = [0u8; 1];
    match decoder.read(&mut brk) {
        Ok(()) => {},
        Err(e) => return Err(e),
    }
    proof {
        assert(out@ + Seq::<u8>::empty() =~= out@);
        assert(decoder.pending() =~= start.skip(taken + 1int));
    }
    Ok(out)
}

/// How values of `T` decode, as a function.
pub open spec fn decoding_of<Context, T: Decode<Context>>() -> Decoding<T::V> {
    |c: Configuration, k: nat, s: Seq<u8>| T::decoding(c, k, s)
}

/// What each byte stands for as a value of the single-byte type `T`.
pub open spec fn byte_value_of<T: Model>() -> spec_fn(u8) -> T::V {
    |b: u8| T::byte_value(b)
}

/// Decode `len` values one after the other.
pub(crate) fn decode_items<Context, D: Decoder<Context = Context>, T: Decode<Context>>(decoder: &mut D, len: usize) -> (r: Result<Vec<T>, DecodeError>)
    ensures
        final(decoder).settings() == old(decoder).settings(),
        r is Ok ==> old(decoder).claimed() <= final(decoder).claimed(),
        decoded_as::<Vec<T>>(
            old(decoder).pending(),
            final(decoder).pending(),
            final(decoder).claimed(),
            items_decoding(decoding_of::<Context, T>(), old(decoder).settings(), old(decoder).claimed(), old(decoder).pending(), len as nat),
            r,
        ),
{
    let ghost c = decoder.settings();
    let ghost s0 = decoder.pending();
    let ghost k0 = decoder.claimed();
    let ghost dec = decoding_of::<Context, T>();
    let mut vec: Vec<T> = Vec::new();
    let mut i: usize = 0;
    proof {
        assert(models(vec@) =~= Seq::<T::V>::empty());
    }
    while i < len
        invariant
            i <= len,
            c == old(decoder).settings(),
            s0 == old(decoder).pending(),
            k0 == old(decoder).claimed(),
            dec == decoding_of::<Context, T>(),
            decoder.settings() == c,
            k0 <= decoder.claimed(),
            decoder.pending().len() <= s0.len(),
            decoder.pending() == s0.skip(s0.len() - decoder.pending().len()),
            items_decoding(dec, c, k0, s0, i as nat) == Ok::<(Seq<T::V>, nat, nat), DecodeError>(
                (models(vec@), (s0.len() - decoder.pending().len()) as nat, decoder.claimed()),
            ),
        decreases len - i,
    {
        let ghost p = decoder.pending();
        let ghost n: nat = (s0.len() - p.len()) as nat;
        let ghost kk = decoder.claimed();
        match T::decode(decoder) {
            Ok(v) => {
                proof {
                    let m = T::decoding(c, kk, p)->Ok_0.1;
                    assert(decoder.pending() =~= s0.skip((n + m) as int));
                    assert(models(vec@.push(v)) =~= models(vec@).push(v.model()));
                }
                vec.push(v);
            },
            Err(e) => {
                proof {
                    lemma_items_err(dec, c, k0, s0, (i + 1) as nat, len as nat);
                }
                return Err(e);
            },
        }
        i = i + 1;
    }
    Ok(vec)
}

/// Decode the items of an indefinite-length CBOR array, up to and with the break.
fn decode_indefinite_items<Context, D: Decoder<Context = Context>, T: Decode<Context>>(decoder: &mut D) -> (r: Result<Vec<T>, DecodeError>)
    ensures
        final(decoder).settings() == old(decoder).settings(),
        r is Ok ==> old(decoder).claimed() <= final(decoder).claimed(),
        decoded_as::<Vec<T>>(
            old(decoder).pending(),
            final(decoder).pending(),
            final(decoder).claimed(),
            indefinite_items(decoding_of::<Context, T>(), old(decoder).settings(), old(decoder).claimed(), old(decoder).pending(), usize::MAX as nat),
            r,
        ),
{
    let ghost c = decoder.settings();
    let ghost start = decoder.pending();
    let ghost k0 = decoder.claimed();
    let ghost dec = decoding_of::<Context, T>();
    let ghost mut taken: nat = 0;
    let mut vec: Vec<T> = Vec::new();
    proof {
        let o = indefinite_items(dec, c, k0, start, usize::MAX as nat);
        if let Ok((b, m, k)) = o {
            assert(models(vec@) + b =~= b);
        }
    }
    while decoder.peek_u8() != Some(0xFFu8)
        invariant
            c == old(decoder).settings(),
            start == old(decoder).pending(),
            k0 == old(decoder).claimed(),
            dec == decoding_of::<Context, T>(),
            decoder.settings() == c,
            k0 <= decoder.claimed(),
            taken <= start.len(),
            decoder.pending() == start.skip(taken as int),
            indefinite_items(dec, c, k0, start, usize::MAX as nat) == after_prefix(
                models(vec@),
                taken,
                indefinite_items(dec, c, decoder.claimed(), decoder.pending(), (usize::MAX - vec@.len()) as nat),
            ),
        decreases usize::MAX - vec@.len(),
    {
        let ghost before = decoder.pending();
        let ghost kb = decoder.claimed();
        let v = match T::decode(decoder) {
            Ok(v) => v,
            Err(e) => return Err(e),
        };
        if vec.len() == usize::MAX {
            return Err(DecodeError::LimitExceeded);
        }
        proof {
            let m = T::decoding(c, kb, before)->Ok_0.1;
            assert(decoder.pending() =~= start.skip((taken + m) as int));
            lemma_after_prefix_twice(
                models(vec@),
                taken,
                seq![v.model()],
                m,
                indefinite_items(dec, c, decoder.claimed(), decoder.pending(), (usize::MAX - vec@.len() - 1) as nat),
            );
            assert(models(vec@.push(v)) =~= models(vec@) + seq![v.model()]);
            taken = taken + m;
        }
        vec.push(v);
    }
    let mut brk = [0u8; 1];
    match decoder.read(&mut brk) {
        Ok(()) => {},
        Err(e) => return Err(e),
    }
    proof {
        assert(models(vec@) + Seq::<T::V>::empty() =~= models(vec@));
        assert(decoder.pending() =~= start.skip(taken + 1int));
    }
    Ok(vec)
}

/// The values of the single-byte type `T` that `bytes` stand for.
pub(crate) fn items_from_bytes<Context, T: Decode<Context>>(bytes: &[u8]) -> (v: Vec<T>)
    requires
        T::byte_sized(),
    ensures
        models(v@) == bytes@.map_values(byte_value_of::<T>()),
{
    let mut v: Vec<T> = Vec::new();
    let mut i: usize = 0;
    while i < bytes.len()
        invariant
            i <= bytes@.len(),
            T::byte_sized(),
            models(v@) == bytes@.take(i as int).map_values(byte_value_of::<T>()),
        decreases bytes@.len() - i,
    {
        let x = match T::from_byte(bytes[i]) {
            Some(x) => x,
            None => return v,
        };
        proof {
            assert(bytes@.take(i + 1).map_values(byte_value_of::<T>()) =~= bytes@.take(i as int).map_values(
                byte_value_of::<T>(),
            ).push(x.model()));
            assert(models(v@.push(x)) =~= models(v@).push(x.model()));
        }
        v.push(x);
        i = i + 1;
    }
    proof {
        assert(bytes@.take(bytes@.len() as int) =~= bytes@);
    }
    v
}

/// Read the length of a `Vec`; see [vec_head].
fn decode_vec_head<D: Decoder>(decoder: &mut D, byte_sized: bool) -> (r: Result<(u8, usize), DecodeError>)
    ensures
        final(decoder).settings() == old(decoder).settings(),
        r is Ok ==> old(decoder).claimed() <= final(decoder).claimed(),
        crate::de::decoded(
            old(decoder).pending(),
            final(decoder).pending(),
            final(decoder).claimed(),
            vec_head(byte_sized, old(decoder).settings(), old(decoder).claimed(), old(decoder).pending()),
            r,
        ),
{
    if byte_sized {
        decoder.decode_byte_slice_or_array_len()
    } else {
        match decoder.decode_slice_len() {
            Ok(len) => Ok((4u8, len)),
            Err(e) => Err(e),
        }
    }
}

/// Decode the items of a `Vec` whose length `len` (of CBOR major type `major`) was read.
fn decode_vec_items<Context, D: Decoder<Context = Context>, T: Decode<Context>>(decoder: &mut D, major: u8, len: usize) -> (r: Result<Vec<T>, DecodeError>)
    ensures
        final(decoder).settings() == old(decoder).settings(),
        r is Ok ==> old(decoder).claimed() <= final(decoder).claimed(),
        decoded_as::<Vec<T>>(
            old(decoder).pending(),
            final(decoder).pending(),
            final(decoder).claimed(),
            vec_items(
                decoding_of::<Context, T>(),
                T::byte_sized(),
                byte_value_of::<T>(),
                size_of::<T>(),
                old(decoder).settings(),
                old(decoder).claimed(),
                old(decoder).pending(),
                major,
                len,
            ),
            r,
        ),
{
    let is_u8 = T::is_byte_sized();
    let is_bincode = match decoder.config().format() {
        Format::Bincode | Format::BincodeDeterministic => true,
        _ => false,
    };
    if !is_bincode && len == usize::MAX {
        if is_u8 && major == 2 {
            let bytes = match decode_byte_chunks(decoder) {
                Ok(b) => b,
                Err(e) => return Err(e),
            };
            return Ok(items_from_bytes::<Context, T>(bytes.as_slice()));
        }
        return decode_indefinite_items::<Context, D, T>(decoder);
    }
    match decoder.claim_container_read::<T>(len) {
        Ok(()) => {},
        Err(e) => return Err(e),
    }
    if is_u8 && (is_bincode || major == 2) {
        let mut bytes: Vec<u8> = vec![0u8; len];
        match decoder.read(bytes.as_mut_slice()) {
            Ok(()) => {},
            Err(e) => return Err(e),
        }
        return Ok(items_from_bytes::<Context, T>(bytes.as_slice()));
    }
    decode_items::<Context, D, T>(decoder, len)
}

impl<Context, T: Decode<Context>> Decode<Context> for Vec<T> {
    open spec fn decoding(c: Configuration, k: nat, s: Seq<u8>) -> Result<(Seq<T::V>, nat, nat), DecodeError> {
        vec_decoding(decoding_of::<Context, T>(), T::byte_sized(), byte_value_of::<T>(), size_of::<T>(), c, k, s)
    }

    fn from_byte(b: u8) -> (r: Option<Self>) {
        None
    }

    #[verifier::rlimit(40)]
    fn decode<D: Decoder<Context = Context>>(decoder: &mut D) -> (r: Result<Self, DecodeError>) {
        let head = decode_vec_head(decoder, T::is_byte_sized());
        let (major, len) = match head {
            Ok(h) => h,
            Err(e) => return Err(e),
        };
        let ghost d1 = *decoder;
        let r = decode_vec_items::<Context, D, T>(decoder, major, len);
        proof {
            let n1 = vec_head(T::byte_sized(), old(decoder).settings(), old(decoder).claimed(), old(decoder).pending())->Ok_0.1;
            if let Ok((vs, m, k2)) = vec_items(
                decoding_of::<Context, T>(),
                T::byte_sized(),
                byte_value_of::<T>(),
                size_of::<T>(),
                d1.settings(),
                d1.claimed(),
                d1.pending(),
                major,
                len,
            ) {
                assert(decoder.pending() =~= old(decoder).pending().skip((n1 + m) as int));
            }
        }
        r
    }
}

/// How values of `T` decode with borrowing, as a function.
pub open spec fn borrow_decoding_of<'de, Context, T: BorrowDecode<'de, Context>>() -> Decoding<T::V> {
    |c: Configuration, k: nat, s: Seq<u8>| T::borrow_decoding(c, k, s)
}

/// Decode `len` values one after the other.
pub(crate) fn borrow_decode_items<'de, Context, D: BorrowDecoder<'de, Context = Context>, T: BorrowDecode<'de, Context>>(decoder: &mut D, len: usize) -> (r: Result<Vec<T>, DecodeError>)
    ensures
        final(decoder).settings() == old(decoder).settings(),
        r is Ok ==> old(decoder).claimed() <= final(decoder).claimed(),
        decoded_as::<Vec<T>>(
            old(decoder).pending(),
            final(decoder).pending(),
            final(decoder).claimed(),
            items_decoding(borrow_decoding_of::<Context, T>(), old(decoder).settings(), old(decoder).claimed(), old(decoder).pending(), len as nat),
            r,
        ),
{
    let ghost c = decoder.settings();
    let ghost s0 = decoder.pending();
    let ghost k0 = decoder.claimed();
    let ghost dec = borrow_decoding_of::<Context, T>();
    let mut vec: Vec<T> = Vec::new();
    let mut i: usize = 0;
    proof {
        assert(models(vec@) =~= Seq::<T::V>::empty());
    }
    while i < len
        invariant
            i <= len,
            c == old(decoder).settings(),
            s0 == old(decoder).pending(),
            k0 == old(decoder).claimed(),
            dec == borrow_decoding_of::<Context, T>(),
            decoder.settings() == c,
            k0 <= decoder.claimed(),
            decoder.pending().len() <= s0.len(),
            decoder.pending() == s0.skip(s0.len() - decoder.pending().len()),
            items_decoding(dec, c, k0, s0, i as nat) == Ok::<(Seq<T::V>, nat, nat), DecodeError>(
                (models(vec@), (s0.len() - decoder.pending().len()) as nat, decoder.claimed()),
            ),
        decreases len - i,
    {
        let ghost p = decoder.pending();
        let ghost n: nat = (s0.len() - p.len()) as nat;
        let ghost kk = decoder.claimed();
        match T::borrow_decode(decoder) {
            Ok(v) => {
                proof {
                    let m = T::borrow_decoding(c, kk, p)->Ok_0.1;
                    assert(decoder.pending() =~= s0.skip((n + m) as int));
                    assert(models(vec@.push(v)) =~= models(vec@).push(v.model()));
                }
                vec.push(v);
            },
            Err(e) => {
                proof {
                    lemma_items_err(dec, c, k0, s0, (i + 1) as nat, len as nat);
                }
                return Err(e);
            },
        }
        i = i + 1;
    }
    Ok(vec)
}

/// Decode the items of an indefinite-length CBOR array, up to and with the break.
fn borrow_decode_indefinite_items<'de, Context, D: BorrowDecoder<'de, Context = Context>, T: BorrowDecode<'de, Context>>(decoder: &mut D) -> (r: Result<Vec<T>, DecodeError>)
    ensures
        final(decoder).settings() == old(decoder).settings(),
        r is Ok ==> old(decoder).claimed() <= final(decoder).claimed(),
        decoded_as::<Vec<T>>(
            old(decoder).pending(),
            final(decoder).pending(),
            final(decoder).claimed(),
            indefinite_items(borrow_decoding_of::<Context, T>(), old(decoder).settings(), old(decoder).claimed(), old(decoder).pending(), usize::MAX as nat),
            r,
        ),
{
    let ghost c = decoder.settings();
    let ghost start = decoder.pending();
    let ghost k0 = decoder.claimed();
    let ghost dec = borrow_decoding_of::<Context, T>();
    let ghost mut taken: nat = 0;
    let mut vec: Vec<T> = Vec::new();
    proof {
        let o = indefinite_items(dec, c, k0, start, usize::MAX as nat);
        if let Ok((b, m, k)) = o {
            assert(models(vec@) + b =~= b);
        }
    }
    while decoder.peek_u8() != Some(0xFFu8)
        invariant
            c == old(decoder).settings(),
            start == old(decoder).pending(),
            k0 == old(decoder).claimed(),
            dec == borrow_decoding_of::<Context, T>(),
            decoder.settings() == c,
            k0 <= decoder.claimed(),
            taken <= start.len(),
            decoder.pending() == start.skip(taken as int),
            indefinite_items(dec, c, k0, start, usize::MAX as nat) == after_prefix(
                models(vec@),
                taken,
                indefinite_items(dec, c, decoder.claimed(), decoder.pending(), (usize::MAX - vec@.len()) as nat),
            ),
        decreases usize::MAX - vec@.len(),
    {
        let ghost before = decoder.pending();
        let ghost kb = decoder.claimed();
        let v = match T::borrow_decode(decoder) {
            Ok(v) => v,
            Err(e) => return Err(e),
        };
        if vec.len() == usize::MAX {
            return Err(DecodeError::LimitExceeded);
        }
        proof {
            let m = T::borrow_decoding(c, kb, before)->Ok_0.1;
            assert(decoder.pending() =~= start.skip((taken + m) as int));
            lemma_after_prefix_twice(
                models(vec@),
                taken,
                seq![v.model()],
                m,
                indefinite_items(dec, c, decoder.claimed(), decoder.pending(), (usize::MAX - vec@.len() - 1) as nat),
            );
            assert(models(vec@.push(v)) =~= models(vec@) + seq![v.model()]);
            taken = taken + m;
        }
        vec.push(v);
    }
    let mut brk = [0u8; 1];
    match decoder.read(&mut brk) {
        Ok(()) => {},
        Err(e) => return Err(e),
    }
    proof {
        assert(models(vec@) + Seq::<T::V>::empty() =~= models(vec@));
        assert(decoder.pending() =~= start.skip(taken + 1int));
    }
    Ok(vec)
}

/// The values of the single-byte type `T` that `bytes` stand for.
pub(crate) fn borrow_items_from_bytes<'de, Context, T: BorrowDecode<'de, Context>>(bytes: &[u8]) -> (v: Vec<T>)
    requires
        T::byte_sized(),
    ensures
        models(v@) == bytes@.map_values(byte_value_of::<T>()),
{
    let mut v: Vec<T> = Vec::new();
    let mut i: usize = 0;
    while i < bytes.len()
        invariant
            i <= bytes@.len(),
            T::byte_sized(),
            models(v@) == bytes@.take(i as int).map_values(byte_value_of::<T>()),
        decreases bytes@.len() - i,
    {
        let x = match T::borrow_from_byte(bytes[i]) {
            Some(x) => x,
            None => return v,
        };
        proof {
            assert(bytes@.take(i + 1).map_values(byte_value_of::<T>()) =~= bytes@.take(i as int).map_values(
                byte_value_of::<T>(),
            ).push(x.model()));
            assert(models(v@.push(x)) =~= models(v@).push(x.model()));
        }
        v.push(x);
        i = i + 1;
    }
    proof {
        assert(bytes@.take(bytes@.len() as int) =~= bytes@);
    }
    v
}

/// Decode the items of a `Vec` whose length `len` (of CBOR major type `major`) was read.
fn borrow_decode_vec_items<'de, Context, D: BorrowDecoder<'de, Context = Context>, T: BorrowDecode<'de, Context>>(decoder: &mut D, major: u8, len: usize) -> (r: Result<Vec<T>, DecodeError>)
    ensures
        final(decoder).settings() == old(decoder).settings(),
        r is Ok ==> old(decoder).claimed() <= final(decoder).claimed(),
        decoded_as::<Vec<T>>(
            old(decoder).pending(),
            final(decoder).pending(),
            final(decoder).claimed(),
            vec_items(
                borrow_decoding_of::<Context, T>(),
                T::byte_sized(),
                byte_value_of::<T>(),
                size_of::<T>(),
                old(decoder).settings(),
                old(decoder).claimed(),
                old(decoder).pending(),
                major,
                len,
            ),
            r,
        ),
{
    let is_u8 = T::is_byte_sized();
    let is_bincode = match decoder.config().format() {
        Format::Bincode | Format::BincodeDeterministic => true,
        _ => false,
    };
    if !is_bincode && len == usize::MAX {
        if is_u8 && major == 2 {
            let bytes = match decode_byte_chunks(decoder) {
                Ok(b) => b,
                Err(e) => return Err(e),
            };
            return Ok(borrow_items_from_bytes::<Context, T>(bytes.as_slice()));
        }
        return borrow_decode_indefinite_items::<Context, D, T>(decoder);
    }
    match decoder.claim_container_read::<T>(len) {
        Ok(()) => {},
        Err(e) => return Err(e),
    }
    if is_u8 && (is_bincode || major == 2) {
        let mut bytes: Vec<u8> = vec![0u8; len];
        match decoder.read(bytes.as_mut_slice()) {
            Ok(()) => {},
            Err(e) => return Err(e),
        }
        return Ok(borrow_items_from_bytes::<Context, T>(bytes.as_slice()));
    }
    borrow_decode_items::<Context, D, T>(decoder, len)
}

impl<'de, Context, T: BorrowDecode<'de, Context>> BorrowDecode<'de, Context> for Vec<T> {
    open spec fn borrow_decoding(c: Configuration, k: nat, s: Seq<u8>) -> Result<(Seq<T::V>, nat, nat), DecodeError> {
        vec_decoding(borrow_decoding_of::<Context, T>(), T::byte_sized(), byte_value_of::<T>(), size_of::<T>(), c, k, s)
    }

    fn borrow_from_byte(b: u8) -> (r: Option<Self>) {
        None
    }

    #[verifier::rlimit(40)]
    fn borrow_decode<D: BorrowDecoder<'de, Context = Context>>(decoder: &mut D) -> (r: Result<Self, DecodeError>) {
        let head = decode_vec_head(decoder, T::is_byte_sized());
        let (major, len) = match head {
            Ok(h) => h,
            Err(e) => return Err(e),
        };
        let ghost d1 = *decoder;
        let r = borrow_decode_vec_items::<Context, D, T>(decoder, major, len);
        proof {
            let n1 = vec_head(T::byte_sized(), old(decoder).settings(), old(decoder).claimed(), old(decoder).pending())->Ok_0.1;
            if let Ok((vs, m, k2)) = vec_items(
                borrow_decoding_of::<Context, T>(),
                T::byte_sized(),
                byte_value_of::<T>(),
                size_of::<T>(),
                d1.settings(),
                d1.claimed(),
                d1.pending(),
                major,
                len,
            ) {
                assert(decoder.pending() =~= old(decoder).pending().skip((n1 + m) as int));
            }
        }
        r
    }
}

impl<T: Encode + ?Sized> Encode for Box<T> {
    open spec fn encoding(&self, c: Configuration) -> Result<Seq<u8>, EncodeError> {
        (**self).encoding(c)
    }

    fn encode<E: Encoder>(&self, encoder: &mut E) -> (r: Result<(), EncodeError>) {
        (**self).encode(encoder)
    }
}

impl<T: Model + ?Sized> Model for Box<T> {
    type V = T::V;

    open spec fn model(&self) -> T::V {
        (**self).model()
    }

    open spec fn byte_sized() -> bool {
        false
    }

    fn is_byte_sized() -> (r: bool) {
        false
    }

    open spec fn byte_value(b: u8) -> T::V {
        T::byte_value(b)
    }

    open spec fn byte_of(&self) -> u8 {
        (**self).byte_of()
    }

    fn to_byte(&self) -> (b: u8) {
        (**self).to_byte()
    }
}

impl<Context, T: Decode<Context>> Decode<Context> for Box<T> {
    open spec fn decoding(c: Configuration, k: nat, s: Seq<u8>) -> Result<(T::V, nat, nat), DecodeError> {
        T::decoding(c, k, s)
    }

    fn from_byte(b: u8) -> (r: Option<Self>) {
        None
    }

    fn decode<D: Decoder<Context = Context>>(decoder: &mut D) -> (r: Result<Self, DecodeError>) {
        match T::decode(decoder) {
            Ok(t) => Ok(Box::new(t)),
            Err(e) => Err(e),
        }
    }
}

impl<'de, Context, T: BorrowDecode<'de, Context>> BorrowDecode<'de, Context> for Box<T> {
    open spec fn borrow_decoding(c: Configuration, k: nat, s: Seq<u8>) -> Result<(T::V, nat, nat), DecodeError> {
        T::borrow_decoding(c, k, s)
    }

    fn borrow_from_byte(b: u8) -> (r: Option<Self>) {
        None
    }

    fn borrow_decode<D: BorrowDecoder<'de, Context = Context>>(decoder: &mut D) -> (r: Result<Self, DecodeError>) {
        match T::borrow_decode(decoder) {
            Ok(t) => Ok(Box::new(t)),
            Err(e) => Err(e),
        }
    }
}

impl<T: Encode + ?Sized> Encode for Rc<T> {
    open spec fn encoding(&self, c: Configuration) -> Result<Seq<u8>, EncodeError> {
        (**self).encoding(c)
    }

    fn encode<E: Encoder>(&self, encoder: &mut E) -> (r: Result<(), EncodeError>) {
        (**self).encode(encoder)
    }
}

impl<T: Model + ?Sized> Model for Rc<T> {
    type V = T::V;

    open spec fn model(&self) -> T::V {
        (**self).model()
    }

    open spec fn byte_sized() -> bool {
        false
    }

    fn is_byte_sized() -> (r: bool) {
        false
    }

    open spec fn byte_value(b: u8) -> T::V {
        T::byte_value(b)
    }

    open spec fn byte_of(&self) -> u8 {
        (**self).byte_of()
    }

    fn to_byte(&self) -> (b: u8) {
        (**self).to_byte()
    }
}

impl<Context, T: Decode<Context>> Decode<Context> for Rc<T> {
    open spec fn decoding(c: Configuration, k: nat, s: Seq<u8>) -> Result<(T::V, nat, nat), DecodeError> {
        T::decoding(c, k, s)
    }

    fn from_byte(b: u8) -> (r: Option<Self>) {
        None
    }

    fn decode<D: Decoder<Context = Context>>(decoder: &mut D) -> (r: Result<Self, DecodeError>) {
        match T::decode(decoder) {
            Ok(t) => Ok(Rc::new(t)),
            Err(e) => Err(e),
        }
    }
}

impl<'de, Context, T: BorrowDecode<'de, Context>> BorrowDecode<'de, Context> for Rc<T> {
    open spec fn borrow_decoding(c: Configuration, k: nat, s: Seq<u8>) -> Result<(T::V, nat, nat), DecodeError> {
        T::borrow_decoding(c, k, s)
    }

    fn borrow_from_byte(b: u8) -> (r: Option<Self>) {
        None
    }

    fn borrow_decode<D: BorrowDecoder<'de, Context = Context>>(decoder: &mut D) -> (r: Result<Self, DecodeError>) {
        match T::borrow_decode(decoder) {
            Ok(t) => Ok(Rc::new(t)),
            Err(e) => Err(e),
        }
    }
}

impl<T: Encode + ?Sized> Encode for Arc<T> {
    open spec fn encoding(&self, c: Configuration) -> Result<Seq<u8>, EncodeError> {
        (**self).encoding(c)
    }

    fn encode<E: Encoder>(&self, encoder: &mut E) -> (r: Result<(), EncodeError>) {
        (**self).encode(encoder)
    }
}

impl<T: Model + ?Sized> Model for Arc<T> {
    type V = T::V;

    open spec fn model(&self) -> T::V {
        (**self).model()
    }

    open spec fn byte_sized() -> bool {
        false
    }

    fn is_byte_sized() -> (r: bool) {
        false
    }

    open spec fn byte_value(b: u8) -> T::V {
        T::byte_value(b)
    }

    open spec fn byte_of(&self) -> u8 {
        (**self).byte_of()
    }

    fn to_byte(&self) -> (b: u8) {
        (**self).to_byte()
    }
}

impl<Context, T: Decode<Context>> Decode<Context> for Arc<T> {
    open spec fn decoding(c: Configuration, k: nat, s: Seq<u8>) -> Result<(T::V, nat, nat), DecodeError> {
        T::decoding(c, k, s)
    }

    fn from_byte(b: u8) -> (r: Option<Self>) {
        None
    }

    fn decode<D: Decoder<Context = Context>>(decoder: &mut D) -> (r: Result<Self, DecodeError>) {
        match T::decode(decoder) {
            Ok(t) => Ok(Arc::new(t)),
            Err(e) => Err(e),
        }
    }
}

impl<'de, Context, T: BorrowDecode<'de, Context>> BorrowDecode<'de, Context> for Arc<T> {
    open spec fn borrow_decoding(c: Configuration, k: nat, s: Seq<u8>) -> Result<(T::V, nat, nat), DecodeError> {
        T::borrow_decoding(c, k, s)
    }

    fn borrow_from_byte(b: u8) -> (r: Option<Self>) {
        None
    }

    fn borrow_decode<D: BorrowDecoder<'de, Context = Context>>(decoder: &mut D) -> (r: Result<Self, DecodeError>) {
        match T::borrow_decode(decoder) {
            Ok(t) => Ok(Arc::new(t)),
            Err(e) => Err(e),
        }
    }
}

/// Write the items of a double-ended queue one after the other, after the bytes `head` already
/// written.
fn encode_deque_items<E: Encoder, T: Encode>(encoder: &mut E, items: &VecDeque<T>, Ghost(e0): Ghost<E>, Ghost(head): Ghost<Seq<u8>>) -> (r: Result<(), EncodeError>)
    requires
        emitted(e0, *old(encoder), head, Ok(())),
    ensures
        final(encoder).settings() == e0.settings(),
        match items_encoding(items@, e0.settings()) {
            Ok(b) => emitted(e0, *final(encoder), head + b, r),
            Err(e) => r is Err,
        },
{
    let ghost c = e0.settings();
    let mut i: usize = 0;
    while i < items.len()
        invariant
            0 <= i <= items@.len(),
            c == e0.settings(),
            encoder.settings() == c,
            items_encoding(items@.take(i as int), c) is Ok,
            emitted(e0, *encoder, head + items_encoding(items@.take(i as int), c)->Ok_0, Ok(())),
        decreases items@.len() - i,
    {
        let ghost ei = *encoder;
        let ghost done = head + items_encoding(items@.take(i as int), c)->Ok_0;
        let r = items[i].encode(encoder);
        proof {
            assert(items@.take(i + 1).drop_last() =~= items@.take(i as int));
            assert(items@.take(i + 1).last() == items@[i as int]);
        }
        if r.is_err() {
            proof {
                if let Ok(t) = items_encoding(items@, c) {
                    lemma_items_prefix(items@, c, i + 1);
                    let x = items@[i as int].encoding(c)->Ok_0;
                    assert(ei.room(x.len()) == e0.room(done.len() + x.len()));
                    if e0.room((head + t).len()) {
                        e0.lemma_room_prefix((head + t).len(), done.len() + x.len());
                    }
                }
            }
            return r;
        }
        proof {
            let x = items@[i as int].encoding(c)->Ok_0;
            lemma_emitted_then(e0, ei, *encoder, done, x, Ok(()), r);
            assert(done + x =~= head + items_encoding(items@.take(i + 1), c)->Ok_0);
        }
        i = i + 1;
    }
    proof {
        assert(items@.take(items@.len() as int) =~= items@);
    }
    Ok(())
}

impl<T: Encode> Encode for VecDeque<T> {
    open spec fn encoding(&self, c: Configuration) -> Result<Seq<u8>, EncodeError> {
        match items_encoding(self@, c) {
            Ok(b) => Ok(enc_slice_len(c, self@.len()) + b),
            Err(e) => Err(e),
        }
    }

    fn encode<E: Encoder>(&self, encoder: &mut E) -> (r: Result<(), EncodeError>) {
        let ghost c = encoder.settings();
        let ghost e0 = *encoder;
        let r1 = encoder.encode_slice_len(self.len());
        if r1.is_err() {
            proof {
                if let Ok(b) = items_encoding(self@, c) {
                    lemma_emitted_then(e0, *encoder, *encoder, enc_slice_len(c, self@.len()), b, r1, r1);
                }
            }
            return r1;
        }
        encode_deque_items(encoder, self, Ghost(e0), Ghost(enc_slice_len(c, self@.len())))
    }
}

impl<T: Model> Model for VecDeque<T> {
    type V = Seq<T::V>;

    open spec fn model(&self) -> Seq<T::V> {
        models(self@)
    }

    open spec fn byte_sized() -> bool {
        false
    }

    fn is_byte_sized() -> (r: bool) {
        false
    }

    open spec fn byte_value(b: u8) -> Seq<T::V> {
        Seq::empty()
    }

    open spec fn byte_of(&self) -> u8 {
        0
    }

    fn to_byte(&self) -> (b: u8) {
        0
    }
}

/// The items of `v`, in order, in a double-ended queue.
fn deque_of<T>(v: Vec<T>) -> (d: VecDeque<T>)
    ensures
        d@ == v@,
{
    let ghost all = v@;
    let mut v = v;
    let mut d: VecDeque<T> = VecDeque::new();
    while v.len() > 0
        invariant
            v@ + d@ == all,
        decreases v@.len(),
    {
        let x = v.pop().unwrap();
        proof {
            assert(v@.push(x) + d@ =~= v@ + d@.insert(0, x));
        }
        d.push_front(x);
    }
    proof {
        assert(Seq::<T>::empty() + d@ =~= d@);
    }
    d
}

impl<Context, T: Decode<Context>> Decode<Context> for VecDeque<T> {
    open spec fn decoding(c: Configuration, k: nat, s: Seq<u8>) -> Result<(Seq<T::V>, nat, nat), DecodeError> {
        <Vec<T> as Decode<Context>>::decoding(c, k, s)
    }

    fn from_byte(b: u8) -> (r: Option<Self>) {
        None
    }

    fn decode<D: Decoder<Context = Context>>(decoder: &mut D) -> (r: Result<Self, DecodeError>) {
        match <Vec<T> as Decode<Context>>::decode(decoder) {
            Ok(v) => Ok(deque_of(v)),
            Err(e) => Err(e),
        }
    }
}

impl<'de, Context, T: BorrowDecode<'de, Context>> BorrowDecode<'de, Context> for VecDeque<T> {
    open spec fn borrow_decoding(c: Configuration, k: nat, s: Seq<u8>) -> Result<(Seq<T::V>, nat, nat), DecodeError> {
        <Vec<T> as BorrowDecode<'de, Context>>::borrow_decoding(c, k, s)
    }

    fn borrow_from_byte(b: u8) -> (r: Option<Self>) {
        None
    }

    fn borrow_decode<D: BorrowDecoder<'de, Context = Context>>(decoder: &mut D) -> (r: Result<Self, DecodeError>) {
        match <Vec<T> as BorrowDecode<'de, Context>>::borrow_decode(decoder) {
            Ok(v) => Ok(deque_of(v)),
            Err(e) => Err(e),
        }
    }
}

} // verus!
