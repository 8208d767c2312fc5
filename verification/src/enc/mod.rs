//! Encoder-based structs and traits.
use crate::bytes::endian_bytes;
use crate::config::{Configuration, Format, IntEncoding};
use crate::enc::cbor::{cbor_bool, cbor_head, cbor_int, cbor_len_head, cbor_uint};
use crate::enc::write::Writer;
use crate::error::EncodeError;
use crate::float_bits::{enc_f32, enc_f64};
use crate::varint::{varint_bytes, zigzag};
use vstd::prelude::*;
use vstd::string::StringSliceAdditionalSpecFns;

pub mod bit_writer;
pub mod cbor;
mod encoder;
mod impl_tuples;
mod impls;
pub mod write;

pub use self::encoder::EncoderImpl;

verus! {

/// Whether the configuration writes the bincode format (plain or deterministic).
pub open spec fn is_bincode(c: Configuration) -> bool {
    c.format == Format::Bincode || c.format == Format::BincodeDeterministic
}

/// The two's complement of `v` in `width` bytes, as a non-negative number.
pub open spec fn twos_complement(v: int, width: nat) -> nat {
    if v >= 0 {
        v as nat
    } else {
        (crate::bytes::pow256(width) + v) as nat
    }
}

/// The bytes of an unsigned integer `v` of `width` bytes (2, 4, 8 or 16) under configuration `c`.
pub open spec fn enc_uint(c: Configuration, v: nat, width: nat) -> Seq<u8> {
    if is_bincode(c) {
        match c.int_encoding {
            IntEncoding::Variable => varint_bytes(c.endian, v),
            IntEncoding::Fixed => endian_bytes(c.endian, v, width),
        }
    } else {
        cbor_uint(v)
    }
}

/// The bytes of a signed integer `v` of `width` bytes (2, 4, 8 or 16) under configuration `c`.
pub open spec fn enc_int(c: Configuration, v: int, width: nat) -> Seq<u8> {
    if is_bincode(c) {
        match c.int_encoding {
            IntEncoding::Variable => varint_bytes(c.endian, zigzag(v)),
            IntEncoding::Fixed => endian_bytes(c.endian, twos_complement(v, width), width),
        }
    } else {
        cbor_int(v)
    }
}

/// The bytes of a `u8`: the byte itself in bincode.
pub open spec fn enc_u8(c: Configuration, v: u8) -> Seq<u8> {
    if is_bincode(c) {
        seq![v]
    } else {
        cbor_head(0, v as nat)
    }
}

/// The bytes of an `i8`: the byte of its two's complement in bincode.
pub open spec fn enc_i8(c: Configuration, v: i8) -> Seq<u8> {
    if is_bincode(c) {
        seq![v as u8]
    } else {
        cbor_int(v as int)
    }
}

/// The bytes of a `bool`: `0` or `1` in bincode.
pub open spec fn enc_bool(c: Configuration, v: bool) -> Seq<u8> {
    if is_bincode(c) {
        seq![if v { 1u8 } else { 0u8 }]
    } else {
        cbor_bool(v)
    }
}

/// The bytes of the length of a sequence (a slice, a `Vec`, a string's bytes).
pub open spec fn enc_slice_len(c: Configuration, len: nat) -> Seq<u8> {
    if is_bincode(c) {
        enc_uint(c, len, 8)
    } else {
        cbor_len_head(4, len, usize::MAX as nat)
    }
}

/// The bytes of the length of a map.
pub open spec fn enc_map_len(c: Configuration, len: nat) -> Seq<u8> {
    if is_bincode(c) {
        enc_uint(c, len, 8)
    } else {
        cbor_len_head(5, len, usize::MAX as nat)
    }
}

/// The bytes of the length of a byte string.
pub open spec fn enc_byte_slice_len(c: Configuration, len: nat) -> Seq<u8> {
    if is_bincode(c) {
        enc_uint(c, len, 8)
    } else {
        cbor_len_head(2, len, u64::MAX as nat)
    }
}

/// The bytes of a byte string: its length, then the bytes.
pub open spec fn enc_byte_slice(c: Configuration, b: Seq<u8>) -> Seq<u8> {
    if is_bincode(c) {
        enc_slice_len(c, b.len()) + b
    } else {
        cbor_head(2, b.len()) + b
    }
}

/// The bytes of a text string (given by its UTF-8 bytes): its length, then the bytes.
pub open spec fn enc_str(c: Configuration, b: Seq<u8>) -> Seq<u8> {
    if is_bincode(c) {
        enc_slice_len(c, b.len()) + b
    } else {
        cbor_head(3, b.len()) + b
    }
}

/// The bytes of a struct header: nothing in bincode, an array head of the field count in CBOR.
pub open spec fn enc_struct_header(c: Configuration, len: nat) -> Seq<u8> {
    if is_bincode(c) {
        Seq::empty()
    } else {
        cbor_len_head(4, len, usize::MAX as nat)
    }
}

/// The bytes of an enum variant index: a `u32` in bincode (a varint, or four bytes with fixed-width
/// integers).
pub open spec fn enc_variant_index(c: Configuration, idx: u32) -> Seq<u8> {
    if is_bincode(c) {
        enc_uint(c, idx as nat, 4)
    } else {
        cbor_head(0, idx as nat)
    }
}

/// How an encoding step that returned `r` took the encoder from `before` to `after`: it succeeded
/// exactly when `bytes` fitted, and then `bytes` were appended; the configuration stays.
pub open spec fn emitted<E: Encoder>(
    before: E,
    after: E,
    bytes: Seq<u8>,
    r: Result<(), EncodeError>,
) -> bool {
    &&& after.settings() == before.settings()
    &&& (r is Ok <==> before.room(bytes.len()))
    &&& (r is Ok ==> after.written() == before.written() + bytes)
    &&& (r is Ok ==> forall|n: nat| #[trigger] after.room(n) == before.room(bytes.len() + n))
}

/// How an encoding step with outcome `expected` took the encoder from `before` to `after`: when
/// the value has bytes, as [emitted] says; when it is refused, the step fails (with the refusal,
/// or earlier for want of room) and the configuration stays.
pub open spec fn emitted_or<E: Encoder>(
    before: E,
    after: E,
    expected: Result<Seq<u8>, EncodeError>,
    r: Result<(), EncodeError>,
) -> bool {
    match expected {
        Ok(bytes) => emitted(before, after, bytes, r),
        Err(e) => r is Err && after.settings() == before.settings(),
    }
}

/// Two encoding steps in a row behave as one step that emits both byte runs.
pub proof fn lemma_emitted_then<E: Encoder>(
    e0: E,
    e1: E,
    e2: E,
    a: Seq<u8>,
    b: Seq<u8>,
    r1: Result<(), EncodeError>,
    r2: Result<(), EncodeError>,
)
    requires
        emitted(e0, e1, a, r1),
        r1 is Ok ==> emitted(e1, e2, b, r2),
    ensures
        r1 is Ok ==> emitted(e0, e2, a + b, r2),
        r1 is Err ==> !e0.room((a + b).len()),
{
    if r1 is Err {
        if e0.room((a + b).len()) {
            e0.lemma_room_prefix((a + b).len(), a.len());
        }
    } else {
        assert(e1.room(b.len()) == e0.room(a.len() + b.len()));
        if r2 is Ok {
            assert(e2.written() == e0.written() + (a + b));
            assert forall|n: nat| #[trigger] e2.room(n) == e0.room((a + b).len() + n) by {
                assert(e2.room(n) == e1.room(b.len() + n));
                assert(e1.room(b.len() + n) == e0.room(a.len() + (b.len() + n)));
            }
        }
    }
}

/// Any source that can be encoded. This trait should be implemented for all types that you want to be able to use with any of the `encode_with` methods.
///
/// `encoding` says what the value becomes under a configuration: its bytes, or the error that
/// refuses it before anything is written.
pub trait Encode {
    /// What this value is written as under the configuration `c`.
    spec fn encoding(&self, c: Configuration) -> Result<Seq<u8>, EncodeError>;

    /// Encode a given type.
    fn encode<E: Encoder>(&self, encoder: &mut E) -> (r: Result<(), EncodeError>)
        ensures
            emitted_or(*old(encoder), *final(encoder), self.encoding(old(encoder).settings()), r),
    ;
}

/// Helper trait to encode basic types into.
///
/// An encoder is seen as the bytes written so far (`written`), a capacity test (`room`) and its
/// configuration (`settings`).
pub trait Encoder: Sized {
    /// The concrete [Writer] type
    type W: Writer;

    /// The bytes written so far.
    spec fn written(&self) -> Seq<u8>;

    /// Whether `n` more bytes fit.
    spec fn room(&self, n: nat) -> bool;

    /// The configuration this encoder writes with.
    spec fn settings(&self) -> Configuration;

    /// Room for some bytes is room for fewer bytes too.
    proof fn lemma_room_prefix(&self, n: nat, m: nat)
        requires
            self.room(n),
            m <= n,
        ensures
            self.room(m),
    ;

    /// There is always room for nothing.
    proof fn lemma_room_empty(&self)
        ensures
            self.room(0),
    ;

    /// The configuration this encoder writes with.
    fn configuration(&self) -> (c: Configuration)
        ensures
            c == self.settings(),
    ;

    /// Write bytes as they are.
    fn write_bytes(&mut self, bytes: &[u8]) -> (r: Result<(), EncodeError>)
        ensures
            final(self).settings() == old(self).settings(),
            r is Ok <==> old(self).room(bytes@.len()),
            r is Ok ==> final(self).written() == old(self).written() + bytes@,
            r is Ok ==> forall|n: nat| #[trigger]
                final(self).room(n) == old(self).room(bytes@.len() + n),
    ;

    /// Encode a `u8` value.
    fn encode_u8(&mut self, val: u8) -> (r: Result<(), EncodeError>)
        ensures
            final(self).settings() == old(self).settings(),
            r is Ok <==> old(self).room(enc_u8(old(self).settings(), val).len()),
            r is Ok ==> final(self).written() == old(self).written() + enc_u8(old(self).settings(), val),
            r is Ok ==> forall|n: nat| #[trigger]
                final(self).room(n) == old(self).room(enc_u8(old(self).settings(), val).len() + n),
    ;

    /// Encode a `u16` value.
    fn encode_u16(&mut self, val: u16) -> (r: Result<(), EncodeError>)
        ensures
            final(self).settings() == old(self).settings(),
            r is Ok <==> old(self).room(enc_uint(old(self).settings(), val as nat, 2).len()),
            r is Ok ==> final(self).written() == old(self).written() + enc_uint(old(self).settings(), val as nat, 2),
            r is Ok ==> forall|n: nat| #[trigger]
                final(self).room(n) == old(self).room(enc_uint(old(self).settings(), val as nat, 2).len() + n),
    ;

    /// Encode a `u32` value.
    fn encode_u32(&mut self, val: u32) -> (r: Result<(), EncodeError>)
        ensures
            final(self).settings() == old(self).settings(),
            r is Ok <==> old(self).room(enc_uint(old(self).settings(), val as nat, 4).len()),
            r is Ok ==> final(self).written() == old(self).written() + enc_uint(old(self).settings(), val as nat, 4),
            r is Ok ==> forall|n: nat| #[trigger]
                final(self).room(n) == old(self).room(enc_uint(old(self).settings(), val as nat, 4).len() + n),
    ;

    /// Encode a `u64` value.
    fn encode_u64(&mut self, val: u64) -> (r: Result<(), EncodeError>)
        ensures
            final(self).settings() == old(self).settings(),
            r is Ok <==> old(self).room(enc_uint(old(self).settings(), val as nat, 8).len()),
            r is Ok ==> final(self).written() == old(self).written() + enc_uint(old(self).settings(), val as nat, 8),
            r is Ok ==> forall|n: nat| #[trigger]
                final(self).room(n) == old(self).room(enc_uint(old(self).settings(), val as nat, 8).len() + n),
    ;

    /// Encode a `u128` value.
    fn encode_u128(&mut self, val: u128) -> (r: Result<(), EncodeError>)
        ensures
            final(self).settings() == old(self).settings(),
            r is Ok <==> old(self).room(enc_uint(old(self).settings(), val as nat, 16).len()),
            r is Ok ==> final(self).written() == old(self).written() + enc_uint(old(self).settings(), val as nat, 16),
            r is Ok ==> forall|n: nat| #[trigger]
                final(self).room(n) == old(self).room(enc_uint(old(self).settings(), val as nat, 16).len() + n),
    ;

    /// Encode a `usize` value, as a `u64`.
    fn encode_usize(&mut self, val: usize) -> (r: Result<(), EncodeError>)
        ensures
            final(self).settings() == old(self).settings(),
            r is Ok <==> old(self).room(enc_uint(old(self).settings(), val as nat, 8).len()),
            r is Ok ==> final(self).written() == old(self).written() + enc_uint(old(self).settings(), val as nat, 8),
            r is Ok ==> forall|n: nat| #[trigger]
                final(self).room(n) == old(self).room(enc_uint(old(self).settings(), val as nat, 8).len() + n),
    ;

    /// Encode an `i8` value.
    fn encode_i8(&mut self, val: i8) -> (r: Result<(), EncodeError>)
        ensures
            final(self).settings() == old(self).settings(),
            r is Ok <==> old(self).room(enc_i8(old(self).settings(), val).len()),
            r is Ok ==> final(self).written() == old(self).written() + enc_i8(old(self).settings(), val),
            r is Ok ==> forall|n: nat| #[trigger]
                final(self).room(n) == old(self).room(enc_i8(old(self).settings(), val).len() + n),
    ;

    /// Encode an `i16` value.
    fn encode_i16(&mut self, val: i16) -> (r: Result<(), EncodeError>)
        ensures
            final(self).settings() == old(self).settings(),
            r is Ok <==> old(self).room(enc_int(old(self).settings(), val as int, 2).len()),
            r is Ok ==> final(self).written() == old(self).written() + enc_int(old(self).settings(), val as int, 2),
            r is Ok ==> forall|n: nat| #[trigger]
                final(self).room(n) == old(self).room(enc_int(old(self).settings(), val as int, 2).len() + n),
    ;

    /// Encode an `i32` value.
    fn encode_i32(&mut self, val: i32) -> (r: Result<(), EncodeError>)
        ensures
            final(self).settings() == old(self).settings(),
            r is Ok <==> old(self).room(enc_int(old(self).settings(), val as int, 4).len()),
            r is Ok ==> final(self).written() == old(self).written() + enc_int(old(self).settings(), val as int, 4),
            r is Ok ==> forall|n: nat| #[trigger]
                final(self).room(n) == old(self).room(enc_int(old(self).settings(), val as int, 4).len() + n),
    ;

    /// Encode an `i64` value.
    fn encode_i64(&mut self, val: i64) -> (r: Result<(), EncodeError>)
        ensures
            final(self).settings() == old(self).settings(),
            r is Ok <==> old(self).room(enc_int(old(self).settings(), val as int, 8).len()),
            r is Ok ==> final(self).written() == old(self).written() + enc_int(old(self).settings(), val as int, 8),
            r is Ok ==> forall|n: nat| #[trigger]
                final(self).room(n) == old(self).room(enc_int(old(self).settings(), val as int, 8).len() + n),
    ;

    /// Encode an `i128` value.
    fn encode_i128(&mut self, val: i128) -> (r: Result<(), EncodeError>)
        ensures
            final(self).settings() == old(self).settings(),
            r is Ok <==> old(self).room(enc_int(old(self).settings(), val as int, 16).len()),
            r is Ok ==> final(self).written() == old(self).written() + enc_int(old(self).settings(), val as int, 16),
            r is Ok ==> forall|n: nat| #[trigger]
                final(self).room(n) == old(self).room(enc_int(old(self).settings(), val as int, 16).len() + n),
    ;

    /// Encode an `isize` value, as an `i64`.
    fn encode_isize(&mut self, val: isize) -> (r: Result<(), EncodeError>)
        ensures
            final(self).settings() == old(self).settings(),
            r is Ok <==> old(self).room(enc_int(old(self).settings(), val as int, 8).len()),
            r is Ok ==> final(self).written() == old(self).written() + enc_int(old(self).settings(), val as int, 8),
            r is Ok ==> forall|n: nat| #[trigger]
                final(self).room(n) == old(self).room(enc_int(old(self).settings(), val as int, 8).len() + n),
    ;

    /// Encode a `bool` value.
    fn encode_bool(&mut self, val: bool) -> (r: Result<(), EncodeError>)
        ensures
            final(self).settings() == old(self).settings(),
            r is Ok <==> old(self).room(enc_bool(old(self).settings(), val).len()),
            r is Ok ==> final(self).written() == old(self).written() + enc_bool(old(self).settings(), val),
            r is Ok ==> forall|n: nat| #[trigger]
                final(self).room(n) == old(self).room(enc_bool(old(self).settings(), val).len() + n),
    ;

    /// Encode an `f32`, given by its bits.
    fn encode_f32(&mut self, bits: u32) -> (r: Result<(), EncodeError>)
        ensures
            final(self).settings() == old(self).settings(),
            r is Ok <==> old(self).room(enc_f32(old(self).settings(), bits).len()),
            r is Ok ==> final(self).written() == old(self).written() + enc_f32(old(self).settings(), bits),
            r is Ok ==> forall|n: nat| #[trigger]
                final(self).room(n) == old(self).room(enc_f32(old(self).settings(), bits).len() + n),
    ;

    /// Encode an `f64`, given by its bits and by the bits of the `f32` that holds it exactly,
    /// where there is one (CBOR writes that in its place where shorter forms are preferred).
    fn encode_f64(&mut self, bits: u64, narrowed: Option<u32>) -> (r: Result<(), EncodeError>)
        ensures
            final(self).settings() == old(self).settings(),
            r is Ok <==> old(self).room(enc_f64(old(self).settings(), bits, narrowed).len()),
            r is Ok ==> final(self).written() == old(self).written() + enc_f64(
                old(self).settings(),
                bits,
                narrowed,
            ),
            r is Ok ==> forall|n: nat| #[trigger]
                final(self).room(n) == old(self).room(
                    enc_f64(old(self).settings(), bits, narrowed).len() + n,
                ),
    ;

    /// Encode a string.
    fn encode_str(&mut self, val: &str) -> (r: Result<(), EncodeError>)
        ensures
            final(self).settings() == old(self).settings(),
            r is Ok <==> old(self).room(enc_str(old(self).settings(), val.spec_bytes()).len()),
            r is Ok ==> final(self).written() == old(self).written() + enc_str(old(self).settings(), val.spec_bytes()),
            r is Ok ==> forall|n: nat| #[trigger]
                final(self).room(n) == old(self).room(enc_str(old(self).settings(), val.spec_bytes()).len() + n),
    ;

    /// Encode the length of a slice.
    fn encode_slice_len(&mut self, len: usize) -> (r: Result<(), EncodeError>)
        ensures
            final(self).settings() == old(self).settings(),
            r is Ok <==> old(self).room(enc_slice_len(old(self).settings(), len as nat).len()),
            r is Ok ==> final(self).written() == old(self).written() + enc_slice_len(old(self).settings(), len as nat),
            r is Ok ==> forall|n: nat| #[trigger]
                final(self).room(n) == old(self).room(enc_slice_len(old(self).settings(), len as nat).len() + n),
    ;

    /// Encode the length of an array.
    fn encode_array_len(&mut self, len: usize) -> (r: Result<(), EncodeError>)
        ensures
            final(self).settings() == old(self).settings(),
            r is Ok <==> old(self).room(enc_slice_len(old(self).settings(), len as nat).len()),
            r is Ok ==> final(self).written() == old(self).written() + enc_slice_len(old(self).settings(), len as nat),
            r is Ok ==> forall|n: nat| #[trigger]
                final(self).room(n) == old(self).room(enc_slice_len(old(self).settings(), len as nat).len() + n),
    ;

    /// Encode the length of a map.
    fn encode_map_len(&mut self, len: usize) -> (r: Result<(), EncodeError>)
        ensures
            final(self).settings() == old(self).settings(),
            r is Ok <==> old(self).room(enc_map_len(old(self).settings(), len as nat).len()),
            r is Ok ==> final(self).written() == old(self).written() + enc_map_len(old(self).settings(), len as nat),
            r is Ok ==> forall|n: nat| #[trigger]
                final(self).room(n) == old(self).room(enc_map_len(old(self).settings(), len as nat).len() + n),
    ;

    /// Encode a byte slice.
    fn encode_byte_slice(&mut self, val: &[u8]) -> (r: Result<(), EncodeError>)
        ensures
            final(self).settings() == old(self).settings(),
            r is Ok <==> old(self).room(enc_byte_slice(old(self).settings(), val@).len()),
            r is Ok ==> final(self).written() == old(self).written() + enc_byte_slice(old(self).settings(), val@),
            r is Ok ==> forall|n: nat| #[trigger]
                final(self).room(n) == old(self).room(enc_byte_slice(old(self).settings(), val@).len() + n),
    ;

    /// Encode a struct header.
    fn encode_struct_header(&mut self, len: usize) -> (r: Result<(), EncodeError>)
        ensures
            final(self).settings() == old(self).settings(),
            r is Ok <==> old(self).room(enc_struct_header(old(self).settings(), len as nat).len()),
            r is Ok ==> final(self).written() == old(self).written() + enc_struct_header(old(self).settings(), len as nat),
            r is Ok ==> forall|n: nat| #[trigger]
                final(self).room(n) == old(self).room(enc_struct_header(old(self).settings(), len as nat).len() + n),
    ;

    /// Encode the length of a byte slice.
    fn encode_byte_slice_len(&mut self, len: usize) -> (r: Result<(), EncodeError>)
        ensures
            final(self).settings() == old(self).settings(),
            r is Ok <==> old(self).room(enc_byte_slice_len(old(self).settings(), len as nat).len()),
            r is Ok ==> final(self).written() == old(self).written() + enc_byte_slice_len(old(self).settings(), len as nat),
            r is Ok ==> forall|n: nat| #[trigger]
                final(self).room(n) == old(self).room(enc_byte_slice_len(old(self).settings(), len as nat).len() + n),
    ;

    /// Encode an enum variant index.
    ///
    /// Variant indices are encoded as a single `u8` for the bincode format, matching the decode
    /// side which reads a `u8`.
    fn encode_variant_index(&mut self, idx: u32) -> (r: Result<(), EncodeError>)
        ensures
            final(self).settings() == old(self).settings(),
            r is Ok <==> old(self).room(enc_variant_index(old(self).settings(), idx).len()),
            r is Ok ==> final(self).written() == old(self).written() + enc_variant_index(old(self).settings(), idx),
            r is Ok ==> forall|n: nat| #[trigger]
                final(self).room(n) == old(self).room(enc_variant_index(old(self).settings(), idx).len() + n),
    ;
}

} // verus!
