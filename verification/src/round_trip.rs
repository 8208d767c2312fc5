//! Decoding what was encoded gives the value back.
//!
//! For every configuration, a value's bytes followed by anything decode to the value again, and
//! exactly its bytes are taken. Types whose decoding claims bytes against the configured limit
//! may instead be refused with `LimitExceeded`.
use crate::bytes::{
    endian_bytes, le_bytes, lemma_endian_bytes_len, lemma_endian_round_trip, lemma_le_round_trip,
    lemma_pow256_values, pow256,
};
use crate::config::{
    fingerprint_taken, Config, Configuration, FingerprintDisabled, FingerprintEnabled,
    InternalFingerprintGuard, IntEncoding,
};
use crate::fingerprint::Fingerprint;
use crate::de::cbor::{
    lemma_cbor_bool_round_trip, lemma_cbor_i128_round_trip, lemma_cbor_i64_round_trip,
    lemma_cbor_small_int_round_trip, lemma_cbor_u128_round_trip, lemma_cbor_uint_round_trip,
};
use crate::de::{claim, dec_len_of, BorrowDecode, Model, dec_int, dec_uint, from_twos_complement, take_exact, uint_type, Decode};
use crate::de::cbor::lemma_cbor_head_round_trip;
use crate::de::impls::utf8_char_width;
use crate::enc::cbor::cbor_head;
use crate::enc::{enc_int, enc_slice_len, enc_str, enc_u8, enc_uint, enc_variant_index, is_bincode, twos_complement, Encode};
use crate::features::impl_alloc::{
    byte_value_of, decoding_of, items_decoding, items_encoding, models, shifted, vec_head, vec_items,
};
use crate::features::impl_arrays::bytes_of;
use crate::features::bounded::{after_give_back, bounded_decoding_of, BoundedString, BoundedVec};
use crate::{framed_decoding, framed_encoding};
use crate::error::{DecodeError, EncodeError};
use crate::varint::{lemma_unzigzag_zigzag, lemma_varint_round_trip, varint_bytes, zigzag};
use std::borrow::Cow;
use std::collections::VecDeque;
use std::marker::PhantomData;
use std::ops::{Range, RangeInclusive};
use std::rc::Rc;
use std::sync::Arc;
use vstd::prelude::*;
use vstd::string::StringSliceAdditionalSpecFns;
use vstd::utf8::{
    char_is_scalar, char_u32_cast, encode_scalar, encode_utf8, encode_utf8_decode_utf8,
    encode_utf8_valid_utf8, has_width_1_encoding, has_width_2_encoding, has_width_3_encoding,
    leading_byte_width_2,
};

verus! {

/// An unsigned integer of `width` bytes, written under any configuration and followed by
/// anything, reads back as itself and takes exactly its bytes.
pub proof fn lemma_uint_round_trip(c: Configuration, v: nat, width: nat, rest: Seq<u8>)
    requires
        width == 2 || width == 4 || width == 8 || width == 16,
        v < pow256(width),
    ensures
        dec_uint(c, enc_uint(c, v, width) + rest, width) == Ok::<(nat, nat), DecodeError>(
            (v, enc_uint(c, v, width).len()),
        ),
{
    lemma_pow256_values();
    if is_bincode(c) {
        match c.int_encoding {
            IntEncoding::Variable => {
                lemma_varint_round_trip(c.endian, uint_type(width), v, rest);
            },
            IntEncoding::Fixed => {
                let b = endian_bytes(c.endian, v, width);
                lemma_endian_round_trip(c.endian, v, width);
                assert((b + rest).take(width as int) =~= b);
            },
        }
    } else if width == 16 {
        lemma_cbor_u128_round_trip(v, rest);
    } else {
        lemma_cbor_uint_round_trip(v, (pow256(width) - 1) as nat, rest);
    }
}

/// The zigzag of a signed integer of `width` bytes fits in `width` bytes.
proof fn lemma_zigzag_bound(v: int, p: nat)
    requires
        p >= 2,
        p % 2 == 0,
        -(p / 2) <= v < p / 2,
    ensures
        zigzag(v) < p,
{
}

/// Reading back the two's complement of a signed integer of `width` bytes gives the integer.
proof fn lemma_twos_complement_round_trip(v: int, width: nat)
    requires
        width == 2 || width == 4 || width == 8 || width == 16,
        -(pow256(width) / 2) <= v < pow256(width) / 2,
    ensures
        twos_complement(v, width) < pow256(width),
        from_twos_complement(twos_complement(v, width), width) == v,
{
    lemma_pow256_values();
}

/// A signed integer of `width` bytes, written under any configuration and followed by anything,
/// reads back as itself and takes exactly its bytes.
pub proof fn lemma_int_round_trip(c: Configuration, v: int, width: nat, rest: Seq<u8>)
    requires
        width == 2 || width == 4 || width == 8 || width == 16,
        -(pow256(width) / 2) <= v < pow256(width) / 2,
    ensures
        dec_int(c, enc_int(c, v, width) + rest, width) == Ok::<(int, nat), DecodeError>(
            (v, enc_int(c, v, width).len()),
        ),
{
    lemma_pow256_values();
    if is_bincode(c) {
        match c.int_encoding {
            IntEncoding::Variable => {
                lemma_zigzag_bound(v, pow256(width));
                lemma_varint_round_trip(c.endian, uint_type(width), zigzag(v), rest);
                lemma_unzigzag_zigzag(v);
            },
            IntEncoding::Fixed => {
                lemma_twos_complement_round_trip(v, width);
                let t = twos_complement(v, width);
                let b = endian_bytes(c.endian, t, width);
                lemma_endian_round_trip(c.endian, t, width);
                assert((b + rest).take(width as int) =~= b);
            },
        }
    } else if width == 2 {
        lemma_cbor_small_int_round_trip(v, -0x8000, 0x7FFF, rest);
    } else if width == 4 {
        lemma_cbor_small_int_round_trip(v, -0x8000_0000, 0x7FFF_FFFF, rest);
    } else if width == 8 {
        lemma_cbor_i64_round_trip(v, rest);
    } else {
        lemma_cbor_i128_round_trip(v, rest);
    }
}

/// A `u16` decodes from its own bytes, followed by anything, under every configuration.
pub proof fn lemma_u16_round_trip(v: u16, c: Configuration, k: nat, rest: Seq<u8>)
    ensures
        v.encoding(c) matches Ok(b) && <u16 as Decode<()>>::decoding(c, k, b + rest) == Ok::<
            (u16, nat, nat),
            DecodeError,
        >((v, b.len(), k)),
{
    lemma_pow256_values();
    lemma_uint_round_trip(c, v as nat, 2, rest);
}

/// A `u32` decodes from its own bytes, followed by anything, under every configuration.
pub proof fn lemma_u32_round_trip(v: u32, c: Configuration, k: nat, rest: Seq<u8>)
    ensures
        v.encoding(c) matches Ok(b) && <u32 as Decode<()>>::decoding(c, k, b + rest) == Ok::<
            (u32, nat, nat),
            DecodeError,
        >((v, b.len(), k)),
{
    lemma_pow256_values();
    lemma_uint_round_trip(c, v as nat, 4, rest);
}

/// A `u64` decodes from its own bytes, followed by anything, under every configuration.
pub proof fn lemma_u64_round_trip(v: u64, c: Configuration, k: nat, rest: Seq<u8>)
    ensures
        v.encoding(c) matches Ok(b) && <u64 as Decode<()>>::decoding(c, k, b + rest) == Ok::<
            (u64, nat, nat),
            DecodeError,
        >((v, b.len(), k)),
{
    lemma_pow256_values();
    lemma_uint_round_trip(c, v as nat, 8, rest);
}

/// A `u128` decodes from its own bytes, followed by anything, under every configuration.
pub proof fn lemma_u128_round_trip(v: u128, c: Configuration, k: nat, rest: Seq<u8>)
    ensures
        v.encoding(c) matches Ok(b) && <u128 as Decode<()>>::decoding(c, k, b + rest) == Ok::<
            (u128, nat, nat),
            DecodeError,
        >((v, b.len(), k)),
{
    lemma_pow256_values();
    lemma_uint_round_trip(c, v as nat, 16, rest);
}

/// An `i16` decodes from its own bytes, followed by anything, under every configuration.
pub proof fn lemma_i16_round_trip(v: i16, c: Configuration, k: nat, rest: Seq<u8>)
    ensures
        v.encoding(c) matches Ok(b) && <i16 as Decode<()>>::decoding(c, k, b + rest) == Ok::<
            (i16, nat, nat),
            DecodeError,
        >((v, b.len(), k)),
{
    lemma_pow256_values();
    lemma_int_round_trip(c, v as int, 2, rest);
}

/// An `i32` decodes from its own bytes, followed by anything, under every configuration.
pub proof fn lemma_i32_round_trip(v: i32, c: Configuration, k: nat, rest: Seq<u8>)
    ensures
        v.encoding(c) matches Ok(b) && <i32 as Decode<()>>::decoding(c, k, b + rest) == Ok::<
            (i32, nat, nat),
            DecodeError,
        >((v, b.len(), k)),
{
    lemma_pow256_values();
    lemma_int_round_trip(c, v as int, 4, rest);
}

/// An `i64` decodes from its own bytes, followed by anything, under every configuration.
pub proof fn lemma_i64_round_trip(v: i64, c: Configuration, k: nat, rest: Seq<u8>)
    ensures
        v.encoding(c) matches Ok(b) && <i64 as Decode<()>>::decoding(c, k, b + rest) == Ok::<
            (i64, nat, nat),
            DecodeError,
        >((v, b.len(), k)),
{
    lemma_pow256_values();
    lemma_int_round_trip(c, v as int, 8, rest);
}

/// An `i128` decodes from its own bytes, followed by anything, under every configuration.
pub proof fn lemma_i128_round_trip(v: i128, c: Configuration, k: nat, rest: Seq<u8>)
    ensures
        v.encoding(c) matches Ok(b) && <i128 as Decode<()>>::decoding(c, k, b + rest) == Ok::<
            (i128, nat, nat),
            DecodeError,
        >((v, b.len(), k)),
{
    lemma_pow256_values();
    lemma_int_round_trip(c, v as int, 16, rest);
}

/// A `usize` decodes from its own bytes, followed by anything, under every configuration, once
/// the 8 bytes it claims are granted; else the limit refuses it.
pub proof fn lemma_usize_round_trip(v: usize, c: Configuration, k: nat, rest: Seq<u8>)
    ensures
        v.encoding(c) matches Ok(b) && <usize as Decode<()>>::decoding(c, k, b + rest) == match claim(c, k, 8) {
            Ok(k2) => Ok::<(usize, nat, nat), DecodeError>((v, b.len(), k2)),
            Err(e) => Err(e),
        },
        claim(c, k, 8) is Err ==> claim(c, k, 8) == Err::<nat, DecodeError>(DecodeError::LimitExceeded),
{
    lemma_pow256_values();
    lemma_uint_round_trip(c, v as nat, 8, rest);
}

/// An `isize` decodes from its own bytes, followed by anything, under every configuration, once
/// the 8 bytes it claims are granted; else the limit refuses it.
pub proof fn lemma_isize_round_trip(v: isize, c: Configuration, k: nat, rest: Seq<u8>)
    ensures
        v.encoding(c) matches Ok(b) && <isize as Decode<()>>::decoding(c, k, b + rest) == match claim(c, k, 8) {
            Ok(k2) => Ok::<(isize, nat, nat), DecodeError>((v, b.len(), k2)),
            Err(e) => Err(e),
        },
        claim(c, k, 8) is Err ==> claim(c, k, 8) == Err::<nat, DecodeError>(DecodeError::LimitExceeded),
{
    lemma_pow256_values();
    lemma_int_round_trip(c, v as int, 8, rest);
}

/// A `u8` decodes from its own bytes, followed by anything, under every configuration.
pub proof fn lemma_u8_round_trip(v: u8, c: Configuration, k: nat, rest: Seq<u8>)
    ensures
        v.encoding(c) matches Ok(b) && <u8 as Decode<()>>::decoding(c, k, b + rest) == Ok::<
            (u8, nat, nat),
            DecodeError,
        >((v, b.len(), k)),
{
    if is_bincode(c) {
        assert((seq![v] + rest).take(1) =~= seq![v]);
    } else {
        lemma_cbor_uint_round_trip(v as nat, 0xFF, rest);
    }
}

/// An `i8` decodes from its own bytes, followed by anything, under every configuration.
pub proof fn lemma_i8_round_trip(v: i8, c: Configuration, k: nat, rest: Seq<u8>)
    ensures
        v.encoding(c) matches Ok(b) && <i8 as Decode<()>>::decoding(c, k, b + rest) == Ok::<
            (i8, nat, nat),
            DecodeError,
        >((v, b.len(), k)),
{
    if is_bincode(c) {
        assert((seq![v as u8] + rest).take(1) =~= seq![v as u8]);
        assert((v as u8) as i8 == v) by (bit_vector);
    } else {
        lemma_cbor_small_int_round_trip(v as int, -0x80, 0x7F, rest);
    }
}

/// A `bool` decodes from its own bytes, followed by anything, under every configuration.
pub proof fn lemma_bool_round_trip(v: bool, c: Configuration, k: nat, rest: Seq<u8>)
    ensures
        v.encoding(c) matches Ok(b) && <bool as Decode<()>>::decoding(c, k, b + rest) == Ok::<
            (bool, nat, nat),
            DecodeError,
        >((v, b.len(), k)),
{
    if is_bincode(c) {
        let byte: u8 = if v { 1 } else { 0 };
        assert((seq![byte] + rest).take(1) =~= seq![byte]);
    } else {
        lemma_cbor_bool_round_trip(v, rest);
    }
}

/// The first byte of the UTF-8 encoding of a character tells the length of the encoding.
proof fn lemma_utf8_width(v: char)
    ensures
        utf8_char_width(encode_scalar(v as u32)[0]) == encode_scalar(v as u32).len(),
{
    let code = v as u32;
    char_is_scalar(v);
    if has_width_1_encoding(code) {
        assert((code & 0x7F) as u8 <= 0x7F) by (bit_vector);
    } else if has_width_2_encoding(code) {
        let b0 = leading_byte_width_2(code);
        assert(0xC2 <= 0xC0 | ((code >> 6) & 0x1F) as u8 <= 0xDF) by (bit_vector)
            requires 0x80 <= code <= 0x7FF;
    } else if has_width_3_encoding(code) {
        assert(0xE0 <= 0xE0 | ((code >> 12) & 0x0F) as u8 <= 0xEF) by (bit_vector)
            requires 0x800 <= code <= 0xFFFF;
    } else {
        assert(0xF0 <= 0xF0 | ((code >> 18) & 0x7) as u8 <= 0xF4) by (bit_vector)
            requires 0x10000 <= code <= 0x10FFFF;
    }
}

/// A `char` decodes from its own bytes, followed by anything, under every configuration, once the
/// bytes of its encoding are granted against the limit.
pub proof fn lemma_char_round_trip(v: char, c: Configuration, k: nat, rest: Seq<u8>)
    ensures
        v.encoding(c) matches Ok(b) && <char as Decode<()>>::decoding(c, k, b + rest) == match claim(c, k, b.len()) {
            Ok(k2) => Ok::<(char, nat, nat), DecodeError>((v, b.len(), k2)),
            Err(e) => Err(e),
        },
{
    let code = v as u32;
    let b = encode_scalar(code);
    let s = b + rest;
    lemma_utf8_width(v);
    char_is_scalar(v);
    char_u32_cast(v, code);
    assert(s[0] == b[0]);
    if b.len() == 1 {
        let b0 = b[0];
        assert(b0 == code) by (bit_vector)
            requires b0 == (code & 0x7F) as u8, code <= 0x7F;
    } else {
        assert(s.take(b.len() as int) =~= b);
        assert(encode_utf8(seq![v]) =~= b) by {
            reveal_with_fuel(encode_utf8, 2);
            assert(seq![v].drop_first() =~= Seq::<char>::empty());
        }
        encode_utf8_valid_utf8(seq![v]);
        encode_utf8_decode_utf8(seq![v]);
    }
}

/// The length of a text, written under any configuration and followed by its bytes and
/// anything, reads back with the claims of a text length.
#[verifier::rlimit(40)]
#[verifier::spinoff_prover]
proof fn lemma_str_len_round_trip(c: Configuration, k: nat, bytes: Seq<u8>, rest: Seq<u8>)
    requires
        bytes.len() <= usize::MAX,
    ensures
        ({
            let s = enc_str(c, bytes) + rest;
            let head = (enc_str(c, bytes).len() - bytes.len()) as nat;
            &&& s.skip(head as int) =~= bytes + rest
            &&& dec_len_of(c, k, s, 3) == match claim(c, k, if is_bincode(c) { 8nat } else { 9nat }) {
                Ok(k1) => Ok::<(usize, nat, nat), DecodeError>((bytes.len() as usize, head, k1)),
                Err(e) => Err(e),
            }
        }),
{
    lemma_pow256_values();
    let s = enc_str(c, bytes) + rest;
    if is_bincode(c) {
        let h = enc_uint(c, bytes.len(), 8);
        assert(s =~= h + (bytes + rest));
        lemma_uint_round_trip(c, bytes.len(), 8, bytes + rest);
    } else {
        let h = cbor_head(3, bytes.len());
        assert(s =~= h + (bytes + rest));
        lemma_cbor_head_round_trip(3, bytes.len(), bytes + rest);
    }
}

/// A string decodes from its own bytes, followed by anything, under every configuration, once the
/// length and the bytes it claims are granted; else the limit refuses it. (A text of
/// `usize::MAX` bytes would read as an indefinite CBOR length, so the law leaves it out.)
pub proof fn lemma_string_round_trip(v: String, c: Configuration, k: nat, rest: Seq<u8>)
    requires
        encode_utf8(v@).len() < usize::MAX,
    ensures
        v.encoding(c) matches Ok(b) && match <String as Decode<()>>::decoding(c, k, b + rest) {
            Ok((m, n, k2)) => m == v@ && n == b.len(),
            Err(e) => e == DecodeError::LimitExceeded,
        },
        c.limit is None ==> (v.encoding(c) matches Ok(b) && <String as Decode<()>>::decoding(
            c,
            k,
            b + rest,
        ) == Ok::<(Seq<char>, nat, nat), DecodeError>((v@, b.len(), k))),
{
    let bytes = encode_utf8(v@);
    lemma_str_len_round_trip(c, k, bytes, rest);
    let s = enc_str(c, bytes) + rest;
    let head = (enc_str(c, bytes).len() - bytes.len()) as nat;
    assert((bytes + rest).take(bytes.len() as int) =~= bytes);
    encode_utf8_valid_utf8(v@);
    encode_utf8_decode_utf8(v@);
}

/// A string slice decodes (borrowing) from its own bytes, followed by anything, under every
/// configuration, once the length and the bytes it claims are granted; else the limit refuses it.
pub proof fn lemma_str_round_trip<'a>(v: &'a str, c: Configuration, k: nat, rest: Seq<u8>)
    requires
        v.spec_bytes().len() <= usize::MAX,
    ensures
        (*v).encoding(c) matches Ok(b) && match <&'a str as BorrowDecode<'a, ()>>::borrow_decoding(c, k, b + rest) {
            Ok((m, n, k2)) => m == v@ && n == b.len(),
            Err(e) => e == DecodeError::LimitExceeded,
        },
        c.limit is None ==> ((*v).encoding(c) matches Ok(b)
            && <&'a str as BorrowDecode<'a, ()>>::borrow_decoding(c, k, b + rest) == Ok::<
            (Seq<char>, nat, nat),
            DecodeError,
        >((v@, b.len(), k))),
{
    let bytes = v.spec_bytes();
    lemma_str_len_round_trip(c, k, bytes, rest);
    assert((bytes + rest).take(bytes.len() as int) =~= bytes);
    encode_utf8_valid_utf8(v@);
    encode_utf8_decode_utf8(v@);
}

/// An optional value decodes from its own bytes, followed by anything, whenever the value inside
/// does.
pub proof fn lemma_option_round_trip<T: Encode + Decode<()>>(v: Option<T>, c: Configuration, k: nat, rest: Seq<u8>)
    requires
        v matches Some(x) ==> (x.encoding(c) matches Ok(b) && T::decoding(c, k, b + rest) matches Ok(
            (m, n, k2),
        ) && m == x.model() && n == b.len()),
    ensures
        v.encoding(c) matches Ok(b) && <Option<T> as Decode<()>>::decoding(c, k, b + rest) matches Ok(
            (m, n, k2),
        ) && m == v.model() && n == b.len(),
{
    match v {
        None => {
            lemma_u8_round_trip(0u8, c, k, rest);
        },
        Some(x) => {
            let b = x.encoding(c)->Ok_0;
            let tag = enc_u8(c, 1);
            lemma_u8_round_trip(1u8, c, k, b + rest);
            assert(tag + b + rest =~= tag + (b + rest));
            assert((tag + (b + rest)).skip(tag.len() as int) =~= b + rest);
        },
    }
}

/// A result decodes from its own bytes, followed by anything, whenever the value inside does
/// after the variant index has claimed its bytes.
pub proof fn lemma_result_round_trip<T: Encode + Decode<()>, U: Encode + Decode<()>>(
    v: Result<T, U>,
    c: Configuration,
    k: nat,
    k1: nat,
    rest: Seq<u8>,
)
    requires
        claim(c, k, if is_bincode(c) { 1nat } else { 5nat }) == Ok::<nat, DecodeError>(k1),
        v matches Ok(x) ==> (x.encoding(c) matches Ok(b) && T::decoding(c, k1, b + rest) matches Ok(
            (m, n, k2),
        ) && m == x.model() && n == b.len()),
        v matches Err(x) ==> (x.encoding(c) matches Ok(b) && U::decoding(c, k1, b + rest) matches Ok(
            (m, n, k2),
        ) && m == x.model() && n == b.len()),
    ensures
        v.encoding(c) matches Ok(b) && <Result<T, U> as Decode<()>>::decoding(c, k, b + rest) matches Ok(
            (m, n, k2),
        ) && m == v.model() && n == b.len(),
{
    let (idx, b) = match v {
        Ok(x) => (0u32, x.encoding(c)->Ok_0),
        Err(x) => (1u32, x.encoding(c)->Ok_0),
    };
    let tag = enc_variant_index(c, idx);
    assert(tag + b + rest =~= tag + (b + rest));
    assert((tag + (b + rest)).skip(tag.len() as int) =~= b + rest);
    if is_bincode(c) {
        lemma_u32_round_trip(idx, c, k1, b + rest);
    } else {
        lemma_cbor_uint_round_trip(idx as nat, 0xFFFF_FFFF, b + rest);
    }
}

/// A copy-on-write string decodes from its own bytes, followed by anything, under every
/// configuration, both as an owned and as a borrowed string, once the length and the bytes it
/// claims are granted; else the limit refuses it.
pub proof fn lemma_cow_round_trip<'a>(v: Cow<'a, str>, c: Configuration, k: nat, rest: Seq<u8>)
    requires
        encode_utf8(v@).len() < usize::MAX,
    ensures
        v.encoding(c) matches Ok(b) && match <Cow<'a, str> as Decode<()>>::decoding(c, k, b + rest) {
            Ok((m, n, k2)) => m == v@ && n == b.len(),
            Err(e) => e == DecodeError::LimitExceeded,
        },
        v.encoding(c) matches Ok(b) && <Cow<'a, str> as Decode<()>>::decoding(c, k, b + rest)
            == <Cow<'a, str> as BorrowDecode<'a, ()>>::borrow_decoding(c, k, b + rest),
        c.limit is None ==> (v.encoding(c) matches Ok(b) && <Cow<'a, str> as Decode<()>>::decoding(
            c,
            k,
            b + rest,
        ) == Ok::<(Seq<char>, nat, nat), DecodeError>((v@, b.len(), k))),
{
    let bytes = encode_utf8(v@);
    lemma_str_len_round_trip(c, k, bytes, rest);
    assert((bytes + rest).take(bytes.len() as int) =~= bytes);
    encode_utf8_valid_utf8(v@);
    encode_utf8_decode_utf8(v@);
}

/// Without fingerprints nothing is written in front of a value, and nothing is looked for.
pub proof fn lemma_disabled_frame<D, C: Config>(c: Configuration, s: Seq<u8>)
    ensures
        fingerprint_taken(
            <FingerprintDisabled as InternalFingerprintGuard<D, C>>::expected(c),
            <FingerprintDisabled as InternalFingerprintGuard<D, C>>::prefix(c) + s,
        ) == Ok::<nat, DecodeError>(0),
        <FingerprintDisabled as InternalFingerprintGuard<D, C>>::prefix(c) + s == s,
{
    assert(Seq::<u8>::empty() + s =~= s);
}

/// With fingerprints, the 8 bytes written in front of a value are exactly what is looked for.
pub proof fn lemma_enabled_frame<D: Fingerprint<C>, C: Config, const SEED: u64>(c: Configuration, s: Seq<u8>)
    ensures
        fingerprint_taken(
            <FingerprintEnabled<SEED> as InternalFingerprintGuard<D, C>>::expected(c),
            <FingerprintEnabled<SEED> as InternalFingerprintGuard<D, C>>::prefix(c) + s,
        ) == Ok::<nat, DecodeError>(8),
        (<FingerprintEnabled<SEED> as InternalFingerprintGuard<D, C>>::prefix(c) + s).skip(8) == s,
{
    let h = D::spec_schema_hash(c);
    let p = le_bytes(h as nat, 8);
    lemma_pow256_values();
    lemma_le_round_trip(h as nat, 8);
    assert((p + s).take(8) =~= p);
    assert((p + s).skip(8) =~= s);
}

/// Whether `x` decodes from its own bytes followed by anything, taking exactly them and leaving
/// the claim count `k` as it is.
pub open spec fn round_trips<T: Encode + Decode<()>>(x: T, c: Configuration, k: nat) -> bool {
    &&& x.encoding(c) is Ok
    &&& forall|r: Seq<u8>| #[trigger] T::decoding(c, k, x.encoding(c)->Ok_0 + r) == Ok::<(T::V, nat, nat), DecodeError>(
        (x.model(), x.encoding(c)->Ok_0.len(), k),
    )
}

/// Whether the single-byte value `x` is written as one byte that stands for it.
pub open spec fn byte_round_trips<T: Encode + Model>(x: T, c: Configuration) -> bool {
    &&& x.encoding(c) is Ok
    &&& x.encoding(c)->Ok_0.len() == 1
    &&& T::byte_value(x.encoding(c)->Ok_0[0]) == x.model()
}

/// Items that each have bytes have bytes together.
proof fn lemma_items_ok<T: Encode>(items: Seq<T>, c: Configuration)
    requires
        forall|i: int| 0 <= i < items.len() ==> (#[trigger] items[i].encoding(c)) is Ok,
    ensures
        items_encoding(items, c) is Ok,
    decreases items.len(),
{
    if items.len() > 0 {
        lemma_items_ok(items.drop_last(), c);
        assert(items.last() == items[items.len() - 1]);
    }
}

/// The bytes of a run of items are those of its first `i` items, then those of the rest.
proof fn lemma_items_split<T: Encode>(items: Seq<T>, c: Configuration, i: int)
    requires
        0 <= i <= items.len(),
        items_encoding(items, c) is Ok,
    ensures
        items_encoding(items.take(i), c) is Ok,
        items_encoding(items.skip(i), c) is Ok,
        items_encoding(items, c)->Ok_0 == items_encoding(items.take(i), c)->Ok_0 + items_encoding(items.skip(i), c)->Ok_0,
    decreases items.len(),
{
    if i == items.len() {
        assert(items.take(i) =~= items);
        assert(items.skip(i) =~= Seq::<T>::empty());
        assert(items_encoding(items, c)->Ok_0 + Seq::<u8>::empty() =~= items_encoding(items, c)->Ok_0);
    } else {
        let dl = items.drop_last();
        lemma_items_split(dl, c, i);
        assert(dl.take(i) =~= items.take(i));
        assert(items.skip(i).drop_last() =~= dl.skip(i));
        assert(items.skip(i).last() == items.last());
        let a = items_encoding(dl.take(i), c)->Ok_0;
        let b = items_encoding(dl.skip(i), c)->Ok_0;
        let x = items.last().encoding(c)->Ok_0;
        assert(a + b + x =~= a + (b + x));
    }
}

/// The items of a run, each read back from its own bytes, decode one after the other from the
/// bytes of the run followed by anything.
proof fn lemma_items_decode<T: Encode + Decode<()>>(items: Seq<T>, c: Configuration, k: nat, rest: Seq<u8>, i: int)
    requires
        0 <= i <= items.len(),
        forall|j: int| 0 <= j < items.len() ==> round_trips(#[trigger] items[j], c, k),
    ensures
        items_encoding(items, c) is Ok,
        items_encoding(items.take(i), c) is Ok,
        items_decoding(decoding_of::<(), T>(), c, k, items_encoding(items, c)->Ok_0 + rest, i as nat)
            == Ok::<(Seq<T::V>, nat, nat), DecodeError>(
            (models(items.take(i)), items_encoding(items.take(i), c)->Ok_0.len(), k),
        ),
    decreases i,
{
    assert forall|j: int| 0 <= j < items.len() implies (#[trigger] items[j].encoding(c)) is Ok by {
        assert(round_trips(items[j], c, k));
    }
    lemma_items_ok(items, c);
    lemma_items_split(items, c, i);
    let all = items_encoding(items, c)->Ok_0;
    if i == 0 {
        assert(models(items.take(0)) =~= Seq::<T::V>::empty());
    } else {
        lemma_items_decode(items, c, k, rest, i - 1);
        lemma_items_split(items, c, i - 1);
        let e = items_encoding(items.take(i - 1), c)->Ok_0;
        let tail = items.skip(i - 1);
        lemma_items_split(tail, c, 1);
        assert(tail.take(1).drop_last() =~= Seq::<T>::empty());
        assert(tail.take(1).last() == items[i - 1]);
        assert(tail.skip(1) =~= items.skip(i));
        let x = items[i - 1].encoding(c)->Ok_0;
        assert(Seq::<u8>::empty() + x =~= x);
        let later = items_encoding(items.skip(i), c)->Ok_0;
        assert(items_encoding(tail.take(1).drop_last(), c) == Ok::<Seq<u8>, EncodeError>(Seq::empty()));
        assert(items_encoding(tail.take(1), c)->Ok_0 == x);
        assert(items_encoding(tail, c)->Ok_0 == x + later);
        assert(all == e + (x + later));
        assert(all + rest =~= e + (x + (later + rest)));
        assert((all + rest).skip(e.len() as int) =~= x + (later + rest));
        assert(round_trips(items[i - 1], c, k));
        assert(T::decoding(c, k, x + (later + rest)) == Ok::<(T::V, nat, nat), DecodeError>((items[i - 1].model(), x.len(), k)));
        assert(items.take(i).drop_last() =~= items.take(i - 1));
        assert(items.take(i).last() == items[i - 1]);
        assert(models(items.take(i)) =~= models(items.take(i - 1)).push(items[i - 1].model()));
    }
}

/// Single-byte items, each written as one byte, are written as those bytes.
proof fn lemma_items_bytes<T: Encode + Model>(items: Seq<T>, c: Configuration)
    requires
        forall|j: int| 0 <= j < items.len() ==> byte_round_trips(#[trigger] items[j], c),
    ensures
        items_encoding(items, c) is Ok,
        items_encoding(items, c)->Ok_0.len() == items.len(),
        items_encoding(items, c)->Ok_0.map_values(byte_value_of::<T>()) == models(items),
    decreases items.len(),
{
    if items.len() > 0 {
        let dl = items.drop_last();
        assert forall|j: int| 0 <= j < dl.len() implies byte_round_trips(#[trigger] dl[j], c) by {
            assert(dl[j] == items[j]);
        }
        lemma_items_bytes(dl, c);
        assert(items.last() == items[items.len() - 1]);
        assert(byte_round_trips(items[items.len() - 1], c));
        let b = items_encoding(dl, c)->Ok_0;
        let x = items.last().encoding(c)->Ok_0;
        assert((b + x).map_values(byte_value_of::<T>()) =~= b.map_values(byte_value_of::<T>()).push(
            T::byte_value(x[0]),
        ));
        assert(models(items) =~= models(dl).push(items.last().model()));
    }
}

/// The length of a `Vec`, written under any configuration and followed by anything, reads back
/// as itself when nothing limits the claims.
proof fn lemma_vec_head_round_trip(byte_sized: bool, c: Configuration, k: nat, len: nat, rest: Seq<u8>)
    requires
        c.limit is None,
        len < usize::MAX,
    ensures
        vec_head(byte_sized, c, k, enc_slice_len(c, len) + rest) matches Ok(((major, n), n1, k1))
            && n == len && n1 == enc_slice_len(c, len).len() && k1 == k && (!is_bincode(c) ==> major == 4),
{
    lemma_pow256_values();
    if is_bincode(c) {
        lemma_uint_round_trip(c, len, 8, rest);
    } else {
        lemma_cbor_head_round_trip(4, len, rest);
    }
}

/// A run of items, written as a sequence (its length, then each item), decodes as a `Vec` from
/// its own bytes followed by anything, whenever each item does, when nothing limits the claims.
#[verifier::rlimit(40)]
#[verifier::spinoff_prover]
proof fn lemma_seq_round_trip<T: Encode + Decode<()>>(items: Seq<T>, c: Configuration, k: nat, rest: Seq<u8>)
    requires
        c.limit is None,
        items.len() < usize::MAX,
        forall|i: int| 0 <= i < items.len() ==> round_trips(#[trigger] items[i], c, k),
        is_bincode(c) && T::byte_sized() ==> forall|i: int| 0 <= i < items.len() ==> byte_round_trips(#[trigger] items[i], c),
    ensures
        items_encoding(items, c) matches Ok(b) && <Vec<T> as Decode<()>>::decoding(
            c,
            k,
            enc_slice_len(c, items.len()) + b + rest,
        ) == Ok::<(Seq<T::V>, nat, nat), DecodeError>(
            (models(items), (enc_slice_len(c, items.len()) + b).len(), k),
        ),
{
    let n = items.len();
    lemma_items_decode(items, c, k, rest, n as int);
    assert(items.take(n as int) =~= items);
    let all = items_encoding(items, c)->Ok_0;
    let h = enc_slice_len(c, n);
    lemma_vec_head_round_trip(T::byte_sized(), c, k, n, all + rest);
    assert(h + all + rest =~= h + (all + rest));
    assert((h + (all + rest)).skip(h.len() as int) =~= all + rest);
    if is_bincode(c) && T::byte_sized() {
        lemma_items_bytes(items, c);
        assert((all + rest).take(n as int) =~= all);
    }
}

/// A `Vec` decodes from its own bytes, followed by anything, whenever each of its items does, when
/// nothing limits the claims; in bincode a `Vec` of single-byte items is read as raw bytes, so
/// there each item has to be written as the one byte that stands for it.
pub proof fn lemma_vec_round_trip<T: Encode + Decode<()>>(v: Vec<T>, c: Configuration, k: nat, rest: Seq<u8>)
    requires
        c.limit is None,
        v@.len() < usize::MAX,
        forall|i: int| 0 <= i < v@.len() ==> round_trips(#[trigger] v@[i], c, k),
        is_bincode(c) && T::byte_sized() ==> forall|i: int| 0 <= i < v@.len() ==> byte_round_trips(#[trigger] v@[i], c),
    ensures
        v.encoding(c) matches Ok(b) && <Vec<T> as Decode<()>>::decoding(c, k, b + rest) == Ok::<
            (Seq<T::V>, nat, nat),
            DecodeError,
        >((v.model(), b.len(), k)),
{
    lemma_seq_round_trip(v@, c, k, rest);
}

/// A double-ended queue decodes from its own bytes, followed by anything, on the same terms as a
/// `Vec`.
pub proof fn lemma_deque_round_trip<T: Encode + Decode<()>>(v: VecDeque<T>, c: Configuration, k: nat, rest: Seq<u8>)
    requires
        c.limit is None,
        v@.len() < usize::MAX,
        forall|i: int| 0 <= i < v@.len() ==> round_trips(#[trigger] v@[i], c, k),
        is_bincode(c) && T::byte_sized() ==> forall|i: int| 0 <= i < v@.len() ==> byte_round_trips(#[trigger] v@[i], c),
    ensures
        v.encoding(c) matches Ok(b) && <VecDeque<T> as Decode<()>>::decoding(c, k, b + rest) == Ok::<
            (Seq<T::V>, nat, nat),
            DecodeError,
        >((v.model(), b.len(), k)),
{
    lemma_seq_round_trip(v@, c, k, rest);
}

/// The unit value takes no bytes and reads back from any bytes, taking none.
pub proof fn lemma_unit_round_trip(c: Configuration, k: nat, rest: Seq<u8>)
    ensures
        ().encoding(c) matches Ok(b) && b.len() == 0 && <() as Decode<()>>::decoding(c, k, b + rest)
            == Ok::<((), nat, nat), DecodeError>(((), 0, k)),
{
}

/// A `PhantomData` takes no bytes and reads back from any bytes, taking none.
pub proof fn lemma_phantom_round_trip<T>(v: PhantomData<T>, c: Configuration, k: nat, rest: Seq<u8>)
    ensures
        v.encoding(c) matches Ok(b) && b.len() == 0 && <PhantomData<T> as Decode<()>>::decoding(
            c,
            k,
            b + rest,
        ) == Ok::<((), nat, nat), DecodeError>((v.model(), 0, k)),
{
}

/// A box decodes from its own bytes, followed by anything, whenever the value inside does.
pub proof fn lemma_box_round_trip<T: Encode + Decode<()>>(v: Box<T>, c: Configuration, k: nat, rest: Seq<u8>)
    requires
        round_trips(*v, c, k),
    ensures
        v.encoding(c) matches Ok(b) && <Box<T> as Decode<()>>::decoding(c, k, b + rest) == Ok::<
            (T::V, nat, nat),
            DecodeError,
        >((v.model(), b.len(), k)),
{
    assert(T::decoding(c, k, (*v).encoding(c)->Ok_0 + rest) == Ok::<(T::V, nat, nat), DecodeError>(
        ((*v).model(), (*v).encoding(c)->Ok_0.len(), k),
    ));
}

/// A reference-counted value decodes from its own bytes, followed by anything, whenever the value
/// inside does.
pub proof fn lemma_rc_round_trip<T: Encode + Decode<()>>(v: Rc<T>, c: Configuration, k: nat, rest: Seq<u8>)
    requires
        round_trips(*v, c, k),
    ensures
        v.encoding(c) matches Ok(b) && <Rc<T> as Decode<()>>::decoding(c, k, b + rest) == Ok::<
            (T::V, nat, nat),
            DecodeError,
        >((v.model(), b.len(), k)),
{
    assert(T::decoding(c, k, (*v).encoding(c)->Ok_0 + rest) == Ok::<(T::V, nat, nat), DecodeError>(
        ((*v).model(), (*v).encoding(c)->Ok_0.len(), k),
    ));
}

/// An atomically reference-counted value decodes from its own bytes, followed by anything,
/// whenever the value inside does.
pub proof fn lemma_arc_round_trip<T: Encode + Decode<()>>(v: Arc<T>, c: Configuration, k: nat, rest: Seq<u8>)
    requires
        round_trips(*v, c, k),
    ensures
        v.encoding(c) matches Ok(b) && <Arc<T> as Decode<()>>::decoding(c, k, b + rest) == Ok::<
            (T::V, nat, nat),
            DecodeError,
        >((v.model(), b.len(), k)),
{
    assert(T::decoding(c, k, (*v).encoding(c)->Ok_0 + rest) == Ok::<(T::V, nat, nat), DecodeError>(
        ((*v).model(), (*v).encoding(c)->Ok_0.len(), k),
    ));
}

/// A range decodes from its own bytes, followed by anything, whenever its two ends do.
pub proof fn lemma_range_round_trip<T: Encode + Decode<()>>(v: Range<T>, c: Configuration, k: nat, rest: Seq<u8>)
    requires
        round_trips(v.start, c, k),
        round_trips(v.end, c, k),
    ensures
        v.encoding(c) matches Ok(b) && <Range<T> as Decode<()>>::decoding(c, k, b + rest) == Ok::<
            ((T::V, T::V), nat, nat),
            DecodeError,
        >((v.model(), b.len(), k)),
{
    lemma_pair_round_trip((v.start, v.end), c, k, rest);
}

/// An inclusive range decodes from its own bytes, followed by anything, whenever its two ends do.
pub proof fn lemma_range_inclusive_round_trip<T: Encode + Decode<()>>(
    v: RangeInclusive<T>,
    c: Configuration,
    k: nat,
    rest: Seq<u8>,
)
    requires
        round_trips(v@.start, c, k),
        round_trips(v@.end, c, k),
    ensures
        v.encoding(c) matches Ok(b) && <RangeInclusive<T> as Decode<()>>::decoding(c, k, b + rest)
            == Ok::<((T::V, T::V), nat, nat), DecodeError>((v.model(), b.len(), k)),
{
    lemma_pair_round_trip((v@.start, v@.end), c, k, rest);
}

/// A pair decodes from its own bytes, followed by anything, whenever each of its two values
/// does.
pub proof fn lemma_pair_round_trip<A: Encode + Decode<()>, B: Encode + Decode<()>>(v: (A, B), c: Configuration, k: nat, rest: Seq<u8>)
    requires
        round_trips(v.0, c, k),
        round_trips(v.1, c, k),
    ensures
        v.encoding(c) matches Ok(b) && <(A, B) as Decode<()>>::decoding(c, k, b + rest) == Ok::<
            ((A::V, B::V), nat, nat),
            DecodeError,
        >((v.model(), b.len(), k)),
{
    let a = v.0.encoding(c)->Ok_0;
    let b = v.1.encoding(c)->Ok_0;
    assert(a + b + rest =~= a + (b + rest));
    assert((a + (b + rest)).skip(a.len() as int) =~= b + rest);
    assert(A::decoding(c, k, a + (b + rest)) == Ok::<(A::V, nat, nat), DecodeError>((v.0.model(), a.len(), k)));
    assert(B::decoding(c, k, b + rest) == Ok::<(B::V, nat, nat), DecodeError>((v.1.model(), b.len(), k)));
}

/// Whether the byte that the single-byte value `x` is stored as stands for `x`.
pub open spec fn byte_stands_for<T: Model>(x: T) -> bool {
    T::byte_value(x.byte_of()) == x.model()
}

/// An array decodes from its own bytes, followed by anything, whenever each of its items does,
/// when nothing limits the claims (and, for single-byte items, each is stored as the byte that
/// stands for it; in bincode each is also written as that one byte).
#[verifier::rlimit(40)]
#[verifier::spinoff_prover]
pub proof fn lemma_array_round_trip<T: Encode + Decode<()>, const N: usize>(v: [T; N], c: Configuration, k: nat, rest: Seq<u8>)
    requires
        c.limit is None,
        N < usize::MAX,
        forall|i: int| 0 <= i < N ==> round_trips(#[trigger] v@[i], c, k),
        T::byte_sized() ==> forall|i: int| 0 <= i < N ==> byte_stands_for(#[trigger] v@[i]),
        is_bincode(c) && T::byte_sized() ==> forall|i: int| 0 <= i < N ==> byte_round_trips(#[trigger] v@[i], c),
    ensures
        v.encoding(c) matches Ok(b) && <[T; N] as Decode<()>>::decoding(c, k, b + rest) == Ok::<
            (Seq<T::V>, nat, nat),
            DecodeError,
        >((v.model(), b.len(), k)),
{
    let items = v@;
    let n = items.len();
    assert(n == N);
    lemma_items_decode(items, c, k, rest, n as int);
    assert(items.take(n as int) =~= items);
    let all = items_encoding(items, c)->Ok_0;
    lemma_pow256_values();
    if !is_bincode(c) && T::byte_sized() {
        let bytes = bytes_of(items);
        let h = cbor_head(2, n);
        lemma_cbor_head_round_trip(2, n, bytes + rest);
        assert(h + bytes + rest =~= h + (bytes + rest));
        assert((h + (bytes + rest)).skip(h.len() as int) =~= bytes + rest);
        assert((bytes + rest).take(n as int) =~= bytes);
        assert(bytes.map_values(byte_value_of::<T>()) =~= models(items)) by {
            assert forall|i: int| 0 <= i < n implies #[trigger] bytes.map_values(byte_value_of::<T>())[i] == models(items)[i] by {
                assert(byte_stands_for(items[i]));
            }
        }
    } else if !is_bincode(c) {
        let h = enc_slice_len(c, n);
        lemma_vec_head_round_trip(false, c, k, n, all + rest);
        assert(h + all + rest =~= h + (all + rest));
        assert((h + (all + rest)).skip(h.len() as int) =~= all + rest);
    } else if T::byte_sized() {
        lemma_items_bytes(items, c);
        assert((all + rest).take(n as int) =~= all);
    }
}

/// What is encoded with a configuration decodes back with it: when the fingerprint mode finds in
/// front of any bytes exactly the prefix it writes (as without fingerprints and with them, see
/// [lemma_disabled_frame] and [lemma_enabled_frame]), a value that reads back from its own bytes
/// decodes from what `encode_to_vec` and the other encoding functions write, and every byte is
/// read.
pub proof fn lemma_framed_round_trip<T: Encode + Decode<()>, C: Config>(v: T, config: C)
    where C::Mode: InternalFingerprintGuard<T, C>,
    requires
        round_trips(v, config.settings(), 0),
        forall|s: Seq<u8>| #[trigger] fingerprint_taken(
            <C::Mode as InternalFingerprintGuard<T, C>>::expected(config.settings()),
            <C::Mode as InternalFingerprintGuard<T, C>>::prefix(config.settings()) + s,
        ) == Ok::<nat, DecodeError>(<C::Mode as InternalFingerprintGuard<T, C>>::prefix(config.settings()).len()),
    ensures
        framed_encoding(v, config) matches Ok(all) && framed_decoding(
            <C::Mode as InternalFingerprintGuard<T, C>>::expected(config.settings()),
            all,
            |s: Seq<u8>| T::decoding(config.settings(), 0, s),
        ) == Ok::<(T::V, nat), DecodeError>((v.model(), all.len())),
{
    let c = config.settings();
    let p = <C::Mode as InternalFingerprintGuard<T, C>>::prefix(c);
    let b = v.encoding(c)->Ok_0;
    assert(fingerprint_taken(<C::Mode as InternalFingerprintGuard<T, C>>::expected(c), p + b) == Ok::<nat, DecodeError>(p.len()));
    assert((p + b).skip(p.len() as int) =~= b);
    assert(b + Seq::<u8>::empty() =~= b);
    assert(T::decoding(c, 0, b + Seq::<u8>::empty()) == Ok::<(T::V, nat, nat), DecodeError>((v.model(), b.len(), 0)));
}

/// A bounded vector within its capacity decodes from its own bytes, followed by anything,
/// whenever each of its items does, when nothing limits the claims.
#[verifier::rlimit(40)]
#[verifier::spinoff_prover]
pub proof fn lemma_bounded_vec_round_trip<T: Encode + Decode<()>, const CAP: usize>(v: BoundedVec<T, CAP>, c: Configuration, k: nat, rest: Seq<u8>)
    requires
        c.limit is None,
        v.0@.len() <= CAP,
        v.0@.len() < usize::MAX,
        forall|i: int| 0 <= i < v.0@.len() ==> round_trips(#[trigger] v.0@[i], c, k),
    ensures
        v.encoding(c) matches Ok(b) && <BoundedVec<T, CAP> as Decode<()>>::decoding(c, k, b + rest) == Ok::<
            (Seq<T::V>, nat, nat),
            DecodeError,
        >((v.model(), b.len(), k)),
{
    let items = v.0@;
    let n = items.len();
    let dec = after_give_back(bounded_decoding_of::<(), T>(), vstd::layout::size_of::<T>());
    assert forall|ss: Seq<u8>| #[trigger] dec(c, k, ss) == T::decoding(c, k, ss) by {
        assert(crate::features::bounded::given_back(c, k, vstd::layout::size_of::<T>()) == k);
    }
    lemma_items_decode_with(dec, items, c, k, rest, n as int);
    assert(items.take(n as int) =~= items);
    let all = items_encoding(items, c)->Ok_0;
    let h = enc_slice_len(c, n);
    lemma_vec_head_round_trip(false, c, k, n, all + rest);
    assert(h + all + rest =~= h + (all + rest));
    assert((h + (all + rest)).skip(h.len() as int) =~= all + rest);
}

/// The items of a run decode one after the other, each as `dec` decodes it, from the bytes of
/// the run followed by anything, when `dec` agrees with the items' own decoding at the claim
/// count `k` and that count stays.
proof fn lemma_items_decode_with<T: Encode + Decode<()>>(dec: crate::features::impl_alloc::Decoding<T::V>, items: Seq<T>, c: Configuration, k: nat, rest: Seq<u8>, i: int)
    requires
        0 <= i <= items.len(),
        forall|j: int| 0 <= j < items.len() ==> round_trips(#[trigger] items[j], c, k),
        forall|s: Seq<u8>| #[trigger] dec(c, k, s) == T::decoding(c, k, s),
    ensures
        items_encoding(items, c) is Ok,
        items_decoding(dec, c, k, items_encoding(items, c)->Ok_0 + rest, i as nat)
            == Ok::<(Seq<T::V>, nat, nat), DecodeError>(
            (models(items.take(i)), items_encoding(items.take(i), c)->Ok_0.len(), k),
        ),
    decreases i,
{
    lemma_items_decode(items, c, k, rest, i);
    if i > 0 {
        lemma_items_decode_with(dec, items, c, k, rest, i - 1);
        lemma_items_decode(items, c, k, rest, i - 1);
        let all = items_encoding(items, c)->Ok_0;
        let e = items_encoding(items.take(i - 1), c)->Ok_0;
        assert(dec(c, k, (all + rest).skip(e.len() as int)) == T::decoding(c, k, (all + rest).skip(e.len() as int)));
        assert(items_decoding(decoding_of::<(), T>(), c, k, all + rest, i as nat) == items_decoding(dec, c, k, all + rest, i as nat));
    }
}

/// In bincode a bounded string within its capacity decodes from its own bytes, followed by
/// anything, when nothing limits the claims. (In CBOR it is written as a text string but read as
/// the length of an array, so it does not read back there.)
pub proof fn lemma_bounded_string_round_trip<const CAP: usize>(v: BoundedString<CAP>, c: Configuration, k: nat, rest: Seq<u8>)
    requires
        is_bincode(c),
        c.limit is None,
        encode_utf8(v.0@).len() <= CAP,
    ensures
        v.encoding(c) matches Ok(b) && <BoundedString<CAP> as Decode<()>>::decoding(c, k, b + rest) == Ok::<
            (Seq<char>, nat, nat),
            DecodeError,
        >((v.0@, b.len(), k)),
{
    let bytes = encode_utf8(v.0@);
    lemma_str_len_round_trip(c, k, bytes, rest);
    assert((bytes + rest).take(bytes.len() as int) =~= bytes);
    encode_utf8_valid_utf8(v.0@);
    encode_utf8_decode_utf8(v.0@);
}

} // verus!
