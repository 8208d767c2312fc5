//! CBOR (RFC 8949) encoding implementation.
use crate::bytes::{be_bytes, lemma_be_bytes_len, lemma_pow256_monotone, lemma_pow256_values, pow256, uint_to_bytes};
use crate::config::{CborDeterministicMode, CborOptions, Config, Configuration, Endianness};
use crate::float_bits::{
    cbor_canonical_nan, cbor_f32, cbor_f64, cbor_single, half_of, half_ok, half_to_single,
    lemma_half_narrowing_lossless, lemma_half_round_trip,
};
use crate::enc::write::{appended, lemma_appended_then, Writer};
use crate::de::deterministic::{compare_bytes, lemma_lex_lt_irreflexive, lemma_lex_lt_total, lemma_lex_lt_transitive, lex_lt};
use crate::enc::{emitted, lemma_emitted_then, Encode, Encoder, EncoderImpl};
use crate::error::EncodeError;
use vstd::prelude::*;
use vstd::set_lib::{lemma_int_range, lemma_len_subset, set_int_range};
use vstd::string::StringSliceAdditionalSpecFns;

verus! {

/// The CBOR head of a data item: the major type in the top three bits of the first byte, and the
/// argument `val` in the low five bits or in the 1, 2, 4 or 8 big-endian bytes that follow.
pub open spec fn cbor_head(major: u8, val: nat) -> Seq<u8> {
    let m = major * 32;
    if val <= 23 {
        seq![(m + val) as u8]
    } else if val <= 0xFF {
        seq![(m + 24) as u8, val as u8]
    } else if val <= 0xFFFF {
        seq![(m + 25) as u8] + be_bytes(val, 2)
    } else if val <= 0xFFFF_FFFF {
        seq![(m + 26) as u8] + be_bytes(val, 4)
    } else {
        seq![(m + 27) as u8] + be_bytes(val, 8)
    }
}

/// The head of an item of indefinite length.
pub open spec fn cbor_indefinite(major: u8) -> Seq<u8> {
    seq![(major * 32 + 31) as u8]
}

/// The number of bytes of the shortest big-endian form of `v` (at least one).
pub open spec fn bignum_len(v: nat) -> nat
    decreases v,
{
    if v < 256 {
        1
    } else {
        1 + bignum_len(v / 256)
    }
}

/// A bignum: tag `tag` (2 positive, 3 negative) over a byte string with the shortest big-endian form of `v`.
pub open spec fn cbor_bignum(tag: nat, v: nat) -> Seq<u8> {
    cbor_head(6, tag) + cbor_head(2, bignum_len(v)) + be_bytes(v, bignum_len(v))
}

/// An unsigned integer in CBOR: major type 0, or a positive bignum above `u64::MAX`.
pub open spec fn cbor_uint(v: nat) -> Seq<u8> {
    if v <= 0xFFFF_FFFF_FFFF_FFFF {
        cbor_head(0, v)
    } else {
        cbor_bignum(2, v)
    }
}

/// A signed integer in CBOR: major type 0 for `v >= 0`, major type 1 with argument `-1 - v`
/// otherwise, or a bignum when the argument passes `u64::MAX`.
pub open spec fn cbor_int(v: int) -> Seq<u8> {
    if v >= 0 {
        cbor_uint(v as nat)
    } else if -1 - v <= 0xFFFF_FFFF_FFFF_FFFF {
        cbor_head(1, (-1 - v) as nat)
    } else {
        cbor_bignum(3, (-1 - v) as nat)
    }
}

/// A boolean in CBOR: the simple values `false` (`0xF4`) and `true` (`0xF5`).
pub open spec fn cbor_bool(v: bool) -> Seq<u8> {
    if v {
        seq![0xF5u8]
    } else {
        seq![0xF4u8]
    }
}

/// A length head that stands for "indefinite" when the length is `indefinite_marker`.
pub open spec fn cbor_len_head(major: u8, len: nat, indefinite_marker: nat) -> Seq<u8> {
    if len == indefinite_marker {
        cbor_indefinite(major)
    } else {
        cbor_head(major, len)
    }
}

pub proof fn lemma_bignum_len(v: nat)
    ensures
        1 <= bignum_len(v),
        v < pow256(bignum_len(v)),
        v >= 256 ==> v >= pow256((bignum_len(v) - 1) as nat),
        v < 0x1_0000_0000_0000_0000_0000_0000_0000_0000 ==> bignum_len(v) <= 16,
    decreases v,
{
    lemma_pow256_values();
    if v >= 256 {
        lemma_bignum_len(v / 256);
        if bignum_len(v / 256) > 1 {
            assert(v / 256 >= pow256((bignum_len(v / 256) - 1) as nat));
        }
        if v < 0x1_0000_0000_0000_0000_0000_0000_0000_0000 {
            assert(v / 256 < 0x1_00_0000_0000_0000_0000_0000_0000_0000);
            if bignum_len(v / 256) > 15 {
                lemma_pow256_monotone(15, (bignum_len(v / 256) - 1) as nat);
            }
        }
    }
}

pub proof fn lemma_cbor_head_len(major: u8, val: nat)
    ensures
        cbor_head(major, val).len() == if val <= 23 {
            1nat
        } else if val <= 0xFF {
            2nat
        } else if val <= 0xFFFF {
            3nat
        } else if val <= 0xFFFF_FFFF {
            5nat
        } else {
            9nat
        },
{
    lemma_be_bytes_len(val, 2);
    lemma_be_bytes_len(val, 4);
    lemma_be_bytes_len(val, 8);
}

/// Helper to encode a CBOR header (major type + value/argument).
fn encode_header<W: Writer>(writer: &mut W, major: u8, val: u64) -> (r: Result<(), EncodeError>)
    requires
        major < 8,
    ensures
        appended(*old(writer), *final(writer), cbor_head(major, val as nat), r),
{
    let m: u8 = major * 32;
    if val <= 23 {
        let r = writer.write_u8(m + val as u8);
        proof {
            assert(old(writer).written().push((m + val) as u8) =~= old(writer).written() + cbor_head(major, val as nat));
        }
        r
    } else {
        let (info, n): (u8, usize) = if val <= 0xFF {
            (24, 1)
        } else if val <= 0xFFFF {
            (25, 2)
        } else if val <= 0xFFFF_FFFF {
            (26, 4)
        } else {
            (27, 8)
        };
        let ghost w0 = *writer;
        let r1 = writer.write_u8(m + info);
        proof {
            assert(w0.written().push((m + info) as u8) =~= w0.written() + seq![(m + info) as u8]);
        }
        if r1.is_err() {
            proof {
                lemma_appended_then(w0, *writer, *writer, seq![(m + info) as u8], be_bytes(val as nat, n as nat), r1, r1);
                reveal_with_fuel(be_bytes, 2);
                lemma_be_bytes_len(val as nat, n as nat);
                assert(cbor_head(major, val as nat) =~= seq![(m + info) as u8] + be_bytes(val as nat, n as nat));
            }
            return r1;
        }
        let ghost w1 = *writer;
        let payload = uint_to_bytes(Endianness::Big, val as u128, n);
        let r2 = writer.write(payload.as_slice());
        proof {
            lemma_appended_then(w0, w1, *writer, seq![(m + info) as u8], be_bytes(val as nat, n as nat), r1, r2);
            reveal_with_fuel(be_bytes, 2);
            if n == 1 {
                assert(be_bytes(val as nat, 1) =~= seq![val as u8]);
            }
            assert(cbor_head(major, val as nat) =~= seq![(m + info) as u8] + be_bytes(val as nat, n as nat));
        }
        r2
    }
}

/// Helper to encode a CBOR indefinite length header.
fn encode_indefinite_header<W: Writer>(writer: &mut W, major: u8) -> (r: Result<(), EncodeError>)
    requires
        major < 8,
    ensures
        appended(*old(writer), *final(writer), cbor_indefinite(major), r),
{
    let r = writer.write_u8(major * 32 + 31);
    proof {
        assert(old(writer).written().push((major * 32 + 31) as u8) =~= old(writer).written() + cbor_indefinite(major));
    }
    r
}

/// Encode a `u8` value into CBOR.
pub fn encode_u8<W: Writer, C: Config>(writer: &mut W, val: u8) -> (r: Result<(), EncodeError>)
    ensures
        appended(*old(writer), *final(writer), cbor_head(0, val as nat), r),
{
    encode_header(writer, 0, val as u64)
}

/// Encode a `u16` value into CBOR.
pub fn encode_u16<W: Writer, C: Config>(writer: &mut W, val: u16) -> (r: Result<(), EncodeError>)
    ensures
        appended(*old(writer), *final(writer), cbor_head(0, val as nat), r),
{
    encode_header(writer, 0, val as u64)
}

/// Encode a `u32` value into CBOR.
pub fn encode_u32<W: Writer, C: Config>(writer: &mut W, val: u32) -> (r: Result<(), EncodeError>)
    ensures
        appended(*old(writer), *final(writer), cbor_head(0, val as nat), r),
{
    encode_header(writer, 0, val as u64)
}

/// Encode a `u64` value into CBOR.
pub fn encode_u64<W: Writer, C: Config>(writer: &mut W, val: u64) -> (r: Result<(), EncodeError>)
    ensures
        appended(*old(writer), *final(writer), cbor_head(0, val as nat), r),
{
    encode_header(writer, 0, val)
}

/// Encode a signed value that fits an `i64`: major type 0 or 1.
fn encode_small_int<W: Writer>(writer: &mut W, val: i64) -> (r: Result<(), EncodeError>)
    ensures
        appended(*old(writer), *final(writer), cbor_int(val as int), r),
{
    if val >= 0 {
        encode_header(writer, 0, val as u64)
    } else {
        encode_header(writer, 1, (-1 - val) as u64)
    }
}

/// Encode an `i8` value into CBOR.
pub fn encode_i8<W: Writer, C: Config>(writer: &mut W, val: i8) -> (r: Result<(), EncodeError>)
    ensures
        appended(*old(writer), *final(writer), cbor_int(val as int), r),
{
    encode_small_int(writer, val as i64)
}

/// Encode an `i16` value into CBOR.
pub fn encode_i16<W: Writer, C: Config>(writer: &mut W, val: i16) -> (r: Result<(), EncodeError>)
    ensures
        appended(*old(writer), *final(writer), cbor_int(val as int), r),
{
    encode_small_int(writer, val as i64)
}

/// Encode an `i32` value into CBOR.
pub fn encode_i32<W: Writer, C: Config>(writer: &mut W, val: i32) -> (r: Result<(), EncodeError>)
    ensures
        appended(*old(writer), *final(writer), cbor_int(val as int), r),
{
    encode_small_int(writer, val as i64)
}

/// Encode an `i64` value into CBOR.
pub fn encode_i64<W: Writer, C: Config>(writer: &mut W, val: i64) -> (r: Result<(), EncodeError>)
    ensures
        appended(*old(writer), *final(writer), cbor_int(val as int), r),
{
    encode_small_int(writer, val)
}

/// Write a bignum with tag `tag` for `v`, which is above `u64::MAX`.
fn encode_bignum<W: Writer>(writer: &mut W, tag: u64, v: u128) -> (r: Result<(), EncodeError>)
    ensures
        appended(*old(writer), *final(writer), cbor_bignum(tag as nat, v as nat), r),
{
    proof {
        lemma_bignum_len(v as nat);
    }
    let mut len: usize = 1;
    let mut x: u128 = v;
    while x >= 256
        invariant
            1 <= len,
            len + bignum_len(x as nat) == 1 + bignum_len(v as nat),
            bignum_len(v as nat) <= 16,
        decreases x,
    {
        x = x / 256;
        len = len + 1;
    }
    let ghost w0 = *writer;
    let r1 = encode_header(writer, 6, tag);
    if r1.is_err() {
        proof {
            let a = cbor_head(6, tag as nat);
            let b = cbor_head(2, bignum_len(v as nat)) + be_bytes(v as nat, bignum_len(v as nat));
            lemma_appended_then(w0, *writer, *writer, a, b, r1, r1);
            assert(a + b =~= cbor_bignum(tag as nat, v as nat));
        }
        return r1;
    }
    let ghost w1 = *writer;
    let r2 = encode_header(writer, 2, len as u64);
    proof {
        lemma_appended_then(w0, w1, *writer, cbor_head(6, tag as nat), cbor_head(2, len as nat), r1, r2);
    }
    if r2.is_err() {
        proof {
            let a = cbor_head(6, tag as nat) + cbor_head(2, len as nat);
            let b = be_bytes(v as nat, len as nat);
            if w0.room((a + b).len()) {
                w0.lemma_room_prefix((a + b).len(), a.len());
            }
        }
        return r2;
    }
    let ghost w2 = *writer;
    let payload = uint_to_bytes(Endianness::Big, v, len);
    let r3 = writer.write(payload.as_slice());
    proof {
        let a = cbor_head(6, tag as nat) + cbor_head(2, len as nat);
        lemma_appended_then(w0, w2, *writer, a, be_bytes(v as nat, len as nat), r2, r3);
        assert(a + be_bytes(v as nat, len as nat) =~= cbor_bignum(tag as nat, v as nat));
    }
    r3
}

/// Encode a `u128` value into CBOR: major type 0 up to `u64::MAX`, a positive bignum (tag 2) above.
pub fn encode_u128<W: Writer, C: Config>(writer: &mut W, val: u128) -> (r: Result<(), EncodeError>)
    ensures
        appended(*old(writer), *final(writer), cbor_uint(val as nat), r),
{
    if val <= u64::MAX as u128 {
        encode_header(writer, 0, val as u64)
    } else {
        encode_bignum(writer, 2, val)
    }
}

/// Encode an `i128` value into CBOR: as for `i64`, with negative bignums (tag 3) for magnitudes above `u64::MAX`.
pub fn encode_i128<W: Writer, C: Config>(writer: &mut W, val: i128) -> (r: Result<(), EncodeError>)
    ensures
        appended(*old(writer), *final(writer), cbor_int(val as int), r),
{
    if val >= 0 {
        return encode_u128::<W, C>(writer, val as u128);
    }
    let magnitude: u128 = (-1 - val) as u128;
    if magnitude <= u64::MAX as u128 {
        encode_header(writer, 1, magnitude as u64)
    } else {
        encode_bignum(writer, 3, magnitude)
    }
}

/// Encode a `bool` value into CBOR.
pub fn encode_bool<W: Writer, C: Config>(writer: &mut W, val: bool) -> (r: Result<(), EncodeError>)
    ensures
        appended(*old(writer), *final(writer), cbor_bool(val), r),
{
    let r = writer.write_u8(if val { 0xF5 } else { 0xF4 });
    proof {
        assert(old(writer).written().push(if val { 0xF5u8 } else { 0xF4u8 }) =~= old(writer).written() + cbor_bool(val));
    }
    r
}

/// Write a head and then the given bytes.
fn encode_head_and_bytes<W: Writer>(writer: &mut W, major: u8, bytes: &[u8]) -> (r: Result<(), EncodeError>)
    requires
        major < 8,
    ensures
        appended(*old(writer), *final(writer), cbor_head(major, bytes@.len() as nat) + bytes@, r),
{
    let ghost w0 = *writer;
    let r1 = encode_header(writer, major, bytes.len() as u64);
    if r1.is_err() {
        proof {
            lemma_appended_then(w0, *writer, *writer, cbor_head(major, bytes@.len() as nat), bytes@, r1, r1);
        }
        return r1;
    }
    let ghost w1 = *writer;
    let r2 = writer.write(bytes);
    proof {
        lemma_appended_then(w0, w1, *writer, cbor_head(major, bytes@.len() as nat), bytes@, r1, r2);
    }
    r2
}

/// Encode a `str` value into CBOR: a text string (major type 3).
pub fn encode_str<W: Writer, C: Config>(writer: &mut W, val: &str) -> (r: Result<(), EncodeError>)
    ensures
        appended(*old(writer), *final(writer), cbor_head(3, val.spec_bytes().len()) + val.spec_bytes(), r),
{
    encode_head_and_bytes(writer, 3, val.as_bytes())
}

/// Encode a byte slice into CBOR: a byte string (major type 2).
pub fn encode_byte_slice<W: Writer, C: Config>(writer: &mut W, val: &[u8]) -> (r: Result<(), EncodeError>)
    ensures
        appended(*old(writer), *final(writer), cbor_head(2, val@.len() as nat) + val@, r),
{
    encode_head_and_bytes(writer, 2, val)
}

/// Encode a slice length into CBOR: an array head (major type 4); `usize::MAX` stands for an indefinite length.
pub fn encode_slice_len<W: Writer, C: Config>(writer: &mut W, len: usize) -> (r: Result<(), EncodeError>)
    ensures
        appended(*old(writer), *final(writer), cbor_len_head(4, len as nat, usize::MAX as nat), r),
{
    if len == usize::MAX {
        encode_indefinite_header(writer, 4)
    } else {
        encode_header(writer, 4, len as u64)
    }
}

/// Encode a byte slice length into CBOR: a byte string head (major type 2); `u64::MAX` stands for an indefinite length.
pub fn encode_byte_slice_len<W: Writer, C: Config>(writer: &mut W, len: u64) -> (r: Result<(), EncodeError>)
    ensures
        appended(*old(writer), *final(writer), cbor_len_head(2, len as nat, u64::MAX as nat), r),
{
    if len == u64::MAX {
        encode_indefinite_header(writer, 2)
    } else {
        encode_header(writer, 2, len)
    }
}

/// Encode a map length into CBOR: a map head (major type 5); `usize::MAX` stands for an indefinite length.
pub fn encode_map_len<W: Writer, C: Config>(writer: &mut W, len: usize) -> (r: Result<(), EncodeError>)
    ensures
        appended(*old(writer), *final(writer), cbor_len_head(5, len as nat, usize::MAX as nat), r),
{
    if len == usize::MAX {
        encode_indefinite_header(writer, 5)
    } else {
        encode_header(writer, 5, len as u64)
    }
}

/// Whether `a` comes before `b` in the order of deterministic keys: the shorter first when
/// `length_first`, otherwise (and between equal lengths) bytewise.
pub open spec fn key_before(length_first: bool, a: Seq<u8>, b: Seq<u8>) -> bool {
    if length_first && a.len() != b.len() {
        a.len() < b.len()
    } else {
        lex_lt(a, b)
    }
}

/// The key order is a strict total order.
pub proof fn lemma_key_before_order(lf: bool, a: Seq<u8>, b: Seq<u8>, c: Seq<u8>)
    ensures
        !key_before(lf, a, a),
        key_before(lf, a, b) && key_before(lf, b, c) ==> key_before(lf, a, c),
        a != b ==> key_before(lf, a, b) || key_before(lf, b, a),
{
    lemma_lex_lt_irreflexive(a);
    lemma_lex_lt_total(a, b);
    if key_before(lf, a, b) && key_before(lf, b, c) {
        if !(lf && (a.len() != b.len() || b.len() != c.len())) {
            lemma_lex_lt_transitive(a, b, c);
        } else if lf && a.len() == c.len() {
            assert(false);
        }
    }
}

/// How deterministic keys are ordered: in length-first mode a shorter key always comes before a
/// longer one, and keys of equal length (or any two keys in the other mode) come in bytewise
/// order, where a proper prefix comes first and otherwise the first differing byte decides.
pub proof fn lemma_key_order_by_length_then_bytes(a: Seq<u8>, b: Seq<u8>, i: int)
    ensures
        a.len() < b.len() ==> key_before(true, a, b) && !key_before(true, b, a),
        a.len() == b.len() ==> (key_before(true, a, b) <==> key_before(false, a, b)),
        a.len() < b.len() && a == b.take(a.len() as int) ==> key_before(false, a, b),
        0 <= i < a.len() && i < b.len() && a.take(i) == b.take(i) && a[i] < b[i] ==> key_before(false, a, b)
            && !key_before(false, b, a),
{
    if a.len() < b.len() && a == b.take(a.len() as int) {
        lemma_proper_prefix_first(a, b);
    }
    if 0 <= i < a.len() && i < b.len() && a.take(i) == b.take(i) && a[i] < b[i] {
        lemma_first_difference_decides(a, b, i);
        lemma_first_difference_decides_not(b, a, i);
    }
}

proof fn lemma_proper_prefix_first(a: Seq<u8>, b: Seq<u8>)
    requires
        a.len() < b.len(),
        a == b.take(a.len() as int),
    ensures
        lex_lt(a, b),
    decreases a.len(),
{
    if a.len() > 0 {
        assert(a[0] == b[0]);
        assert(a.drop_first() =~= b.drop_first().take(a.drop_first().len() as int));
        lemma_proper_prefix_first(a.drop_first(), b.drop_first());
    }
}

proof fn lemma_first_difference_decides(a: Seq<u8>, b: Seq<u8>, i: int)
    requires
        0 <= i < a.len(),
        i < b.len(),
        a.take(i) == b.take(i),
        a[i] < b[i],
    ensures
        lex_lt(a, b),
    decreases i,
{
    if i > 0 {
        assert(a[0] == a.take(i)[0]);
        assert(b[0] == b.take(i)[0]);
        assert(a.drop_first().take(i - 1) =~= b.drop_first().take(i - 1)) by {
            assert forall|j: int| 0 <= j < i - 1 implies a.drop_first()[j] == b.drop_first()[j] by {
                assert(a.take(i)[j + 1] == b.take(i)[j + 1]);
                assert(a.take(i)[j + 1] == a[j + 1]);
                assert(b.take(i)[j + 1] == b[j + 1]);
            }
        }
        lemma_first_difference_decides(a.drop_first(), b.drop_first(), i - 1);
    }
}

proof fn lemma_first_difference_decides_not(b: Seq<u8>, a: Seq<u8>, i: int)
    requires
        0 <= i < a.len(),
        i < b.len(),
        a.take(i) == b.take(i),
        a[i] < b[i],
    ensures
        !lex_lt(b, a),
    decreases i,
{
    if i > 0 {
        assert(a[0] == a.take(i)[0]);
        assert(b[0] == b.take(i)[0]);
        assert(a.drop_first().take(i - 1) =~= b.drop_first().take(i - 1)) by {
            assert forall|j: int| 0 <= j < i - 1 implies a.drop_first()[j] == b.drop_first()[j] by {
                assert(a.take(i)[j + 1] == b.take(i)[j + 1]);
                assert(a.take(i)[j + 1] == a[j + 1]);
                assert(b.take(i)[j + 1] == b[j + 1]);
            }
        }
        lemma_first_difference_decides_not(b.drop_first(), a.drop_first(), i - 1);
    }
}

/// `p` lists the positions of `keys` in the order of a stable sort by [`key_before`].
pub open spec fn stable_sorted(lf: bool, keys: Seq<Seq<u8>>, p: Seq<usize>) -> bool {
    &&& p.len() == keys.len()
    &&& forall|a: int| 0 <= a < p.len() ==> #[trigger] p[a] < keys.len()
    &&& forall|a: int, b: int| 0 <= a < b < p.len() ==> #[trigger] p[a] != #[trigger] p[b]
    &&& forall|a: int, b: int|
        0 <= a < b < p.len() ==> !key_before(lf, keys[#[trigger] p[b] as int], keys[#[trigger] p[a] as int])
    &&& forall|a: int, b: int|
        0 <= a < b < p.len() && keys[#[trigger] p[a] as int] == keys[#[trigger] p[b] as int] ==> p[a] < p[b]
}

/// What the deterministic order gives: in length-first mode no item is written before a shorter
/// one, and items of the same length (or any items in the other mode) come in increasing bytewise
/// order, equal ones in their first order.
pub proof fn lemma_sorted_items_order(lf: bool, keys: Seq<Seq<u8>>, p: Seq<usize>, a: int, b: int)
    requires
        stable_sorted(lf, keys, p),
        0 <= a < b < p.len(),
    ensures
        lf ==> keys[p[a] as int].len() <= keys[p[b] as int].len(),
        !lf || keys[p[a] as int].len() == keys[p[b] as int].len() ==> keys[p[a] as int] == keys[p[b] as int] || lex_lt(
            keys[p[a] as int],
            keys[p[b] as int],
        ),
        keys[p[a] as int] == keys[p[b] as int] ==> p[a] < p[b],
{
    let ka = keys[p[a] as int];
    let kb = keys[p[b] as int];
    assert(!key_before(lf, kb, ka));
    lemma_key_order_by_length_then_bytes(kb, ka, 0);
    lemma_lex_lt_total(ka, kb);
}

/// The parts at the positions `p`, one after the other.
pub open spec fn joined(p: Seq<usize>, parts: Seq<Seq<u8>>) -> Seq<u8>
    decreases p.len(),
{
    if p.len() == 0 {
        Seq::empty()
    } else {
        joined(p.drop_last(), parts) + parts[p.last() as int]
    }
}

/// The byte strings held by a list of vectors.
pub open spec fn byte_views(v: Seq<Vec<u8>>) -> Seq<Seq<u8>> {
    v.map_values(|k: Vec<u8>| k@)
}

/// Inserting the key at position `i` after the sorted keys that do not come after it keeps the
/// order stable and sorted.
proof fn lemma_insert_sorted(lf: bool, keys: Seq<Seq<u8>>, p: Seq<usize>, i: usize, j: int)
    requires
        i < keys.len(),
        stable_sorted(lf, keys.take(i as int), p),
        0 <= j <= p.len(),
        forall|m: int| j <= m < p.len() ==> key_before(lf, keys[i as int], keys[#[trigger] p[m] as int]),
        j > 0 ==> !key_before(lf, keys[i as int], keys[p[j - 1] as int]),
    ensures
        stable_sorted(lf, keys.take(i + 1), p.insert(j, i)),
{
    let k0 = keys.take(i as int);
    let k1 = keys.take(i + 1);
    let q = p.insert(j, i);
    assert forall|a: int| 0 <= a < p.len() implies #[trigger] k0[p[a] as int] == keys[p[a] as int] by {}
    assert forall|a: int| 0 <= a < q.len() implies #[trigger] q[a] < k1.len() by {
        if a != j {
            let a0 = if a < j { a } else { a - 1 };
            assert(q[a] == p[a0]);
        }
    }
    assert forall|a: int| 0 <= a < q.len() implies #[trigger] k1[q[a] as int] == keys[q[a] as int] by {
        if a != j {
            let a0 = if a < j { a } else { a - 1 };
            assert(q[a] == p[a0]);
        }
    }
    assert forall|m: int| 0 <= m < j implies !key_before(lf, keys[i as int], keys[#[trigger] p[m] as int]) by {
        let last = p[j - 1] as int;
        let km = keys[p[m] as int];
        let kl = keys[last];
        let ki = keys[i as int];
        if m < j - 1 {
            assert(!key_before(lf, k0[p[j - 1] as int], k0[p[m] as int]));
            lemma_key_before_order(lf, ki, km, kl);
            lemma_key_before_order(lf, km, kl, ki);
            lemma_key_before_order(lf, kl, km, ki);
        }
    }
    assert forall|a: int, b: int| 0 <= a < b < q.len() implies #[trigger] q[a] != #[trigger] q[b] by {
        if a != j && b != j {
            let a0 = if a < j { a } else { a - 1 };
            let b0 = if b < j { b } else { b - 1 };
            assert(q[a] == p[a0] && q[b] == p[b0]);
        } else if a == j {
            let b0 = b - 1;
            assert(q[b] == p[b0]);
        } else {
            assert(q[a] == p[a]);
        }
    }
    assert forall|a: int, b: int| 0 <= a < b < q.len() implies !key_before(
        lf,
        k1[#[trigger] q[b] as int],
        k1[#[trigger] q[a] as int],
    ) by {
        if a != j && b != j {
            let a0 = if a < j { a } else { a - 1 };
            let b0 = if b < j { b } else { b - 1 };
            assert(q[a] == p[a0] && q[b] == p[b0]);
            assert(!key_before(lf, k0[p[b0] as int], k0[p[a0] as int]));
        } else if a == j {
            let b0 = b - 1;
            assert(q[b] == p[b0]);
            lemma_key_before_order(lf, keys[i as int], keys[p[b0] as int], keys[i as int]);
        } else {
            assert(q[a] == p[a]);
        }
    }
    assert forall|a: int, b: int| 0 <= a < b < q.len() && k1[#[trigger] q[a] as int] == k1[#[trigger] q[b] as int] implies q[a] < q[b] by {
        if a != j && b != j {
            let a0 = if a < j { a } else { a - 1 };
            let b0 = if b < j { b } else { b - 1 };
            assert(q[a] == p[a0] && q[b] == p[b0]);
        } else if a == j {
            let b0 = b - 1;
            assert(q[b] == p[b0]);
            lemma_key_before_order(lf, keys[i as int], keys[i as int], keys[i as int]);
        } else {
            assert(q[a] == p[a]);
        }
    }
}

/// The positions of `keys` in the order of a stable sort by [`key_before`].
fn stable_sort_keys(lf: bool, keys: &Vec<Vec<u8>>) -> (order: Vec<usize>)
    ensures
        stable_sorted(lf, byte_views(keys@), order@),
{
    let ghost kv = byte_views(keys@);
    let mut order: Vec<usize> = Vec::new();
    let mut i: usize = 0;
    proof {
        assert(kv.take(0) =~= Seq::<Seq<u8>>::empty());
    }
    while i < keys.len()
        invariant
            i <= keys@.len(),
            kv == byte_views(keys@),
            kv.len() == keys@.len(),
            stable_sorted(lf, kv.take(i as int), order@),
        decreases keys@.len() - i,
    {
        let mut j: usize = order.len();
        while j > 0 && key_is_before(lf, keys[i].as_slice(), keys[order[j - 1]].as_slice())
            invariant
                i < keys@.len(),
                kv == byte_views(keys@),
                kv.len() == keys@.len(),
                stable_sorted(lf, kv.take(i as int), order@),
                j <= order@.len(),
                forall|m: int| j <= m < order@.len() ==> key_before(lf, kv[i as int], kv[#[trigger] order@[m] as int]),
            decreases j,
        {
            j = j - 1;
        }
        proof {
            assert forall|m: int| 0 <= m < order@.len() implies #[trigger] kv.take(i as int)[order@[m] as int] == kv[order@[m] as int] by {}
            lemma_insert_sorted(lf, kv, order@, i, j as int);
        }
        order.insert(j, i);
        i = i + 1;
    }
    proof {
        assert(kv.take(i as int) =~= kv);
    }
    order
}

/// Whether `a` comes before `b` in the order of deterministic keys.
fn key_is_before(lf: bool, a: &[u8], b: &[u8]) -> (r: bool)
    ensures
        r == key_before(lf, a@, b@),
{
    if lf && a.len() != b.len() {
        a.len() < b.len()
    } else {
        compare_bytes(a, b) == -1
    }
}

/// Whether the configuration orders deterministic keys by length first.
pub open spec fn length_first(c: Configuration) -> bool {
    c.cbor.deterministic_mode == CborDeterministicMode::LengthFirst
}

/// The bytes of each of `items` under the configuration `c` (meaningful where they have bytes).
pub open spec fn item_bytes<T: Encode>(items: Seq<T>, c: Configuration) -> Seq<Seq<u8>> {
    Seq::new(items.len(), |i: int| items[i].encoding(c)->Ok_0)
}

/// Whether every one of `items` has bytes under the configuration `c`.
pub open spec fn all_encodable<T: Encode>(items: Seq<T>, c: Configuration) -> bool {
    forall|i: int| 0 <= i < items.len() ==> (#[trigger] items[i].encoding(c)) is Ok
}

/// Encode each of `items` into its own bytes under the encoder's configuration.
fn encode_each<E: Encoder, T: Encode>(encoder: &E, items: &[T]) -> (r: Result<Vec<Vec<u8>>, EncodeError>)
    ensures
        all_encodable(items@, encoder.settings()) <==> r is Ok,
        r matches Ok(v) ==> byte_views(v@) == item_bytes(items@, encoder.settings()),
{
    let c = encoder.configuration();
    let mut out: Vec<Vec<u8>> = Vec::new();
    let mut i: usize = 0;
    while i < items.len()
        invariant
            i <= items@.len(),
            c == encoder.settings(),
            out@.len() == i,
            forall|m: int| 0 <= m < i ==> (#[trigger] items@[m].encoding(c)) is Ok,
            forall|m: int| 0 <= m < i ==> (#[trigger] out@[m])@ == items@[m].encoding(c)->Ok_0,
        decreases items@.len() - i,
    {
        let mut item_encoder = EncoderImpl::<Vec<u8>, Configuration>::new(Vec::new(), c);
        let ghost e0 = item_encoder;
        proof {
            e0.lemma_inner();
        }
        let r = items[i].encode(&mut item_encoder);
        proof {
            item_encoder.lemma_inner();
        }
        if let Err(e) = r {
            return Err(e);
        }
        let bytes = item_encoder.into_writer();
        proof {
            assert(e0.written() =~= Seq::<u8>::empty());
            assert(bytes@ =~= items@[i as int].encoding(c)->Ok_0);
        }
        out.push(bytes);
        i = i + 1;
    }
    proof {
        assert(byte_views(out@) =~= item_bytes(items@, c));
    }
    Ok(out)
}

/// Write the parts at the positions `order`, one after the other.
fn write_parts<E: Encoder>(encoder: &mut E, parts: &Vec<Vec<u8>>, order: &Vec<usize>) -> (r: Result<(), EncodeError>)
    requires
        forall|a: int| 0 <= a < order@.len() ==> #[trigger] order@[a] < parts@.len(),
    ensures
        emitted(*old(encoder), *final(encoder), joined(order@, byte_views(parts@)), r),
{
    let ghost pv = byte_views(parts@);
    let mut k: usize = 0;
    proof {
        assert(order@.take(0) =~= Seq::<usize>::empty());
        old(encoder).lemma_room_empty();
        assert(old(encoder).written() + Seq::<u8>::empty() =~= old(encoder).written());
    }
    while k < order.len()
        invariant
            k <= order@.len(),
            pv == byte_views(parts@),
            forall|a: int| 0 <= a < order@.len() ==> #[trigger] order@[a] < parts@.len(),
            emitted(*old(encoder), *encoder, joined(order@.take(k as int), pv), Ok(())),
        decreases order@.len() - k,
    {
        let ghost e1 = *encoder;
        let part = &parts[order[k]];
        let r = encoder.write_bytes(part.as_slice());
        proof {
            assert(order@.take(k + 1).drop_last() =~= order@.take(k as int));
            assert(joined(order@.take(k + 1), pv) == joined(order@.take(k as int), pv) + pv[order@[k as int] as int]);
            lemma_emitted_then(*old(encoder), e1, *encoder, joined(order@.take(k as int), pv), pv[order@[k as int] as int], Ok(()), r);
        }
        if r.is_err() {
            proof {
                let total = joined(order@, pv);
                lemma_joined_prefix_len(order@, pv, k + 1);
                if old(encoder).room(total.len()) {
                    old(encoder).lemma_room_prefix(total.len(), joined(order@.take(k + 1), pv).len());
                }
            }
            return r;
        }
        k = k + 1;
    }
    proof {
        assert(order@.take(k as int) =~= order@);
    }
    Ok(())
}

/// A prefix of the positions joins to no more bytes than all of them.
proof fn lemma_joined_prefix_len(p: Seq<usize>, parts: Seq<Seq<u8>>, k: int)
    requires
        0 <= k <= p.len(),
    ensures
        joined(p.take(k), parts).len() <= joined(p, parts).len(),
    decreases p.len() - k,
{
    if k < p.len() {
        lemma_joined_prefix_len(p, parts, k + 1);
        assert(p.take(k + 1).drop_last() =~= p.take(k));
    } else {
        assert(p.take(k) =~= p);
    }
}

/// Encode a slice with deterministic ordering.
///
/// RFC 8949: for sets (arrays with deterministic requirements), elements must be sorted.
///
/// An array head of the number of items comes first; then each item's bytes, the items taken in
/// the order of a stable sort of their bytes (see [`key_before`]).
pub fn encode_slice_deterministic<E: Encoder, T: Encode>(encoder: &mut E, items: &[T]) -> (r: Result<(), EncodeError>)
    ensures
        final(encoder).settings() == old(encoder).settings(),
        all_encodable(items@, old(encoder).settings()) ==> exists|p: Seq<usize>|
            #[trigger] stable_sorted(length_first(old(encoder).settings()), item_bytes(items@, old(encoder).settings()), p)
            && emitted(
                *old(encoder),
                *final(encoder),
                cbor_len_head(4, items@.len(), usize::MAX as nat) + joined(
                    p,
                    item_bytes(items@, old(encoder).settings()),
                ),
                r,
            ),
        !all_encodable(items@, old(encoder).settings()) ==> r is Err,
{
    let c = encoder.configuration();
    let keys = match encode_each(&*encoder, items) {
        Ok(k) => k,
        Err(e) => return Err(e),
    };
    let lf = match c.cbor.deterministic_mode {
        CborDeterministicMode::LengthFirst => true,
        _ => false,
    };
    let order = stable_sort_keys(lf, &keys);
    let ghost kb = item_bytes(items@, c);
    let len = items.len();
    let mut head: Vec<u8> = Vec::new();
    let rh = encode_slice_len::<Vec<u8>, Configuration>(&mut head, len);
    proof {
        assert(Seq::<u8>::empty() + cbor_len_head(4, len as nat, usize::MAX as nat) =~= cbor_len_head(4, len as nat, usize::MAX as nat));
    }
    let ghost e0 = *encoder;
    let r1 = encoder.write_bytes(head.as_slice());
    let ghost e1 = *encoder;
    if r1.is_err() {
        proof {
            lemma_emitted_then(e0, e1, e1, head@, joined(order@, kb), r1, r1);
            assert(stable_sorted(length_first(c), kb, order@));
            assert(emitted(e0, e1, cbor_len_head(4, items@.len(), usize::MAX as nat) + joined(order@, kb), r1));
        }
        return r1;
    }
    let r2 = write_parts(encoder, &keys, &order);
    proof {
        lemma_emitted_then(e0, e1, *encoder, head@, joined(order@, kb), r1, r2);
        assert(stable_sorted(length_first(c), kb, order@));
        assert(emitted(e0, *encoder, cbor_len_head(4, items@.len(), usize::MAX as nat) + joined(order@, kb), r2));
    }
    r2
}

/// The keys of a list of entries.
pub open spec fn entry_keys<K, V>(entries: Seq<(K, V)>) -> Seq<K> {
    entries.map_values(|e: (K, V)| e.0)
}

/// The values of a list of entries.
pub open spec fn entry_values<K, V>(entries: Seq<(K, V)>) -> Seq<V> {
    entries.map_values(|e: (K, V)| e.1)
}

/// The bytes of each entry: its key's bytes, then its value's.
pub open spec fn entry_bytes<K: Encode, V: Encode>(entries: Seq<(K, V)>, c: Configuration) -> Seq<Seq<u8>> {
    Seq::new(entries.len(), |i: int| entries[i].0.encoding(c)->Ok_0 + entries[i].1.encoding(c)->Ok_0)
}

/// Encode the key of each entry into its own bytes under the encoder's configuration.
fn encode_keys<E: Encoder, K: Encode, V: Encode>(encoder: &E, entries: &[(K, V)]) -> (r: Result<Vec<Vec<u8>>, EncodeError>)
    ensures
        all_encodable(entry_keys(entries@), encoder.settings()) <==> r is Ok,
        r matches Ok(v) ==> byte_views(v@) == item_bytes(entry_keys(entries@), encoder.settings()),
{
    let c = encoder.configuration();
    let ghost keys = entry_keys(entries@);
    let mut out: Vec<Vec<u8>> = Vec::new();
    let mut i: usize = 0;
    while i < entries.len()
        invariant
            i <= entries@.len(),
            keys == entry_keys(entries@),
            c == encoder.settings(),
            out@.len() == i,
            forall|m: int| 0 <= m < i ==> (#[trigger] keys[m].encoding(c)) is Ok,
            forall|m: int| 0 <= m < i ==> (#[trigger] out@[m])@ == keys[m].encoding(c)->Ok_0,
        decreases entries@.len() - i,
    {
        let mut key_encoder = EncoderImpl::<Vec<u8>, Configuration>::new(Vec::new(), c);
        let ghost e0 = key_encoder;
        proof {
            e0.lemma_inner();
        }
        let r = entries[i].0.encode(&mut key_encoder);
        proof {
            key_encoder.lemma_inner();
        }
        if let Err(e) = r {
            return Err(e);
        }
        let bytes = key_encoder.into_writer();
        proof {
            assert(e0.written() =~= Seq::<u8>::empty());
            assert(bytes@ =~= keys[i as int].encoding(c)->Ok_0);
        }
        out.push(bytes);
        i = i + 1;
    }
    proof {
        assert(byte_views(out@) =~= item_bytes(keys, c));
    }
    Ok(out)
}

/// Encode a map with deterministic ordering.
///
/// RFC 8949 §4.2.1: keys must be sorted by the bytewise lexicographic order of their deterministic encodings.
///
/// A map head of the number of entries comes first; then each entry's key bytes and value bytes,
/// the entries taken in the order of a stable sort of their key bytes (see [`key_before`]).
pub fn encode_map_deterministic<E: Encoder, K: Encode, V: Encode>(encoder: &mut E, entries: &[(K, V)]) -> (r: Result<(), EncodeError>)
    ensures
        final(encoder).settings() == old(encoder).settings(),
        all_encodable(entry_keys(entries@), old(encoder).settings()) && all_encodable(
            entry_values(entries@),
            old(encoder).settings(),
        ) ==> exists|p: Seq<usize>|
            #[trigger] stable_sorted(
                length_first(old(encoder).settings()),
                item_bytes(entry_keys(entries@), old(encoder).settings()),
                p,
            ) && emitted(
                *old(encoder),
                *final(encoder),
                cbor_len_head(5, entries@.len(), usize::MAX as nat) + joined(
                    p,
                    entry_bytes(entries@, old(encoder).settings()),
                ),
                r,
            ),
        !(all_encodable(entry_keys(entries@), old(encoder).settings()) && all_encodable(
            entry_values(entries@),
            old(encoder).settings(),
        )) ==> r is Err,
{
    let c = encoder.configuration();
    let keys = match encode_keys(&*encoder, entries) {
        Ok(k) => k,
        Err(e) => return Err(e),
    };
    let lf = match c.cbor.deterministic_mode {
        CborDeterministicMode::LengthFirst => true,
        _ => false,
    };
    let order = stable_sort_keys(lf, &keys);
    let ghost kb = item_bytes(entry_keys(entries@), c);
    let ghost eb = entry_bytes(entries@, c);
    let ghost vals = entry_values(entries@);
    let len = entries.len();
    let mut head: Vec<u8> = Vec::new();
    let rh = encode_map_len::<Vec<u8>, Configuration>(&mut head, len);
    proof {
        assert(Seq::<u8>::empty() + cbor_len_head(5, len as nat, usize::MAX as nat) =~= cbor_len_head(5, len as nat, usize::MAX as nat));
    }
    let ghost e0 = *encoder;
    let r1 = encoder.write_bytes(head.as_slice());
    let ghost e1 = *encoder;
    if r1.is_err() {
        proof {
            lemma_emitted_then(e0, e1, e1, head@, joined(order@, eb), r1, r1);
            assert(stable_sorted(length_first(c), kb, order@));
            assert(emitted(e0, e1, cbor_len_head(5, entries@.len(), usize::MAX as nat) + joined(order@, eb), r1));
        }
        return r1;
    }
    let mut k: usize = 0;
    proof {
        assert(order@.take(0) =~= Seq::<usize>::empty());
        e1.lemma_room_empty();
        assert(e1.written() + Seq::<u8>::empty() =~= e1.written());
    }
    while k < order.len()
        invariant
            k <= order@.len(),
            order@.len() == entries@.len(),
            keys@.len() == entries@.len(),
            c == e0.settings(),
            kb == item_bytes(entry_keys(entries@), c),
            byte_views(keys@) == kb,
            eb == entry_bytes(entries@, c),
            vals == entry_values(entries@),
            forall|a: int| 0 <= a < order@.len() ==> #[trigger] order@[a] < entries@.len(),
            forall|a: int| 0 <= a < k ==> (#[trigger] vals[order@[a] as int].encoding(c)) is Ok,
            emitted(e1, *encoder, joined(order@.take(k as int), eb), Ok(())),
            emitted(e0, e1, head@, r1),
            r1 is Ok,
            e0 == *old(encoder),
            head@ == cbor_len_head(5, entries@.len(), usize::MAX as nat),
            lf == length_first(c),
            stable_sorted(lf, kb, order@),
        decreases order@.len() - k,
    {
        let idx = order[k];
        let ghost ea = *encoder;
        let rk = encoder.write_bytes(keys[idx].as_slice());
        let ghost eb1 = *encoder;
        let ghost kbytes = kb[idx as int];
        let ghost pre = joined(order@.take(k as int), eb);
        proof {
            assert(keys@[idx as int]@ == kbytes);
            assert(order@.take(k + 1).drop_last() =~= order@.take(k as int));
        }
        if rk.is_err() {
            proof {
                if let Ok(vb) = vals[idx as int].encoding(c) {
                    lemma_emitted_then(ea, eb1, eb1, kbytes, vb, rk, rk);
                    lemma_emitted_then(e1, ea, eb1, pre, kbytes + vb, Ok(()), rk);
                    lemma_joined_prefix_len(order@, eb, k + 1);
                    assert(eb[idx as int] == kbytes + vb);
                    assert(pre + (kbytes + vb) == joined(order@.take(k + 1), eb));
                    let total = joined(order@, eb);
                    if e1.room(total.len()) {
                        e1.lemma_room_prefix(total.len(), joined(order@.take(k + 1), eb).len());
                    }
                    lemma_emitted_then(e0, e1, eb1, head@, total, r1, rk);
                    assert(stable_sorted(length_first(c), kb, order@));
                }
            }
            return rk;
        }
        let rv = entries[idx].1.encode(encoder);
        proof {
            if let Ok(vb) = vals[idx as int].encoding(c) {
                lemma_emitted_then(ea, eb1, *encoder, kbytes, vb, rk, rv);
                lemma_emitted_then(e1, ea, *encoder, pre, kbytes + vb, Ok(()), rv);
                assert(eb[idx as int] == kbytes + vb);
                assert(pre + (kbytes + vb) == joined(order@.take(k + 1), eb));
            }
        }
        if rv.is_err() {
            proof {
                if let Ok(vb) = vals[idx as int].encoding(c) {
                    lemma_joined_prefix_len(order@, eb, k + 1);
                    let total = joined(order@, eb);
                    if e1.room(total.len()) {
                        e1.lemma_room_prefix(total.len(), joined(order@.take(k + 1), eb).len());
                    }
                    lemma_emitted_then(e0, e1, *encoder, head@, total, r1, rv);
                    assert(stable_sorted(length_first(c), kb, order@));
                }
            }
            return rv;
        }
        k = k + 1;
    }
    proof {
        assert(order@.take(k as int) =~= order@);
        lemma_emitted_then(e0, e1, *encoder, head@, joined(order@, eb), r1, Ok(()));
        assert(stable_sorted(length_first(c), kb, order@));
        assert forall|i: int| 0 <= i < vals.len() implies (#[trigger] vals[i].encoding(c)) is Ok by {
            assert(stable_sorted(lf, kb, order@));
            lemma_sorted_covers(lf, kb, order@, i);
        }
    }
    Ok(())
}

/// A stable sort lists every position.
proof fn lemma_sorted_covers(lf: bool, keys: Seq<Seq<u8>>, p: Seq<usize>, i: int)
    requires
        stable_sorted(lf, keys, p),
        0 <= i < keys.len(),
    ensures
        exists|a: int| 0 <= a < p.len() && #[trigger] p[a] == i,
{
    lemma_distinct_covers(p, keys.len(), i);
}

/// `n` different positions below `n` include every position below `n`.
proof fn lemma_distinct_covers(p: Seq<usize>, n: nat, i: int)
    requires
        p.len() == n,
        forall|a: int| 0 <= a < p.len() ==> #[trigger] p[a] < n,
        forall|a: int, b: int| 0 <= a < b < p.len() ==> #[trigger] p[a] != #[trigger] p[b],
        0 <= i < n,
    ensures
        exists|a: int| 0 <= a < p.len() && #[trigger] p[a] == i,
{
    if !(exists|a: int| 0 <= a < p.len() && #[trigger] p[a] == i) {
        let q = p.map_values(|x: usize| x as int);
        assert(q.no_duplicates()) by {
            assert forall|a: int, b: int| 0 <= a < q.len() && 0 <= b < q.len() && a != b implies q[a] != q[b] by {
                if a < b {
                    assert(p[a] != p[b]);
                } else {
                    assert(p[b] != p[a]);
                }
            }
        }
        q.unique_seq_to_set();
        let range = set_int_range(0, n as int);
        lemma_int_range(0, n as int);
        let others = range.remove(i);
        assert(q.to_set().subset_of(others)) by {
            assert forall|x: int| q.to_set().contains(x) implies others.contains(x) by {
                let a = choose|a: int| 0 <= a < q.len() && q[a] == x;
                assert(p[a] != i);
            }
        }
        lemma_len_subset(q.to_set(), others);
    }
}


/// Losslessly narrow the single-precision number with bits `bits` to half precision: the
/// half-precision bits that stand for exactly the same number (or the same NaN payload), where
/// there are any.
pub fn f32_to_f16(bits: u32) -> (r: Option<u16>)
    ensures
        r == (if half_ok(bits) { Some(half_of(bits)) } else { None::<u16> }),
        r matches Some(h) ==> half_to_single(h) == bits,
        r is None ==> forall|h: u16| half_to_single(h) != bits,
{
    proof {
        if half_ok(bits) {
            lemma_half_narrowing_lossless(bits);
        } else {
            assert forall|h: u16| half_to_single(h) != bits by {
                lemma_half_round_trip(h);
            }
        }
    }
    let sign = (bits >> 31u32) & 1u32;
    let exp = (bits >> 23u32) & 0xFFu32;
    let mat = bits & 0x7F_FFFFu32;
    if exp == 0xFFu32 {
        if mat & 0x1FFFu32 == 0u32 {
            return Some(((sign << 15u32) | 0x7C00u32 | (mat >> 13u32)) as u16);
        }
        return None;
    }
    if exp == 0u32 && mat == 0u32 {
        return Some((sign << 15u32) as u16);
    }
    if exp > 142u32 {
        None
    } else if exp <= 112u32 {
        if exp < 102u32 {
            None
        } else {
            let full = mat | 0x80_0000u32;
            if full & (0xFFFF_FFFFu32 >> (exp - 94u32)) == 0u32 {
                Some(((sign << 15u32) | (full >> (126u32 - exp))) as u16)
            } else {
                None
            }
        }
    } else if mat & 0x1FFFu32 == 0u32 {
        Some(((sign << 15u32) | ((exp - 112u32) << 10u32) | (mat >> 13u32)) as u16)
    } else {
        None
    }
}

/// A marker byte followed by the `n` low bytes of `v`, big-endian.
fn marked(marker: u8, v: u128, n: usize) -> (out: Vec<u8>)
    requires
        n <= 16,
    ensures
        out@ == seq![marker] + be_bytes(v as nat, n as nat),
{
    let mut out = vec![marker];
    let mut tail = uint_to_bytes(Endianness::Big, v, n);
    out.append(&mut tail);
    out
}

/// The CBOR bytes of a single-precision number once normalized.
fn single_bytes(opts: &CborOptions, bits: u32) -> (out: Vec<u8>)
    ensures
        out@ == cbor_single(*opts, bits),
{
    if opts.preferred_float {
        if let Some(h) = f32_to_f16(bits) {
            return marked(0xF9, h as u128, 2);
        }
    }
    marked(0xFA, bits as u128, 4)
}

/// The CBOR bytes of the single-precision number with bits `bits`.
fn f32_bytes(opts: &CborOptions, bits: u32) -> (out: Vec<u8>)
    ensures
        out@ == cbor_f32(*opts, bits),
{
    if bits & 0x7FFF_FFFFu32 == 0u32 && opts.normalize_neg_zero {
        single_bytes(opts, 0)
    } else if (bits >> 23u32) & 0xFFu32 == 0xFFu32 && bits & 0x7F_FFFFu32 != 0u32
        && opts.canonical_nan {
        let out = vec![0xF9u8, 0x7Eu8, 0x00u8];
        assert(out@ =~= cbor_canonical_nan());
        out
    } else {
        single_bytes(opts, bits)
    }
}

/// Encode an `f32`, given by its bits, into CBOR with preferred serialization: zeros and NaNs
/// as the options normalize them, and in half precision where that holds the number exactly
/// and is preferred.
pub fn encode_f32<W: Writer>(writer: &mut W, opts: &CborOptions, bits: u32) -> (r: Result<(), EncodeError>)
    ensures
        appended(*old(writer), *final(writer), cbor_f32(*opts, bits), r),
{
    let bytes = f32_bytes(opts, bits);
    writer.write(bytes.as_slice())
}

/// Encode an `f64`, given by its bits, into CBOR with preferred serialization; `narrowed` is
/// the single-precision number that holds it exactly, where there is one, which is written in
/// its place where shorter forms are preferred.
pub fn encode_f64<W: Writer>(
    writer: &mut W,
    opts: &CborOptions,
    bits: u64,
    narrowed: Option<u32>,
) -> (r: Result<(), EncodeError>)
    ensures
        appended(*old(writer), *final(writer), cbor_f64(*opts, bits, narrowed), r),
{
    let bytes = if bits & 0x7FFF_FFFF_FFFF_FFFFu64 == 0u64 && opts.normalize_neg_zero {
        if opts.preferred_float {
            single_bytes(opts, 0)
        } else {
            marked(0xFB, 0, 8)
        }
    } else if (bits >> 52u64) & 0x7FFu64 == 0x7FFu64 && bits & 0xF_FFFF_FFFF_FFFFu64 != 0u64
        && opts.canonical_nan {
        let out = vec![0xF9u8, 0x7Eu8, 0x00u8];
        assert(out@ =~= cbor_canonical_nan());
        out
    } else {
        match narrowed {
            Some(n) if opts.preferred_float => f32_bytes(opts, n),
            _ => marked(0xFB, bits as u128, 8),
        }
    };
    writer.write(bytes.as_slice())
}

} // verus!
