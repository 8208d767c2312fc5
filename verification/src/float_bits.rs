//! Floating-point numbers, handled through their IEEE 754 bit patterns: the bytes that each
//! format writes for an `f32` or `f64`, CBOR's shortest lossless form of a float, and what a
//! decoder reads back.
use crate::bytes::{
    be_bytes, be_value, endian_bytes, endian_value, lemma_be_round_trip, lemma_endian_round_trip,
    lemma_pow256_values,
};
use crate::config::{CborOptions, Configuration};
use crate::de::cbor::cbor_decode_header;
use crate::de::take_exact;
use crate::enc::is_bincode;
use crate::error::DecodeError;
use vstd::prelude::*;

verus! {

/// The position of the highest set bit of a nonzero 10-bit number.
pub open spec fn leading_bit10(m: u32) -> u32 {
    if m >= 0x200u32 {
        9
    } else if m >= 0x100u32 {
        8
    } else if m >= 0x80u32 {
        7
    } else if m >= 0x40u32 {
        6
    } else if m >= 0x20u32 {
        5
    } else if m >= 0x10u32 {
        4
    } else if m >= 0x8u32 {
        3
    } else if m >= 0x4u32 {
        2
    } else if m >= 0x2u32 {
        1
    } else {
        0
    }
}

/// The single-precision bit pattern of the half-precision number with bits `h`: the same
/// number, exactly, and the same NaN payload moved up.
pub open spec fn half_to_single(h: u16) -> u32 {
    let x = h as u32;
    let sign = (x & 0x8000u32) << 16u32;
    let exp = (x >> 10u32) & 0x1Fu32;
    let mat = x & 0x3FFu32;
    if exp == 0x1Fu32 {
        sign | 0x7F80_0000u32 | (mat << 13u32)
    } else if exp == 0u32 {
        if mat == 0u32 {
            sign
        } else {
            let p = leading_bit10(mat);
            sign | (((103u32 + p) as u32) << 23u32) | ((mat << ((23u32 - p) as u32)) & 0x7F_FFFFu32)
        }
    } else {
        sign | (((exp + 112u32) as u32) << 23u32) | (mat << 13u32)
    }
}

/// Whether the single-precision number with bits `b` has a half-precision form that holds it
/// exactly.
pub open spec fn half_ok(b: u32) -> bool {
    let exp = (b >> 23u32) & 0xFFu32;
    let mat = b & 0x7F_FFFFu32;
    if exp == 0xFFu32 {
        mat & 0x1FFFu32 == 0u32
    } else if exp == 0u32 && mat == 0u32 {
        true
    } else if exp > 142u32 {
        false
    } else if exp <= 112u32 {
        exp >= 102u32 && (mat | 0x80_0000u32) & (0xFFFF_FFFFu32 >> ((exp - 94u32) as u32)) == 0u32
    } else {
        mat & 0x1FFFu32 == 0u32
    }
}

/// The half-precision bits of the single-precision number with bits `b`, where [`half_ok`].
pub open spec fn half_of(b: u32) -> u16 {
    let sign = (b >> 31u32) & 1u32;
    let exp = (b >> 23u32) & 0xFFu32;
    let mat = b & 0x7F_FFFFu32;
    if exp == 0xFFu32 {
        ((sign << 15u32) | 0x7C00u32 | (mat >> 13u32)) as u16
    } else if exp == 0u32 && mat == 0u32 {
        (sign << 15u32) as u16
    } else if exp <= 112u32 {
        ((sign << 15u32) | ((mat | 0x80_0000u32) >> ((126u32 - exp) as u32))) as u16
    } else {
        ((sign << 15u32) | (((exp - 112u32) as u32) << 10u32) | (mat >> 13u32)) as u16
    }
}

/// Widening a half-precision number and narrowing it again gives it back: every half-precision
/// number has a lossless single-precision form, which narrows to it.
pub proof fn lemma_half_round_trip(h: u16)
    by (bit_vector)
    ensures
        half_ok(half_to_single(h)),
        half_of(half_to_single(h)) == h,
{
}

/// Narrowing is lossless: where a single-precision number narrows, widening the result gives
/// the same bits back.
pub proof fn lemma_half_narrowing_lossless(b: u32)
    by (bit_vector)
    requires
        half_ok(b),
    ensures
        half_to_single(half_of(b)) == b,
{
}

/// Whether the single-precision bits `b` are a zero of either sign.
pub open spec fn is_zero32(b: u32) -> bool {
    b & 0x7FFF_FFFFu32 == 0u32
}

/// Whether the single-precision bits `b` are a NaN.
pub open spec fn is_nan32(b: u32) -> bool {
    (b >> 23u32) & 0xFFu32 == 0xFFu32 && b & 0x7F_FFFFu32 != 0u32
}

/// Whether the double-precision bits `b` are a zero of either sign.
pub open spec fn is_zero64(b: u64) -> bool {
    b & 0x7FFF_FFFF_FFFF_FFFFu64 == 0u64
}

/// Whether the double-precision bits `b` are a NaN.
pub open spec fn is_nan64(b: u64) -> bool {
    (b >> 52u64) & 0x7FFu64 == 0x7FFu64 && b & 0xF_FFFF_FFFF_FFFFu64 != 0u64
}

/// The CBOR canonical NaN: a half-precision float.
pub open spec fn cbor_canonical_nan() -> Seq<u8> {
    seq![0xF9u8, 0x7Eu8, 0x00u8]
}

/// A single-precision number in CBOR after normalizing: in half precision where that is
/// preferred and exact, else in single precision.
pub open spec fn cbor_single(o: CborOptions, b: u32) -> Seq<u8> {
    if o.preferred_float && half_ok(b) {
        seq![0xF9u8] + be_bytes(half_of(b) as nat, 2)
    } else {
        seq![0xFAu8] + be_bytes(b as nat, 4)
    }
}

/// The CBOR bytes of the single-precision number with bits `b`: a negative zero as zero where
/// zeros are normalized, any NaN as the canonical NaN where that is asked for, then
/// [`cbor_single`].
pub open spec fn cbor_f32(o: CborOptions, b: u32) -> Seq<u8> {
    if is_zero32(b) && o.normalize_neg_zero {
        cbor_single(o, 0)
    } else if is_nan32(b) && o.canonical_nan {
        cbor_canonical_nan()
    } else {
        cbor_single(o, b)
    }
}

/// The CBOR bytes of the double-precision number with bits `b`, where `narrowed` is the
/// single-precision form that holds it exactly, if there is one: zeros and NaNs as for
/// [`cbor_f32`], then the single-precision form where that is preferred and exists, else the
/// double-precision bits.
pub open spec fn cbor_f64(o: CborOptions, b: u64, narrowed: Option<u32>) -> Seq<u8> {
    if is_zero64(b) && o.normalize_neg_zero {
        if o.preferred_float {
            cbor_single(o, 0)
        } else {
            seq![0xFBu8] + be_bytes(0, 8)
        }
    } else if is_nan64(b) && o.canonical_nan {
        cbor_canonical_nan()
    } else {
        match narrowed {
            Some(n) => if o.preferred_float {
                cbor_f32(o, n)
            } else {
                seq![0xFBu8] + be_bytes(b as nat, 8)
            },
            None => seq![0xFBu8] + be_bytes(b as nat, 8),
        }
    }
}

/// The bytes of an `f32` with bits `b` under configuration `c`: its four bytes in the
/// configured byte order in bincode, [`cbor_f32`] in CBOR.
pub open spec fn enc_f32(c: Configuration, b: u32) -> Seq<u8> {
    if is_bincode(c) {
        endian_bytes(c.endian, b as nat, 4)
    } else {
        cbor_f32(c.cbor, b)
    }
}

/// The bytes of an `f64` with bits `b` (and exact single-precision form `narrowed`) under
/// configuration `c`.
pub open spec fn enc_f64(c: Configuration, b: u64, narrowed: Option<u32>) -> Seq<u8> {
    if is_bincode(c) {
        endian_bytes(c.endian, b as nat, 8)
    } else {
        cbor_f64(c.cbor, b, narrowed)
    }
}

/// A floating-point number as read, before it is turned into the type asked for: the bits of a
/// half-, single- or double-precision number.
#[derive(Debug, Clone, Copy, PartialEq, Eq, Structural)]
pub enum FloatBits {
    Half(u16),
    Single(u32),
    Double(u64),
}

/// What reading a CBOR float makes of `s`, for a number of `width` bytes (4 or 8, which only
/// the errors tell apart): a head of major type 7 with additional information 25, 26 or 27,
/// then that many bytes of big-endian bits.
pub open spec fn cbor_decode_float(s: Seq<u8>, width: nat) -> Result<(FloatBits, nat), DecodeError> {
    match cbor_decode_header(s) {
        Ok((major, info, indefinite, n)) => if major != 7 || indefinite {
            Err(DecodeError::UnexpectedEnd { additional: width as usize })
        } else if info == 25 {
            match take_exact(s.skip(n as int), 2) {
                Ok(b) => Ok((FloatBits::Half(be_value(b) as u16), n + 2)),
                Err(e) => Err(e),
            }
        } else if info == 26 {
            match take_exact(s.skip(n as int), 4) {
                Ok(b) => Ok((FloatBits::Single(be_value(b) as u32), n + 4)),
                Err(e) => Err(e),
            }
        } else if info == 27 {
            match take_exact(s.skip(n as int), 8) {
                Ok(b) => Ok((FloatBits::Double(be_value(b) as u64), n + 8)),
                Err(e) => Err(e),
            }
        } else {
            Err(DecodeError::UnexpectedEnd { additional: width as usize })
        },
        Err(e) => Err(e),
    }
}

/// What reading an `f32` under configuration `c` makes of `s`.
pub open spec fn dec_f32(c: Configuration, s: Seq<u8>) -> Result<(FloatBits, nat), DecodeError> {
    if is_bincode(c) {
        match take_exact(s, 4) {
            Ok(b) => Ok((FloatBits::Single(endian_value(c.endian, b) as u32), 4)),
            Err(e) => Err(e),
        }
    } else {
        cbor_decode_float(s, 4)
    }
}

/// What reading an `f64` under configuration `c` makes of `s`.
pub open spec fn dec_f64(c: Configuration, s: Seq<u8>) -> Result<(FloatBits, nat), DecodeError> {
    if is_bincode(c) {
        match take_exact(s, 8) {
            Ok(b) => Ok((FloatBits::Double(endian_value(c.endian, b) as u64), 8)),
            Err(e) => Err(e),
        }
    } else {
        cbor_decode_float(s, 8)
    }
}

/// The single-precision bits that a float read back stands for, where it is no double.
pub open spec fn single_of(fb: FloatBits) -> Option<u32> {
    match fb {
        FloatBits::Half(h) => Some(half_to_single(h)),
        FloatBits::Single(b) => Some(b),
        FloatBits::Double(_) => None,
    }
}

/// The single-precision number that CBOR writes for `b`: `b` itself, but a zero of either sign
/// where zeros are normalized and the canonical NaN where NaNs are.
pub open spec fn cbor_normalized32(o: CborOptions, b: u32) -> u32 {
    if is_zero32(b) && o.normalize_neg_zero {
        0
    } else if is_nan32(b) && o.canonical_nan {
        0x7FC0_0000
    } else {
        b
    }
}

/// The double-precision number that CBOR writes for `b` where it keeps double precision.
pub open spec fn cbor_normalized64(o: CborOptions, b: u64) -> u64 {
    if is_zero64(b) && o.normalize_neg_zero {
        0
    } else {
        b
    }
}

/// A CBOR head byte of major type 7 with additional information 25, 26 or 27 reads as such.
proof fn lemma_float_head(s: Seq<u8>, first: u8)
    requires
        s.len() > 0,
        s[0] == first,
        first == 0xF9 || first == 0xFA || first == 0xFB,
    ensures
        cbor_decode_header(s) == Ok::<(u8, u64, bool, nat), DecodeError>(
            (7u8, (first - 0xE0) as u64, false, 1nat),
        ),
{
}

/// A marked run of big-endian bytes reads back as its value.
proof fn lemma_marked_read(first: u8, v: nat, n: nat, rest: Seq<u8>)
    requires
        v < crate::bytes::pow256(n),
    ensures
        take_exact((seq![first] + be_bytes(v, n) + rest).skip(1), n) == Ok::<Seq<u8>, DecodeError>(
            be_bytes(v, n),
        ),
        be_value(be_bytes(v, n)) == v,
{
    lemma_be_round_trip(v, n);
    assert((seq![first] + be_bytes(v, n) + rest).skip(1).take(n as int) =~= be_bytes(v, n));
}

/// A normalized single written to CBOR reads back as the same number.
proof fn lemma_cbor_single_read(o: CborOptions, b: u32, width: nat, rest: Seq<u8>)
    ensures
        cbor_decode_float(cbor_single(o, b) + rest, width) matches Ok((fb, n)) && n
            == cbor_single(o, b).len() && single_of(fb) == Some(b),
{
    lemma_pow256_values();
    let s = cbor_single(o, b) + rest;
    if o.preferred_float && half_ok(b) {
        let h = half_of(b);
        lemma_half_narrowing_lossless(b);
        lemma_marked_read(0xF9, h as nat, 2, rest);
        lemma_float_head(s, 0xF9);
        crate::bytes::lemma_be_bytes_len(h as nat, 2);
    } else {
        lemma_marked_read(0xFA, b as nat, 4, rest);
        lemma_float_head(s, 0xFA);
        crate::bytes::lemma_be_bytes_len(b as nat, 4);
    }
}

/// The canonical NaN reads back as a half-precision NaN, the single-precision canonical NaN.
proof fn lemma_canonical_nan_read(width: nat, rest: Seq<u8>)
    ensures
        cbor_decode_float(cbor_canonical_nan() + rest, width) == Ok::<(FloatBits, nat), DecodeError>(
            (FloatBits::Half(0x7E00), 3),
        ),
        half_to_single(0x7E00) == 0x7FC0_0000,
{
    lemma_pow256_values();
    let s = cbor_canonical_nan() + rest;
    lemma_float_head(s, 0xF9);
    assert(s.skip(1).take(2) =~= seq![0x7Eu8, 0x00u8]);
    assert(be_value(seq![0x7Eu8, 0x00u8]) == 0x7E00) by {
        reveal_with_fuel(be_value, 3);
        assert(seq![0x7Eu8, 0x00u8].drop_last() =~= seq![0x7Eu8]);
        assert(seq![0x7Eu8].drop_last() =~= Seq::<u8>::empty());
    }
    assert(half_to_single(0x7E00u16) == 0x7FC0_0000u32) by (bit_vector);
}

/// Encoding an `f32` and reading it back gives the same number: the same bits in bincode, and
/// in CBOR the number as normalized, whether it was written in half or single precision.
pub proof fn lemma_f32_round_trip(c: Configuration, b: u32, rest: Seq<u8>)
    ensures
        dec_f32(c, enc_f32(c, b) + rest) matches Ok((fb, n)) && n == enc_f32(c, b).len()
            && single_of(fb) == Some(
            if is_bincode(c) {
                b
            } else {
                cbor_normalized32(c.cbor, b)
            },
        ),
{
    lemma_pow256_values();
    if is_bincode(c) {
        lemma_endian_round_trip(c.endian, b as nat, 4);
        assert((endian_bytes(c.endian, b as nat, 4) + rest).take(4) =~= endian_bytes(
            c.endian,
            b as nat,
            4,
        ));
    } else {
        let o = c.cbor;
        if is_zero32(b) && o.normalize_neg_zero {
            lemma_cbor_single_read(o, 0, 4, rest);
        } else if is_nan32(b) && o.canonical_nan {
            lemma_canonical_nan_read(4, rest);
        } else {
            lemma_cbor_single_read(o, b, 4, rest);
        }
    }
}

/// Encoding an `f64` and reading it back: in bincode the same bits; in CBOR the number as
/// normalized in double precision, or, where a shorter form was written, the canonical NaN, a
/// zero, or the normalized single-precision form `narrowed` that was given for it.
pub proof fn lemma_f64_round_trip(c: Configuration, b: u64, narrowed: Option<u32>, rest: Seq<u8>)
    ensures
        dec_f64(c, enc_f64(c, b, narrowed) + rest) matches Ok((fb, n)) && n == enc_f64(
            c,
            b,
            narrowed,
        ).len() && if is_bincode(c) {
            fb == FloatBits::Double(b)
        } else {
            match fb {
                FloatBits::Double(d) => d == cbor_normalized64(c.cbor, b),
                _ => if is_zero64(b) && c.cbor.normalize_neg_zero {
                    single_of(fb) == Some(0u32)
                } else if is_nan64(b) && c.cbor.canonical_nan {
                    fb == FloatBits::Half(0x7E00)
                } else {
                    narrowed matches Some(m) && single_of(fb) == Some(cbor_normalized32(c.cbor, m))
                },
            }
        },
{
    lemma_pow256_values();
    if is_bincode(c) {
        lemma_endian_round_trip(c.endian, b as nat, 8);
        assert((endian_bytes(c.endian, b as nat, 8) + rest).take(8) =~= endian_bytes(
            c.endian,
            b as nat,
            8,
        ));
    } else {
        let o = c.cbor;
        let s = enc_f64(c, b, narrowed) + rest;
        if is_zero64(b) && o.normalize_neg_zero {
            if o.preferred_float {
                lemma_cbor_single_read(o, 0, 8, rest);
            } else {
                lemma_marked_read(0xFB, 0, 8, rest);
                lemma_float_head(s, 0xFB);
                crate::bytes::lemma_be_bytes_len(0, 8);
            }
        } else if is_nan64(b) && o.canonical_nan {
            lemma_canonical_nan_read(8, rest);
        } else {
            match narrowed {
                Some(m) if o.preferred_float => {
                    let m2 = cbor_normalized32(o, m);
                    if is_zero32(m) && o.normalize_neg_zero {
                        lemma_cbor_single_read(o, 0, 8, rest);
                    } else if is_nan32(m) && o.canonical_nan {
                        lemma_canonical_nan_read(8, rest);
                    } else {
                        lemma_cbor_single_read(o, m, 8, rest);
                    }
                },
                _ => {
                    lemma_marked_read(0xFB, b as nat, 8, rest);
                    lemma_float_head(s, 0xFB);
                    crate::bytes::lemma_be_bytes_len(b as nat, 8);
                },
            }
        }
    }
}

/// Whether the double-precision bits `b` are an infinity or a NaN.
pub open spec fn is_non_finite64(b: u64) -> bool {
    (b >> 52u64) & 0x7FFu64 == 0x7FFu64
}

/// The single-precision bits that stand for the infinity or NaN with double-precision bits `b`
/// exactly: the infinity of the same sign, or the NaN with the same sign and payload where the
/// payload's low 29 bits are zero; `None` for a NaN whose payload does not fit.
pub open spec fn special_narrowed(b: u64) -> Option<u32> {
    let sign = (b >> 63u64) & 1u64;
    let mat = b & 0xF_FFFF_FFFF_FFFFu64;
    if mat == 0u64 {
        Some(((sign << 31u64) | 0x7F80_0000u64) as u32)
    } else if mat & 0x1F_FFFF_FFFFu64 == 0u64 {
        Some(((sign << 31u64) | 0x7F80_0000u64 | (mat >> 29u64)) as u32)
    } else {
        None
    }
}

/// Narrow an infinity or NaN, given by its double-precision bits, to single precision without
/// losing anything, where that can be done.
pub fn f64_special_to_f32(bits: u64) -> (r: Option<u32>)
    requires
        is_non_finite64(bits),
    ensures
        r == special_narrowed(bits),
{
    let sign = (bits >> 63u64) & 1u64;
    let mat = bits & 0xF_FFFF_FFFF_FFFFu64;
    if mat == 0u64 {
        Some(((sign << 31u64) | 0x7F80_0000u64) as u32)
    } else if mat & 0x1F_FFFF_FFFFu64 == 0u64 {
        Some(((sign << 31u64) | 0x7F80_0000u64 | (mat >> 29u64)) as u32)
    } else {
        None
    }
}

} // verus!
