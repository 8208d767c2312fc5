//! CBOR (RFC 8949) decoding implementation.
use crate::bytes::{
    be_value, lemma_be_round_trip, lemma_be_value_bound, lemma_pow256_monotone,
    lemma_pow256_values, pow256, uint_from_bytes,
};
use crate::config::Endianness;
use crate::de::read::Reader;
use crate::enc::cbor::{
    bignum_len, cbor_bignum, cbor_bool, cbor_head, cbor_indefinite, cbor_int, cbor_len_head,
    cbor_uint, lemma_bignum_len, lemma_cbor_head_len,
};
use crate::error::DecodeError;
use crate::float_bits::{cbor_decode_float, half_to_single, leading_bit10, FloatBits};
use vstd::prelude::*;

verus! {

/// The bytes that follow a head whose low five bits are `info` (24 to 27).
pub open spec fn cbor_arg_len(info: nat) -> nat {
    if info == 24 {
        1
    } else if info == 25 {
        2
    } else if info == 26 {
        4
    } else {
        8
    }
}

/// What the head decoder makes of `s`: major type, argument, whether the length is indefinite,
/// and the number of bytes taken; or the error. For major type 7 the additional information
/// 24 to 27 is returned as the argument and nothing more is read.
pub open spec fn cbor_decode_header(s: Seq<u8>) -> Result<(u8, u64, bool, nat), DecodeError> {
    if s.len() == 0 {
        Err(DecodeError::UnexpectedEnd { additional: 1 })
    } else {
        let major = (s[0] / 32) as u8;
        let info = (s[0] % 32) as u8;
        if info < 24 {
            Ok((major, info as u64, false, 1))
        } else if info < 28 {
            if major == 7 {
                Ok((major, info as u64, false, 1))
            } else {
                let n = cbor_arg_len(info as nat);
                let rest = s.drop_first();
                if rest.len() < n {
                    Err(DecodeError::UnexpectedEnd { additional: (n - rest.len()) as usize })
                } else {
                    Ok((major, be_value(rest.take(n as int)) as u64, false, n + 1))
                }
            }
        } else if info == 31 {
            if major == 0 || major == 1 || major == 6 {
                Err(DecodeError::InvalidCborInfo(info))
            } else {
                Ok((major, 0, true, 1))
            }
        } else {
            Err(DecodeError::InvalidCborInfo(info))
        }
    }
}

/// An unsigned integer of major type 0 that must not pass `max`.
pub open spec fn cbor_decode_uint(s: Seq<u8>, max: nat) -> Result<(nat, nat), DecodeError> {
    match cbor_decode_header(s) {
        Ok((major, val, indefinite, n)) => if major != 0 || indefinite {
            Err(DecodeError::UnexpectedEnd { additional: 0 })
        } else if val > max {
            Err(DecodeError::OutsideUsizeRange(val))
        } else {
            Ok((val as nat, n))
        },
        Err(e) => Err(e),
    }
}

/// A signed integer of major type 0 or 1 that must lie in `min..=max` (for types up to `i32`).
pub open spec fn cbor_decode_small_int(s: Seq<u8>, min: int, max: int) -> Result<(int, nat), DecodeError> {
    match cbor_decode_header(s) {
        Ok((major, val, indefinite, n)) => if indefinite {
            Err(DecodeError::UnexpectedEnd { additional: 0 })
        } else if major == 0 {
            if val <= max {
                Ok((val as int, n))
            } else {
                Err(DecodeError::OutsideIsizeRange(val as i64))
            }
        } else if major == 1 {
            let res = -1 - val as int;
            if min <= res <= max {
                Ok((res, n))
            } else {
                Err(DecodeError::OutsideIsizeRange((-1 - (val as i64) as int) as i64))
            }
        } else {
            Err(DecodeError::UnexpectedEnd { additional: 0 })
        },
        Err(e) => Err(e),
    }
}

/// An `i64` of major type 0 or 1.
pub open spec fn cbor_decode_i64(s: Seq<u8>) -> Result<(int, nat), DecodeError> {
    match cbor_decode_header(s) {
        Ok((major, val, indefinite, n)) => if indefinite {
            Err(DecodeError::UnexpectedEnd { additional: 0 })
        } else if major == 0 {
            if val <= i64::MAX {
                Ok((val as int, n))
            } else {
                Err(DecodeError::OutsideIsizeRange(val as i64))
            }
        } else if major == 1 {
            if val > i64::MAX {
                Err(DecodeError::OutsideIsizeRange(-1i64))
            } else {
                Ok((-1 - val as int, n))
            }
        } else {
            Err(DecodeError::UnexpectedEnd { additional: 0 })
        },
        Err(e) => Err(e),
    }
}

/// A byte string of at most 16 bytes read as a big-endian number.
pub open spec fn cbor_decode_bignum(s: Seq<u8>) -> Result<(nat, nat), DecodeError> {
    match cbor_decode_header(s) {
        Ok((major, len, indefinite, n)) => if major != 2 || indefinite {
            Err(DecodeError::UnexpectedEnd { additional: 0 })
        } else if len > 16 {
            Err(DecodeError::OutsideUsizeRange(len))
        } else {
            let rest = s.skip(n as int);
            if rest.len() < len {
                Err(DecodeError::UnexpectedEnd { additional: (len - rest.len()) as usize })
            } else {
                Ok((be_value(rest.take(len as int)), n + len as nat))
            }
        },
        Err(e) => Err(e),
    }
}

/// A bignum decoded after a head that took `n` bytes: its value and the total taken.
pub open spec fn cbor_bignum_after(s: Seq<u8>, n: nat) -> Result<(nat, nat), DecodeError> {
    match cbor_decode_bignum(s.skip(n as int)) {
        Ok((m, k)) => Ok((m, n + k)),
        Err(e) => Err(e),
    }
}

/// A `u128`: major type 0, or a positive bignum (tag 2).
pub open spec fn cbor_decode_u128(s: Seq<u8>) -> Result<(nat, nat), DecodeError> {
    match cbor_decode_header(s) {
        Ok((major, val, indefinite, n)) => if major == 0 && !indefinite {
            Ok((val as nat, n))
        } else if major == 6 && !indefinite {
            if val != 2 {
                Err(DecodeError::UnexpectedEnd { additional: 0 })
            } else {
                cbor_bignum_after(s, n)
            }
        } else {
            Err(DecodeError::UnexpectedEnd { additional: 0 })
        },
        Err(e) => Err(e),
    }
}

/// An `i128`: major types 0 and 1, or a bignum with tag 2 (the number itself) or tag 3 (minus one
/// minus the number), refused where the number it stands for lies outside `i128`.
pub open spec fn cbor_decode_i128(s: Seq<u8>) -> Result<(int, nat), DecodeError> {
    match cbor_decode_header(s) {
        Ok((major, val, indefinite, n)) => if indefinite {
            Err(DecodeError::UnexpectedEnd { additional: 0 })
        } else if major == 0 {
            Ok((val as int, n))
        } else if major == 1 {
            Ok((-1 - val as int, n))
        } else if major == 6 {
            if val == 2 {
                match cbor_bignum_after(s, n) {
                    Ok((m, k)) => if m > i128::MAX as nat {
                        Err(DecodeError::OutsideIsizeRange(-1i64))
                    } else {
                        Ok((m as int, k))
                    },
                    Err(e) => Err(e),
                }
            } else if val == 3 {
                match cbor_bignum_after(s, n) {
                    Ok((m, k)) => if m > i128::MAX as nat {
                        Err(DecodeError::OutsideIsizeRange(-1i64))
                    } else {
                        Ok((-1 - m as int, k))
                    },
                    Err(e) => Err(e),
                }
            } else {
                Err(DecodeError::UnexpectedEnd { additional: 0 })
            }
        } else {
            Err(DecodeError::UnexpectedEnd { additional: 0 })
        },
        Err(e) => Err(e),
    }
}

/// A boolean: the simple values 20 (`false`) and 21 (`true`).
pub open spec fn cbor_decode_bool(s: Seq<u8>) -> Result<(bool, nat), DecodeError> {
    match cbor_decode_header(s) {
        Ok((major, val, indefinite, n)) => if major != 7 || indefinite {
            Err(DecodeError::InvalidBooleanValue(0))
        } else if val == 20 {
            Ok((false, n))
        } else if val == 21 {
            Ok((true, n))
        } else {
            Err(DecodeError::InvalidBooleanValue(val as u8))
        },
        Err(e) => Err(e),
    }
}

/// A length of major type `major`; an indefinite length reads as `usize::MAX`.
pub open spec fn cbor_decode_len(s: Seq<u8>, major_wanted: u8) -> Result<(nat, nat), DecodeError> {
    match cbor_decode_header(s) {
        Ok((major, val, indefinite, n)) => if major != major_wanted {
            Err(DecodeError::UnexpectedEnd { additional: 0 })
        } else if indefinite {
            Ok((usize::MAX as nat, n))
        } else if val > usize::MAX {
            Err(DecodeError::OutsideUsizeRange(val))
        } else {
            Ok((val as nat, n))
        },
        Err(e) => Err(e),
    }
}

/// A length of a byte string (major type 2) or an array (major type 4), with the major type.
pub open spec fn cbor_decode_bytes_or_array_len(s: Seq<u8>) -> Result<(u8, nat, nat), DecodeError> {
    match cbor_decode_header(s) {
        Ok((major, val, indefinite, n)) => if major != 2 && major != 4 {
            Err(DecodeError::UnexpectedEnd { additional: 0 })
        } else if indefinite {
            Ok((major, usize::MAX as nat, n))
        } else if val > usize::MAX {
            Err(DecodeError::OutsideUsizeRange(val))
        } else {
            Ok((major, val as nat, n))
        },
        Err(e) => Err(e),
    }
}

/// A decoded bignum holds at most 16 bytes, so it fits a `u128`.
pub proof fn lemma_bignum_bound(s: Seq<u8>)
    ensures
        cbor_decode_bignum(s) matches Ok((v, n)) ==> v <= u128::MAX,
{
    if let Ok((major, len, indefinite, n)) = cbor_decode_header(s) {
        if major == 2 && !indefinite && len <= 16 && s.skip(n as int).len() >= len {
            let b = s.skip(n as int).take(len as int);
            lemma_be_value_bound(b);
            lemma_pow256_values();
            lemma_pow256_monotone(len as nat, 16);
        }
    }
}

/// A head takes at least one byte and no more than there are.
pub proof fn lemma_cbor_header_taken(s: Seq<u8>)
    ensures
        cbor_decode_header(s) matches Ok((major, val, indefinite, n)) ==> 1 <= n <= s.len(),
        cbor_decode_uint(s, 0xFF) matches Ok((v, n)) ==> 1 <= n <= s.len() && v <= 0xFF,
{
}

/// Decodes a CBOR header (major type + value/argument + indefinite flag).
fn decode_header<R: Reader>(reader: &mut R) -> (r: Result<(u8, u64, bool), DecodeError>)
    ensures
        match cbor_decode_header(old(reader).pending()) {
            Ok((major, val, indefinite, n)) => r == Ok::<(u8, u64, bool), DecodeError>(
                (major, val, indefinite),
            ) && (*final(reader)).pending() == old(reader).pending().skip(n as int),
            Err(e) => r == Err::<(u8, u64, bool), DecodeError>(e),
        },
{
    let first = match reader.read_u8() {
        Ok(b) => b,
        Err(e) => return Err(e),
    };
    let ghost after_first = reader.pending();
    let major: u8 = first / 32;
    let info: u8 = first % 32;
    if info < 24 {
        Ok((major, info as u64, false))
    } else if info < 28 {
        if major == 7 {
            return Ok((major, info as u64, false));
        }
        let n: usize = if info == 24 {
            1
        } else if info == 25 {
            2
        } else if info == 26 {
            4
        } else {
            8
        };
        let mut buf: Vec<u8> = vec![0u8; n];
        match reader.read(buf.as_mut_slice()) {
            Ok(()) => {
                proof {
                    assert(old(reader).pending().drop_first() =~= after_first);
                    assert((*final(reader)).pending() =~= old(reader).pending().skip(n + 1));
                    lemma_be_value_bound(buf@);
                    lemma_pow256_values();
                    lemma_pow256_monotone(n as nat, 8);
                }
                let v = uint_from_bytes(Endianness::Big, buf.as_slice());
                Ok((major, v as u64, false))
            },
            Err(e) => {
                proof {
                    assert(old(reader).pending().drop_first() =~= after_first);
                }
                Err(e)
            },
        }
    } else if info == 31 {
        if major == 0 || major == 1 || major == 6 {
            return Err(DecodeError::InvalidCborInfo(info));
        }
        Ok((major, 0, true))
    } else {
        Err(DecodeError::InvalidCborInfo(info))
    }
}

/// Read an unsigned integer of major type 0 that must not pass `max`.
fn decode_uint_at_most<R: Reader>(reader: &mut R, max: u64) -> (r: Result<u64, DecodeError>)
    ensures
        match cbor_decode_uint(old(reader).pending(), max as nat) {
            Ok((v, n)) => r == Ok::<u64, DecodeError>(v as u64) && (*final(reader)).pending()
                == old(reader).pending().skip(n as int),
            Err(e) => r == Err::<u64, DecodeError>(e),
        },
{
    let (major, val, indefinite) = match decode_header(reader) {
        Ok(h) => h,
        Err(e) => return Err(e),
    };
    if major != 0 || indefinite {
        return Err(DecodeError::UnexpectedEnd { additional: 0 });
    }
    if val > max {
        return Err(DecodeError::OutsideUsizeRange(val));
    }
    Ok(val)
}

/// Decode a `u8` value from CBOR.
pub fn decode_u8<R: Reader>(reader: &mut R) -> (r: Result<u8, DecodeError>)
    ensures
        match cbor_decode_uint(old(reader).pending(), u8::MAX as nat) {
            Ok((v, n)) => r == Ok::<u8, DecodeError>(v as u8) && (*final(reader)).pending()
                == old(reader).pending().skip(n as int),
            Err(e) => r == Err::<u8, DecodeError>(e),
        },
{
    match decode_uint_at_most(reader, u8::MAX as u64) {
        Ok(v) => Ok(v as u8),
        Err(e) => Err(e),
    }
}

/// Decode a `u16` value from CBOR.
pub fn decode_u16<R: Reader>(reader: &mut R) -> (r: Result<u16, DecodeError>)
    ensures
        match cbor_decode_uint(old(reader).pending(), u16::MAX as nat) {
            Ok((v, n)) => r == Ok::<u16, DecodeError>(v as u16) && (*final(reader)).pending()
                == old(reader).pending().skip(n as int),
            Err(e) => r == Err::<u16, DecodeError>(e),
        },
{
    match decode_uint_at_most(reader, u16::MAX as u64) {
        Ok(v) => Ok(v as u16),
        Err(e) => Err(e),
    }
}

/// Decode a `u32` value from CBOR.
pub fn decode_u32<R: Reader>(reader: &mut R) -> (r: Result<u32, DecodeError>)
    ensures
        match cbor_decode_uint(old(reader).pending(), u32::MAX as nat) {
            Ok((v, n)) => r == Ok::<u32, DecodeError>(v as u32) && (*final(reader)).pending()
                == old(reader).pending().skip(n as int),
            Err(e) => r == Err::<u32, DecodeError>(e),
        },
{
    match decode_uint_at_most(reader, u32::MAX as u64) {
        Ok(v) => Ok(v as u32),
        Err(e) => Err(e),
    }
}

/// Decode a `u64` value from CBOR.
pub fn decode_u64<R: Reader>(reader: &mut R) -> (r: Result<u64, DecodeError>)
    ensures
        match cbor_decode_uint(old(reader).pending(), u64::MAX as nat) {
            Ok((v, n)) => r == Ok::<u64, DecodeError>(v as u64) && (*final(reader)).pending()
                == old(reader).pending().skip(n as int),
            Err(e) => r == Err::<u64, DecodeError>(e),
        },
{
    decode_uint_at_most(reader, u64::MAX)
}

/// Read a signed integer of major type 0 or 1 in `min..=max`, for types up to `i32`.
fn decode_small_int<R: Reader>(reader: &mut R, min: i64, max: i64) -> (r: Result<i64, DecodeError>)
    requires
        -0x8000_0000 <= min <= 0,
        0 <= max <= 0x7FFF_FFFF,
    ensures
        match cbor_decode_small_int(old(reader).pending(), min as int, max as int) {
            Ok((v, n)) => r == Ok::<i64, DecodeError>(v as i64) && (*final(reader)).pending()
                == old(reader).pending().skip(n as int),
            Err(e) => r == Err::<i64, DecodeError>(e),
        },
{
    let (major, val, indefinite) = match decode_header(reader) {
        Ok(h) => h,
        Err(e) => return Err(e),
    };
    if indefinite {
        return Err(DecodeError::UnexpectedEnd { additional: 0 });
    }
    if major == 0 {
        if val <= max as u64 {
            Ok(val as i64)
        } else {
            Err(DecodeError::OutsideIsizeRange(val as i64))
        }
    } else if major == 1 {
        if val <= i64::MAX as u64 {
            let res: i64 = -1 - (val as i64);
            if min <= res && res <= max {
                return Ok(res);
            }
        }
        Err(DecodeError::OutsideIsizeRange(-1 - (val as i64)))
    } else {
        Err(DecodeError::UnexpectedEnd { additional: 0 })
    }
}

/// Decode an i8 value from CBOR.
pub fn decode_i8<R: Reader>(reader: &mut R) -> (r: Result<i8, DecodeError>)
    ensures
        match cbor_decode_small_int(old(reader).pending(), i8::MIN as int, i8::MAX as int) {
            Ok((v, n)) => r == Ok::<i8, DecodeError>(v as i8) && (*final(reader)).pending()
                == old(reader).pending().skip(n as int),
            Err(e) => r == Err::<i8, DecodeError>(e),
        },
{
    match decode_small_int(reader, i8::MIN as i64, i8::MAX as i64) {
        Ok(v) => Ok(v as i8),
        Err(e) => Err(e),
    }
}

/// Decode an i16 value from CBOR.
pub fn decode_i16<R: Reader>(reader: &mut R) -> (r: Result<i16, DecodeError>)
    ensures
        match cbor_decode_small_int(old(reader).pending(), i16::MIN as int, i16::MAX as int) {
            Ok((v, n)) => r == Ok::<i16, DecodeError>(v as i16) && (*final(reader)).pending()
                == old(reader).pending().skip(n as int),
            Err(e) => r == Err::<i16, DecodeError>(e),
        },
{
    match decode_small_int(reader, i16::MIN as i64, i16::MAX as i64) {
        Ok(v) => Ok(v as i16),
        Err(e) => Err(e),
    }
}

/// Decode an i32 value from CBOR.
pub fn decode_i32<R: Reader>(reader: &mut R) -> (r: Result<i32, DecodeError>)
    ensures
        match cbor_decode_small_int(old(reader).pending(), i32::MIN as int, i32::MAX as int) {
            Ok((v, n)) => r == Ok::<i32, DecodeError>(v as i32) && (*final(reader)).pending()
                == old(reader).pending().skip(n as int),
            Err(e) => r == Err::<i32, DecodeError>(e),
        },
{
    match decode_small_int(reader, i32::MIN as i64, i32::MAX as i64) {
        Ok(v) => Ok(v as i32),
        Err(e) => Err(e),
    }
}

/// Decode an i64 value from CBOR.
pub fn decode_i64<R: Reader>(reader: &mut R) -> (r: Result<i64, DecodeError>)
    ensures
        match cbor_decode_i64(old(reader).pending()) {
            Ok((v, n)) => r == Ok::<i64, DecodeError>(v as i64) && (*final(reader)).pending()
                == old(reader).pending().skip(n as int),
            Err(e) => r == Err::<i64, DecodeError>(e),
        },
{
    let (major, val, indefinite) = match decode_header(reader) {
        Ok(h) => h,
        Err(e) => return Err(e),
    };
    if indefinite {
        return Err(DecodeError::UnexpectedEnd { additional: 0 });
    }
    if major == 0 {
        if val <= i64::MAX as u64 {
            Ok(val as i64)
        } else {
            Err(DecodeError::OutsideIsizeRange(val as i64))
        }
    } else if major == 1 {
        if val > i64::MAX as u64 {
            return Err(DecodeError::OutsideIsizeRange(-1));
        }
        Ok(-1 - (val as i64))
    } else {
        Err(DecodeError::UnexpectedEnd { additional: 0 })
    }
}

/// Decode a CBOR byte string into a u128 (big-endian bignum).
fn decode_bignum_bytes<R: Reader>(reader: &mut R) -> (r: Result<u128, DecodeError>)
    ensures
        match cbor_decode_bignum(old(reader).pending()) {
            Ok((v, n)) => r == Ok::<u128, DecodeError>(v as u128) && (*final(reader)).pending()
                == old(reader).pending().skip(n as int),
            Err(e) => r == Err::<u128, DecodeError>(e),
        },
{
    let (major, len, indefinite) = match decode_header(reader) {
        Ok(h) => h,
        Err(e) => return Err(e),
    };
    let ghost after_head = reader.pending();
    if major != 2 || indefinite {
        return Err(DecodeError::UnexpectedEnd { additional: 0 });
    }
    if len > 16 {
        return Err(DecodeError::OutsideUsizeRange(len));
    }
    let len = len as usize;
    let mut buf: Vec<u8> = vec![0u8; len];
    match reader.read(buf.as_mut_slice()) {
        Ok(()) => {
            proof {
                lemma_be_value_bound(buf@);
                lemma_pow256_values();
                lemma_pow256_monotone(len as nat, 16);
                let s = old(reader).pending();
                let h = s.len() - after_head.len();
                assert((*final(reader)).pending() =~= s.skip(h + len));
            }
            Ok(uint_from_bytes(Endianness::Big, buf.as_slice()))
        },
        Err(e) => Err(e),
    }
}

/// Decode a `u128` value from CBOR.
pub fn decode_u128<R: Reader>(reader: &mut R) -> (r: Result<u128, DecodeError>)
    ensures
        match cbor_decode_u128(old(reader).pending()) {
            Ok((v, n)) => r == Ok::<u128, DecodeError>(v as u128) && (*final(reader)).pending()
                == old(reader).pending().skip(n as int),
            Err(e) => r == Err::<u128, DecodeError>(e),
        },
{
    let (major, val, indefinite) = match decode_header(reader) {
        Ok(h) => h,
        Err(e) => return Err(e),
    };
    let ghost after_head = reader.pending();
    proof {
        let s = old(reader).pending();
        let h = s.len() - after_head.len();
        assert(s.skip(h) =~= after_head);
    }
    if major == 0 && !indefinite {
        Ok(val as u128)
    } else if major == 6 && !indefinite {
        if val != 2 {
            return Err(DecodeError::UnexpectedEnd { additional: 0 });
        }
        let r = decode_bignum_bytes(reader);
        proof {
            let s = old(reader).pending();
            let h = s.len() - after_head.len();
            if let Ok((m, k)) = cbor_decode_bignum(after_head) {
                assert((*final(reader)).pending() =~= s.skip(h + k));
            }
        }
        r
    } else {
        Err(DecodeError::UnexpectedEnd { additional: 0 })
    }
}

/// Decode an i128 value from CBOR.
pub fn decode_i128<R: Reader>(reader: &mut R) -> (r: Result<i128, DecodeError>)
    ensures
        match cbor_decode_i128(old(reader).pending()) {
            Ok((v, n)) => r == Ok::<i128, DecodeError>(v as i128) && (*final(reader)).pending()
                == old(reader).pending().skip(n as int),
            Err(e) => r == Err::<i128, DecodeError>(e),
        },
{
    let (major, val, indefinite) = match decode_header(reader) {
        Ok(h) => h,
        Err(e) => return Err(e),
    };
    let ghost after_head = reader.pending();
    proof {
        let s = old(reader).pending();
        let h = s.len() - after_head.len();
        assert(s.skip(h) =~= after_head);
        lemma_bignum_bound(after_head);
        if let Ok((_, _, _, n)) = cbor_decode_header(s) {
            assert(n == h);
            assert(cbor_bignum_after(s, n) == match cbor_decode_bignum(after_head) {
                Ok((m, k)) => Ok::<(nat, nat), DecodeError>((m, n + k)),
                Err(e) => Err(e),
            });
        }
    }
    if indefinite {
        return Err(DecodeError::UnexpectedEnd { additional: 0 });
    }
    if major == 0 {
        Ok(val as i128)
    } else if major == 1 {
        Ok(-1 - (val as i128))
    } else if major == 6 {
        if val == 2 {
            let r = decode_bignum_bytes(reader);
            proof {
                let s = old(reader).pending();
                let h = s.len() - after_head.len();
                if let Ok((m, k)) = cbor_decode_bignum(after_head) {
                    assert((*final(reader)).pending() =~= s.skip(h + k));
                }
            }
            match r {
                Ok(m) => {
                    if m > i128::MAX as u128 {
                        return Err(DecodeError::OutsideIsizeRange(-1));
                    }
                    Ok(m as i128)
                },
                Err(e) => Err(e),
            }
        } else if val == 3 {
            let r = decode_bignum_bytes(reader);
            proof {
                let s = old(reader).pending();
                let h = s.len() - after_head.len();
                if let Ok((m, k)) = cbor_decode_bignum(after_head) {
                    assert((*final(reader)).pending() =~= s.skip(h + k));
                }
            }
            match r {
                Ok(magnitude) => {
                    if magnitude > i128::MAX as u128 {
                        return Err(DecodeError::OutsideIsizeRange(-1));
                    }
                    Ok(-1 - (magnitude as i128))
                },
                Err(e) => Err(e),
            }
        } else {
            Err(DecodeError::UnexpectedEnd { additional: 0 })
        }
    } else {
        Err(DecodeError::UnexpectedEnd { additional: 0 })
    }
}

/// Decode a `bool` value from CBOR.
pub fn decode_bool<R: Reader>(reader: &mut R) -> (r: Result<bool, DecodeError>)
    ensures
        match cbor_decode_bool(old(reader).pending()) {
            Ok((v, n)) => r == Ok::<bool, DecodeError>(v) && (*final(reader)).pending()
                == old(reader).pending().skip(n as int),
            Err(e) => r == Err::<bool, DecodeError>(e),
        },
{
    let (major, val, indefinite) = match decode_header(reader) {
        Ok(h) => h,
        Err(e) => return Err(e),
    };
    if major != 7 || indefinite {
        return Err(DecodeError::InvalidBooleanValue(0));
    }
    if val == 20 {
        Ok(false)
    } else if val == 21 {
        Ok(true)
    } else {
        Err(DecodeError::InvalidBooleanValue(val as u8))
    }
}

/// Read a length of major type `wanted`; an indefinite length gives `usize::MAX`.
fn decode_len<R: Reader>(reader: &mut R, wanted: u8) -> (r: Result<usize, DecodeError>)
    ensures
        match cbor_decode_len(old(reader).pending(), wanted) {
            Ok((v, n)) => r == Ok::<usize, DecodeError>(v as usize) && (*final(reader)).pending()
                == old(reader).pending().skip(n as int),
            Err(e) => r == Err::<usize, DecodeError>(e),
        },
{
    let (major, val, indefinite) = match decode_header(reader) {
        Ok(h) => h,
        Err(e) => return Err(e),
    };
    if major != wanted {
        return Err(DecodeError::UnexpectedEnd { additional: 0 });
    }
    if indefinite {
        return Ok(usize::MAX);
    }
    if val > usize::MAX as u64 {
        return Err(DecodeError::OutsideUsizeRange(val));
    }
    Ok(val as usize)
}

/// Decode a slice length from CBOR (major type 4).
pub fn decode_slice_len<R: Reader>(reader: &mut R) -> (r: Result<usize, DecodeError>)
    ensures
        match cbor_decode_len(old(reader).pending(), 4) {
            Ok((v, n)) => r == Ok::<usize, DecodeError>(v as usize) && (*final(reader)).pending()
                == old(reader).pending().skip(n as int),
            Err(e) => r == Err::<usize, DecodeError>(e),
        },
{
    decode_len(reader, 4)
}

/// Decode a map length from CBOR (major type 5).
pub fn decode_map_len<R: Reader>(reader: &mut R) -> (r: Result<usize, DecodeError>)
    ensures
        match cbor_decode_len(old(reader).pending(), 5) {
            Ok((v, n)) => r == Ok::<usize, DecodeError>(v as usize) && (*final(reader)).pending()
                == old(reader).pending().skip(n as int),
            Err(e) => r == Err::<usize, DecodeError>(e),
        },
{
    decode_len(reader, 5)
}

/// Decode a byte slice length from CBOR (major type 2).
pub fn decode_byte_slice_len<R: Reader>(reader: &mut R) -> (r: Result<usize, DecodeError>)
    ensures
        match cbor_decode_len(old(reader).pending(), 2) {
            Ok((v, n)) => r == Ok::<usize, DecodeError>(v as usize) && (*final(reader)).pending()
                == old(reader).pending().skip(n as int),
            Err(e) => r == Err::<usize, DecodeError>(e),
        },
{
    decode_len(reader, 2)
}

/// Decode a string length from CBOR (major type 3).
pub fn decode_str_len<R: Reader>(reader: &mut R) -> (r: Result<usize, DecodeError>)
    ensures
        match cbor_decode_len(old(reader).pending(), 3) {
            Ok((v, n)) => r == Ok::<usize, DecodeError>(v as usize) && (*final(reader)).pending()
                == old(reader).pending().skip(n as int),
            Err(e) => r == Err::<usize, DecodeError>(e),
        },
{
    decode_len(reader, 3)
}

/// Decode a length that can be either a byte slice (Major Type 2) or an array (Major Type 4).
pub fn decode_byte_slice_or_array_len<R: Reader>(reader: &mut R) -> (r: Result<(u8, usize), DecodeError>)
    ensures
        match cbor_decode_bytes_or_array_len(old(reader).pending()) {
            Ok((m, v, n)) => r == Ok::<(u8, usize), DecodeError>((m, v as usize))
                && (*final(reader)).pending() == old(reader).pending().skip(n as int),
            Err(e) => r == Err::<(u8, usize), DecodeError>(e),
        },
{
    let (major, val, indefinite) = match decode_header(reader) {
        Ok(h) => h,
        Err(e) => return Err(e),
    };
    if major != 2 && major != 4 {
        return Err(DecodeError::UnexpectedEnd { additional: 0 });
    }
    let len = if indefinite {
        usize::MAX
    } else {
        if val > usize::MAX as u64 {
            return Err(DecodeError::OutsideUsizeRange(val));
        }
        val as usize
    };
    Ok((major, len))
}

/// Reading a head gives back the major type and argument it was written with, and takes exactly
/// the head's bytes (for major type 7 only arguments below 24 are heads of this kind).
pub proof fn lemma_cbor_head_round_trip(major: u8, val: nat, rest: Seq<u8>)
    requires
        major < 8,
        val <= u64::MAX,
        major == 7 ==> val <= 23,
    ensures
        cbor_decode_header(cbor_head(major, val) + rest) == Ok::<(u8, u64, bool, nat), DecodeError>(
            (major, val as u64, false, cbor_head(major, val).len()),
        ),
{
    lemma_cbor_head_len(major, val);
    lemma_pow256_values();
    let s = cbor_head(major, val) + rest;
    assert(s[0] == cbor_head(major, val)[0]);
    if val > 23 {
        let n: nat = if val <= 0xFF {
            1
        } else if val <= 0xFFFF {
            2
        } else if val <= 0xFFFF_FFFF {
            4
        } else {
            8
        };
        lemma_be_round_trip(val, n);
        if n == 1 {
            reveal_with_fuel(crate::bytes::be_bytes, 2);
            reveal_with_fuel(be_value, 2);
            assert(s.drop_first().take(1) =~= seq![val as u8]);
            assert(crate::bytes::be_bytes(val, 1) =~= seq![val as u8]);
        } else {
            assert(s.drop_first().take(n as int) =~= crate::bytes::be_bytes(val, n));
        }
    }
}

/// An unsigned integer written in CBOR reads back as itself, for every value that fits the type read.
pub proof fn lemma_cbor_uint_round_trip(v: nat, max: nat, rest: Seq<u8>)
    requires
        v <= max,
        v <= u64::MAX,
    ensures
        cbor_decode_uint(cbor_head(0, v) + rest, max) == Ok::<(nat, nat), DecodeError>(
            (v, cbor_head(0, v).len()),
        ),
{
    lemma_cbor_head_round_trip(0, v, rest);
}

/// A signed integer (of up to 32 bits) written in CBOR reads back as itself.
pub proof fn lemma_cbor_small_int_round_trip(v: int, min: int, max: int, rest: Seq<u8>)
    requires
        min <= v <= max,
        i64::MIN <= min,
        max <= i64::MAX,
    ensures
        cbor_decode_small_int(cbor_int(v) + rest, min, max) == Ok::<(int, nat), DecodeError>(
            (v, cbor_int(v).len()),
        ),
{
    if v >= 0 {
        lemma_cbor_head_round_trip(0, v as nat, rest);
    } else {
        lemma_cbor_head_round_trip(1, (-1 - v) as nat, rest);
    }
}

/// An `i64` written in CBOR reads back as itself.
pub proof fn lemma_cbor_i64_round_trip(v: int, rest: Seq<u8>)
    requires
        i64::MIN <= v <= i64::MAX,
    ensures
        cbor_decode_i64(cbor_int(v) + rest) == Ok::<(int, nat), DecodeError>((v, cbor_int(v).len())),
{
    if v >= 0 {
        lemma_cbor_head_round_trip(0, v as nat, rest);
    } else {
        lemma_cbor_head_round_trip(1, (-1 - v) as nat, rest);
    }
}

/// A bignum reads back as its value, after its tag.
proof fn lemma_cbor_bignum_round_trip(tag: nat, v: nat, rest: Seq<u8>)
    requires
        tag == 2 || tag == 3,
        0xFFFF_FFFF_FFFF_FFFF < v <= u128::MAX,
    ensures
        cbor_decode_header(cbor_bignum(tag, v) + rest) == Ok::<(u8, u64, bool, nat), DecodeError>(
            (6u8, tag as u64, false, 1nat),
        ),
        cbor_bignum_after(cbor_bignum(tag, v) + rest, 1) == Ok::<(nat, nat), DecodeError>(
            (v, cbor_bignum(tag, v).len()),
        ),
{
    lemma_bignum_len(v);
    let l = bignum_len(v);
    let h1 = cbor_head(6, tag);
    let h2 = cbor_head(2, l);
    let body = crate::bytes::be_bytes(v, l);
    lemma_be_round_trip(v, l);
    lemma_cbor_head_len(6, tag);
    lemma_cbor_head_len(2, l);
    let s = cbor_bignum(tag, v) + rest;
    assert(s =~= h1 + ((h2 + body) + rest));
    lemma_cbor_head_round_trip(6, tag, (h2 + body) + rest);
    assert(s.skip(1) =~= h2 + (body + rest));
    lemma_cbor_head_round_trip(2, l, body + rest);
    assert(s.skip(1).skip(1).take(l as int) =~= body);
}

/// A `u128` written in CBOR reads back as itself.
pub proof fn lemma_cbor_u128_round_trip(v: nat, rest: Seq<u8>)
    requires
        v <= u128::MAX,
    ensures
        cbor_decode_u128(cbor_uint(v) + rest) == Ok::<(nat, nat), DecodeError>((v, cbor_uint(v).len())),
{
    if v <= u64::MAX {
        lemma_cbor_head_round_trip(0, v, rest);
    } else {
        lemma_cbor_bignum_round_trip(2, v, rest);
    }
}

/// An `i128` written in CBOR reads back as itself.
pub proof fn lemma_cbor_i128_round_trip(v: int, rest: Seq<u8>)
    requires
        i128::MIN <= v <= i128::MAX,
    ensures
        cbor_decode_i128(cbor_int(v) + rest) == Ok::<(int, nat), DecodeError>((v, cbor_int(v).len())),
{
    if v >= 0 {
        if v <= u64::MAX {
            lemma_cbor_head_round_trip(0, v as nat, rest);
        } else {
            lemma_cbor_bignum_round_trip(2, v as nat, rest);
        }
    } else if -1 - v <= u64::MAX {
        lemma_cbor_head_round_trip(1, (-1 - v) as nat, rest);
    } else {
        lemma_cbor_bignum_round_trip(3, (-1 - v) as nat, rest);
    }
}

/// A boolean written in CBOR reads back as itself.
pub proof fn lemma_cbor_bool_round_trip(v: bool, rest: Seq<u8>)
    ensures
        cbor_decode_bool(cbor_bool(v) + rest) == Ok::<(bool, nat), DecodeError>((v, 1)),
{
    let s = cbor_bool(v) + rest;
    assert(s[0] == cbor_bool(v)[0]);
}

/// A length written in CBOR reads back as itself; `usize::MAX` travels as an indefinite length.
pub proof fn lemma_cbor_len_round_trip(major: u8, len: nat, rest: Seq<u8>)
    requires
        2 <= major <= 5,
        len <= usize::MAX,
    ensures
        cbor_decode_len(cbor_len_head(major, len, usize::MAX as nat) + rest, major) == Ok::<
            (nat, nat),
            DecodeError,
        >((len, cbor_len_head(major, len, usize::MAX as nat).len())),
{
    if len == usize::MAX {
        let s = cbor_indefinite(major) + rest;
        assert(s[0] == (major * 32 + 31) as u8);
    } else {
        lemma_cbor_head_round_trip(major, len, rest);
    }
}

/// The position of the highest set bit of a nonzero 10-bit number.
fn leading_bit(m: u32) -> (p: u32)
    ensures
        p == leading_bit10(m),
{
    if m >= 0x200 {
        9
    } else if m >= 0x100 {
        8
    } else if m >= 0x80 {
        7
    } else if m >= 0x40 {
        6
    } else if m >= 0x20 {
        5
    } else if m >= 0x10 {
        4
    } else if m >= 0x8 {
        3
    } else if m >= 0x4 {
        2
    } else if m >= 0x2 {
        1
    } else {
        0
    }
}

/// Widen the half-precision number with bits `bits` to the single-precision bits of the same
/// number: infinities and NaNs keep their payload, subnormal numbers become normal ones.
pub fn f16_to_f32(bits: u16) -> (r: u32)
    ensures
        r == half_to_single(bits),
{
    let x = bits as u32;
    let sign = (x & 0x8000u32) << 16u32;
    let exp = (x >> 10u32) & 0x1Fu32;
    let mat = x & 0x3FFu32;
    assert(exp <= 0x1F) by (bit_vector)
        requires
            exp == (x >> 10u32) & 0x1Fu32,
    ;
    if exp == 0x1Fu32 {
        sign | 0x7F80_0000u32 | (mat << 13u32)
    } else if exp == 0u32 {
        if mat == 0u32 {
            sign
        } else {
            let p = leading_bit(mat);
            sign | ((103u32 + p) << 23u32) | ((mat << (23u32 - p)) & 0x7F_FFFFu32)
        }
    } else {
        sign | ((exp + 112u32) << 23u32) | (mat << 13u32)
    }
}

/// Read a CBOR float of `width` bytes (4 or 8; the errors tell them apart).
fn decode_float<R: Reader>(reader: &mut R, width: usize) -> (r: Result<FloatBits, DecodeError>)
    ensures
        match cbor_decode_float(old(reader).pending(), width as nat) {
            Ok((v, n)) => r == Ok::<FloatBits, DecodeError>(v) && (*final(reader)).pending()
                == old(reader).pending().skip(n as int),
            Err(e) => r == Err::<FloatBits, DecodeError>(e),
        },
{
    let (major, info, indefinite) = match decode_header(reader) {
        Ok(h) => h,
        Err(e) => return Err(e),
    };
    let ghost after_head = (*reader).pending();
    if major != 7 || indefinite {
        return Err(DecodeError::UnexpectedEnd { additional: width });
    }
    let n: usize = if info == 25 {
        2
    } else if info == 26 {
        4
    } else if info == 27 {
        8
    } else {
        return Err(DecodeError::UnexpectedEnd { additional: width });
    };
    let mut buf: Vec<u8> = vec![0u8; n];
    match reader.read(buf.as_mut_slice()) {
        Ok(()) => {},
        Err(e) => return Err(e),
    }
    proof {
        assert((*reader).pending() =~= old(reader).pending().skip(
            (old(reader).pending().len() - after_head.len()) + n,
        ));
        lemma_be_value_bound(buf@);
        lemma_pow256_values();
    }
    let v = uint_from_bytes(Endianness::Big, buf.as_slice());
    if n == 2 {
        Ok(FloatBits::Half(v as u16))
    } else if n == 4 {
        Ok(FloatBits::Single(v as u32))
    } else {
        Ok(FloatBits::Double(v as u64))
    }
}

/// Decode an `f32` from CBOR: the bits of a half-, single- or double-precision float.
pub fn decode_f32<R: Reader>(reader: &mut R) -> (r: Result<FloatBits, DecodeError>)
    ensures
        match cbor_decode_float(old(reader).pending(), 4) {
            Ok((v, n)) => r == Ok::<FloatBits, DecodeError>(v) && (*final(reader)).pending()
                == old(reader).pending().skip(n as int),
            Err(e) => r == Err::<FloatBits, DecodeError>(e),
        },
{
    decode_float(reader, 4)
}

/// Decode an `f64` from CBOR: the bits of a half-, single- or double-precision float.
pub fn decode_f64<R: Reader>(reader: &mut R) -> (r: Result<FloatBits, DecodeError>)
    ensures
        match cbor_decode_float(old(reader).pending(), 8) {
            Ok((v, n)) => r == Ok::<FloatBits, DecodeError>(v) && (*final(reader)).pending()
                == old(reader).pending().skip(n as int),
            Err(e) => r == Err::<FloatBits, DecodeError>(e),
        },
{
    decode_float(reader, 8)
}

} // verus!
