use super::{lemma_varint_decode_bound, unzigzag, varint_decode};
use super::decode_unsigned::{varint_decode_u128, varint_decode_u16, varint_decode_u32, varint_decode_u64};
use crate::config::Endianness;
use crate::de::read::Reader;
use crate::error::{DecodeError, IntegerType};
use vstd::prelude::*;

verus! {

/// What the signed decoder of type `ty` (with unsigned counterpart `uty`) makes of `s`: the
/// unzigzagged value and the bytes taken, or the error with signed integer types.
pub open spec fn varint_decode_signed(e: Endianness, uty: IntegerType, s: Seq<u8>) -> Result<
    (int, nat),
    DecodeError,
> {
    match varint_decode(e, uty, s) {
        Ok((v, n)) => Ok((unzigzag(v), n)),
        Err(err) => Err(err.spec_change_integer_type_to_signed()),
    }
}

/// The `isize` decoder: an `i64` that then has to fit an `isize`; a type mismatch names `Isize`.
pub open spec fn varint_decode_isize_spec(e: Endianness, s: Seq<u8>) -> Result<(int, nat), DecodeError> {
    match varint_decode_signed(e, IntegerType::U64, s) {
        Ok((v, n)) => if isize::MIN <= v <= isize::MAX {
            Ok((v, n))
        } else {
            Err(DecodeError::OutsideIsizeRange(v as i64))
        },
        Err(DecodeError::InvalidIntegerType { expected, found }) => Err(
            DecodeError::InvalidIntegerType {
                expected: IntegerType::Isize,
                found: found.spec_into_signed(),
            },
        ),
        Err(err) => Err(err),
    }
}

/// Read an `i16` in the variable-length format.
pub fn varint_decode_i16<R: Reader>(read: &mut R, endian: Endianness) -> (r: Result<i16, DecodeError>)
    ensures
        match varint_decode_signed(endian, IntegerType::U16, old(read).pending()) {
            Ok((v, n)) => r == Ok::<i16, DecodeError>(v as i16) && (*final(read)).pending()
                == old(read).pending().skip(n as int),
            Err(e) => r == Err::<i16, DecodeError>(e),
        },
{
    proof {
        lemma_varint_decode_bound(endian, IntegerType::U16, old(read).pending());
    }
    match varint_decode_u16(read, endian) {
        Ok(n) => Ok(
            if n % 2 == 0 {
                (n / 2) as i16
            } else {
                -((n / 2) as i16) - 1
            },
        ),
        Err(e) => Err(e.change_integer_type_to_signed()),
    }
}

/// Read an `i32` in the variable-length format.
pub fn varint_decode_i32<R: Reader>(read: &mut R, endian: Endianness) -> (r: Result<i32, DecodeError>)
    ensures
        match varint_decode_signed(endian, IntegerType::U32, old(read).pending()) {
            Ok((v, n)) => r == Ok::<i32, DecodeError>(v as i32) && (*final(read)).pending()
                == old(read).pending().skip(n as int),
            Err(e) => r == Err::<i32, DecodeError>(e),
        },
{
    proof {
        lemma_varint_decode_bound(endian, IntegerType::U32, old(read).pending());
    }
    match varint_decode_u32(read, endian) {
        Ok(n) => Ok(
            if n % 2 == 0 {
                (n / 2) as i32
            } else {
                -((n / 2) as i32) - 1
            },
        ),
        Err(e) => Err(e.change_integer_type_to_signed()),
    }
}

/// Read an `i64` in the variable-length format.
pub fn varint_decode_i64<R: Reader>(read: &mut R, endian: Endianness) -> (r: Result<i64, DecodeError>)
    ensures
        match varint_decode_signed(endian, IntegerType::U64, old(read).pending()) {
            Ok((v, n)) => r == Ok::<i64, DecodeError>(v as i64) && (*final(read)).pending()
                == old(read).pending().skip(n as int),
            Err(e) => r == Err::<i64, DecodeError>(e),
        },
{
    proof {
        lemma_varint_decode_bound(endian, IntegerType::U64, old(read).pending());
    }
    match varint_decode_u64(read, endian) {
        Ok(n) => Ok(
            if n % 2 == 0 {
                (n / 2) as i64
            } else {
                -((n / 2) as i64) - 1
            },
        ),
        Err(e) => Err(e.change_integer_type_to_signed()),
    }
}

/// Read an `i128` in the variable-length format.
pub fn varint_decode_i128<R: Reader>(read: &mut R, endian: Endianness) -> (r: Result<
    i128,
    DecodeError,
>)
    ensures
        match varint_decode_signed(endian, IntegerType::U128, old(read).pending()) {
            Ok((v, n)) => r == Ok::<i128, DecodeError>(v as i128) && (*final(read)).pending()
                == old(read).pending().skip(n as int),
            Err(e) => r == Err::<i128, DecodeError>(e),
        },
{
    proof {
        lemma_varint_decode_bound(endian, IntegerType::U128, old(read).pending());
    }
    match varint_decode_u128(read, endian) {
        Ok(n) => Ok(
            if n % 2 == 0 {
                (n / 2) as i128
            } else {
                -((n / 2) as i128) - 1
            },
        ),
        Err(e) => Err(e.change_integer_type_to_signed()),
    }
}

/// Read an `isize` in the variable-length format: as an `i64`, which then has to fit an `isize`.
pub fn varint_decode_isize<R: Reader>(read: &mut R, endian: Endianness) -> (r: Result<
    isize,
    DecodeError,
>)
    ensures
        match varint_decode_isize_spec(endian, old(read).pending()) {
            Ok((v, n)) => r == Ok::<isize, DecodeError>(v as isize) && (*final(read)).pending()
                == old(read).pending().skip(n as int),
            Err(e) => r == Err::<isize, DecodeError>(e),
        },
{
    proof {
        lemma_varint_decode_bound(endian, IntegerType::U64, old(read).pending());
    }
    match varint_decode_i64(read, endian) {
        Ok(val) => {
            if isize::MIN as i64 <= val && val <= isize::MAX as i64 {
                Ok(val as isize)
            } else {
                Err(DecodeError::OutsideIsizeRange(val))
            }
        },
        Err(DecodeError::InvalidIntegerType { expected, found }) => Err(
            DecodeError::InvalidIntegerType {
                expected: IntegerType::Isize,
                found: found.into_signed(),
            },
        ),
        Err(e) => Err(e),
    }
}

} // verus!
