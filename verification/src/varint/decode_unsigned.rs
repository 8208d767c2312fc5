use super::{
    is_varint_type, lemma_varint_decode_bound, varint_decode, SINGLE_BYTE_MAX, U128_BYTE, U16_BYTE,
    U32_BYTE, U64_BYTE,
};
use crate::bytes::uint_from_bytes;
use crate::config::Endianness;
use crate::de::read::Reader;
use crate::error::{DecodeError, IntegerType};
use vstd::prelude::*;

verus! {

/// Read a varint of type `ty`; the value comes back widened to `u128`.
fn varint_decode_uint<R: Reader>(read: &mut R, endian: Endianness, ty: IntegerType) -> (r: Result<
    u128,
    DecodeError,
>)
    requires
        is_varint_type(ty),
    ensures
        match varint_decode(endian, ty, old(read).pending()) {
            Ok((v, n)) => r == Ok::<u128, DecodeError>(v as u128) && (*final(read)).pending()
                == old(read).pending().skip(n as int),
            Err(e) => r == Err::<u128, DecodeError>(e),
        },
{
    proof {
        lemma_varint_decode_bound(endian, ty, old(read).pending());
    }
    let first = match read.read_u8() {
        Ok(b) => b,
        Err(e) => return Err(e),
    };
    let ghost after_marker = read.pending();
    if first <= SINGLE_BYTE_MAX {
        return Ok(first as u128);
    }
    let max: u8 = match ty {
        IntegerType::U16 => U16_BYTE,
        IntegerType::U32 => U32_BYTE,
        IntegerType::U128 => U128_BYTE,
        _ => U64_BYTE,
    };
    if first == 255 || first > max {
        let found = if first == U16_BYTE {
            IntegerType::U16
        } else if first == U32_BYTE {
            IntegerType::U32
        } else if first == U64_BYTE {
            IntegerType::U64
        } else if first == U128_BYTE {
            IntegerType::U128
        } else {
            IntegerType::Reserved
        };
        return Err(DecodeError::InvalidIntegerType { expected: ty, found });
    }
    let n: usize = if first == U16_BYTE {
        2
    } else if first == U32_BYTE {
        4
    } else if first == U64_BYTE {
        8
    } else {
        16
    };
    let mut buf: Vec<u8> = vec![0u8; n];
    let r = read.read(buf.as_mut_slice());
    match r {
        Ok(()) => {
            proof {
                assert(old(read).pending().drop_first() =~= after_marker);
                assert((*final(read)).pending() =~= old(read).pending().skip(n + 1));
            }
            Ok(uint_from_bytes(endian, buf.as_slice()))
        },
        Err(e) => {
            proof {
                assert(old(read).pending().drop_first() =~= after_marker);
            }
            Err(e)
        },
    }
}

/// Read a `u16` in the variable-length format.
pub fn varint_decode_u16<R: Reader>(read: &mut R, endian: Endianness) -> (r: Result<u16, DecodeError>)
    ensures
        match varint_decode(endian, IntegerType::U16, old(read).pending()) {
            Ok((v, n)) => r == Ok::<u16, DecodeError>(v as u16) && (*final(read)).pending()
                == old(read).pending().skip(n as int),
            Err(e) => r == Err::<u16, DecodeError>(e),
        },
{
    proof {
        lemma_varint_decode_bound(endian, IntegerType::U16, old(read).pending());
    }
    match varint_decode_uint(read, endian, IntegerType::U16) {
        Ok(v) => Ok(v as u16),
        Err(e) => Err(e),
    }
}

/// Read a `u32` in the variable-length format.
pub fn varint_decode_u32<R: Reader>(read: &mut R, endian: Endianness) -> (r: Result<u32, DecodeError>)
    ensures
        match varint_decode(endian, IntegerType::U32, old(read).pending()) {
            Ok((v, n)) => r == Ok::<u32, DecodeError>(v as u32) && (*final(read)).pending()
                == old(read).pending().skip(n as int),
            Err(e) => r == Err::<u32, DecodeError>(e),
        },
{
    proof {
        lemma_varint_decode_bound(endian, IntegerType::U32, old(read).pending());
    }
    match varint_decode_uint(read, endian, IntegerType::U32) {
        Ok(v) => Ok(v as u32),
        Err(e) => Err(e),
    }
}

/// Read a `u64` in the variable-length format.
pub fn varint_decode_u64<R: Reader>(read: &mut R, endian: Endianness) -> (r: Result<u64, DecodeError>)
    ensures
        match varint_decode(endian, IntegerType::U64, old(read).pending()) {
            Ok((v, n)) => r == Ok::<u64, DecodeError>(v as u64) && (*final(read)).pending()
                == old(read).pending().skip(n as int),
            Err(e) => r == Err::<u64, DecodeError>(e),
        },
{
    proof {
        lemma_varint_decode_bound(endian, IntegerType::U64, old(read).pending());
    }
    match varint_decode_uint(read, endian, IntegerType::U64) {
        Ok(v) => Ok(v as u64),
        Err(e) => Err(e),
    }
}

/// Read a `usize` in the variable-length format: as a `u64`, which then has to fit a `usize`.
pub fn varint_decode_usize<R: Reader>(read: &mut R, endian: Endianness) -> (r: Result<
    usize,
    DecodeError,
>)
    ensures
        match varint_decode(endian, IntegerType::Usize, old(read).pending()) {
            Ok((v, n)) => if v <= usize::MAX {
                r == Ok::<usize, DecodeError>(v as usize) && (*final(read)).pending()
                    == old(read).pending().skip(n as int)
            } else {
                r == Err::<usize, DecodeError>(DecodeError::OutsideUsizeRange(v as u64))
            },
            Err(e) => r == Err::<usize, DecodeError>(e),
        },
{
    proof {
        lemma_varint_decode_bound(endian, IntegerType::Usize, old(read).pending());
    }
    match varint_decode_uint(read, endian, IntegerType::Usize) {
        Ok(v) => {
            if v <= usize::MAX as u128 {
                Ok(v as usize)
            } else {
                Err(DecodeError::OutsideUsizeRange(v as u64))
            }
        },
        Err(e) => Err(e),
    }
}

/// Read a `u128` in the variable-length format.
pub fn varint_decode_u128<R: Reader>(read: &mut R, endian: Endianness) -> (r: Result<
    u128,
    DecodeError,
>)
    ensures
        match varint_decode(endian, IntegerType::U128, old(read).pending()) {
            Ok((v, n)) => r == Ok::<u128, DecodeError>(v as u128) && (*final(read)).pending()
                == old(read).pending().skip(n as int),
            Err(e) => r == Err::<u128, DecodeError>(e),
        },
{
    varint_decode_uint(read, endian, IntegerType::U128)
}

} // verus!
