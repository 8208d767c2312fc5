use super::{varint_bytes, zigzag};
use super::encode_unsigned::{varint_encode_u128, varint_encode_u16, varint_encode_u32, varint_encode_u64};
use crate::config::Endianness;
use crate::enc::write::{appended, Writer};
use crate::error::EncodeError;
use vstd::prelude::*;

verus! {

/// Write an `i16` in the variable-length format, after the zigzag map.
pub fn varint_encode_i16<W: Writer>(writer: &mut W, endian: Endianness, val: i16) -> (r: Result<
    (),
    EncodeError,
>)
    ensures
        appended(*old(writer), *final(writer), varint_bytes(endian, zigzag(val as int)), r),
{
    let z: u16 = if val >= 0 {
        (val as u16) * 2
    } else {
        let m: i16 = -(val + 1);
        (m as u16) * 2 + 1
    };
    varint_encode_u16(writer, endian, z)
}

/// Write an `i32` in the variable-length format, after the zigzag map.
pub fn varint_encode_i32<W: Writer>(writer: &mut W, endian: Endianness, val: i32) -> (r: Result<
    (),
    EncodeError,
>)
    ensures
        appended(*old(writer), *final(writer), varint_bytes(endian, zigzag(val as int)), r),
{
    let z: u32 = if val >= 0 {
        (val as u32) * 2
    } else {
        let m: i32 = -(val + 1);
        (m as u32) * 2 + 1
    };
    varint_encode_u32(writer, endian, z)
}

/// Write an `i64` in the variable-length format, after the zigzag map.
pub fn varint_encode_i64<W: Writer>(writer: &mut W, endian: Endianness, val: i64) -> (r: Result<
    (),
    EncodeError,
>)
    ensures
        appended(*old(writer), *final(writer), varint_bytes(endian, zigzag(val as int)), r),
{
    let z: u64 = if val >= 0 {
        (val as u64) * 2
    } else {
        let m: i64 = -(val + 1);
        (m as u64) * 2 + 1
    };
    varint_encode_u64(writer, endian, z)
}

/// Write an `i128` in the variable-length format, after the zigzag map.
pub fn varint_encode_i128<W: Writer>(writer: &mut W, endian: Endianness, val: i128) -> (r: Result<
    (),
    EncodeError,
>)
    ensures
        appended(*old(writer), *final(writer), varint_bytes(endian, zigzag(val as int)), r),
{
    let z: u128 = if val >= 0 {
        (val as u128) * 2
    } else {
        let m: i128 = -(val + 1);
        (m as u128) * 2 + 1
    };
    varint_encode_u128(writer, endian, z)
}

} // verus!
