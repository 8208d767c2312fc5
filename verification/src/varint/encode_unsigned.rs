use super::{varint_bytes, SINGLE_BYTE_MAX, U128_BYTE, U16_BYTE, U32_BYTE, U64_BYTE};
use crate::bytes::endian_bytes;
use crate::bytes::uint_to_bytes;
use crate::config::Endianness;
use crate::enc::write::{appended, Writer};
use crate::error::EncodeError;
use vstd::prelude::*;

verus! {

/// Write a marker byte followed by the `n` low bytes of `val`, in one write.
fn write_marked<W: Writer>(writer: &mut W, marker: u8, endian: Endianness, val: u128, n: usize) -> (r:
    Result<(), EncodeError>)
    requires
        n <= 16,
    ensures
        appended(*old(writer), *final(writer), seq![marker] + endian_bytes(endian, val as nat, n as nat), r),
{
    let mut buf: Vec<u8> = Vec::new();
    buf.push(marker);
    let tail = uint_to_bytes(endian, val, n);
    let mut i: usize = 0;
    while i < tail.len()
        invariant
            i <= tail@.len(),
            buf@ == seq![marker] + tail@.take(i as int),
        decreases tail@.len() - i,
    {
        buf.push(tail[i]);
        proof {
            assert(tail@.take(i + 1) =~= tail@.take(i as int).push(tail@[i as int]));
        }
        i = i + 1;
    }
    proof {
        assert(tail@.take(i as int) =~= tail@);
    }
    writer.write(buf.as_slice())
}

/// Write `val` in the variable-length format.
fn varint_encode_uint<W: Writer>(writer: &mut W, endian: Endianness, val: u128) -> (r: Result<
    (),
    EncodeError,
>)
    ensures
        appended(*old(writer), *final(writer), varint_bytes(endian, val as nat), r),
{
    if val <= SINGLE_BYTE_MAX as u128 {
        let r = writer.write_u8(val as u8);
        proof {
            assert(old(writer).written().push(val as u8) =~= old(writer).written() + seq![val as u8]);
        }
        r
    } else if val <= 0xFFFF {
        write_marked(writer, U16_BYTE, endian, val, 2)
    } else if val <= 0xFFFF_FFFF {
        write_marked(writer, U32_BYTE, endian, val, 4)
    } else if val <= 0xFFFF_FFFF_FFFF_FFFF {
        write_marked(writer, U64_BYTE, endian, val, 8)
    } else {
        write_marked(writer, U128_BYTE, endian, val, 16)
    }
}

/// Write a `u16` in the variable-length format.
pub fn varint_encode_u16<W: Writer>(writer: &mut W, endian: Endianness, val: u16) -> (r: Result<
    (),
    EncodeError,
>)
    ensures
        appended(*old(writer), *final(writer), varint_bytes(endian, val as nat), r),
{
    varint_encode_uint(writer, endian, val as u128)
}

/// Write a `u32` in the variable-length format.
pub fn varint_encode_u32<W: Writer>(writer: &mut W, endian: Endianness, val: u32) -> (r: Result<
    (),
    EncodeError,
>)
    ensures
        appended(*old(writer), *final(writer), varint_bytes(endian, val as nat), r),
{
    varint_encode_uint(writer, endian, val as u128)
}

/// Write a `u64` in the variable-length format.
pub fn varint_encode_u64<W: Writer>(writer: &mut W, endian: Endianness, val: u64) -> (r: Result<
    (),
    EncodeError,
>)
    ensures
        appended(*old(writer), *final(writer), varint_bytes(endian, val as nat), r),
{
    varint_encode_uint(writer, endian, val as u128)
}

/// Write a `u128` in the variable-length format.
pub fn varint_encode_u128<W: Writer>(writer: &mut W, endian: Endianness, val: u128) -> (r: Result<
    (),
    EncodeError,
>)
    ensures
        appended(*old(writer), *final(writer), varint_bytes(endian, val as nat), r),
{
    varint_encode_uint(writer, endian, val)
}

} // verus!
