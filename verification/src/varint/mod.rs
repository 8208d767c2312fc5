//! The variable-length integer format.
//!
//! An unsigned integer `u` is written as one byte when `u <= 250`; otherwise as a marker byte
//! (`251`, `252`, `253` or `254`) followed by `u` as a 2, 4, 8 or 16 byte integer, whichever is the
//! smallest that holds it. Signed integers are first mapped to unsigned ones with zigzag.
use crate::bytes::{
    endian_bytes, endian_value, lemma_endian_bytes_len, lemma_endian_round_trip,
    lemma_endian_value_bound, lemma_pow256_values,
};
use crate::config::Endianness;
use crate::error::{DecodeError, IntegerType};
use vstd::prelude::*;

mod decode_signed;
mod decode_unsigned;
mod encode_signed;
mod encode_unsigned;

pub use self::decode_signed::{
    varint_decode_i128, varint_decode_i16, varint_decode_i32, varint_decode_i64,
    varint_decode_isize, varint_decode_isize_spec, varint_decode_signed,
};
pub use self::decode_unsigned::{
    varint_decode_u128, varint_decode_u16, varint_decode_u32, varint_decode_u64,
    varint_decode_usize,
};
pub use self::encode_signed::{
    varint_encode_i128, varint_encode_i16, varint_encode_i32, varint_encode_i64,
};
pub use self::encode_unsigned::{
    varint_encode_u128, varint_encode_u16, varint_encode_u32, varint_encode_u64,
};

verus! {

/// The largest value that is written as a single byte.
pub const SINGLE_BYTE_MAX: u8 = 250;

/// The marker of a value written as a `u16`.
pub const U16_BYTE: u8 = 251;

/// The marker of a value written as a `u32`.
pub const U32_BYTE: u8 = 252;

/// The marker of a value written as a `u64`.
pub const U64_BYTE: u8 = 253;

/// The marker of a value written as a `u128`.
pub const U128_BYTE: u8 = 254;

/// The bytes that the variable-length format writes for `v`.
pub open spec fn varint_bytes(e: Endianness, v: nat) -> Seq<u8> {
    if v <= 250 {
        seq![v as u8]
    } else if v < 0x1_0000 {
        seq![251u8] + endian_bytes(e, v, 2)
    } else if v < 0x1_0000_0000 {
        seq![252u8] + endian_bytes(e, v, 4)
    } else if v < 0x1_0000_0000_0000_0000 {
        seq![253u8] + endian_bytes(e, v, 8)
    } else {
        seq![254u8] + endian_bytes(e, v, 16)
    }
}

/// The largest marker that a varint of type `ty` may carry.
pub open spec fn max_marker(ty: IntegerType) -> u8 {
    match ty {
        IntegerType::U16 => 251u8,
        IntegerType::U32 => 252u8,
        IntegerType::U128 => 254u8,
        _ => 253u8,
    }
}

/// The integer type that a marker byte announces.
pub open spec fn marker_type(b: u8) -> IntegerType {
    if b == 251 {
        IntegerType::U16
    } else if b == 252 {
        IntegerType::U32
    } else if b == 253 {
        IntegerType::U64
    } else if b == 254 {
        IntegerType::U128
    } else {
        IntegerType::Reserved
    }
}

/// The number of bytes that follow a marker byte.
pub open spec fn marker_len(b: u8) -> nat {
    if b == 251 {
        2
    } else if b == 252 {
        4
    } else if b == 253 {
        8
    } else {
        16
    }
}

/// The unsigned integer types that the variable-length decoder reads.
pub open spec fn is_varint_type(ty: IntegerType) -> bool {
    ty == IntegerType::U16 || ty == IntegerType::U32 || ty == IntegerType::U64 || ty
        == IntegerType::Usize || ty == IntegerType::U128
}

/// What the variable-length decoder makes of `s` when it reads an integer of type `ty`:
/// the value and the number of bytes it took, or the error.
pub open spec fn varint_decode(e: Endianness, ty: IntegerType, s: Seq<u8>) -> Result<
    (nat, nat),
    DecodeError,
> {
    if s.len() == 0 {
        Err(DecodeError::UnexpectedEnd { additional: 1 })
    } else if s[0] <= 250 {
        Ok((s[0] as nat, 1))
    } else if s[0] == 255 || s[0] > max_marker(ty) {
        Err(DecodeError::InvalidIntegerType { expected: ty, found: marker_type(s[0]) })
    } else {
        let n = marker_len(s[0]);
        let rest = s.drop_first();
        if rest.len() < n {
            Err(DecodeError::UnexpectedEnd { additional: (n - rest.len()) as usize })
        } else {
            Ok((endian_value(e, rest.take(n as int)), n + 1))
        }
    }
}

/// The zigzag map from signed to unsigned integers: `0, -1, 1, -2, 2, ...` to `0, 1, 2, 3, 4, ...`.
pub open spec fn zigzag(v: int) -> nat {
    if v >= 0 {
        (2 * v) as nat
    } else {
        (-2 * v - 1) as nat
    }
}

/// The inverse of [`zigzag`].
pub open spec fn unzigzag(n: nat) -> int {
    if n % 2 == 0 {
        (n / 2) as int
    } else {
        -((n / 2) as int) - 1
    }
}

/// Unzigzag undoes zigzag.
pub proof fn lemma_unzigzag_zigzag(v: int)
    ensures
        unzigzag(zigzag(v)) == v,
{
}

/// Zigzag undoes unzigzag.
pub proof fn lemma_zigzag_unzigzag(n: nat)
    ensures
        zigzag(unzigzag(n)) == n,
{
}

/// The varint of a value is at most 17 bytes long, and exactly one byte for values up to 250.
pub proof fn lemma_varint_len(e: Endianness, v: nat)
    ensures
        varint_bytes(e, v).len() == if v <= 250 {
            1nat
        } else if v < 0x1_0000 {
            3nat
        } else if v < 0x1_0000_0000 {
            5nat
        } else if v < 0x1_0000_0000_0000_0000 {
            9nat
        } else {
            17nat
        },
{
    lemma_endian_bytes_len(e, v, 2);
    lemma_endian_bytes_len(e, v, 4);
    lemma_endian_bytes_len(e, v, 8);
    lemma_endian_bytes_len(e, v, 16);
}

/// Decoding what the encoder wrote for `v`, followed by anything, gives `v` back and takes exactly
/// the varint's bytes, whenever `v` fits the type that is read.
pub proof fn lemma_varint_round_trip(e: Endianness, ty: IntegerType, v: nat, rest: Seq<u8>)
    requires
        is_varint_type(ty),
        v < 0x1_0000_0000_0000_0000_0000_0000_0000_0000,
        ty == IntegerType::U16 ==> v < 0x1_0000,
        ty == IntegerType::U32 ==> v < 0x1_0000_0000,
        ty == IntegerType::U64 || ty == IntegerType::Usize ==> v < 0x1_0000_0000_0000_0000,
    ensures
        varint_decode(e, ty, varint_bytes(e, v) + rest) == Ok::<(nat, nat), DecodeError>(
            (v, varint_bytes(e, v).len()),
        ),
{
    lemma_pow256_values();
    lemma_varint_len(e, v);
    let s = varint_bytes(e, v) + rest;
    if v > 250 {
        let n: nat = if v < 0x1_0000 {
            2
        } else if v < 0x1_0000_0000 {
            4
        } else if v < 0x1_0000_0000_0000_0000 {
            8
        } else {
            16
        };
        lemma_endian_round_trip(e, v, n);
        assert(s.drop_first().take(n as int) =~= endian_bytes(e, v, n));
    }
}

/// Every successful varint decode reads back as the same bytes: the bytes taken are exactly the
/// varint encoding of the value when the value is written in its shortest form.
pub proof fn lemma_varint_decode_bound(e: Endianness, ty: IntegerType, s: Seq<u8>)
    requires
        is_varint_type(ty),
    ensures
        varint_decode(e, ty, s) matches Ok((v, n)) ==> {
            &&& n <= s.len()
            &&& (ty == IntegerType::U16 ==> v < 0x1_0000)
            &&& (ty == IntegerType::U32 ==> v < 0x1_0000_0000)
            &&& (ty == IntegerType::U64 || ty == IntegerType::Usize ==> v
                < 0x1_0000_0000_0000_0000)
            &&& v < 0x1_0000_0000_0000_0000_0000_0000_0000_0000
        },
{
    lemma_pow256_values();
    if s.len() > 0 && s[0] > 250 && s[0] != 255 && s[0] <= max_marker(ty) {
        let n = marker_len(s[0]);
        if s.drop_first().len() >= n {
            lemma_endian_value_bound(e, s.drop_first().take(n as int));
        }
    }
}

} // verus!
