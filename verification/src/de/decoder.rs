use super::read::{BorrowReader, Reader};
use super::{
    as_usize, cbor_len, claim, claimed_then, dec_bool, dec_bytes_or_array_len, dec_i128,
    dec_i16, dec_i32, dec_i64, dec_i8, dec_int, dec_isize, dec_len_of, dec_slice_len,
    dec_struct_header, dec_u128, dec_u16, dec_u32, dec_u64, dec_u8, dec_uint, dec_usize,
    dec_variant_index, decoded, from_twos_complement, take_exact, uint_type, unclaimed,
    lemma_dec_int_bound, lemma_dec_uint_bound, BorrowDecoder, Decoder,
};
use crate::bytes::{endian_value, lemma_endian_value_bound, lemma_pow256_values, pow256, uint_from_bytes};
use crate::config::{Config, Configuration, Endianness, Format, IntEncoding};
use crate::de::cbor;
use crate::enc::is_bincode;
use crate::error::DecodeError;
use crate::float_bits::FloatBits;
use crate::varint;
use vstd::prelude::*;

verus! {

/// A Decoder that reads bytes from a given reader `R`.
///
/// This struct should rarely be used.
/// In most cases, prefer any of the `decode` functions.
///
/// The configuration that is chosen decides the format, the integer encoding, the byte order
/// and the byte limit that are used to read values out of the reader.
pub struct DecoderImpl<R, C: Config, Context> {
    reader: R,
    config: C,
    bytes_read: usize,
    context: Context,
}

impl<R: Reader, C: Config, Context> DecoderImpl<R, C, Context> {
    /// Construct a new Decoder
    pub fn new(reader: R, config: C, context: Context) -> (d: Self)
        ensures
            d.pending() == reader.pending(),
            d.claimed() == 0,
            d.settings() == config.settings(),
            d.context_value() == context,
    {
        DecoderImpl { reader, config, bytes_read: 0, context }
    }

    /// The decoding context that this decoder carries.
    pub closed spec fn context_value(&self) -> Context {
        self.context
    }

    /// The reader inside, as it stands now.
    pub fn reader_ref(&self) -> (r: &R)
        ensures
            r.pending() == self.pending(),
    {
        &self.reader
    }


    fn format_is_bincode(&self) -> (b: bool)
        ensures
            b == is_bincode(self.settings()),
    {
        match self.config.format() {
            Format::Bincode | Format::BincodeDeterministic => true,
            _ => false,
        }
    }

    /// Read `width` bytes (at most 16) as an unsigned number in the configured byte order.
    fn read_fixed(&mut self, width: usize) -> (r: Result<u128, DecodeError>)
        requires
            1 <= width <= 16,
        ensures
            final(self).config == old(self).config,
            final(self).bytes_read == old(self).bytes_read,
            match take_exact(old(self).reader.pending(), width as nat) {
                Ok(b) => r == Ok::<u128, DecodeError>(endian_value(old(self).settings().endian, b) as u128)
                    && final(self).reader.pending() == old(self).reader.pending().skip(width as int),
                Err(e) => r == Err::<u128, DecodeError>(e),
            },
    {
        let mut buf: Vec<u8> = vec![0u8; width];
        let r = self.reader.read(buf.as_mut_slice());
        match r {
            Ok(()) => {
                let v = uint_from_bytes(self.config.endianness(), buf.as_slice());
                Ok(v)
            },
            Err(e) => Err(e),
        }
    }

    /// Read an unsigned integer of `width` bytes under the bincode format.
    fn bincode_uint(&mut self, width: usize) -> (r: Result<u128, DecodeError>)
        requires
            width == 2 || width == 4 || width == 8 || width == 16,
            is_bincode(old(self).settings()),
        ensures
            final(self).config == old(self).config,
            final(self).bytes_read == old(self).bytes_read,
            match dec_uint(old(self).settings(), old(self).reader.pending(), width as nat) {
                Ok((v, n)) => v < pow256(width as nat) && r == Ok::<u128, DecodeError>(v as u128)
                    && final(self).reader.pending() == old(self).reader.pending().skip(n as int),
                Err(e) => r == Err::<u128, DecodeError>(e),
            },
    {
        proof {
            lemma_dec_uint_bound(old(self).settings(), old(self).reader.pending(), width as nat);
        }
        match self.config.int_encoding() {
            IntEncoding::Variable => {
                proof {
                    varint::lemma_varint_decode_bound(
                        old(self).settings().endian,
                        uint_type(width as nat),
                        old(self).reader.pending(),
                    );
                    lemma_pow256_values();
                }
                if width == 2 {
                    match varint::varint_decode_u16(&mut self.reader, self.config.endianness()) {
                        Ok(v) => Ok(v as u128),
                        Err(e) => Err(e),
                    }
                } else if width == 4 {
                    match varint::varint_decode_u32(&mut self.reader, self.config.endianness()) {
                        Ok(v) => Ok(v as u128),
                        Err(e) => Err(e),
                    }
                } else if width == 8 {
                    match varint::varint_decode_u64(&mut self.reader, self.config.endianness()) {
                        Ok(v) => Ok(v as u128),
                        Err(e) => Err(e),
                    }
                } else {
                    varint::varint_decode_u128(&mut self.reader, self.config.endianness())
                }
            },
            IntEncoding::Fixed => {
                proof {
                    if old(self).reader.pending().len() >= width {
                        lemma_endian_value_bound(
                            old(self).settings().endian,
                            old(self).reader.pending().take(width as int),
                        );
                    }
                }
                self.read_fixed(width)
            },
        }
    }
}

impl<R: Reader, C: Config, Context> Decoder for DecoderImpl<R, C, Context> {
    type R = R;

    type C = C;

    type Context = Context;

    closed spec fn pending(&self) -> Seq<u8> {
        self.reader.pending()
    }

    closed spec fn claimed(&self) -> nat {
        self.bytes_read as nat
    }

    closed spec fn settings(&self) -> Configuration {
        self.config.settings()
    }

    fn config(&self) -> (c: &C) {
        &self.config
    }

    fn context(&mut self) -> (ctx: &mut Context)
        ensures
            *ctx == old(self).context_value(),
            final(self).context_value() == *final(ctx),
    {
        &mut self.context
    }

    fn read(&mut self, bytes: &mut [u8]) -> (r: Result<(), DecodeError>) {
        self.reader.read(bytes)
    }

    fn peek_u8(&mut self) -> (r: Option<u8>) {
        self.reader.peek_u8()
    }

    fn claim_bytes_read(&mut self, n: usize) -> (r: Result<(), DecodeError>) {
        match self.config.limit() {
            Some(limit) => {
                if n > limit || self.bytes_read > limit - n {
                    Err(DecodeError::LimitExceeded)
                } else {
                    self.bytes_read = self.bytes_read + n;
                    Ok(())
                }
            },
            None => Ok(()),
        }
    }

    fn unclaim_bytes_read(&mut self, n: usize) {
        if self.config.limit().is_some() {
            self.bytes_read = self.bytes_read - n;
        }
    }

    fn decode_u8(&mut self) -> (r: Result<u8, DecodeError>) {
        if self.format_is_bincode() {
            self.reader.read_u8()
        } else {
            cbor::decode_u8(&mut self.reader)
        }
    }

    fn decode_u16(&mut self) -> (r: Result<u16, DecodeError>) {
        if self.format_is_bincode() {
            proof {
                lemma_pow256_values();
            }
            match self.bincode_uint(2) {
                Ok(v) => Ok(v as u16),
                Err(e) => Err(e),
            }
        } else {
            proof {
                lemma_pow256_values();
            }
            cbor::decode_u16(&mut self.reader)
        }
    }

    fn decode_u32(&mut self) -> (r: Result<u32, DecodeError>) {
        if self.format_is_bincode() {
            proof {
                lemma_pow256_values();
            }
            match self.bincode_uint(4) {
                Ok(v) => Ok(v as u32),
                Err(e) => Err(e),
            }
        } else {
            proof {
                lemma_pow256_values();
            }
            cbor::decode_u32(&mut self.reader)
        }
    }

    fn decode_u64(&mut self) -> (r: Result<u64, DecodeError>) {
        if self.format_is_bincode() {
            proof {
                lemma_pow256_values();
            }
            match self.bincode_uint(8) {
                Ok(v) => Ok(v as u64),
                Err(e) => Err(e),
            }
        } else {
            proof {
                lemma_pow256_values();
            }
            cbor::decode_u64(&mut self.reader)
        }
    }

    fn decode_u128(&mut self) -> (r: Result<u128, DecodeError>) {
        if self.format_is_bincode() {
            self.bincode_uint(16)
        } else {
            cbor::decode_u128(&mut self.reader)
        }
    }

    fn decode_usize(&mut self) -> (r: Result<usize, DecodeError>) {
        proof {
            lemma_pow256_values();
            lemma_dec_uint_bound(old(self).settings(), old(self).pending(), 8);
        }
        match self.claim_bytes_read(8) {
            Ok(()) => {},
            Err(e) => return Err(e),
        }
        match self.decode_u64() {
            Ok(v) => {
                if v <= usize::MAX as u64 {
                    Ok(v as usize)
                } else {
                    Err(DecodeError::OutsideUsizeRange(v))
                }
            },
            Err(e) => Err(e),
        }
    }

    fn decode_i8(&mut self) -> (r: Result<i8, DecodeError>) {
        if self.format_is_bincode() {
            match self.reader.read_u8() {
                Ok(v) => Ok(v as i8),
                Err(e) => Err(e),
            }
        } else {
            cbor::decode_i8(&mut self.reader)
        }
    }

    fn decode_i16(&mut self) -> (r: Result<i16, DecodeError>) {
        if self.format_is_bincode() {
            match self.config.int_encoding() {
                IntEncoding::Variable => varint::varint_decode_i16(&mut self.reader, self.config.endianness()),
                IntEncoding::Fixed => match self.read_fixed(2) {
                    Ok(v) => {
                        proof {
                            lemma_pow256_values();
                            lemma_endian_value_bound(old(self).settings().endian, old(self).reader.pending().take(2));
                            assert(v < 0x1_0000);
                            assert((v as u16) as i16 as int == if v >= 0x8000 { v - 0x1_0000 } else { v as int }) by (bit_vector)
                                requires v < 0x1_0000;
                        }
                        Ok((v as u16) as i16)
                    },
                    Err(e) => Err(e),
                },
            }
        } else {
            cbor::decode_i16(&mut self.reader)
        }
    }

    fn decode_i32(&mut self) -> (r: Result<i32, DecodeError>) {
        if self.format_is_bincode() {
            match self.config.int_encoding() {
                IntEncoding::Variable => varint::varint_decode_i32(&mut self.reader, self.config.endianness()),
                IntEncoding::Fixed => match self.read_fixed(4) {
                    Ok(v) => {
                        proof {
                            lemma_pow256_values();
                            lemma_endian_value_bound(old(self).settings().endian, old(self).reader.pending().take(4));
                            assert(v < 0x1_0000_0000);
                            assert((v as u32) as i32 as int == if v >= 0x8000_0000 { v - 0x1_0000_0000 } else { v as int }) by (bit_vector)
                                requires v < 0x1_0000_0000;
                        }
                        Ok((v as u32) as i32)
                    },
                    Err(e) => Err(e),
                },
            }
        } else {
            cbor::decode_i32(&mut self.reader)
        }
    }

    fn decode_i64(&mut self) -> (r: Result<i64, DecodeError>) {
        if self.format_is_bincode() {
            match self.config.int_encoding() {
                IntEncoding::Variable => varint::varint_decode_i64(&mut self.reader, self.config.endianness()),
                IntEncoding::Fixed => match self.read_fixed(8) {
                    Ok(v) => {
                        proof {
                            lemma_pow256_values();
                            lemma_endian_value_bound(old(self).settings().endian, old(self).reader.pending().take(8));
                            assert(v < 0x1_0000_0000_0000_0000);
                            assert((v as u64) as i64 as int == if v >= 0x8000_0000_0000_0000 { v - 0x1_0000_0000_0000_0000 } else { v as int }) by (bit_vector)
                                requires v < 0x1_0000_0000_0000_0000;
                        }
                        Ok((v as u64) as i64)
                    },
                    Err(e) => Err(e),
                },
            }
        } else {
            cbor::decode_i64(&mut self.reader)
        }
    }

    fn decode_i128(&mut self) -> (r: Result<i128, DecodeError>) {
        if self.format_is_bincode() {
            match self.config.int_encoding() {
                IntEncoding::Variable => varint::varint_decode_i128(&mut self.reader, self.config.endianness()),
                IntEncoding::Fixed => match self.read_fixed(16) {
                    Ok(v) => {
                        proof {
                            lemma_pow256_values();
                            lemma_endian_value_bound(old(self).settings().endian, old(self).reader.pending().take(16));
                            assert(v as i128 as int == if v >= 0x8000_0000_0000_0000_0000_0000_0000_0000 { v - 0x1_0000_0000_0000_0000_0000_0000_0000_0000 } else { v as int }) by (bit_vector);
                        }
                        Ok(v as i128)
                    },
                    Err(e) => Err(e),
                },
            }
        } else {
            cbor::decode_i128(&mut self.reader)
        }
    }

    fn decode_isize(&mut self) -> (r: Result<isize, DecodeError>) {
        proof {
            lemma_pow256_values();
            lemma_dec_int_bound(old(self).settings(), old(self).pending(), 8);
        }
        match self.claim_bytes_read(8) {
            Ok(()) => {},
            Err(e) => return Err(e),
        }
        match self.decode_i64() {
            Ok(v) => {
                if isize::MIN as i64 <= v && v <= isize::MAX as i64 {
                    Ok(v as isize)
                } else {
                    Err(DecodeError::OutsideIsizeRange(v))
                }
            },
            Err(e) => Err(e),
        }
    }

    fn decode_f32(&mut self) -> (r: Result<FloatBits, DecodeError>) {
        if self.format_is_bincode() {
            proof {
                if old(self).reader.pending().len() >= 4 {
                    lemma_endian_value_bound(
                        old(self).settings().endian,
                        old(self).reader.pending().take(4),
                    );
                    lemma_pow256_values();
                }
            }
            match self.read_fixed(4) {
                Ok(v) => Ok(FloatBits::Single(v as u32)),
                Err(e) => Err(e),
            }
        } else {
            cbor::decode_f32(&mut self.reader)
        }
    }

    fn decode_f64(&mut self) -> (r: Result<FloatBits, DecodeError>) {
        if self.format_is_bincode() {
            proof {
                if old(self).reader.pending().len() >= 8 {
                    lemma_endian_value_bound(
                        old(self).settings().endian,
                        old(self).reader.pending().take(8),
                    );
                    lemma_pow256_values();
                }
            }
            match self.read_fixed(8) {
                Ok(v) => Ok(FloatBits::Double(v as u64)),
                Err(e) => Err(e),
            }
        } else {
            cbor::decode_f64(&mut self.reader)
        }
    }

    fn decode_bool(&mut self) -> (r: Result<bool, DecodeError>) {
        if self.format_is_bincode() {
            match self.reader.read_u8() {
                Ok(0) => Ok(false),
                Ok(1) => Ok(true),
                Ok(x) => Err(DecodeError::InvalidBooleanValue(x)),
                Err(e) => Err(e),
            }
        } else {
            cbor::decode_bool(&mut self.reader)
        }
    }

    fn decode_slice_len(&mut self) -> (r: Result<usize, DecodeError>) {
        if self.format_is_bincode() {
            self.decode_usize()
        } else {
            match self.claim_bytes_read(9) {
                Ok(()) => {},
                Err(e) => return Err(e),
            }
            cbor::decode_slice_len(&mut self.reader)
        }
    }

    fn decode_array_len(&mut self) -> (r: Result<usize, DecodeError>) {
        self.decode_slice_len()
    }

    fn decode_map_len(&mut self) -> (r: Result<usize, DecodeError>) {
        if self.format_is_bincode() {
            self.decode_slice_len()
        } else {
            match self.claim_bytes_read(9) {
                Ok(()) => {},
                Err(e) => return Err(e),
            }
            cbor::decode_map_len(&mut self.reader)
        }
    }

    fn decode_variant_index(&mut self) -> (r: Result<u32, DecodeError>) {
        if self.format_is_bincode() {
            match self.claim_bytes_read(1) {
                Ok(()) => {},
                Err(e) => return Err(e),
            }
            self.decode_u32()
        } else {
            match self.claim_bytes_read(5) {
                Ok(()) => {},
                Err(e) => return Err(e),
            }
            cbor::decode_u32(&mut self.reader)
        }
    }

    fn decode_byte_slice_len(&mut self) -> (r: Result<usize, DecodeError>) {
        if self.format_is_bincode() {
            self.decode_slice_len()
        } else {
            match self.claim_bytes_read(9) {
                Ok(()) => {},
                Err(e) => return Err(e),
            }
            cbor::decode_byte_slice_len(&mut self.reader)
        }
    }

    fn decode_byte_slice_or_array_len(&mut self) -> (r: Result<(u8, usize), DecodeError>) {
        if self.format_is_bincode() {
            match self.decode_slice_len() {
                Ok(len) => Ok((0, len)),
                Err(e) => Err(e),
            }
        } else {
            match self.claim_bytes_read(9) {
                Ok(()) => {},
                Err(e) => return Err(e),
            }
            cbor::decode_byte_slice_or_array_len(&mut self.reader)
        }
    }

    fn decode_str_len(&mut self) -> (r: Result<usize, DecodeError>) {
        if self.format_is_bincode() {
            self.decode_slice_len()
        } else {
            match self.claim_bytes_read(9) {
                Ok(()) => {},
                Err(e) => return Err(e),
            }
            cbor::decode_str_len(&mut self.reader)
        }
    }

    fn decode_struct_header(&mut self, len: usize) -> (r: Result<(), DecodeError>) {
        if self.format_is_bincode() {
            proof {
                assert(old(self).pending().skip(0) =~= old(self).pending());
            }
            Ok(())
        } else {
            match cbor::decode_slice_len(&mut self.reader) {
                Ok(actual) => {
                    if actual != len && actual != usize::MAX {
                        Err(DecodeError::StructLengthMismatch)
                    } else {
                        Ok(())
                    }
                },
                Err(e) => Err(e),
            }
        }
    }
}

impl<'de, R: BorrowReader<'de>, C: Config, Context> BorrowDecoder<'de> for DecoderImpl<R, C, Context> {
    type BR = R;

    fn take_bytes(&mut self, length: usize) -> (r: Result<&'de [u8], DecodeError>) {
        self.reader.take_bytes(length)
    }
}

} // verus!

verus! {

/// A decoder that reads through another decoder with its own decoding context.
pub struct WithContext<'a, D: ?Sized, C> {
    /// The decoder read through.
    pub decoder: &'a mut D,
    /// The decoding context.
    pub context: C,
}


impl<'a, Context, D: Decoder> Decoder for WithContext<'a, D, Context> {
    type R = D::R;

    type C = D::C;

    type Context = Context;

    open spec fn pending(&self) -> Seq<u8> {
        self.decoder.pending()
    }

    open spec fn claimed(&self) -> nat {
        self.decoder.claimed()
    }

    open spec fn settings(&self) -> Configuration {
        self.decoder.settings()
    }

    fn config(&self) -> (c: &D::C) {
        self.decoder.config()
    }

    fn context(&mut self) -> (ctx: &mut Context)
        ensures
            *ctx == old(self).context,
            final(self).context == *final(ctx),
    {
        &mut self.context
    }

    fn unclaim_bytes_read(&mut self, n: usize) {
        self.decoder.unclaim_bytes_read(n)
    }

    fn read(&mut self, bytes: &mut [u8]) -> (r: Result<(), DecodeError>) {
        self.decoder.read(bytes)
    }

    fn peek_u8(&mut self) -> (r: Option<u8>) {
        self.decoder.peek_u8()
    }

    fn claim_bytes_read(&mut self, n: usize) -> (r: Result<(), DecodeError>) {
        self.decoder.claim_bytes_read(n)
    }

    fn decode_u8(&mut self) -> (r: Result<u8, DecodeError>) {
        self.decoder.decode_u8()
    }

    fn decode_u16(&mut self) -> (r: Result<u16, DecodeError>) {
        self.decoder.decode_u16()
    }

    fn decode_u32(&mut self) -> (r: Result<u32, DecodeError>) {
        self.decoder.decode_u32()
    }

    fn decode_u64(&mut self) -> (r: Result<u64, DecodeError>) {
        self.decoder.decode_u64()
    }

    fn decode_u128(&mut self) -> (r: Result<u128, DecodeError>) {
        self.decoder.decode_u128()
    }

    fn decode_usize(&mut self) -> (r: Result<usize, DecodeError>) {
        self.decoder.decode_usize()
    }

    fn decode_i8(&mut self) -> (r: Result<i8, DecodeError>) {
        self.decoder.decode_i8()
    }

    fn decode_i16(&mut self) -> (r: Result<i16, DecodeError>) {
        self.decoder.decode_i16()
    }

    fn decode_i32(&mut self) -> (r: Result<i32, DecodeError>) {
        self.decoder.decode_i32()
    }

    fn decode_i64(&mut self) -> (r: Result<i64, DecodeError>) {
        self.decoder.decode_i64()
    }

    fn decode_i128(&mut self) -> (r: Result<i128, DecodeError>) {
        self.decoder.decode_i128()
    }

    fn decode_isize(&mut self) -> (r: Result<isize, DecodeError>) {
        self.decoder.decode_isize()
    }

    fn decode_f32(&mut self) -> (r: Result<FloatBits, DecodeError>) {
        self.decoder.decode_f32()
    }

    fn decode_f64(&mut self) -> (r: Result<FloatBits, DecodeError>) {
        self.decoder.decode_f64()
    }

    fn decode_bool(&mut self) -> (r: Result<bool, DecodeError>) {
        self.decoder.decode_bool()
    }

    fn decode_slice_len(&mut self) -> (r: Result<usize, DecodeError>) {
        self.decoder.decode_slice_len()
    }

    fn decode_array_len(&mut self) -> (r: Result<usize, DecodeError>) {
        self.decoder.decode_array_len()
    }

    fn decode_map_len(&mut self) -> (r: Result<usize, DecodeError>) {
        self.decoder.decode_map_len()
    }

    fn decode_variant_index(&mut self) -> (r: Result<u32, DecodeError>) {
        self.decoder.decode_variant_index()
    }

    fn decode_byte_slice_len(&mut self) -> (r: Result<usize, DecodeError>) {
        self.decoder.decode_byte_slice_len()
    }

    fn decode_byte_slice_or_array_len(&mut self) -> (r: Result<(u8, usize), DecodeError>) {
        self.decoder.decode_byte_slice_or_array_len()
    }

    fn decode_str_len(&mut self) -> (r: Result<usize, DecodeError>) {
        self.decoder.decode_str_len()
    }

    fn decode_struct_header(&mut self, len: usize) -> (r: Result<(), DecodeError>) {
        self.decoder.decode_struct_header(len)
    }
}

impl<'a, 'de, Context, D: BorrowDecoder<'de>> BorrowDecoder<'de> for WithContext<'a, D, Context> {
    type BR = D::BR;

    fn take_bytes(&mut self, length: usize) -> (r: Result<&'de [u8], DecodeError>) {
        self.decoder.take_bytes(length)
    }
}

} // verus!
