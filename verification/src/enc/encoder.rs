use super::{
    enc_bool, enc_byte_slice, enc_byte_slice_len, enc_i8, enc_int, enc_map_len,
    enc_slice_len, enc_str, enc_struct_header, enc_u8, enc_uint, enc_variant_index, is_bincode,
    twos_complement, Encoder,
};
use crate::bytes::{endian_bytes, lemma_pow256_values, uint_to_bytes};
use crate::config::{Config, Configuration, Endianness, Format, IntEncoding};
use crate::enc::cbor;
use crate::enc::write::{appended, lemma_appended_then, Writer};
use crate::error::EncodeError;
use crate::varint;
use vstd::prelude::*;
use vstd::string::StringSliceAdditionalSpecFns;

verus! {

/// An Encoder that writes bytes into a given writer `W`.
///
/// This struct should rarely be used.
/// In most cases, prefer any of the `encode` functions.
///
/// The configuration that is chosen decides the format, the integer encoding and the byte order
/// that are used to write values to the writer.
pub struct EncoderImpl<W: Writer, C: Config> {
    writer: W,
    config: C,
}

impl<W: Writer, C: Config> EncoderImpl<W, C> {
    /// The writer inside.
    pub closed spec fn inner(&self) -> W {
        self.writer
    }

    /// Create a new Encoder
    pub fn new(writer: W, config: C) -> (e: Self)
        ensures
            e.inner() == writer,
            e.settings() == config.settings(),
    {
        EncoderImpl { writer, config }
    }

    /// Return the underlying writer
    pub fn into_writer(self) -> (w: W)
        ensures
            w == self.inner(),
    {
        self.writer
    }

    /// The encoder is seen as its writer: the same bytes written, the same room.
    pub proof fn lemma_inner(&self)
        ensures
            self.written() == self.inner().written(),
            forall|n: nat| #[trigger] self.room(n) == self.inner().room(n),
    {
    }

    fn format_is_bincode(&self) -> (b: bool)
        ensures
            b == is_bincode(self.settings()),
    {
        match self.config.format() {
            Format::Bincode | Format::BincodeDeterministic => true,
            _ => false,
        }
    }

    /// Write the `width` low bytes of `v` in the configured byte order.
    fn write_fixed(&mut self, v: u128, width: usize) -> (r: Result<(), EncodeError>)
        requires
            width <= 16,
        ensures
            final(self).config == old(self).config,
            appended(old(self).writer, final(self).writer, endian_bytes(old(self).settings().endian, v as nat, width as nat), r),
    {
        let bytes = uint_to_bytes(self.config.endianness(), v, width);
        self.writer.write(bytes.as_slice())
    }

    /// Write an unsigned integer of `width` bytes under the bincode format.
    fn bincode_uint(&mut self, v: u128, width: usize) -> (r: Result<(), EncodeError>)
        requires
            width == 2 || width == 4 || width == 8 || width == 16,
            width == 2 ==> v <= u16::MAX,
            width == 4 ==> v <= u32::MAX,
            width == 8 ==> v <= u64::MAX,
            is_bincode(old(self).settings()),
        ensures
            final(self).config == old(self).config,
            appended(old(self).writer, final(self).writer, enc_uint(old(self).settings(), v as nat, width as nat), r),
    {
        match self.config.int_encoding() {
            IntEncoding::Variable => varint::varint_encode_u128(&mut self.writer, self.config.endianness(), v),
            IntEncoding::Fixed => self.write_fixed(v, width),
        }
    }
}

impl<W: Writer, C: Config> Encoder for EncoderImpl<W, C> {
    type W = W;

    closed spec fn written(&self) -> Seq<u8> {
        self.writer.written()
    }

    closed spec fn room(&self, n: nat) -> bool {
        self.writer.room(n)
    }

    closed spec fn settings(&self) -> Configuration {
        self.config.settings()
    }

    proof fn lemma_room_prefix(&self, n: nat, m: nat) {
        self.writer.lemma_room_prefix(n, m);
    }

    proof fn lemma_room_empty(&self) {
        self.writer.lemma_room_empty();
    }

    fn configuration(&self) -> (c: Configuration) {
        self.config.configuration()
    }

    fn write_bytes(&mut self, bytes: &[u8]) -> (r: Result<(), EncodeError>) {
        self.writer.write(bytes)
    }

    fn encode_u8(&mut self, val: u8) -> (r: Result<(), EncodeError>) {
        if self.format_is_bincode() {
            let r = self.writer.write_u8(val);
            proof {
                assert(old(self).written().push(val) =~= old(self).written() + seq![val]);
            }
            r
        } else {
            cbor::encode_u8::<W, C>(&mut self.writer, val)
        }
    }

    fn encode_u16(&mut self, val: u16) -> (r: Result<(), EncodeError>) {
        if self.format_is_bincode() {
            self.bincode_uint(val as u128, 2)
        } else {
            cbor::encode_u16::<W, C>(&mut self.writer, val)
        }
    }

    fn encode_u32(&mut self, val: u32) -> (r: Result<(), EncodeError>) {
        if self.format_is_bincode() {
            self.bincode_uint(val as u128, 4)
        } else {
            cbor::encode_u32::<W, C>(&mut self.writer, val)
        }
    }

    fn encode_u64(&mut self, val: u64) -> (r: Result<(), EncodeError>) {
        if self.format_is_bincode() {
            self.bincode_uint(val as u128, 8)
        } else {
            cbor::encode_u64::<W, C>(&mut self.writer, val)
        }
    }

    fn encode_u128(&mut self, val: u128) -> (r: Result<(), EncodeError>) {
        if self.format_is_bincode() {
            self.bincode_uint(val, 16)
        } else {
            cbor::encode_u128::<W, C>(&mut self.writer, val)
        }
    }

    fn encode_usize(&mut self, val: usize) -> (r: Result<(), EncodeError>) {
        self.encode_u64(val as u64)
    }

    fn encode_i8(&mut self, val: i8) -> (r: Result<(), EncodeError>) {
        if self.format_is_bincode() {
            let r = self.writer.write_u8(val as u8);
            proof {
                assert(old(self).written().push(val as u8) =~= old(self).written() + seq![val as u8]);
            }
            r
        } else {
            cbor::encode_i8::<W, C>(&mut self.writer, val)
        }
    }

    fn encode_i16(&mut self, val: i16) -> (r: Result<(), EncodeError>) {
        if self.format_is_bincode() {
            match self.config.int_encoding() {
                IntEncoding::Variable => varint::varint_encode_i16(&mut self.writer, self.config.endianness(), val),
                IntEncoding::Fixed => {
                    proof {
                        lemma_pow256_values();
                        assert((val as u16) as int == if val >= 0 { val as int } else { val as int + 0x1_0000 }) by (bit_vector);
                    }
                    self.write_fixed((val as u16) as u128, 2)
                },
            }
        } else {
            cbor::encode_i16::<W, C>(&mut self.writer, val)
        }
    }

    fn encode_i32(&mut self, val: i32) -> (r: Result<(), EncodeError>) {
        if self.format_is_bincode() {
            match self.config.int_encoding() {
                IntEncoding::Variable => varint::varint_encode_i32(&mut self.writer, self.config.endianness(), val),
                IntEncoding::Fixed => {
                    proof {
                        lemma_pow256_values();
                        assert((val as u32) as int == if val >= 0 { val as int } else { val as int + 0x1_0000_0000 }) by (bit_vector);
                    }
                    self.write_fixed((val as u32) as u128, 4)
                },
            }
        } else {
            cbor::encode_i32::<W, C>(&mut self.writer, val)
        }
    }

    fn encode_i64(&mut self, val: i64) -> (r: Result<(), EncodeError>) {
        if self.format_is_bincode() {
            match self.config.int_encoding() {
                IntEncoding::Variable => varint::varint_encode_i64(&mut self.writer, self.config.endianness(), val),
                IntEncoding::Fixed => {
                    proof {
                        lemma_pow256_values();
                        assert((val as u64) as int == if val >= 0 { val as int } else { val as int + 0x1_0000_0000_0000_0000 }) by (bit_vector);
                    }
                    self.write_fixed((val as u64) as u128, 8)
                },
            }
        } else {
            cbor::encode_i64::<W, C>(&mut self.writer, val)
        }
    }

    fn encode_i128(&mut self, val: i128) -> (r: Result<(), EncodeError>) {
        if self.format_is_bincode() {
            match self.config.int_encoding() {
                IntEncoding::Variable => varint::varint_encode_i128(&mut self.writer, self.config.endianness(), val),
                IntEncoding::Fixed => {
                    proof {
                        lemma_pow256_values();
                        assert((val as u128) as int == if val >= 0 { val as int } else { val as int + 0x1_0000_0000_0000_0000_0000_0000_0000_0000 }) by (bit_vector);
                    }
                    self.write_fixed(val as u128, 16)
                },
            }
        } else {
            cbor::encode_i128::<W, C>(&mut self.writer, val)
        }
    }

    fn encode_isize(&mut self, val: isize) -> (r: Result<(), EncodeError>) {
        self.encode_i64(val as i64)
    }

    fn encode_bool(&mut self, val: bool) -> (r: Result<(), EncodeError>) {
        if self.format_is_bincode() {
            self.encode_u8(if val { 1 } else { 0 })
        } else {
            cbor::encode_bool::<W, C>(&mut self.writer, val)
        }
    }

    fn encode_f32(&mut self, bits: u32) -> (r: Result<(), EncodeError>) {
        if self.format_is_bincode() {
            self.write_fixed(bits as u128, 4)
        } else {
            let opts = self.config.cbor_options();
            cbor::encode_f32(&mut self.writer, &opts, bits)
        }
    }

    fn encode_f64(&mut self, bits: u64, narrowed: Option<u32>) -> (r: Result<(), EncodeError>) {
        if self.format_is_bincode() {
            self.write_fixed(bits as u128, 8)
        } else {
            let opts = self.config.cbor_options();
            cbor::encode_f64(&mut self.writer, &opts, bits, narrowed)
        }
    }

    fn encode_str(&mut self, val: &str) -> (r: Result<(), EncodeError>) {
        if self.format_is_bincode() {
            let bytes = val.as_bytes();
            let ghost w0 = self.writer;
            let r1 = self.bincode_uint(bytes.len() as u128, 8);
            if r1.is_err() {
                proof {
                    lemma_appended_then(w0, self.writer, self.writer, enc_slice_len(self.settings(), bytes@.len()), bytes@, r1, r1);
                }
                return r1;
            }
            let ghost w1 = self.writer;
            let r2 = self.writer.write(bytes);
            proof {
                lemma_appended_then(w0, w1, self.writer, enc_slice_len(self.settings(), bytes@.len()), bytes@, r1, r2);
            }
            r2
        } else {
            cbor::encode_str::<W, C>(&mut self.writer, val)
        }
    }

    fn encode_slice_len(&mut self, len: usize) -> (r: Result<(), EncodeError>) {
        if self.format_is_bincode() {
            self.encode_u64(len as u64)
        } else {
            cbor::encode_slice_len::<W, C>(&mut self.writer, len)
        }
    }

    fn encode_array_len(&mut self, len: usize) -> (r: Result<(), EncodeError>) {
        self.encode_slice_len(len)
    }

    fn encode_map_len(&mut self, len: usize) -> (r: Result<(), EncodeError>) {
        if self.format_is_bincode() {
            self.encode_u64(len as u64)
        } else {
            cbor::encode_map_len::<W, C>(&mut self.writer, len)
        }
    }

    fn encode_byte_slice(&mut self, val: &[u8]) -> (r: Result<(), EncodeError>) {
        if self.format_is_bincode() {
            let ghost w0 = self.writer;
            let r1 = self.bincode_uint(val.len() as u128, 8);
            if r1.is_err() {
                proof {
                    lemma_appended_then(w0, self.writer, self.writer, enc_slice_len(self.settings(), val@.len()), val@, r1, r1);
                }
                return r1;
            }
            let ghost w1 = self.writer;
            let r2 = self.writer.write(val);
            proof {
                lemma_appended_then(w0, w1, self.writer, enc_slice_len(self.settings(), val@.len()), val@, r1, r2);
            }
            r2
        } else {
            cbor::encode_byte_slice::<W, C>(&mut self.writer, val)
        }
    }

    fn encode_struct_header(&mut self, len: usize) -> (r: Result<(), EncodeError>) {
        if self.format_is_bincode() {
            proof {
                self.writer.lemma_room_empty();
                assert(old(self).written() + Seq::<u8>::empty() =~= old(self).written());
            }
            Ok(())
        } else {
            self.encode_array_len(len)
        }
    }

    fn encode_byte_slice_len(&mut self, len: usize) -> (r: Result<(), EncodeError>) {
        if self.format_is_bincode() {
            self.encode_usize(len)
        } else {
            cbor::encode_byte_slice_len::<W, C>(&mut self.writer, len as u64)
        }
    }

    fn encode_variant_index(&mut self, idx: u32) -> (r: Result<(), EncodeError>) {
        if self.format_is_bincode() {
            self.encode_u32(idx)
        } else {
            cbor::encode_u32::<W, C>(&mut self.writer, idx)
        }
    }
}

} // verus!
