//! Bit-level reading for space-optimized packing.
use crate::bits::{
    bytes_lsb, bytes_msb, high_first_bits, lemma_acc_lsb, lemma_acc_msb, lemma_high_first_split,
    lemma_low_bits_split, lemma_mask_bits, low_bits,
};
use crate::config::{BitOrdering, Config};
use crate::de::read::{short_read, Reader};
use crate::error::DecodeError;
use vstd::prelude::*;

verus! {

/// A byte string has 8 bits per byte, in either order.
pub proof fn lemma_bytes_bits_len(b: Seq<u8>)
    ensures
        bytes_lsb(b).len() == 8 * b.len(),
        bytes_msb(b).len() == 8 * b.len(),
    decreases b.len(),
{
    if b.len() > 0 {
        lemma_bytes_bits_len(b.drop_first());
    }
}

/// A wrapper around a `Reader` that allows reading data bit-by-bit.
///
/// It holds the reader, the byte being consumed and the number of its bits still unread. A new
/// byte is read from the reader only when no bit is left.
pub struct BitReader<R: Reader> {
    reader: R,
    current_byte: u8,
    bits_available: u8,
}

impl<R: Reader> BitReader<R> {
    /// The reader inside.
    pub closed spec fn inner(&self) -> R {
        self.reader
    }

    /// The byte being consumed and the number of its bits still unread.
    pub closed spec fn state(&self) -> (u8, u8) {
        (self.current_byte, self.bits_available)
    }

    /// The bits still to read in least-significant-bit-first order: the unread low bits of the
    /// current byte, then those of the bytes the reader holds.
    pub open spec fn bits_lsb(&self) -> Seq<bool> {
        low_bits(self.state().0 as u64, self.state().1 as nat) + bytes_lsb(self.inner().pending())
    }

    /// The bits still to read in most-significant-bit-first order: the unread low bits of the
    /// current byte from the highest down, then those of the bytes the reader holds.
    pub open spec fn bits_msb(&self) -> Seq<bool> {
        high_first_bits(self.state().0 as u64, self.state().1 as nat) + bytes_msb(self.inner().pending())
    }

    /// Creates a new `BitReader`.
    pub fn new(reader: R) -> (r: Self)
        ensures
            r.inner() == reader,
            r.state() == (0u8, 0u8),
    {
        BitReader { reader, current_byte: 0, bits_available: 0 }
    }

    /// Creates a new `BitReader` with an existing state.
    pub fn from_state(reader: R, current_byte: u8, bits_available: u8) -> (r: Self)
        ensures
            r.inner() == reader,
            r.state() == (current_byte, bits_available),
    {
        BitReader { reader, current_byte, bits_available }
    }

    /// Returns the current state of the bit reader (`current_byte`, `bits_available`).
    pub fn get_state(&self) -> (s: (u8, u8))
        ensures
            s == self.state(),
    {
        (self.current_byte, self.bits_available)
    }

    /// Returns the reader inside.
    pub fn into_inner(self) -> (r: R)
        ensures
            r == self.inner(),
    {
        self.reader
    }

    /// Discards any remaining unread bits in the current byte, effectively returning to byte alignment.
    pub fn align_to_byte(&mut self)
        ensures
            final(self).inner() == old(self).inner(),
            final(self).state() == (0u8, 0u8),
    {
        self.bits_available = 0;
        self.current_byte = 0;
    }

    /// Read the next byte of the reader into the current byte.
    fn refill(&mut self) -> (r: Result<(), DecodeError>)
        requires
            old(self).bits_available == 0,
        ensures
            r is Ok <==> old(self).reader.pending().len() > 0,
            r is Err ==> r == Err::<(), DecodeError>(short_read(1, 0)),
            r is Ok ==> final(self).bits_available == 8 && final(self).bits_lsb() == old(
                self,
            ).bits_lsb() && final(self).bits_msb() == old(self).bits_msb(),
    {
        let mut buf = [0u8; 1];
        match self.reader.read(&mut buf) {
            Ok(()) => {},
            Err(e) => return Err(e),
        }
        self.current_byte = buf[0];
        self.bits_available = 8;
        proof {
            let p = old(self).reader.pending();
            assert(low_bits(0u64, 0) =~= Seq::<bool>::empty());
            assert(high_first_bits(0u64, 0) =~= Seq::<bool>::empty());
            assert(p.skip(1) =~= p.drop_first());
            assert(buf@[0] == p[0]);
            assert(self.bits_lsb() =~= old(self).bits_lsb());
            assert(self.bits_msb() =~= old(self).bits_msb());
        }
        Ok(())
    }

    /// Reads `num_bits` from the stream, using LSB-first bit ordering.
    ///
    /// The result holds the next `num_bits` bits, the first one least significant; it fails with
    /// `UnexpectedEnd` when the reader runs out of bytes. At most 64 bits are read at once.
    pub fn read_bits_lsb(&mut self, num_bits: u8) -> (r: Result<u64, DecodeError>)
        requires
            old(self).state().1 <= 8,
            num_bits <= 64,
        ensures
            r is Ok <==> num_bits <= old(self).bits_lsb().len(),
            r is Err ==> r == Err::<u64, DecodeError>(DecodeError::UnexpectedEnd { additional: 1 }),
            r matches Ok(v) ==> low_bits(v, num_bits as nat) == old(self).bits_lsb().take(num_bits as int)
                && (num_bits < 64 ==> v >> (num_bits as u64) == 0),
            r is Ok ==> final(self).bits_lsb() == old(self).bits_lsb().skip(num_bits as int)
                && final(self).state().1 <= 8,
    {
        let ghost start = old(self).bits_lsb();
        let ghost n_in = num_bits;
        let mut result: u64 = 0;
        let mut bits_read: u8 = 0;
        let mut rest: u8 = num_bits;
        proof {
            lemma_bytes_bits_len(old(self).reader.pending());
            assert(start.skip(0) =~= start);
            assert(low_bits(0u64, 0) =~= start.take(0));
            assert(0u64 >> 0u64 == 0u64) by (bit_vector);
        }
        while rest > 0
            invariant
                self.bits_available <= 8,
                bits_read + rest == n_in,
                n_in == num_bits,
                num_bits <= 64,
                start == old(self).bits_lsb(),
                bits_read <= start.len(),
                self.bits_lsb() == start.skip(bits_read as int),
                low_bits(result, bits_read as nat) == start.take(bits_read as int),
                bits_read < 64 ==> result >> (bits_read as u64) == 0,
            decreases rest,
        {
            if self.bits_available == 0 {
                proof {
                    lemma_bytes_bits_len(self.reader.pending());
                }
                match self.refill() {
                    Ok(()) => {},
                    Err(e) => return Err(e),
                }
            }
            let k: u8 = if rest < self.bits_available { rest } else { self.bits_available };
            proof {
                assert(1u64 << (k as u64) >= 1) by (bit_vector)
                    requires k <= 8;
            }
            let mask: u64 = (1u64 << (k as u64)) - 1;
            let cur = self.current_byte as u64;
            let chunk: u64 = cur & mask;
            let ghost before = *self;
            let ghost r0 = result;
            let ghost b0 = bits_read;
            proof {
                lemma_mask_bits(cur, k as u64, mask);
                lemma_low_bits_split(cur, k as nat, self.bits_available as nat);
                lemma_acc_lsb(result, bits_read as u64, chunk, k as u64, result | (chunk << (bits_read as u64)));
                let cb = self.current_byte;
                if k < 8 {
                    assert(((cb >> k) as u64) == (cb as u64) >> (k as u64)) by (bit_vector)
                        requires k < 8;
                }
            }
            result = result | (chunk << (bits_read as u64));
            if k < 8 {
                self.current_byte = self.current_byte >> k;
            }
            self.bits_available = self.bits_available - k;
            bits_read = bits_read + k;
            rest = rest - k;
            proof {
                let seen = before.bits_lsb();
                assert(seen =~= low_bits(cur, k as nat) + self.bits_lsb());
                assert(start.skip(b0 as int).take(k as int) =~= low_bits(cur, k as nat));
                assert(start.take(bits_read as int) =~= start.take(b0 as int) + start.skip(b0 as int).take(k as int));
                assert(self.bits_lsb() =~= seen.skip(k as int));
                assert(start.skip(b0 as int).skip(k as int) =~= start.skip(bits_read as int));
                assert(self.bits_lsb() =~= start.skip(bits_read as int));
            }
        }
        Ok(result)
    }
    /// Reads `num_bits` from the stream, using MSB-first bit ordering.
    ///
    /// The result holds the next `num_bits` bits, the first one most significant; it fails with
    /// `UnexpectedEnd` when the reader runs out of bytes. At most 64 bits are read at once.
    pub fn read_bits_msb(&mut self, num_bits: u8) -> (r: Result<u64, DecodeError>)
        requires
            old(self).state().1 <= 8,
            num_bits <= 64,
        ensures
            r is Ok <==> num_bits <= old(self).bits_msb().len(),
            r is Err ==> r == Err::<u64, DecodeError>(DecodeError::UnexpectedEnd { additional: 1 }),
            r matches Ok(v) ==> high_first_bits(v, num_bits as nat) == old(self).bits_msb().take(
                num_bits as int,
            ) && (num_bits < 64 ==> v >> (num_bits as u64) == 0),
            r is Ok ==> final(self).bits_msb() == old(self).bits_msb().skip(num_bits as int)
                && final(self).state().1 <= 8,
    {
        let ghost start = old(self).bits_msb();
        let ghost n_in = num_bits;
        let mut result: u64 = 0;
        let mut bits_read: u8 = 0;
        let mut rest: u8 = num_bits;
        proof {
            lemma_bytes_bits_len(old(self).reader.pending());
            assert(start.skip(0) =~= start);
            assert(high_first_bits(0u64, 0) =~= start.take(0));
            assert(0u64 >> 0u64 == 0u64) by (bit_vector);
        }
        while rest > 0
            invariant
                self.bits_available <= 8,
                bits_read + rest == n_in,
                n_in == num_bits,
                num_bits <= 64,
                start == old(self).bits_msb(),
                bits_read <= start.len(),
                self.bits_msb() == start.skip(bits_read as int),
                high_first_bits(result, bits_read as nat) == start.take(bits_read as int),
                bits_read < 64 ==> result >> (bits_read as u64) == 0,
            decreases rest,
        {
            if self.bits_available == 0 {
                proof {
                    lemma_bytes_bits_len(self.reader.pending());
                }
                match self.refill() {
                    Ok(()) => {},
                    Err(e) => return Err(e),
                }
            }
            let k: u8 = if rest < self.bits_available { rest } else { self.bits_available };
            let shift_down: u8 = self.bits_available - k;
            proof {
                assert(1u64 << (k as u64) >= 1) by (bit_vector)
                    requires k <= 8;
            }
            let mask: u64 = (1u64 << (k as u64)) - 1;
            let cur = self.current_byte as u64;
            let chunk: u64 = (cur >> (shift_down as u64)) & mask;
            let ghost before = *self;
            let ghost b0 = bits_read;
            proof {
                lemma_mask_bits(cur >> (shift_down as u64), k as u64, mask);
                lemma_high_first_split(cur, k as nat, self.bits_available as nat);
                lemma_acc_msb(result, bits_read as u64, chunk, k as u64, (result << (k as u64)) | chunk);
            }
            result = (result << (k as u64)) | chunk;
            self.bits_available = self.bits_available - k;
            bits_read = bits_read + k;
            rest = rest - k;
            proof {
                let seen = before.bits_msb();
                assert(seen =~= high_first_bits(cur >> (shift_down as u64), k as nat) + self.bits_msb());
                assert(self.bits_msb() =~= seen.skip(k as int));
                assert(start.skip(b0 as int).take(k as int) =~= high_first_bits(chunk, k as nat));
                assert(start.take(bits_read as int) =~= start.take(b0 as int) + start.skip(b0 as int).take(k as int));
                assert(start.skip(b0 as int).skip(k as int) =~= start.skip(bits_read as int));
            }
        }
        Ok(result)
    }

    /// Reads `num_bits` from the stream, using the bit ordering from the configuration.
    pub fn read_bits<C: Config>(&mut self, num_bits: u8, config: &C) -> (r: Result<u64, DecodeError>)
        requires
            old(self).state().1 <= 8,
            num_bits <= 64,
        ensures
            r is Err ==> r == Err::<u64, DecodeError>(DecodeError::UnexpectedEnd { additional: 1 }),
            config.settings().bit_ordering == BitOrdering::Lsb ==> {
                &&& (r is Ok <==> num_bits <= old(self).bits_lsb().len())
                &&& (r matches Ok(v) ==> low_bits(v, num_bits as nat) == old(self).bits_lsb().take(
                    num_bits as int,
                ) && (num_bits < 64 ==> v >> (num_bits as u64) == 0))
                &&& (r is Ok ==> final(self).bits_lsb() == old(self).bits_lsb().skip(num_bits as int))
            },
            config.settings().bit_ordering == BitOrdering::Msb ==> {
                &&& (r is Ok <==> num_bits <= old(self).bits_msb().len())
                &&& (r matches Ok(v) ==> high_first_bits(v, num_bits as nat) == old(self).bits_msb().take(
                    num_bits as int,
                ) && (num_bits < 64 ==> v >> (num_bits as u64) == 0))
                &&& (r is Ok ==> final(self).bits_msb() == old(self).bits_msb().skip(num_bits as int))
            },
            r is Ok ==> final(self).state().1 <= 8,
    {
        match config.bit_ordering() {
            BitOrdering::Lsb => self.read_bits_lsb(num_bits),
            BitOrdering::Msb => self.read_bits_msb(num_bits),
        }
    }
}

/// A helper trait to unpack `u64` into various types for bit packing.
pub trait Unpackable: Sized {
    /// What unpacking `val` gives.
    spec fn unpacked(val: u64) -> Self;

    /// Convert the unpacked `u64` to `Self`.
    fn unpack(val: u64) -> (r: Self)
        ensures
            r == Self::unpacked(val),
    ;
}

impl Unpackable for bool {
    open spec fn unpacked(val: u64) -> bool {
        val != 0
    }

    fn unpack(val: u64) -> (r: bool) {
        val != 0
    }
}

impl Unpackable for u8 {
    open spec fn unpacked(val: u64) -> u8 {
        val as u8
    }

    fn unpack(val: u64) -> (r: u8) {
        #[verifier::truncate]
        (val as u8)
    }
}

impl Unpackable for u16 {
    open spec fn unpacked(val: u64) -> u16 {
        val as u16
    }

    fn unpack(val: u64) -> (r: u16) {
        #[verifier::truncate]
        (val as u16)
    }
}

impl Unpackable for u32 {
    open spec fn unpacked(val: u64) -> u32 {
        val as u32
    }

    fn unpack(val: u64) -> (r: u32) {
        #[verifier::truncate]
        (val as u32)
    }
}

impl Unpackable for u64 {
    open spec fn unpacked(val: u64) -> u64 {
        val as u64
    }

    fn unpack(val: u64) -> (r: u64) {
        #[verifier::truncate]
        (val as u64)
    }
}

impl Unpackable for u128 {
    open spec fn unpacked(val: u64) -> u128 {
        val as u128
    }

    fn unpack(val: u64) -> (r: u128) {
        #[verifier::truncate]
        (val as u128)
    }
}

impl Unpackable for usize {
    open spec fn unpacked(val: u64) -> usize {
        val as usize
    }

    fn unpack(val: u64) -> (r: usize) {
        #[verifier::truncate]
        (val as usize)
    }
}

impl Unpackable for i8 {
    open spec fn unpacked(val: u64) -> i8 {
        val as i8
    }

    fn unpack(val: u64) -> (r: i8) {
        #[verifier::truncate]
        (val as i8)
    }
}

impl Unpackable for i16 {
    open spec fn unpacked(val: u64) -> i16 {
        val as i16
    }

    fn unpack(val: u64) -> (r: i16) {
        #[verifier::truncate]
        (val as i16)
    }
}

impl Unpackable for i32 {
    open spec fn unpacked(val: u64) -> i32 {
        val as i32
    }

    fn unpack(val: u64) -> (r: i32) {
        #[verifier::truncate]
        (val as i32)
    }
}

impl Unpackable for i64 {
    open spec fn unpacked(val: u64) -> i64 {
        val as i64
    }

    fn unpack(val: u64) -> (r: i64) {
        #[verifier::truncate]
        (val as i64)
    }
}

impl Unpackable for i128 {
    open spec fn unpacked(val: u64) -> i128 {
        val as i128
    }

    fn unpack(val: u64) -> (r: i128) {
        #[verifier::truncate]
        (val as i128)
    }
}

impl Unpackable for isize {
    open spec fn unpacked(val: u64) -> isize {
        val as isize
    }

    fn unpack(val: u64) -> (r: isize) {
        #[verifier::truncate]
        (val as isize)
    }
}

} // verus!
