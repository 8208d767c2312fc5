//! Bit-level writing for space-optimized packing.
use crate::bits::{
    lemma_bytes_lsb_append, lemma_bytes_msb_append, lemma_shift_basics, lemma_lsb_stray_bv, lemma_msb_stray_bv,
    bytes_lsb, bytes_msb, high_first_bits, lemma_bytes_lsb_push, lemma_bytes_msb_push,
    lemma_high_first_split, lemma_low_bits_split, lemma_lsb_put, lemma_msb_put, low_bits,
    lemma_lsb_pad, lemma_msb_pad, msb_clear_below, top_bits, zero_bits,
};
use crate::config::{BitOrdering, Config};
use crate::enc::write::Writer;
use crate::error::EncodeError;
use vstd::prelude::*;

verus! {

/// Whether `(byte, count)` is a state that least-significant-bit-first writing continues from:
/// fewer than 8 pending bits, held in the low bits of `byte`, and nothing above them.
pub open spec fn lsb_state_ok(byte: u8, count: u8) -> bool {
    count < 8 && byte >> count == 0
}

/// The bits of `byte` from position `count` on, which least-significant-bit-first writing does
/// not count as written.
pub open spec fn lsb_stray(byte: u8, count: u8) -> u8 {
    (byte >> count) << count
}

/// What least-significant-bit-first writing of the `n` low bits of `val` gives from the bytes
/// `w0` handed out and the state `s0`, where `cw` and `cb` are what it gives from `s0` without its
/// stray bits: those bytes and pending byte, the stray bits OR-ed into the first byte handed out,
/// or into the pending byte where none was handed out. The outcome is the bytes `w` and the state
/// `s`.
pub open spec fn lsb_outcome(
    w0: Seq<u8>,
    s0: (u8, u8),
    val: u64,
    n: u8,
    cw: Seq<u8>,
    cb: u8,
    w: Seq<u8>,
    s: (u8, u8),
) -> bool {
    let stray = lsb_stray(s0.0, s0.1);
    &&& bytes_lsb(cw) + low_bits(cb as u64, s.1 as nat) == bytes_lsb(w0) + low_bits(s0.0 as u64, s0.1 as nat)
        + low_bits(val, n as nat)
    &&& lsb_state_ok(cb, s.1)
    &&& cw.len() == w.len()
    &&& w == if stray != 0 && w0.len() < cw.len() {
        cw.update(w0.len() as int, cw[w0.len() as int] | stray)
    } else {
        cw
    }
    &&& s.0 == if stray != 0 && w0.len() == cw.len() {
        cb | stray
    } else {
        cb
    }
}

/// The bits of `byte` under its `count` high ones, which most-significant-bit-first writing does
/// not count as written.
pub open spec fn msb_stray(byte: u8, count: u8) -> u8 {
    ((byte as u64) & (0xffu64 >> (count as u64))) as u8
}

/// What most-significant-bit-first writing of the `n` low bits of `val` gives from the bytes `w0`
/// handed out and the state `s0`, where `cw` and `cb` are what it gives from `s0` without its
/// stray bits: those bytes and pending byte, the stray bits OR-ed into the first byte handed out,
/// or into the pending byte where none was handed out. The outcome is the bytes `w` and the state
/// `s`.
pub open spec fn msb_outcome(
    w0: Seq<u8>,
    s0: (u8, u8),
    val: u64,
    n: u8,
    cw: Seq<u8>,
    cb: u8,
    w: Seq<u8>,
    s: (u8, u8),
) -> bool {
    let stray = msb_stray(s0.0, s0.1);
    &&& bytes_msb(cw) + top_bits(cb, s.1 as nat) == bytes_msb(w0) + top_bits(s0.0, s0.1 as nat)
        + high_first_bits(val, n as nat)
    &&& msb_state_ok(cb, s.1)
    &&& cw.len() == w.len()
    &&& w == if stray != 0 && w0.len() < cw.len() {
        cw.update(w0.len() as int, cw[w0.len() as int] | stray)
    } else {
        cw
    }
    &&& s.0 == if stray != 0 && w0.len() == cw.len() {
        cb | stray
    } else {
        cb
    }
}

/// Whether `(byte, count)` is a state that most-significant-bit-first writing continues from:
/// fewer than 8 pending bits, held in the high bits of `byte`, and nothing below them.
pub open spec fn msb_state_ok(byte: u8, count: u8) -> bool {
    count < 8 && msb_clear_below(byte, count)
}

/// A wrapper around a `Writer` that allows writing data bit-by-bit.
///
/// It holds the writer, the byte being filled and the number of bits already in that byte. A
/// byte is handed to the writer as soon as it is full, or on [`BitWriter::flush`].
pub struct BitWriter<W: Writer> {
    writer: W,
    current_byte: u8,
    bit_count: u8,
}

impl<W: Writer> BitWriter<W> {
    /// The writer inside.
    pub closed spec fn inner(&self) -> W {
        self.writer
    }

    /// The byte being filled and the number of bits in it.
    pub closed spec fn state(&self) -> (u8, u8) {
        (self.current_byte, self.bit_count)
    }

    /// The bits written so far in least-significant-bit-first order: those of the bytes handed to
    /// the writer, then the pending ones.
    pub open spec fn bits_lsb(&self) -> Seq<bool> {
        bytes_lsb(self.inner().written()) + low_bits(self.state().0 as u64, self.state().1 as nat)
    }

    /// The bits written so far in most-significant-bit-first order: those of the bytes handed to
    /// the writer, then the pending ones.
    pub open spec fn bits_msb(&self) -> Seq<bool> {
        bytes_msb(self.inner().written()) + top_bits(self.state().0, self.state().1 as nat)
    }

    /// Creates a new `BitWriter`.
    pub fn new(writer: W) -> (w: Self)
        ensures
            w.inner() == writer,
            w.state() == (0u8, 0u8),
    {
        BitWriter { writer, current_byte: 0, bit_count: 0 }
    }

    /// Creates a new `BitWriter` with an existing state.
    pub fn from_state(writer: W, current_byte: u8, bit_count: u8) -> (w: Self)
        ensures
            w.inner() == writer,
            w.state() == (current_byte, bit_count),
    {
        BitWriter { writer, current_byte, bit_count }
    }

    /// Returns the current state of the bit writer (`current_byte`, `bit_count`).
    pub fn get_state(&self) -> (s: (u8, u8))
        ensures
            s == self.state(),
    {
        (self.current_byte, self.bit_count)
    }

    /// Returns the writer inside.
    pub fn into_inner(self) -> (w: W)
        ensures
            w == self.inner(),
    {
        self.writer
    }

    /// Hand a full byte to the writer.
    fn flush_full(&mut self) -> (r: Result<(), EncodeError>)
        requires
            old(self).bit_count == 8,
        ensures
            r is Ok <==> old(self).writer.room(1),
            r is Ok ==> final(self).writer.written() == old(self).writer.written().push(
                old(self).current_byte,
            ) && final(self).current_byte == 0 && final(self).bit_count == 0,
            r is Ok ==> forall|n: nat| #[trigger]
                final(self).writer.room(n) == old(self).writer.room(1 + n),
    {
        let r = self.writer.write_u8(self.current_byte);
        if r.is_ok() {
            self.current_byte = 0;
            self.bit_count = 0;
        }
        r
    }

    /// Writes `num_bits` from `val` into the stream, using LSB-first bit ordering.
    ///
    /// The low `num_bits` bits of `val` (zeroes above its 64 bits) follow the bits written so far;
    /// each byte that fills up is handed to the writer, which fails when it has no room for it.
    /// Bits that the state holds above its pending ones are OR-ed into the next byte. Writing
    /// nothing changes nothing.
    pub fn write_bits_lsb(&mut self, val: u64, num_bits: u8) -> (r: Result<(), EncodeError>)
        requires
            old(self).state().1 < 8 || num_bits == 0,
        ensures
            num_bits == 0 ==> r is Ok && final(self).state() == old(self).state() && final(self).inner()
                == old(self).inner(),
            old(self).state().1 < 8 ==> (r is Ok <==> old(self).inner().room(
                ((old(self).state().1 + num_bits) / 8) as nat,
            )),
            r is Ok && old(self).state().1 < 8 ==> final(self).state().1 == (old(self).state().1 + num_bits) % 8,
            r is Ok && lsb_state_ok(old(self).state().0, old(self).state().1) ==> final(self).bits_lsb()
                == old(self).bits_lsb() + low_bits(val, num_bits as nat) && lsb_state_ok(
                final(self).state().0,
                final(self).state().1,
            ),
            r is Ok && old(self).state().1 < 8 ==> exists|cw: Seq<u8>, cb: u8|
                #[trigger] lsb_outcome(
                    old(self).inner().written(),
                    old(self).state(),
                    val,
                    num_bits,
                    cw,
                    cb,
                    final(self).inner().written(),
                    final(self).state(),
                ),
    {
        if num_bits == 0 && self.bit_count >= 8 {
            return Ok(());
        }
        let ghost w0 = self.writer;
        let b = self.current_byte;
        let c = self.bit_count;
        let stray: u8 = (b >> c) << c;
        let clean: u8 = b ^ stray;
        proof {
            lemma_lsb_stray_bv(b, c, clean, stray);
            assert(low_bits(clean as u64, c as nat) =~= low_bits(b as u64, c as nat));
            w0.lemma_room_empty();
        }
        if num_bits == 0 {
            proof {
                assert(low_bits(val, 0) =~= Seq::<bool>::empty());
                assert(bytes_lsb(w0.written()) + low_bits(clean as u64, c as nat) =~= bytes_lsb(w0.written())
                    + low_bits(b as u64, c as nat) + low_bits(val, 0));
                assert(lsb_outcome(
                    old(self).inner().written(),
                    old(self).state(),
                    val,
                    num_bits,
                    w0.written(),
                    clean,
                    self.inner().written(),
                    self.state(),
                ));
            }
            return Ok(());
        }
        if stray == 0 {
            let r = self.write_clean_lsb(val, num_bits);
            proof {
                if r is Ok {
                    assert(lsb_outcome(
                        old(self).inner().written(),
                        old(self).state(),
                        val,
                        num_bits,
                        self.writer.written(),
                        self.current_byte,
                        self.writer.written(),
                        self.state(),
                    ));
                }
            }
            return r;
        }
        let space_in_byte = 8 - c;
        let k = if num_bits < space_in_byte { num_bits } else { space_in_byte };
        proof {
            assert(1u64 << (k as u64) >= 1);
        }
        let mask: u64 = (1u64 << k) - 1;
        let chunk = #[verifier::truncate] ((val & mask) as u8);
        let ghost cb1: u8 = clean | (chunk << c);
        proof {
            lemma_lsb_put(clean, c, val, k, mask, chunk, cb1);
            assert(b | (chunk << c) == cb1 | stray);
        }
        self.current_byte = b | (chunk << c);
        self.bit_count = c + k;
        if self.bit_count < 8 {
            proof {
                assert(k == num_bits);
                assert(lsb_state_ok(cb1, (c + k) as u8));
                assert(self.current_byte == cb1 | stray);
                assert(bytes_lsb(w0.written()) + low_bits(cb1 as u64, (c + k) as nat) =~= bytes_lsb(w0.written())
                    + low_bits(b as u64, c as nat) + low_bits(val, num_bits as nat));
                assert(lsb_outcome(
                    old(self).inner().written(),
                    old(self).state(),
                    val,
                    num_bits,
                    w0.written(),
                    cb1,
                    self.inner().written(),
                    self.state(),
                ));
            }
            return Ok(());
        }
        let r = self.flush_full();
        if r.is_err() {
            proof {
                let total = ((c + num_bits) / 8) as nat;
                if w0.room(total) {
                    w0.lemma_room_prefix(total, 1);
                }
            }
            return r;
        }
        let ghost mid = *self;
        let r2 = self.write_clean_lsb(val >> k, num_bits - k);
        proof {
            assert(mid.writer.room(((num_bits - k) / 8) as nat) == w0.room(1 + ((num_bits - k) / 8) as nat));
            assert((c + num_bits) / 8 == 1 + (num_bits - k) / 8);
            if r2 is Ok {
                let k0 = w0.written().len() as int;
                let wf = self.writer.written();
                let r1 = cb1 | stray;
                let t = wf.skip(k0 + 1);
                assert(mid.writer.written() == w0.written().push(r1));
                assert(wf =~= w0.written().push(r1) + t);
                let cw = w0.written().push(cb1) + t;
                lemma_bytes_lsb_append(w0.written().push(r1), t);
                lemma_bytes_lsb_append(w0.written().push(cb1), t);
                lemma_bytes_lsb_push(w0.written(), r1);
                lemma_bytes_lsb_push(w0.written(), cb1);
                lemma_low_bits_split(val, k as nat, num_bits as nat);
                let x = bytes_lsb(w0.written().push(r1));
                let rest = low_bits(val >> (k as u64), (num_bits - k) as nat);
                let tail = bytes_lsb(t) + low_bits(self.current_byte as u64, self.bit_count as nat);
                assert(low_bits(0u64, 0) =~= Seq::<bool>::empty());
                assert(x + tail =~= x + Seq::<bool>::empty() + rest);
                assert(tail =~= (x + tail).skip(x.len() as int));
                assert(rest =~= (x + Seq::<bool>::empty() + rest).skip(x.len() as int));
                assert(bytes_lsb(cw) + low_bits(self.current_byte as u64, self.bit_count as nat) =~= bytes_lsb(
                    w0.written(),
                ) + low_bits(b as u64, c as nat) + low_bits(val, num_bits as nat));
                assert(wf =~= cw.update(k0, cw[k0] | stray));
                assert(lsb_outcome(
                    old(self).inner().written(),
                    old(self).state(),
                    val,
                    num_bits,
                    cw,
                    self.current_byte,
                    wf,
                    self.state(),
                ));
            }
        }
        r2
    }

    /// Writes the low `num_bits` bits of `val` least significant first from a state with nothing
    /// above its pending bits.
    fn write_clean_lsb(&mut self, val: u64, num_bits: u8) -> (r: Result<(), EncodeError>)
        requires
            lsb_state_ok(old(self).state().0, old(self).state().1),
        ensures
            r is Ok <==> old(self).inner().room(((old(self).state().1 + num_bits) / 8) as nat),
            r is Ok ==> final(self).bits_lsb() == old(self).bits_lsb() + low_bits(val, num_bits as nat),
            r is Ok ==> lsb_state_ok(final(self).state().0, final(self).state().1),
            r is Ok ==> final(self).state().1 == (old(self).state().1 + num_bits) % 8,
            r is Ok ==> final(self).inner().written().len() >= old(self).inner().written().len()
                && final(self).inner().written().take(old(self).inner().written().len() as int)
                == old(self).inner().written(),
    {
        let ghost w0 = self.writer;
        let ghost start = old(self).bits_lsb();
        let ghost mut emitted: nat = 0;
        let ghost val_in = val;
        let ghost n_in = num_bits;
        let mut rest_val = val;
        let mut rest_bits = num_bits;
        proof {
            w0.lemma_room_empty();
        }
        while rest_bits > 0
            invariant
                lsb_state_ok(self.current_byte, self.bit_count),
                self.bits_lsb() + low_bits(rest_val, rest_bits as nat) == start + low_bits(
                    val_in,
                    n_in as nat,
                ),
                emitted * 8 + self.bit_count + rest_bits == old(self).bit_count + n_in,
                w0 == old(self).writer,
                n_in == num_bits,
                val_in == val,
                self.writer.written().len() == w0.written().len() + emitted,
                self.writer.written().take(w0.written().len() as int) == w0.written(),
                start == old(self).bits_lsb(),
                w0.room(emitted),
                forall|n: nat| #[trigger] self.writer.room(n) == w0.room(emitted + n),
            decreases rest_bits,
        {
            let space_in_byte = 8 - self.bit_count;
            let bits_to_write = if rest_bits < space_in_byte { rest_bits } else { space_in_byte };
            proof {
                lemma_shift_basics();
                assert(1u64 << (bits_to_write as u64) >= 1);
            }
            let mask: u64 = (1u64 << bits_to_write) - 1;
            let chunk = #[verifier::truncate] ((rest_val & mask) as u8);
            let ghost before = *self;
            let ghost v0 = rest_val;
            let ghost n0 = rest_bits;
            proof {
                lemma_lsb_put(
                    self.current_byte,
                    self.bit_count,
                    rest_val,
                    bits_to_write,
                    mask,
                    chunk,
                    self.current_byte | (chunk << self.bit_count),
                );
                lemma_low_bits_split(rest_val, bits_to_write as nat, rest_bits as nat);
            }
            self.current_byte = self.current_byte | (chunk << self.bit_count);
            self.bit_count = self.bit_count + bits_to_write;
            rest_val = rest_val >> bits_to_write;
            rest_bits = rest_bits - bits_to_write;
            proof {
                assert(low_bits(v0, n0 as nat) == low_bits(v0, bits_to_write as nat) + low_bits(rest_val, rest_bits as nat));
                assert(self.bits_lsb() + low_bits(rest_val, rest_bits as nat) =~= before.bits_lsb() + low_bits(v0, n0 as nat));
            }
            if self.bit_count == 8 {
                let ghost full = *self;
                proof {
                    assert(full.writer.room(1) == w0.room(emitted + 1));
                }
                let r = self.flush_full();
                if r.is_err() {
                    proof {
                        let total = ((old(self).bit_count + n_in) / 8) as nat;
                        assert(emitted + 1 <= total);
                        assert(!w0.room(emitted + 1));
                        if w0.room(total) {
                            w0.lemma_room_prefix(total, emitted + 1);
                        }
                        assert(!old(self).inner().room(total));
                    }
                    return r;
                }
                proof {
                    assert(self.writer.written().take(w0.written().len() as int) =~= full.writer.written().take(
                        w0.written().len() as int,
                    ));
                    lemma_bytes_lsb_push(full.writer.written(), full.current_byte);
                    assert(low_bits(0u64, 0) =~= Seq::<bool>::empty());
                    lemma_shift_basics();
                    assert(full.writer.room(1) == w0.room(emitted + 1));
                    assert forall|n: nat| #[trigger] self.writer.room(n) == w0.room(emitted + 1 + n) by {
                        assert(full.writer.room(1 + n) == w0.room(emitted + (1 + n)));
                    }
                    assert(self.bits_lsb() =~= full.bits_lsb());
                    emitted = emitted + 1;
                }
            }
        }
        proof {
            assert(emitted == (old(self).bit_count + n_in) / 8);
            assert(w0.written().take(w0.written().len() as int) =~= w0.written());
            assert(low_bits(rest_val, 0) =~= Seq::<bool>::empty());
            assert(self.bits_lsb() + Seq::<bool>::empty() =~= self.bits_lsb());
        }
        Ok(())
    }
    /// Writes `num_bits` from `val` into the stream, using MSB-first bit ordering.
    ///
    /// The low `num_bits` bits of `val`, most significant first, follow the bits written so far;
    /// each byte that fills up is handed to the writer, which fails when it has no room for it.
    /// At most 64 bits are written at once. Bits that the state holds under its pending ones are
    /// OR-ed into the next byte. Writing nothing changes nothing.
    #[verifier::rlimit(50)]
    #[verifier::spinoff_prover]
    pub fn write_bits_msb(&mut self, val: u64, num_bits: u8) -> (r: Result<(), EncodeError>)
        requires
            old(self).state().1 <= 8 || num_bits == 0,
            num_bits <= 64,
        ensures
            num_bits == 0 ==> r is Ok && final(self).state() == old(self).state() && final(self).inner()
                == old(self).inner(),
            old(self).state().1 < 8 || (old(self).state().1 == 8 && num_bits > 0) ==> (r is Ok <==> old(self).inner().room(
                ((old(self).state().1 + num_bits) / 8) as nat,
            )),
            r is Ok && (old(self).state().1 < 8 || (old(self).state().1 == 8 && num_bits > 0)) ==> final(self).state().1
                == (old(self).state().1 + num_bits) % 8,
            r is Ok && msb_state_ok(old(self).state().0, old(self).state().1) ==> final(self).bits_msb()
                == old(self).bits_msb() + high_first_bits(val, num_bits as nat) && msb_state_ok(
                final(self).state().0,
                final(self).state().1,
            ),
            r is Ok && old(self).state().1 <= 8 && (old(self).state().1 < 8 || num_bits > 0) ==> exists|
                cw: Seq<u8>,
                cb: u8,
            |
                #[trigger] msb_outcome(
                    old(self).inner().written(),
                    old(self).state(),
                    val,
                    num_bits,
                    cw,
                    cb,
                    final(self).inner().written(),
                    final(self).state(),
                ),
    {
        if num_bits == 0 && self.bit_count > 8 {
            return Ok(());
        }
        let ghost w0 = self.writer;
        let b = self.current_byte;
        let c = self.bit_count;
        let m: u64 = 0xffu64 >> (c as u64);
        let stray: u8 = #[verifier::truncate] (((b as u64) & m) as u8);
        let clean: u8 = b ^ stray;
        proof {
            lemma_msb_stray_bv(b, c, m, clean, stray);
            w0.lemma_room_empty();
            assert(top_bits(clean, c as nat) == top_bits(b, c as nat));
        }
        if num_bits == 0 {
            proof {
                assert(high_first_bits(val, 0) =~= Seq::<bool>::empty());
                assert(bytes_msb(w0.written()) + top_bits(clean, c as nat) =~= bytes_msb(w0.written())
                    + top_bits(b, c as nat) + high_first_bits(val, 0));
                if c < 8 {
                    assert(msb_outcome(
                        old(self).inner().written(),
                        old(self).state(),
                        val,
                        num_bits,
                        w0.written(),
                        clean,
                        self.inner().written(),
                        self.state(),
                    ));
                }
            }
            return Ok(());
        }
        if c == 8 {
            let r = self.flush_full();
            if r.is_err() {
                proof {
                    let total = ((c + num_bits) / 8) as nat;
                    if w0.room(total) {
                        w0.lemma_room_prefix(total, 1);
                    }
                }
                return r;
            }
            let ghost mid = *self;
            proof {
                assert(msb_clear_below(0u8, 0) && msb_state_ok(0u8, 0u8));
            }
            let r2 = self.write_clean_msb(val, num_bits);
            proof {
                assert(mid.writer.room((num_bits / 8) as nat) == w0.room(1 + (num_bits / 8) as nat));
                assert((c + num_bits) / 8 == 1 + num_bits / 8);
                if r2 is Ok {
                    let k0 = w0.written().len() as int;
                    let wf = self.writer.written();
                    let t = wf.skip(k0 + 1);
                    assert(mid.writer.written() == w0.written().push(b));
                    assert(wf =~= w0.written().push(b) + t);
                    lemma_bytes_msb_append(w0.written().push(b), t);
                    lemma_bytes_msb_push(w0.written(), b);
                    assert(top_bits(b, 8) =~= high_first_bits(b as u64, 8)) by {
                        assert((b as u64) >> 0u64 == b as u64);
                    }
                    assert(top_bits(0u8, 0) =~= Seq::<bool>::empty());
                    assert(self.bits_msb() =~= bytes_msb(w0.written()) + top_bits(b, 8) + (bytes_msb(t) + top_bits(
                        self.current_byte,
                        self.bit_count as nat,
                    )));
                    assert(msb_outcome(
                        old(self).inner().written(),
                        old(self).state(),
                        val,
                        num_bits,
                        wf,
                        self.current_byte,
                        self.inner().written(),
                        self.state(),
                    ));
                }
            }
            return r2;
        }
        if stray == 0 {
            let r = self.write_clean_msb(val, num_bits);
            proof {
                if r is Ok {
                    assert(msb_outcome(
                        old(self).inner().written(),
                        old(self).state(),
                        val,
                        num_bits,
                        self.inner().written(),
                        self.current_byte,
                        self.inner().written(),
                        self.state(),
                    ));
                }
            }
            return r;
        }
        let space_in_byte = 8 - c;
        let k = if num_bits < space_in_byte { num_bits } else { space_in_byte };
        let shift_down = num_bits - k;
        proof {
            assert(1u64 << (k as u64) >= 1);
        }
        let mask: u64 = (1u64 << k) - 1;
        let chunk = #[verifier::truncate] (((val >> shift_down) & mask) as u8);
        let shift_up = 8 - c - k;
        let ghost cb1: u8 = clean | (chunk << shift_up);
        proof {
            lemma_msb_put(clean, c, val, k, shift_down as u64, mask, chunk, shift_up, cb1);
            lemma_high_first_split(val, k as nat, num_bits as nat);
            assert(b | (chunk << shift_up) == cb1 | stray);
        }
        self.current_byte = b | (chunk << shift_up);
        self.bit_count = c + k;
        if self.bit_count < 8 {
            proof {
                assert(k == num_bits && shift_down == 0);
                assert(val >> 0u64 == val);
                assert(high_first_bits(val, 0) =~= Seq::<bool>::empty());
                assert(bytes_msb(w0.written()) + top_bits(cb1, (c + k) as nat) =~= bytes_msb(w0.written())
                    + top_bits(b, c as nat) + high_first_bits(val, num_bits as nat));
                assert(msb_outcome(
                    old(self).inner().written(),
                    old(self).state(),
                    val,
                    num_bits,
                    w0.written(),
                    cb1,
                    self.inner().written(),
                    self.state(),
                ));
            }
            return Ok(());
        }
        let r = self.flush_full();
        if r.is_err() {
            proof {
                let total = ((c + num_bits) / 8) as nat;
                if w0.room(total) {
                    w0.lemma_room_prefix(total, 1);
                }
            }
            return r;
        }
        let ghost mid = *self;
        proof {
            assert(msb_clear_below(0u8, 0) && msb_state_ok(0u8, 0u8));
        }
        let r2 = self.write_clean_msb(val, num_bits - k);
        proof {
            assert(mid.writer.room(((num_bits - k) / 8) as nat) == w0.room(1 + ((num_bits - k) / 8) as nat));
            assert((c + num_bits) / 8 == 1 + (num_bits - k) / 8);
            if r2 is Ok {
                let k0 = w0.written().len() as int;
                let wf = self.writer.written();
                let r1 = cb1 | stray;
                let t = wf.skip(k0 + 1);
                assert(mid.writer.written() == w0.written().push(r1));
                assert(wf =~= w0.written().push(r1) + t);
                let cw = w0.written().push(cb1) + t;
                lemma_bytes_msb_append(w0.written().push(r1), t);
                lemma_bytes_msb_append(w0.written().push(cb1), t);
                lemma_bytes_msb_push(w0.written(), r1);
                lemma_bytes_msb_push(w0.written(), cb1);
                assert(top_bits(cb1, 8) =~= high_first_bits(cb1 as u64, 8)) by {
                    assert((cb1 as u64) >> 0u64 == cb1 as u64);
                }
                let x = bytes_msb(w0.written().push(r1));
                let rest = high_first_bits(val, (num_bits - k) as nat);
                let tail = bytes_msb(t) + top_bits(self.current_byte, self.bit_count as nat);
                assert(top_bits(0u8, 0) =~= Seq::<bool>::empty());
                assert(x + tail =~= x + Seq::<bool>::empty() + rest);
                assert(tail =~= (x + tail).skip(x.len() as int));
                assert(rest =~= (x + Seq::<bool>::empty() + rest).skip(x.len() as int));
                assert(bytes_msb(cw) + top_bits(self.current_byte, self.bit_count as nat) =~= bytes_msb(
                    w0.written(),
                ) + top_bits(b, c as nat) + high_first_bits(val, num_bits as nat));
                assert(wf =~= cw.update(k0, cw[k0] | stray));
                assert(msb_outcome(
                    old(self).inner().written(),
                    old(self).state(),
                    val,
                    num_bits,
                    cw,
                    self.current_byte,
                    wf,
                    self.state(),
                ));
            }
        }
        r2
    }

    /// Writes the low `num_bits` bits of `val` most significant first from a state with nothing
    /// under its pending bits.
    fn write_clean_msb(&mut self, val: u64, num_bits: u8) -> (r: Result<(), EncodeError>)
        requires
            msb_state_ok(old(self).state().0, old(self).state().1),
            num_bits <= 64,
        ensures
            r is Ok <==> old(self).inner().room(((old(self).state().1 + num_bits) / 8) as nat),
            r is Ok ==> final(self).bits_msb() == old(self).bits_msb() + high_first_bits(val, num_bits as nat),
            r is Ok ==> msb_state_ok(final(self).state().0, final(self).state().1),
            r is Ok ==> final(self).state().1 == (old(self).state().1 + num_bits) % 8,
            r is Ok ==> final(self).inner().written().len() >= old(self).inner().written().len()
                && final(self).inner().written().take(old(self).inner().written().len() as int)
                == old(self).inner().written(),
    {
        let ghost w0 = self.writer;
        let ghost start = old(self).bits_msb();
        let ghost mut emitted: nat = 0;
        let ghost n_in = num_bits;
        let mut rest_bits = num_bits;
        proof {
            w0.lemma_room_empty();
        }
        while rest_bits > 0
            invariant
                msb_state_ok(self.current_byte, self.bit_count),
                rest_bits <= num_bits <= 64,
                self.bits_msb() + high_first_bits(val, rest_bits as nat) == start + high_first_bits(
                    val,
                    n_in as nat,
                ),
                emitted * 8 + self.bit_count + rest_bits == old(self).bit_count + n_in,
                w0 == old(self).writer,
                n_in == num_bits,
                start == old(self).bits_msb(),
                self.writer.written().len() == w0.written().len() + emitted,
                self.writer.written().take(w0.written().len() as int) == w0.written(),
                w0.room(emitted),
                forall|n: nat| #[trigger] self.writer.room(n) == w0.room(emitted + n),
            decreases rest_bits,
        {
            let space_in_byte = 8 - self.bit_count;
            let bits_to_write = if rest_bits < space_in_byte { rest_bits } else { space_in_byte };
            let shift_down = rest_bits - bits_to_write;
            proof {
                lemma_shift_basics();
                assert(1u64 << (bits_to_write as u64) >= 1);
            }
            let mask: u64 = (1u64 << bits_to_write) - 1;
            let chunk = #[verifier::truncate] (((val >> shift_down) & mask) as u8);
            let shift_up = 8 - self.bit_count - bits_to_write;
            let ghost before = *self;
            let ghost n0 = rest_bits;
            proof {
                lemma_msb_put(
                    self.current_byte,
                    self.bit_count,
                    val,
                    bits_to_write,
                    shift_down as u64,
                    mask,
                    chunk,
                    shift_up,
                    self.current_byte | (chunk << shift_up),
                );
                lemma_high_first_split(val, bits_to_write as nat, rest_bits as nat);
            }
            self.current_byte = self.current_byte | (chunk << shift_up);
            self.bit_count = self.bit_count + bits_to_write;
            rest_bits = rest_bits - bits_to_write;
            proof {
                assert(self.bits_msb() + high_first_bits(val, rest_bits as nat) =~= before.bits_msb()
                    + high_first_bits(val, n0 as nat));
            }
            if self.bit_count == 8 {
                let ghost full = *self;
                proof {
                    assert(full.writer.room(1) == w0.room(emitted + 1));
                }
                let r = self.flush_full();
                if r.is_err() {
                    proof {
                        let total = ((old(self).bit_count + n_in) / 8) as nat;
                        assert(emitted + 1 <= total);
                        if w0.room(total) {
                            w0.lemma_room_prefix(total, emitted + 1);
                        }
                    }
                    return r;
                }
                proof {
                    assert(self.writer.written().take(w0.written().len() as int) =~= full.writer.written().take(
                        w0.written().len() as int,
                    ));
                    lemma_bytes_msb_push(full.writer.written(), full.current_byte);
                    assert(top_bits(0u8, 0) =~= Seq::<bool>::empty());
                    assert(top_bits(full.current_byte, 8) =~= high_first_bits(full.current_byte as u64, 8)) by {
                        lemma_shift_basics();
                        let b = full.current_byte as u64;
                        assert(b >> 0u64 == b);
                    }
                    assert(msb_clear_below(0u8, 0)) by {
                        lemma_shift_basics();
                    }
                    assert forall|n: nat| #[trigger] self.writer.room(n) == w0.room(emitted + 1 + n) by {
                        assert(full.writer.room(1 + n) == w0.room(emitted + (1 + n)));
                    }
                    assert(self.bits_msb() =~= full.bits_msb());
                    emitted = emitted + 1;
                }
            }
        }
        proof {
            assert(emitted == (old(self).bit_count + n_in) / 8);
            assert(w0.written().take(w0.written().len() as int) =~= w0.written());
            assert(high_first_bits(val, 0) =~= Seq::<bool>::empty());
            assert(self.bits_msb() + Seq::<bool>::empty() =~= self.bits_msb());
        }
        Ok(())
    }
    /// Writes `num_bits` from `val` into the stream, using the bit ordering from the configuration.
    pub fn write_bits<C: Config>(&mut self, val: u64, num_bits: u8, config: &C) -> (r: Result<(), EncodeError>)
        requires
            config.settings().bit_ordering == BitOrdering::Lsb ==> old(self).state().1 < 8 || num_bits == 0,
            config.settings().bit_ordering == BitOrdering::Msb ==> (old(self).state().1 <= 8 || num_bits == 0)
                && num_bits <= 64,
        ensures
            num_bits == 0 ==> r is Ok && final(self).state() == old(self).state() && final(self).inner()
                == old(self).inner(),
            old(self).state().1 < 8 ==> (r is Ok <==> old(self).inner().room(
                ((old(self).state().1 + num_bits) / 8) as nat,
            )),
            r is Ok && old(self).state().1 < 8 ==> final(self).state().1 == (old(self).state().1 + num_bits) % 8,
            r is Ok && config.settings().bit_ordering == BitOrdering::Lsb && lsb_state_ok(
                old(self).state().0,
                old(self).state().1,
            ) ==> final(self).bits_lsb() == old(self).bits_lsb() + low_bits(val, num_bits as nat) && lsb_state_ok(
                final(self).state().0,
                final(self).state().1,
            ),
            r is Ok && config.settings().bit_ordering == BitOrdering::Msb && msb_state_ok(
                old(self).state().0,
                old(self).state().1,
            ) ==> final(self).bits_msb() == old(self).bits_msb() + high_first_bits(val, num_bits as nat) && msb_state_ok(
                final(self).state().0,
                final(self).state().1,
            ),
            r is Ok && config.settings().bit_ordering == BitOrdering::Lsb && old(self).state().1 < 8 ==> exists|
                cw: Seq<u8>,
                cb: u8,
            |
                #[trigger] lsb_outcome(
                    old(self).inner().written(),
                    old(self).state(),
                    val,
                    num_bits,
                    cw,
                    cb,
                    final(self).inner().written(),
                    final(self).state(),
                ),
            r is Ok && config.settings().bit_ordering == BitOrdering::Msb && old(self).state().1 < 8 ==> exists|
                cw: Seq<u8>,
                cb: u8,
            |
                #[trigger] msb_outcome(
                    old(self).inner().written(),
                    old(self).state(),
                    val,
                    num_bits,
                    cw,
                    cb,
                    final(self).inner().written(),
                    final(self).state(),
                ),
    {
        match config.bit_ordering() {
            BitOrdering::Lsb => self.write_bits_lsb(val, num_bits),
            BitOrdering::Msb => self.write_bits_msb(val, num_bits),
        }
    }

    /// Flushes any remaining bits to the underlying writer, padding with 0s.
    ///
    /// The pending byte, if any bit is pending, is handed to the writer, which fails when it has
    /// no room for it.
    pub fn flush(&mut self) -> (r: Result<(), EncodeError>)
        ensures
            r is Ok <==> (old(self).state().1 == 0 || old(self).inner().room(1)),
            r is Err ==> final(self).state() == old(self).state(),
            r is Ok ==> final(self).state() == if old(self).state().1 > 0 {
                (0u8, 0u8)
            } else {
                old(self).state()
            },
            r is Ok ==> final(self).inner().written() == old(self).inner().written() + if old(self).state().1 > 0 {
                seq![old(self).state().0]
            } else {
                Seq::<u8>::empty()
            },
            r is Ok && old(self).state().1 > 0 && lsb_state_ok(old(self).state().0, old(self).state().1)
                ==> final(self).bits_lsb() == old(self).bits_lsb() + zero_bits((8 - old(self).state().1) as nat),
            r is Ok && old(self).state().1 > 0 && msb_state_ok(old(self).state().0, old(self).state().1)
                ==> final(self).bits_msb() == old(self).bits_msb() + zero_bits((8 - old(self).state().1) as nat),
    {
        if self.bit_count > 0 {
            let r = self.writer.write_u8(self.current_byte);
            if r.is_err() {
                return r;
            }
            proof {
                assert(old(self).writer.written().push(old(self).current_byte) =~= old(self).writer.written() + seq![old(self).current_byte]);
                if lsb_state_ok(old(self).current_byte, old(self).bit_count) {
                    lemma_lsb_pad(old(self).current_byte, old(self).bit_count);
                    lemma_bytes_lsb_push(old(self).writer.written(), old(self).current_byte);
                }
                if msb_state_ok(old(self).current_byte, old(self).bit_count) {
                    lemma_msb_pad(old(self).current_byte, old(self).bit_count);
                    lemma_bytes_msb_push(old(self).writer.written(), old(self).current_byte);
                }
            }
            self.current_byte = 0;
            self.bit_count = 0;
            proof {
                assert(low_bits(0u64, 0) =~= Seq::<bool>::empty());
                assert(top_bits(0u8, 0) =~= Seq::<bool>::empty());
            }
        } else {
            proof {
                self.writer.lemma_room_empty();
                assert(old(self).writer.written() + Seq::<u8>::empty() =~= old(self).writer.written());
            }
        }
        Ok(())
    }
}

} // verus!
