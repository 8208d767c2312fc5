//! Encoding of the standard types.
use super::{
    emitted, emitted_or, enc_bool, enc_i8, enc_int, enc_str, enc_u8, enc_uint, enc_variant_index,
    lemma_emitted_then, Encode, Encoder,
};
use crate::config::Configuration;
use crate::error::EncodeError;
use std::borrow::Cow;
use std::marker::PhantomData;
use std::ops::{Range, RangeInclusive};
use vstd::prelude::*;
use vstd::string::StringSliceAdditionalSpecFns;
use vstd::utf8::{char_is_scalar, encode_scalar, encode_utf8};

verus! {

impl Encode for u8 {
    open spec fn encoding(&self, c: Configuration) -> Result<Seq<u8>, EncodeError> {
        Ok(enc_u8(c, *self))
    }

    fn encode<E: Encoder>(&self, encoder: &mut E) -> (r: Result<(), EncodeError>) {
        encoder.encode_u8(*self)
    }
}

impl Encode for i8 {
    open spec fn encoding(&self, c: Configuration) -> Result<Seq<u8>, EncodeError> {
        Ok(enc_i8(c, *self))
    }

    fn encode<E: Encoder>(&self, encoder: &mut E) -> (r: Result<(), EncodeError>) {
        encoder.encode_i8(*self)
    }
}

impl Encode for bool {
    open spec fn encoding(&self, c: Configuration) -> Result<Seq<u8>, EncodeError> {
        Ok(enc_bool(c, *self))
    }

    fn encode<E: Encoder>(&self, encoder: &mut E) -> (r: Result<(), EncodeError>) {
        encoder.encode_bool(*self)
    }
}

impl Encode for u16 {
    open spec fn encoding(&self, c: Configuration) -> Result<Seq<u8>, EncodeError> {
        Ok(enc_uint(c, *self as nat, 2))
    }

    fn encode<E: Encoder>(&self, encoder: &mut E) -> (r: Result<(), EncodeError>) {
        encoder.encode_u16(*self)
    }
}

impl Encode for u32 {
    open spec fn encoding(&self, c: Configuration) -> Result<Seq<u8>, EncodeError> {
        Ok(enc_uint(c, *self as nat, 4))
    }

    fn encode<E: Encoder>(&self, encoder: &mut E) -> (r: Result<(), EncodeError>) {
        encoder.encode_u32(*self)
    }
}

impl Encode for u64 {
    open spec fn encoding(&self, c: Configuration) -> Result<Seq<u8>, EncodeError> {
        Ok(enc_uint(c, *self as nat, 8))
    }

    fn encode<E: Encoder>(&self, encoder: &mut E) -> (r: Result<(), EncodeError>) {
        encoder.encode_u64(*self)
    }
}

impl Encode for u128 {
    open spec fn encoding(&self, c: Configuration) -> Result<Seq<u8>, EncodeError> {
        Ok(enc_uint(c, *self as nat, 16))
    }

    fn encode<E: Encoder>(&self, encoder: &mut E) -> (r: Result<(), EncodeError>) {
        encoder.encode_u128(*self)
    }
}

impl Encode for usize {
    open spec fn encoding(&self, c: Configuration) -> Result<Seq<u8>, EncodeError> {
        Ok(enc_uint(c, *self as nat, 8))
    }

    fn encode<E: Encoder>(&self, encoder: &mut E) -> (r: Result<(), EncodeError>) {
        encoder.encode_usize(*self)
    }
}

impl Encode for i16 {
    open spec fn encoding(&self, c: Configuration) -> Result<Seq<u8>, EncodeError> {
        Ok(enc_int(c, *self as int, 2))
    }

    fn encode<E: Encoder>(&self, encoder: &mut E) -> (r: Result<(), EncodeError>) {
        encoder.encode_i16(*self)
    }
}

impl Encode for i32 {
    open spec fn encoding(&self, c: Configuration) -> Result<Seq<u8>, EncodeError> {
        Ok(enc_int(c, *self as int, 4))
    }

    fn encode<E: Encoder>(&self, encoder: &mut E) -> (r: Result<(), EncodeError>) {
        encoder.encode_i32(*self)
    }
}

impl Encode for i64 {
    open spec fn encoding(&self, c: Configuration) -> Result<Seq<u8>, EncodeError> {
        Ok(enc_int(c, *self as int, 8))
    }

    fn encode<E: Encoder>(&self, encoder: &mut E) -> (r: Result<(), EncodeError>) {
        encoder.encode_i64(*self)
    }
}

impl Encode for i128 {
    open spec fn encoding(&self, c: Configuration) -> Result<Seq<u8>, EncodeError> {
        Ok(enc_int(c, *self as int, 16))
    }

    fn encode<E: Encoder>(&self, encoder: &mut E) -> (r: Result<(), EncodeError>) {
        encoder.encode_i128(*self)
    }
}

impl Encode for isize {
    open spec fn encoding(&self, c: Configuration) -> Result<Seq<u8>, EncodeError> {
        Ok(enc_int(c, *self as int, 8))
    }

    fn encode<E: Encoder>(&self, encoder: &mut E) -> (r: Result<(), EncodeError>) {
        encoder.encode_isize(*self)
    }
}

impl Encode for () {
    open spec fn encoding(&self, c: Configuration) -> Result<Seq<u8>, EncodeError> {
        Ok(Seq::empty())
    }

    fn encode<E: Encoder>(&self, encoder: &mut E) -> (r: Result<(), EncodeError>) {
        proof {
            encoder.lemma_room_empty();
            assert(old(encoder).written() + Seq::<u8>::empty() =~= old(encoder).written());
        }
        Ok(())
    }
}

impl Encode for str {
    open spec fn encoding(&self, c: Configuration) -> Result<Seq<u8>, EncodeError> {
        Ok(enc_str(c, self.spec_bytes()))
    }

    fn encode<E: Encoder>(&self, encoder: &mut E) -> (r: Result<(), EncodeError>) {
        encoder.encode_str(self)
    }
}

impl Encode for String {
    open spec fn encoding(&self, c: Configuration) -> Result<Seq<u8>, EncodeError> {
        Ok(enc_str(c, encode_utf8(self@)))
    }

    fn encode<E: Encoder>(&self, encoder: &mut E) -> (r: Result<(), EncodeError>) {
        encoder.encode_str(self.as_str())
    }
}

impl<'a> Encode for Cow<'a, str> {
    open spec fn encoding(&self, c: Configuration) -> Result<Seq<u8>, EncodeError> {
        Ok(enc_str(c, encode_utf8(self@)))
    }

    fn encode<E: Encoder>(&self, encoder: &mut E) -> (r: Result<(), EncodeError>) {
        match self {
            Cow::Borrowed(s) => encoder.encode_str(s),
            Cow::Owned(s) => encoder.encode_str(s.as_str()),
        }
    }
}

impl<T: Encode + ?Sized> Encode for &T {
    open spec fn encoding(&self, c: Configuration) -> Result<Seq<u8>, EncodeError> {
        (**self).encoding(c)
    }

    fn encode<E: Encoder>(&self, encoder: &mut E) -> (r: Result<(), EncodeError>) {
        (**self).encode(encoder)
    }
}

/// The bytes of a value of an optional value: the byte `0` for `None`; for `Some`, the byte `1`
/// followed by the value's bytes.
pub open spec fn option_encoding<T: Encode>(c: Configuration, v: Option<T>) -> Result<Seq<u8>, EncodeError> {
    match v {
        None => Ok(enc_u8(c, 0)),
        Some(x) => match x.encoding(c) {
            Ok(b) => Ok(enc_u8(c, 1) + b),
            Err(e) => Err(e),
        },
    }
}

impl<T: Encode> Encode for Option<T> {
    open spec fn encoding(&self, c: Configuration) -> Result<Seq<u8>, EncodeError> {
        match self {
            None => Ok(enc_u8(c, 0)),
            Some(x) => match x.encoding(c) {
                Ok(b) => Ok(enc_u8(c, 1) + b),
                Err(e) => Err(e),
            },
        }
    }

    fn encode<E: Encoder>(&self, encoder: &mut E) -> (r: Result<(), EncodeError>) {
        match self {
            None => encoder.encode_u8(0),
            Some(x) => {
                let ghost e0 = *encoder;
                let r1 = encoder.encode_u8(1);
                if r1.is_err() {
                    proof {
                        if let Ok(b) = x.encoding(e0.settings()) {
                            lemma_emitted_then(e0, *encoder, *encoder, enc_u8(e0.settings(), 1), b, r1, r1);
                        }
                    }
                    return r1;
                }
                let ghost e1 = *encoder;
                let r2 = x.encode(encoder);
                proof {
                    if let Ok(b) = x.encoding(e0.settings()) {
                        lemma_emitted_then(e0, e1, *encoder, enc_u8(e0.settings(), 1), b, r1, r2);
                    }
                }
                r2
            },
        }
    }
}

impl<T: Encode, U: Encode> Encode for Result<T, U> {
    open spec fn encoding(&self, c: Configuration) -> Result<Seq<u8>, EncodeError> {
        match self {
            Ok(x) => match x.encoding(c) {
                Ok(b) => Ok(enc_variant_index(c, 0) + b),
                Err(e) => Err(e),
            },
            Err(x) => match x.encoding(c) {
                Ok(b) => Ok(enc_variant_index(c, 1) + b),
                Err(e) => Err(e),
            },
        }
    }

    fn encode<E: Encoder>(&self, encoder: &mut E) -> (r: Result<(), EncodeError>) {
        match self {
            Ok(x) => {
                let ghost e0 = *encoder;
                let r1 = encoder.encode_variant_index(0);
                if r1.is_err() {
                    proof {
                        if let Ok(b) = x.encoding(e0.settings()) {
                            lemma_emitted_then(e0, *encoder, *encoder, enc_variant_index(e0.settings(), 0), b, r1, r1);
                        }
                    }
                    return r1;
                }
                let ghost e1 = *encoder;
                let r2 = x.encode(encoder);
                proof {
                    if let Ok(b) = x.encoding(e0.settings()) {
                        lemma_emitted_then(e0, e1, *encoder, enc_variant_index(e0.settings(), 0), b, r1, r2);
                    }
                }
                r2
            },
            Err(x) => {
                let ghost e0 = *encoder;
                let r1 = encoder.encode_variant_index(1);
                if r1.is_err() {
                    proof {
                        if let Ok(b) = x.encoding(e0.settings()) {
                            lemma_emitted_then(e0, *encoder, *encoder, enc_variant_index(e0.settings(), 1), b, r1, r1);
                        }
                    }
                    return r1;
                }
                let ghost e1 = *encoder;
                let r2 = x.encode(encoder);
                proof {
                    if let Ok(b) = x.encoding(e0.settings()) {
                        lemma_emitted_then(e0, e1, *encoder, enc_variant_index(e0.settings(), 1), b, r1, r2);
                    }
                }
                r2
            },
        }
    }
}

/// Write the UTF-8 encoding of `c` as it is.
fn encode_utf8_char<E: Encoder>(encoder: &mut E, c: char) -> (r: Result<(), EncodeError>)
    ensures
        emitted(*old(encoder), *final(encoder), encode_scalar(c as u32), r),
{
    let code = c as u32;
    proof {
        char_is_scalar(c);
    }
    if code < 0x80 {
        let b0 = code as u8;
        proof {
            assert(b0 == (code & 0x7F) as u8) by (bit_vector)
                requires b0 == code as u8, code < 0x80;
        }
        let buf = vec![b0];
        proof {
            assert(buf@ =~= encode_scalar(code));
        }
        encoder.write_bytes(buf.as_slice())
    } else if code < 0x800 {
        let b0 = ((code >> 6) & 0x1F) as u8 | 0xC0;
        let b1 = (code & 0x3F) as u8 | 0x80;
        proof {
            assert(b0 == 0xC0 | ((code >> 6) & 0x1F) as u8 && b1 == 0x80 | (code & 0x3F) as u8)
                by (bit_vector)
                requires
                    b0 == ((code >> 6) & 0x1F) as u8 | 0xC0,
                    b1 == (code & 0x3F) as u8 | 0x80,
            ;
        }
        let buf = vec![b0, b1];
        proof {
            assert(buf@ =~= encode_scalar(code));
        }
        encoder.write_bytes(buf.as_slice())
    } else if code < 0x10000 {
        let b0 = ((code >> 12) & 0x0F) as u8 | 0xE0;
        let b1 = ((code >> 6) & 0x3F) as u8 | 0x80;
        let b2 = (code & 0x3F) as u8 | 0x80;
        proof {
            assert(b0 == 0xE0 | ((code >> 12) & 0x0F) as u8 && b1 == 0x80 | ((code >> 6) & 0x3F) as u8
                && b2 == 0x80 | (code & 0x3F) as u8) by (bit_vector)
                requires
                    b0 == ((code >> 12) & 0x0F) as u8 | 0xE0,
                    b1 == ((code >> 6) & 0x3F) as u8 | 0x80,
                    b2 == (code & 0x3F) as u8 | 0x80,
            ;
        }
        let buf = vec![b0, b1, b2];
        proof {
            assert(buf@ =~= encode_scalar(code));
        }
        encoder.write_bytes(buf.as_slice())
    } else {
        let b0 = ((code >> 18) & 0x07) as u8 | 0xF0;
        let b1 = ((code >> 12) & 0x3F) as u8 | 0x80;
        let b2 = ((code >> 6) & 0x3F) as u8 | 0x80;
        let b3 = (code & 0x3F) as u8 | 0x80;
        proof {
            assert(b0 == 0xF0 | ((code >> 18) & 0x7) as u8 && b1 == 0x80 | ((code >> 12) & 0x3F) as u8
                && b2 == 0x80 | ((code >> 6) & 0x3F) as u8 && b3 == 0x80 | (code & 0x3F) as u8)
                by (bit_vector)
                requires
                    b0 == ((code >> 18) & 0x07) as u8 | 0xF0,
                    b1 == ((code >> 12) & 0x3F) as u8 | 0x80,
                    b2 == ((code >> 6) & 0x3F) as u8 | 0x80,
                    b3 == (code & 0x3F) as u8 | 0x80,
            ;
        }
        let buf = vec![b0, b1, b2, b3];
        proof {
            assert(buf@ =~= encode_scalar(code));
        }
        encoder.write_bytes(buf.as_slice())
    }
}

impl Encode for char {
    open spec fn encoding(&self, c: Configuration) -> Result<Seq<u8>, EncodeError> {
        Ok(encode_scalar(*self as u32))
    }

    fn encode<E: Encoder>(&self, encoder: &mut E) -> (r: Result<(), EncodeError>) {
        encode_utf8_char(encoder, *self)
    }
}

/// The bytes of two values written one after the other, or the first refusal.
pub open spec fn then_encoding(a: Result<Seq<u8>, EncodeError>, b: Result<Seq<u8>, EncodeError>) -> Result<Seq<u8>, EncodeError> {
    match a {
        Ok(x) => match b {
            Ok(y) => Ok(x + y),
            Err(e) => Err(e),
        },
        Err(e) => Err(e),
    }
}

impl<T> Encode for PhantomData<T> {
    open spec fn encoding(&self, c: Configuration) -> Result<Seq<u8>, EncodeError> {
        Ok(Seq::empty())
    }

    fn encode<E: Encoder>(&self, encoder: &mut E) -> (r: Result<(), EncodeError>) {
        ().encode(encoder)
    }
}

impl<T: Encode> Encode for Range<T> {
    open spec fn encoding(&self, c: Configuration) -> Result<Seq<u8>, EncodeError> {
        then_encoding(self.start.encoding(c), self.end.encoding(c))
    }

    fn encode<E: Encoder>(&self, encoder: &mut E) -> (r: Result<(), EncodeError>) {
        (&self.start, &self.end).encode(encoder)
    }
}

/// The start of an inclusive range.
///
/// Trusted: std's `RangeInclusive::start` returns a reference to the start it was made with
/// (as its documentation says, iterating the range to exhaustion may change it).
pub assume_specification<Idx>[ RangeInclusive::<Idx>::start ](r: &RangeInclusive<Idx>) -> (s: &Idx)
    ensures
        *s == r@.start,
;

/// The end of an inclusive range.
///
/// Trusted: std's `RangeInclusive::end` returns a reference to the end it was made with.
pub assume_specification<Idx>[ RangeInclusive::<Idx>::end ](r: &RangeInclusive<Idx>) -> (e: &Idx)
    ensures
        *e == r@.end,
;

impl<T: Encode> Encode for RangeInclusive<T> {
    open spec fn encoding(&self, c: Configuration) -> Result<Seq<u8>, EncodeError> {
        then_encoding(self@.start.encoding(c), self@.end.encoding(c))
    }

    fn encode<E: Encoder>(&self, encoder: &mut E) -> (r: Result<(), EncodeError>) {
        (self.start(), self.end()).encode(encoder)
    }
}

} // verus!
