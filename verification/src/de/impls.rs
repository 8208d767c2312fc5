//! Decoding of the standard types.
use super::cbor::{cbor_decode_uint, lemma_cbor_header_taken};
use super::read::short_read;
use super::{
    claim, dec_len_of, dec_variant_index, decoded_as, take_exact, dec_bool, dec_i128, dec_i16, dec_i32, dec_i64, dec_i8, dec_isize, dec_u128, dec_u16, dec_u32,
    dec_u64, dec_u8, dec_usize, unclaimed, BorrowDecode, BorrowDecoder, Decode, Decoder, Model,
};
use crate::config::{Config, Configuration, Format};
use crate::enc::is_bincode;
use std::borrow::Cow;
use std::marker::PhantomData;
use std::ops::{Range, RangeInclusive};
use vstd::string::{StrSliceExecFns, StringSliceAdditionalSpecFns};
use vstd::utf8::{decode_utf8, encode_utf8, encode_utf8_decode_utf8, valid_utf8, decode_utf8_encode_utf8};
use crate::error::DecodeError;
use vstd::prelude::*;

verus! {

impl Model for u8 {
    open spec fn byte_value(b: u8) -> Self::V {
        b
    }

    open spec fn byte_of(&self) -> u8 {
        *self
    }

    fn to_byte(&self) -> (b: u8) {
        *self
    }

    type V = u8;

    open spec fn model(&self) -> u8 {
        *self
    }

    open spec fn byte_sized() -> bool {
        true
    }

    fn is_byte_sized() -> (r: bool) {
        true
    }
}

impl Model for u16 {
    open spec fn byte_value(b: u8) -> Self::V {
        0
    }

    open spec fn byte_of(&self) -> u8 {
        0
    }

    fn to_byte(&self) -> (b: u8) {
        0
    }

    type V = u16;

    open spec fn model(&self) -> u16 {
        *self
    }

    open spec fn byte_sized() -> bool {
        false
    }

    fn is_byte_sized() -> (r: bool) {
        false
    }
}

impl Model for u32 {
    open spec fn byte_value(b: u8) -> Self::V {
        0
    }

    open spec fn byte_of(&self) -> u8 {
        0
    }

    fn to_byte(&self) -> (b: u8) {
        0
    }

    type V = u32;

    open spec fn model(&self) -> u32 {
        *self
    }

    open spec fn byte_sized() -> bool {
        false
    }

    fn is_byte_sized() -> (r: bool) {
        false
    }
}

impl Model for u64 {
    open spec fn byte_value(b: u8) -> Self::V {
        0
    }

    open spec fn byte_of(&self) -> u8 {
        0
    }

    fn to_byte(&self) -> (b: u8) {
        0
    }

    type V = u64;

    open spec fn model(&self) -> u64 {
        *self
    }

    open spec fn byte_sized() -> bool {
        false
    }

    fn is_byte_sized() -> (r: bool) {
        false
    }
}

impl Model for u128 {
    open spec fn byte_value(b: u8) -> Self::V {
        0
    }

    open spec fn byte_of(&self) -> u8 {
        0
    }

    fn to_byte(&self) -> (b: u8) {
        0
    }

    type V = u128;

    open spec fn model(&self) -> u128 {
        *self
    }

    open spec fn byte_sized() -> bool {
        false
    }

    fn is_byte_sized() -> (r: bool) {
        false
    }
}

impl Model for usize {
    open spec fn byte_value(b: u8) -> Self::V {
        0
    }

    open spec fn byte_of(&self) -> u8 {
        0
    }

    fn to_byte(&self) -> (b: u8) {
        0
    }

    type V = usize;

    open spec fn model(&self) -> usize {
        *self
    }

    open spec fn byte_sized() -> bool {
        false
    }

    fn is_byte_sized() -> (r: bool) {
        false
    }
}

impl Model for i8 {
    open spec fn byte_value(b: u8) -> Self::V {
        b as i8
    }

    open spec fn byte_of(&self) -> u8 {
        *self as u8
    }

    fn to_byte(&self) -> (b: u8) {
        *self as u8
    }

    type V = i8;

    open spec fn model(&self) -> i8 {
        *self
    }

    open spec fn byte_sized() -> bool {
        true
    }

    fn is_byte_sized() -> (r: bool) {
        true
    }
}

impl Model for i16 {
    open spec fn byte_value(b: u8) -> Self::V {
        0
    }

    open spec fn byte_of(&self) -> u8 {
        0
    }

    fn to_byte(&self) -> (b: u8) {
        0
    }

    type V = i16;

    open spec fn model(&self) -> i16 {
        *self
    }

    open spec fn byte_sized() -> bool {
        false
    }

    fn is_byte_sized() -> (r: bool) {
        false
    }
}

impl Model for i32 {
    open spec fn byte_value(b: u8) -> Self::V {
        0
    }

    open spec fn byte_of(&self) -> u8 {
        0
    }

    fn to_byte(&self) -> (b: u8) {
        0
    }

    type V = i32;

    open spec fn model(&self) -> i32 {
        *self
    }

    open spec fn byte_sized() -> bool {
        false
    }

    fn is_byte_sized() -> (r: bool) {
        false
    }
}

impl Model for i64 {
    open spec fn byte_value(b: u8) -> Self::V {
        0
    }

    open spec fn byte_of(&self) -> u8 {
        0
    }

    fn to_byte(&self) -> (b: u8) {
        0
    }

    type V = i64;

    open spec fn model(&self) -> i64 {
        *self
    }

    open spec fn byte_sized() -> bool {
        false
    }

    fn is_byte_sized() -> (r: bool) {
        false
    }
}

impl Model for i128 {
    open spec fn byte_value(b: u8) -> Self::V {
        0
    }

    open spec fn byte_of(&self) -> u8 {
        0
    }

    fn to_byte(&self) -> (b: u8) {
        0
    }

    type V = i128;

    open spec fn model(&self) -> i128 {
        *self
    }

    open spec fn byte_sized() -> bool {
        false
    }

    fn is_byte_sized() -> (r: bool) {
        false
    }
}

impl Model for isize {
    open spec fn byte_value(b: u8) -> Self::V {
        0
    }

    open spec fn byte_of(&self) -> u8 {
        0
    }

    fn to_byte(&self) -> (b: u8) {
        0
    }

    type V = isize;

    open spec fn model(&self) -> isize {
        *self
    }

    open spec fn byte_sized() -> bool {
        false
    }

    fn is_byte_sized() -> (r: bool) {
        false
    }
}

impl Model for bool {
    open spec fn byte_value(b: u8) -> Self::V {
        false
    }

    open spec fn byte_of(&self) -> u8 {
        0
    }

    fn to_byte(&self) -> (b: u8) {
        0
    }

    type V = bool;

    open spec fn model(&self) -> bool {
        *self
    }

    open spec fn byte_sized() -> bool {
        false
    }

    fn is_byte_sized() -> (r: bool) {
        false
    }
}

impl Model for char {
    open spec fn byte_value(b: u8) -> Self::V {
        'a'
    }

    open spec fn byte_of(&self) -> u8 {
        0
    }

    fn to_byte(&self) -> (b: u8) {
        0
    }

    type V = char;

    open spec fn model(&self) -> char {
        *self
    }

    open spec fn byte_sized() -> bool {
        false
    }

    fn is_byte_sized() -> (r: bool) {
        false
    }
}

impl Model for () {
    open spec fn byte_value(b: u8) -> Self::V {
        ()
    }

    open spec fn byte_of(&self) -> u8 {
        0
    }

    fn to_byte(&self) -> (b: u8) {
        0
    }

    type V = ();

    open spec fn model(&self) -> () {
        *self
    }

    open spec fn byte_sized() -> bool {
        false
    }

    fn is_byte_sized() -> (r: bool) {
        false
    }
}

impl<Context> Decode<Context> for u8 {
    fn from_byte(b: u8) -> (r: Option<Self>) {
        Some(b)
    }

    open spec fn decoding(c: Configuration, k: nat, s: Seq<u8>) -> Result<(u8, nat, nat), DecodeError> {
        unclaimed(dec_u8(c, s), k)
    }

    fn decode<D: Decoder<Context = Context>>(decoder: &mut D) -> (r: Result<Self, DecodeError>) {
        decoder.decode_u8()
    }
}

impl<'de, Context> BorrowDecode<'de, Context> for u8 {
    fn borrow_from_byte(b: u8) -> (r: Option<Self>) {
        Some(b)
    }

    open spec fn borrow_decoding(c: Configuration, k: nat, s: Seq<u8>) -> Result<(u8, nat, nat), DecodeError> {
        unclaimed(dec_u8(c, s), k)
    }

    fn borrow_decode<D: BorrowDecoder<'de, Context = Context>>(decoder: &mut D) -> (r: Result<Self, DecodeError>) {
        decoder.decode_u8()
    }
}

impl<Context> Decode<Context> for u16 {
    fn from_byte(b: u8) -> (r: Option<Self>) {
        None
    }

    open spec fn decoding(c: Configuration, k: nat, s: Seq<u8>) -> Result<(u16, nat, nat), DecodeError> {
        unclaimed(dec_u16(c, s), k)
    }

    fn decode<D: Decoder<Context = Context>>(decoder: &mut D) -> (r: Result<Self, DecodeError>) {
        decoder.decode_u16()
    }
}

impl<'de, Context> BorrowDecode<'de, Context> for u16 {
    fn borrow_from_byte(b: u8) -> (r: Option<Self>) {
        None
    }

    open spec fn borrow_decoding(c: Configuration, k: nat, s: Seq<u8>) -> Result<(u16, nat, nat), DecodeError> {
        unclaimed(dec_u16(c, s), k)
    }

    fn borrow_decode<D: BorrowDecoder<'de, Context = Context>>(decoder: &mut D) -> (r: Result<Self, DecodeError>) {
        decoder.decode_u16()
    }
}

impl<Context> Decode<Context> for u32 {
    fn from_byte(b: u8) -> (r: Option<Self>) {
        None
    }

    open spec fn decoding(c: Configuration, k: nat, s: Seq<u8>) -> Result<(u32, nat, nat), DecodeError> {
        unclaimed(dec_u32(c, s), k)
    }

    fn decode<D: Decoder<Context = Context>>(decoder: &mut D) -> (r: Result<Self, DecodeError>) {
        decoder.decode_u32()
    }
}

impl<'de, Context> BorrowDecode<'de, Context> for u32 {
    fn borrow_from_byte(b: u8) -> (r: Option<Self>) {
        None
    }

    open spec fn borrow_decoding(c: Configuration, k: nat, s: Seq<u8>) -> Result<(u32, nat, nat), DecodeError> {
        unclaimed(dec_u32(c, s), k)
    }

    fn borrow_decode<D: BorrowDecoder<'de, Context = Context>>(decoder: &mut D) -> (r: Result<Self, DecodeError>) {
        decoder.decode_u32()
    }
}

impl<Context> Decode<Context> for u64 {
    fn from_byte(b: u8) -> (r: Option<Self>) {
        None
    }

    open spec fn decoding(c: Configuration, k: nat, s: Seq<u8>) -> Result<(u64, nat, nat), DecodeError> {
        unclaimed(dec_u64(c, s), k)
    }

    fn decode<D: Decoder<Context = Context>>(decoder: &mut D) -> (r: Result<Self, DecodeError>) {
        decoder.decode_u64()
    }
}

impl<'de, Context> BorrowDecode<'de, Context> for u64 {
    fn borrow_from_byte(b: u8) -> (r: Option<Self>) {
        None
    }

    open spec fn borrow_decoding(c: Configuration, k: nat, s: Seq<u8>) -> Result<(u64, nat, nat), DecodeError> {
        unclaimed(dec_u64(c, s), k)
    }

    fn borrow_decode<D: BorrowDecoder<'de, Context = Context>>(decoder: &mut D) -> (r: Result<Self, DecodeError>) {
        decoder.decode_u64()
    }
}

impl<Context> Decode<Context> for u128 {
    fn from_byte(b: u8) -> (r: Option<Self>) {
        None
    }

    open spec fn decoding(c: Configuration, k: nat, s: Seq<u8>) -> Result<(u128, nat, nat), DecodeError> {
        unclaimed(dec_u128(c, s), k)
    }

    fn decode<D: Decoder<Context = Context>>(decoder: &mut D) -> (r: Result<Self, DecodeError>) {
        decoder.decode_u128()
    }
}

impl<'de, Context> BorrowDecode<'de, Context> for u128 {
    fn borrow_from_byte(b: u8) -> (r: Option<Self>) {
        None
    }

    open spec fn borrow_decoding(c: Configuration, k: nat, s: Seq<u8>) -> Result<(u128, nat, nat), DecodeError> {
        unclaimed(dec_u128(c, s), k)
    }

    fn borrow_decode<D: BorrowDecoder<'de, Context = Context>>(decoder: &mut D) -> (r: Result<Self, DecodeError>) {
        decoder.decode_u128()
    }
}

impl<Context> Decode<Context> for i8 {
    fn from_byte(b: u8) -> (r: Option<Self>) {
        Some(b as i8)
    }

    open spec fn decoding(c: Configuration, k: nat, s: Seq<u8>) -> Result<(i8, nat, nat), DecodeError> {
        unclaimed(dec_i8(c, s), k)
    }

    fn decode<D: Decoder<Context = Context>>(decoder: &mut D) -> (r: Result<Self, DecodeError>) {
        decoder.decode_i8()
    }
}

impl<'de, Context> BorrowDecode<'de, Context> for i8 {
    fn borrow_from_byte(b: u8) -> (r: Option<Self>) {
        Some(b as i8)
    }

    open spec fn borrow_decoding(c: Configuration, k: nat, s: Seq<u8>) -> Result<(i8, nat, nat), DecodeError> {
        unclaimed(dec_i8(c, s), k)
    }

    fn borrow_decode<D: BorrowDecoder<'de, Context = Context>>(decoder: &mut D) -> (r: Result<Self, DecodeError>) {
        decoder.decode_i8()
    }
}

impl<Context> Decode<Context> for i16 {
    fn from_byte(b: u8) -> (r: Option<Self>) {
        None
    }

    open spec fn decoding(c: Configuration, k: nat, s: Seq<u8>) -> Result<(i16, nat, nat), DecodeError> {
        unclaimed(dec_i16(c, s), k)
    }

    fn decode<D: Decoder<Context = Context>>(decoder: &mut D) -> (r: Result<Self, DecodeError>) {
        decoder.decode_i16()
    }
}

impl<'de, Context> BorrowDecode<'de, Context> for i16 {
    fn borrow_from_byte(b: u8) -> (r: Option<Self>) {
        None
    }

    open spec fn borrow_decoding(c: Configuration, k: nat, s: Seq<u8>) -> Result<(i16, nat, nat), DecodeError> {
        unclaimed(dec_i16(c, s), k)
    }

    fn borrow_decode<D: BorrowDecoder<'de, Context = Context>>(decoder: &mut D) -> (r: Result<Self, DecodeError>) {
        decoder.decode_i16()
    }
}

impl<Context> Decode<Context> for i32 {
    fn from_byte(b: u8) -> (r: Option<Self>) {
        None
    }

    open spec fn decoding(c: Configuration, k: nat, s: Seq<u8>) -> Result<(i32, nat, nat), DecodeError> {
        unclaimed(dec_i32(c, s), k)
    }

    fn decode<D: Decoder<Context = Context>>(decoder: &mut D) -> (r: Result<Self, DecodeError>) {
        decoder.decode_i32()
    }
}

impl<'de, Context> BorrowDecode<'de, Context> for i32 {
    fn borrow_from_byte(b: u8) -> (r: Option<Self>) {
        None
    }

    open spec fn borrow_decoding(c: Configuration, k: nat, s: Seq<u8>) -> Result<(i32, nat, nat), DecodeError> {
        unclaimed(dec_i32(c, s), k)
    }

    fn borrow_decode<D: BorrowDecoder<'de, Context = Context>>(decoder: &mut D) -> (r: Result<Self, DecodeError>) {
        decoder.decode_i32()
    }
}

impl<Context> Decode<Context> for i64 {
    fn from_byte(b: u8) -> (r: Option<Self>) {
        None
    }

    open spec fn decoding(c: Configuration, k: nat, s: Seq<u8>) -> Result<(i64, nat, nat), DecodeError> {
        unclaimed(dec_i64(c, s), k)
    }

    fn decode<D: Decoder<Context = Context>>(decoder: &mut D) -> (r: Result<Self, DecodeError>) {
        decoder.decode_i64()
    }
}

impl<'de, Context> BorrowDecode<'de, Context> for i64 {
    fn borrow_from_byte(b: u8) -> (r: Option<Self>) {
        None
    }

    open spec fn borrow_decoding(c: Configuration, k: nat, s: Seq<u8>) -> Result<(i64, nat, nat), DecodeError> {
        unclaimed(dec_i64(c, s), k)
    }

    fn borrow_decode<D: BorrowDecoder<'de, Context = Context>>(decoder: &mut D) -> (r: Result<Self, DecodeError>) {
        decoder.decode_i64()
    }
}

impl<Context> Decode<Context> for i128 {
    fn from_byte(b: u8) -> (r: Option<Self>) {
        None
    }

    open spec fn decoding(c: Configuration, k: nat, s: Seq<u8>) -> Result<(i128, nat, nat), DecodeError> {
        unclaimed(dec_i128(c, s), k)
    }

    fn decode<D: Decoder<Context = Context>>(decoder: &mut D) -> (r: Result<Self, DecodeError>) {
        decoder.decode_i128()
    }
}

impl<'de, Context> BorrowDecode<'de, Context> for i128 {
    fn borrow_from_byte(b: u8) -> (r: Option<Self>) {
        None
    }

    open spec fn borrow_decoding(c: Configuration, k: nat, s: Seq<u8>) -> Result<(i128, nat, nat), DecodeError> {
        unclaimed(dec_i128(c, s), k)
    }

    fn borrow_decode<D: BorrowDecoder<'de, Context = Context>>(decoder: &mut D) -> (r: Result<Self, DecodeError>) {
        decoder.decode_i128()
    }
}

impl<Context> Decode<Context> for bool {
    fn from_byte(b: u8) -> (r: Option<Self>) {
        None
    }

    open spec fn decoding(c: Configuration, k: nat, s: Seq<u8>) -> Result<(bool, nat, nat), DecodeError> {
        unclaimed(dec_bool(c, s), k)
    }

    fn decode<D: Decoder<Context = Context>>(decoder: &mut D) -> (r: Result<Self, DecodeError>) {
        decoder.decode_bool()
    }
}

impl<'de, Context> BorrowDecode<'de, Context> for bool {
    fn borrow_from_byte(b: u8) -> (r: Option<Self>) {
        None
    }

    open spec fn borrow_decoding(c: Configuration, k: nat, s: Seq<u8>) -> Result<(bool, nat, nat), DecodeError> {
        unclaimed(dec_bool(c, s), k)
    }

    fn borrow_decode<D: BorrowDecoder<'de, Context = Context>>(decoder: &mut D) -> (r: Result<Self, DecodeError>) {
        decoder.decode_bool()
    }
}

impl<Context> Decode<Context> for usize {
    fn from_byte(b: u8) -> (r: Option<Self>) {
        None
    }

    open spec fn decoding(c: Configuration, k: nat, s: Seq<u8>) -> Result<(usize, nat, nat), DecodeError> {
        dec_usize(c, k, s)
    }

    fn decode<D: Decoder<Context = Context>>(decoder: &mut D) -> (r: Result<Self, DecodeError>) {
        decoder.decode_usize()
    }
}

impl<'de, Context> BorrowDecode<'de, Context> for usize {
    fn borrow_from_byte(b: u8) -> (r: Option<Self>) {
        None
    }

    open spec fn borrow_decoding(c: Configuration, k: nat, s: Seq<u8>) -> Result<(usize, nat, nat), DecodeError> {
        dec_usize(c, k, s)
    }

    fn borrow_decode<D: BorrowDecoder<'de, Context = Context>>(decoder: &mut D) -> (r: Result<Self, DecodeError>) {
        decoder.decode_usize()
    }
}

impl<Context> Decode<Context> for isize {
    fn from_byte(b: u8) -> (r: Option<Self>) {
        None
    }

    open spec fn decoding(c: Configuration, k: nat, s: Seq<u8>) -> Result<(isize, nat, nat), DecodeError> {
        dec_isize(c, k, s)
    }

    fn decode<D: Decoder<Context = Context>>(decoder: &mut D) -> (r: Result<Self, DecodeError>) {
        decoder.decode_isize()
    }
}

impl<'de, Context> BorrowDecode<'de, Context> for isize {
    fn borrow_from_byte(b: u8) -> (r: Option<Self>) {
        None
    }

    open spec fn borrow_decoding(c: Configuration, k: nat, s: Seq<u8>) -> Result<(isize, nat, nat), DecodeError> {
        dec_isize(c, k, s)
    }

    fn borrow_decode<D: BorrowDecoder<'de, Context = Context>>(decoder: &mut D) -> (r: Result<Self, DecodeError>) {
        decoder.decode_isize()
    }
}

impl<Context> Decode<Context> for () {
    fn from_byte(b: u8) -> (r: Option<Self>) {
        None
    }

    open spec fn decoding(c: Configuration, k: nat, s: Seq<u8>) -> Result<((), nat, nat), DecodeError> {
        Ok(((), 0, k))
    }

    fn decode<D: Decoder<Context = Context>>(decoder: &mut D) -> (r: Result<Self, DecodeError>) {
        proof {
            assert(old(decoder).pending().skip(0) =~= old(decoder).pending());
        }
        Ok(())
    }
}

impl<'de, Context> BorrowDecode<'de, Context> for () {
    fn borrow_from_byte(b: u8) -> (r: Option<Self>) {
        None
    }

    open spec fn borrow_decoding(c: Configuration, k: nat, s: Seq<u8>) -> Result<((), nat, nat), DecodeError> {
        Ok(((), 0, k))
    }

    fn borrow_decode<D: BorrowDecoder<'de, Context = Context>>(decoder: &mut D) -> (r: Result<Self, DecodeError>) {
        proof {
            assert(old(decoder).pending().skip(0) =~= old(decoder).pending());
        }
        Ok(())
    }
}

impl Model for str {
    open spec fn byte_value(b: u8) -> Self::V {
        Seq::empty()
    }

    open spec fn byte_of(&self) -> u8 {
        0
    }

    fn to_byte(&self) -> (b: u8) {
        0
    }

    type V = Seq<char>;

    open spec fn model(&self) -> Seq<char> {
        self@
    }

    open spec fn byte_sized() -> bool {
        false
    }

    fn is_byte_sized() -> (r: bool) {
        false
    }
}

impl Model for String {
    open spec fn byte_value(b: u8) -> Self::V {
        Seq::empty()
    }

    open spec fn byte_of(&self) -> u8 {
        0
    }

    fn to_byte(&self) -> (b: u8) {
        0
    }

    type V = Seq<char>;

    open spec fn model(&self) -> Seq<char> {
        self@
    }

    open spec fn byte_sized() -> bool {
        false
    }

    fn is_byte_sized() -> (r: bool) {
        false
    }
}

impl<'a> Model for Cow<'a, str> {
    open spec fn byte_value(b: u8) -> Self::V {
        Seq::empty()
    }

    open spec fn byte_of(&self) -> u8 {
        0
    }

    fn to_byte(&self) -> (b: u8) {
        0
    }

    type V = Seq<char>;

    open spec fn model(&self) -> Seq<char> {
        self@
    }

    open spec fn byte_sized() -> bool {
        false
    }

    fn is_byte_sized() -> (r: bool) {
        false
    }
}

impl Model for [u8] {
    open spec fn byte_value(b: u8) -> Self::V {
        Seq::empty()
    }

    open spec fn byte_of(&self) -> u8 {
        0
    }

    fn to_byte(&self) -> (b: u8) {
        0
    }

    type V = Seq<u8>;

    open spec fn model(&self) -> Seq<u8> {
        self@
    }

    open spec fn byte_sized() -> bool {
        false
    }

    fn is_byte_sized() -> (r: bool) {
        false
    }
}

impl<T: Model + ?Sized> Model for &T {
    open spec fn byte_value(b: u8) -> Self::V {
        T::byte_value(b)
    }

    open spec fn byte_of(&self) -> u8 {
        (**self).byte_of()
    }

    fn to_byte(&self) -> (b: u8) {
        (**self).to_byte()
    }

    type V = T::V;

    open spec fn model(&self) -> T::V {
        (**self).model()
    }

    open spec fn byte_sized() -> bool {
        false
    }

    fn is_byte_sized() -> (r: bool) {
        false
    }
}

impl<T: Model> Model for Option<T> {
    open spec fn byte_value(b: u8) -> Self::V {
        None
    }

    open spec fn byte_of(&self) -> u8 {
        0
    }

    fn to_byte(&self) -> (b: u8) {
        0
    }

    type V = Option<T::V>;

    open spec fn model(&self) -> Option<T::V> {
        match self {
            Some(x) => Some(x.model()),
            None => None,
        }
    }

    open spec fn byte_sized() -> bool {
        false
    }

    fn is_byte_sized() -> (r: bool) {
        false
    }
}

impl<T: Model, U: Model> Model for Result<T, U> {
    open spec fn byte_value(b: u8) -> Self::V {
        Ok(T::byte_value(b))
    }

    open spec fn byte_of(&self) -> u8 {
        0
    }

    fn to_byte(&self) -> (b: u8) {
        0
    }

    type V = Result<T::V, U::V>;

    open spec fn model(&self) -> Result<T::V, U::V> {
        match self {
            Ok(x) => Ok(x.model()),
            Err(x) => Err(x.model()),
        }
    }

    open spec fn byte_sized() -> bool {
        false
    }

    fn is_byte_sized() -> (r: bool) {
        false
    }
}

/// `core::str::from_utf8`: the bytes as a string slice when they are valid UTF-8, and nothing
/// otherwise. Trusted: the contract claims that std checks exactly UTF-8 validity as `valid_utf8`
/// states it, and that the slice it returns has the given bytes.
#[verifier::external_body]
pub(crate) fn str_from_utf8(v: &[u8]) -> (r: Option<&str>)
    ensures
        r is Some <==> valid_utf8(v@),
        r matches Some(s) ==> s.spec_bytes() == v@,
{
    match core::str::from_utf8(v) {
        Ok(s) => Some(s),
        Err(_) => None,
    }
}

/// The characters of `b` when it is valid UTF-8 (with `n` bytes taken and `k` bytes claimed).
pub open spec fn utf8_text(b: Seq<u8>, n: nat, k: nat) -> Result<(Seq<char>, nat, nat), DecodeError> {
    if valid_utf8(b) {
        Ok((decode_utf8(b), n, k))
    } else {
        Err(DecodeError::Utf8)
    }
}

/// The bytes of an indefinite-length CBOR text: byte values up to the `0xFF` break, each read as a
/// CBOR unsigned integer of at most `0xFF`; with the number of bytes taken, the break included.
pub open spec fn cbor_chunked_bytes(s: Seq<u8>) -> Result<(Seq<u8>, nat), DecodeError>
    decreases s.len(),
{
    if s.len() > 0 && s[0] == 0xFF {
        Ok((Seq::empty(), 1))
    } else {
        match cbor_decode_uint(s, 0xFF) {
            Ok((v, n)) => if 1 <= n <= s.len() {
                match cbor_chunked_bytes(s.skip(n as int)) {
                    Ok((b, m)) => Ok((seq![v as u8] + b, n + m)),
                    Err(e) => Err(e),
                }
            } else {
                Err(DecodeError::UnexpectedEnd { additional: 0 })
            },
            Err(e) => Err(e),
        }
    }
}

/// The bytes of an indefinite-length text are taken from what is there.
proof fn lemma_chunked_taken(s: Seq<u8>)
    ensures
        cbor_chunked_bytes(s) matches Ok((b, m)) ==> m <= s.len(),
    decreases s.len(),
{
    if !(s.len() > 0 && s[0] == 0xFF) {
        if let Ok((v, n)) = cbor_decode_uint(s, 0xFF) {
            if 1 <= n <= s.len() {
                lemma_chunked_taken(s.skip(n as int));
            }
        }
    }
}

/// What decoding a string slice does: read a text length, claim that many bytes, take them, and
/// check that they are UTF-8.
pub open spec fn str_decoding(c: Configuration, k: nat, s: Seq<u8>) -> Result<(Seq<char>, nat, nat), DecodeError> {
    match dec_len_of(c, k, s, 3) {
        Ok((len, n1, k1)) => match claim(c, k1, len as nat) {
            Ok(k2) => match take_exact(s.skip(n1 as int), len as nat) {
                Ok(b) => utf8_text(b, n1 + len as nat, k2),
                Err(e) => Err(e),
            },
            Err(e) => Err(e),
        },
        Err(e) => Err(e),
    }
}

/// What decoding an owned string does: as a string slice, except that an indefinite CBOR length
/// reads the bytes up to the break.
pub open spec fn string_decoding(c: Configuration, k: nat, s: Seq<u8>) -> Result<(Seq<char>, nat, nat), DecodeError> {
    match dec_len_of(c, k, s, 3) {
        Ok((len, n1, k1)) => if !is_bincode(c) && len == usize::MAX {
            match cbor_chunked_bytes(s.skip(n1 as int)) {
                Ok((b, m)) => utf8_text(b, n1 + m, k1),
                Err(e) => Err(e),
            }
        } else {
            str_decoding(c, k, s)
        },
        Err(e) => Err(e),
    }
}

/// What decoding a byte slice does: read a byte string length, claim that many bytes and take
/// them.
pub open spec fn bytes_decoding(c: Configuration, k: nat, s: Seq<u8>) -> Result<(Seq<u8>, nat, nat), DecodeError> {
    match dec_len_of(c, k, s, 2) {
        Ok((len, n1, k1)) => match claim(c, k1, len as nat) {
            Ok(k2) => match take_exact(s.skip(n1 as int), len as nat) {
                Ok(b) => Ok((b, n1 + len as nat, k2)),
                Err(e) => Err(e),
            },
            Err(e) => Err(e),
        },
        Err(e) => Err(e),
    }
}

impl<'a, 'de: 'a, Context> BorrowDecode<'de, Context> for &'a [u8] {
    fn borrow_from_byte(b: u8) -> (r: Option<Self>) {
        None
    }

    open spec fn borrow_decoding(c: Configuration, k: nat, s: Seq<u8>) -> Result<(Seq<u8>, nat, nat), DecodeError> {
        bytes_decoding(c, k, s)
    }

    fn borrow_decode<D: BorrowDecoder<'de, Context = Context>>(decoder: &mut D) -> (r: Result<Self, DecodeError>) {
        let len = match decoder.decode_byte_slice_len() {
            Ok(len) => len,
            Err(e) => return Err(e),
        };
        let ghost d1 = *decoder;
        match decoder.claim_bytes_read(len) {
            Ok(()) => {},
            Err(e) => return Err(e),
        }
        let r = decoder.take_bytes(len);
        proof {
            if r is Ok {
                assert(decoder.pending() =~= old(decoder).pending().skip(
                    (old(decoder).pending().len() - d1.pending().len()) + len,
                ));
            }
        }
        r
    }
}

impl<'a, 'de: 'a, Context> BorrowDecode<'de, Context> for &'a str {
    fn borrow_from_byte(b: u8) -> (r: Option<Self>) {
        None
    }

    open spec fn borrow_decoding(c: Configuration, k: nat, s: Seq<u8>) -> Result<(Seq<char>, nat, nat), DecodeError> {
        str_decoding(c, k, s)
    }

    fn borrow_decode<D: BorrowDecoder<'de, Context = Context>>(decoder: &mut D) -> (r: Result<Self, DecodeError>) {
        let len = match decoder.decode_str_len() {
            Ok(len) => len,
            Err(e) => return Err(e),
        };
        let ghost d1 = *decoder;
        match decoder.claim_bytes_read(len) {
            Ok(()) => {},
            Err(e) => return Err(e),
        }
        let slice = match decoder.take_bytes(len) {
            Ok(s) => s,
            Err(e) => return Err(e),
        };
        proof {
            assert(decoder.pending() =~= old(decoder).pending().skip(
                (old(decoder).pending().len() - d1.pending().len()) + len,
            ));
        }
        match str_from_utf8(slice) {
            Some(s) => {
                proof {
                    encode_utf8_decode_utf8(s@);
                }
                Ok(s)
            },
            None => Err(DecodeError::Utf8),
        }
    }
}

/// Read the bytes of an indefinite-length CBOR text, up to and with the break.
fn decode_chunked_bytes<D: Decoder>(decoder: &mut D) -> (r: Result<Vec<u8>, DecodeError>)
    requires
        !is_bincode(old(decoder).settings()),
    ensures
        final(decoder).settings() == old(decoder).settings(),
        match cbor_chunked_bytes(old(decoder).pending()) {
            Ok((b, m)) => r matches Ok(v) && v@ == b && final(decoder).pending()
                == old(decoder).pending().skip(m as int) && final(decoder).claimed()
                == old(decoder).claimed(),
            Err(e) => r == Err::<Vec<u8>, DecodeError>(e),
        },
{
    let mut vec: Vec<u8> = Vec::new();
    let ghost start = old(decoder).pending();
    let ghost mut taken: nat = 0;
    while decoder.peek_u8() != Some(0xFFu8)
        invariant
            decoder.settings() == old(decoder).settings(),
            !is_bincode(decoder.settings()),
            decoder.claimed() == old(decoder).claimed(),
            start == old(decoder).pending(),
            taken <= start.len(),
            decoder.pending() == start.skip(taken as int),
            match cbor_chunked_bytes(decoder.pending()) {
                Ok((b, m)) => cbor_chunked_bytes(start) == Ok::<(Seq<u8>, nat), DecodeError>((vec@ + b, taken + m)),
                Err(e) => cbor_chunked_bytes(start) == Err::<(Seq<u8>, nat), DecodeError>(e),
            },
        decreases decoder.pending().len(),
    {
        let ghost before = decoder.pending();
        proof {
            lemma_cbor_header_taken(before);
        }
        let b = match decoder.decode_u8() {
            Ok(b) => b,
            Err(e) => return Err(e),
        };
        let ghost n: nat = (before.len() - decoder.pending().len()) as nat;
        proof {
            assert(before.skip(n as int).skip(0) == before.skip(n as int));
            assert(decoder.pending() =~= start.skip((taken + n) as int));
            if let Ok((rest, m)) = cbor_chunked_bytes(decoder.pending()) {
                assert(vec@.push(b) + rest =~= vec@ + (seq![b] + rest));
            }
            taken = taken + n;
        }
        vec.push(b);
    }
    let mut brk = [0u8; 1];
    let ghost before_brk = decoder.pending();
    match decoder.read(&mut brk) {
        Ok(()) => {},
        Err(e) => return Err(e),
    }
    proof {
        assert(vec@ + Seq::<u8>::empty() =~= vec@);
        assert(decoder.pending() =~= start.skip((taken + 1) as int));
    }
    Ok(vec)
}

impl<Context> Decode<Context> for String {
    fn from_byte(b: u8) -> (r: Option<Self>) {
        None
    }

    open spec fn decoding(c: Configuration, k: nat, s: Seq<u8>) -> Result<(Seq<char>, nat, nat), DecodeError> {
        string_decoding(c, k, s)
    }

    fn decode<D: Decoder<Context = Context>>(decoder: &mut D) -> (r: Result<Self, DecodeError>) {
        let len = match decoder.decode_str_len() {
            Ok(len) => len,
            Err(e) => return Err(e),
        };
        let ghost d1 = *decoder;
        let is_bincode = match decoder.config().format() {
            Format::Bincode | Format::BincodeDeterministic => true,
            _ => false,
        };
        if !is_bincode && len == usize::MAX {
            let bytes = match decode_chunked_bytes(decoder) {
                Ok(b) => b,
                Err(e) => return Err(e),
            };
            proof {
                let n1 = old(decoder).pending().len() - d1.pending().len();
                lemma_chunked_taken(d1.pending());
                if let Ok((b, m)) = cbor_chunked_bytes(d1.pending()) {
                    assert(decoder.pending() =~= old(decoder).pending().skip(n1 + m));
                }
            }
            return match str_from_utf8(bytes.as_slice()) {
                Some(s) => {
                    proof {
                        encode_utf8_decode_utf8(s@);
                    }
                    Ok(s.to_owned())
                },
                None => Err(DecodeError::Utf8),
            };
        }
        match decoder.claim_bytes_read(len) {
            Ok(()) => {},
            Err(e) => return Err(e),
        }
        let mut bytes: Vec<u8> = vec![0u8; len];
        match decoder.read(bytes.as_mut_slice()) {
            Ok(()) => {},
            Err(e) => return Err(e),
        }
        proof {
            assert(decoder.pending() =~= old(decoder).pending().skip(
                (old(decoder).pending().len() - d1.pending().len()) + len,
            ));
        }
        match str_from_utf8(bytes.as_slice()) {
            Some(s) => {
                proof {
                    encode_utf8_decode_utf8(s@);
                }
                Ok(s.to_owned())
            },
            None => Err(DecodeError::Utf8),
        }
    }
}

impl<'de, Context> BorrowDecode<'de, Context> for String {
    fn borrow_from_byte(b: u8) -> (r: Option<Self>) {
        None
    }

    open spec fn borrow_decoding(c: Configuration, k: nat, s: Seq<u8>) -> Result<(Seq<char>, nat, nat), DecodeError> {
        string_decoding(c, k, s)
    }

    fn borrow_decode<D: BorrowDecoder<'de, Context = Context>>(decoder: &mut D) -> (r: Result<Self, DecodeError>) {
        <String as Decode<Context>>::decode(decoder)
    }
}

impl<'a, Context> Decode<Context> for Cow<'a, str> {
    fn from_byte(b: u8) -> (r: Option<Self>) {
        None
    }

    open spec fn decoding(c: Configuration, k: nat, s: Seq<u8>) -> Result<(Seq<char>, nat, nat), DecodeError> {
        string_decoding(c, k, s)
    }

    fn decode<D: Decoder<Context = Context>>(decoder: &mut D) -> (r: Result<Self, DecodeError>)
        ensures
            r matches Ok(x) ==> x is Owned,
    {
        match <String as Decode<Context>>::decode(decoder) {
            Ok(t) => Ok(Cow::Owned(t)),
            Err(e) => Err(e),
        }
    }
}

impl<'cow, Context> BorrowDecode<'cow, Context> for Cow<'cow, str> {
    fn borrow_from_byte(b: u8) -> (r: Option<Self>) {
        None
    }

    open spec fn borrow_decoding(c: Configuration, k: nat, s: Seq<u8>) -> Result<(Seq<char>, nat, nat), DecodeError> {
        str_decoding(c, k, s)
    }

    /// A borrow-decoded `Cow` borrows from the input.
    open spec fn borrowed_form(&self) -> bool {
        self is Borrowed
    }

    fn borrow_decode<D: BorrowDecoder<'cow, Context = Context>>(decoder: &mut D) -> (r: Result<Self, DecodeError>)
    {
        match <&'cow str as BorrowDecode<'cow, Context>>::borrow_decode(decoder) {
            Ok(t) => Ok(Cow::Borrowed(t)),
            Err(e) => Err(e),
        }
    }
}

impl<Context, T: Decode<Context>> Decode<Context> for Option<T> {
    fn from_byte(b: u8) -> (r: Option<Self>) {
        None
    }

    open spec fn decoding(c: Configuration, k: nat, s: Seq<u8>) -> Result<(Option<T::V>, nat, nat), DecodeError> {
        match dec_u8(c, s) {
            Ok((tag, n)) => if tag == 0 {
                Ok((None, n, k))
            } else if tag == 1 {
                match T::decoding(c, k, s.skip(n as int)) {
                    Ok((v, m, k2)) => Ok((Some(v), n + m, k2)),
                    Err(e) => Err(e),
                }
            } else {
                Err(DecodeError::UnexpectedVariant { min: 0, max: 1, found_index: tag as u32 })
            },
            Err(e) => Err(e),
        }
    }

    fn decode<D: Decoder<Context = Context>>(decoder: &mut D) -> (r: Result<Self, DecodeError>) {
        let tag = match decoder.decode_u8() {
            Ok(t) => t,
            Err(e) => return Err(e),
        };
        if tag == 0 {
            Ok(None)
        } else if tag == 1 {
            let ghost d1 = *decoder;
            match T::decode(decoder) {
                Ok(v) => {
                    proof {
                        let n = old(decoder).pending().len() - d1.pending().len();
                        if let Ok((w, m, k2)) = T::decoding(d1.settings(), d1.claimed(), d1.pending()) {
                            assert(decoder.pending() =~= old(decoder).pending().skip(n + m));
                        }
                    }
                    Ok(Some(v))
                },
                Err(e) => Err(e),
            }
        } else {
            Err(DecodeError::UnexpectedVariant { min: 0, max: 1, found_index: tag as u32 })
        }
    }
}

impl<'de, Context, T: BorrowDecode<'de, Context>> BorrowDecode<'de, Context> for Option<T> {
    fn borrow_from_byte(b: u8) -> (r: Option<Self>) {
        None
    }

    open spec fn borrow_decoding(c: Configuration, k: nat, s: Seq<u8>) -> Result<(Option<T::V>, nat, nat), DecodeError> {
        match dec_u8(c, s) {
            Ok((tag, n)) => if tag == 0 {
                Ok((None, n, k))
            } else if tag == 1 {
                match T::borrow_decoding(c, k, s.skip(n as int)) {
                    Ok((v, m, k2)) => Ok((Some(v), n + m, k2)),
                    Err(e) => Err(e),
                }
            } else {
                Err(DecodeError::UnexpectedVariant { min: 0, max: 1, found_index: tag as u32 })
            },
            Err(e) => Err(e),
        }
    }

    /// A borrow-decoded option holds a value in the form borrow decoding gives, if any.
    open spec fn borrowed_form(&self) -> bool {
        match self {
            Some(x) => x.borrowed_form(),
            None => true,
        }
    }

    fn borrow_decode<D: BorrowDecoder<'de, Context = Context>>(decoder: &mut D) -> (r: Result<Self, DecodeError>) {
        let tag = match decoder.decode_u8() {
            Ok(t) => t,
            Err(e) => return Err(e),
        };
        if tag == 0 {
            Ok(None)
        } else if tag == 1 {
            let ghost d1 = *decoder;
            match T::borrow_decode(decoder) {
                Ok(v) => {
                    proof {
                        let n = old(decoder).pending().len() - d1.pending().len();
                        if let Ok((w, m, k2)) = T::borrow_decoding(d1.settings(), d1.claimed(), d1.pending()) {
                            assert(decoder.pending() =~= old(decoder).pending().skip(n + m));
                        }
                    }
                    Ok(Some(v))
                },
                Err(e) => Err(e),
            }
        } else {
            Err(DecodeError::UnexpectedVariant { min: 0, max: 1, found_index: tag as u32 })
        }
    }
}

impl<Context, T: Decode<Context>, U: Decode<Context>> Decode<Context> for Result<T, U> {
    fn from_byte(b: u8) -> (r: Option<Self>) {
        None
    }

    open spec fn decoding(c: Configuration, k: nat, s: Seq<u8>) -> Result<(Result<T::V, U::V>, nat, nat), DecodeError> {
        match dec_variant_index(c, k, s) {
            Ok((idx, n, k1)) => if idx == 0 {
                match T::decoding(c, k1, s.skip(n as int)) {
                    Ok((v, m, k2)) => Ok((Ok(v), n + m, k2)),
                    Err(e) => Err(e),
                }
            } else if idx == 1 {
                match U::decoding(c, k1, s.skip(n as int)) {
                    Ok((v, m, k2)) => Ok((Err(v), n + m, k2)),
                    Err(e) => Err(e),
                }
            } else {
                Err(DecodeError::UnexpectedVariant { min: 0, max: 1, found_index: idx })
            },
            Err(e) => Err(e),
        }
    }

    fn decode<D: Decoder<Context = Context>>(decoder: &mut D) -> (r: Result<Self, DecodeError>) {
        let idx = match decoder.decode_variant_index() {
            Ok(i) => i,
            Err(e) => return Err(e),
        };
        if idx == 0 {
            let ghost d1 = *decoder;
            match T::decode(decoder) {
                Ok(v) => {
                    proof {
                        let n = old(decoder).pending().len() - d1.pending().len();
                        if let Ok((w, m, k2)) = T::decoding(d1.settings(), d1.claimed(), d1.pending()) {
                            assert(decoder.pending() =~= old(decoder).pending().skip(n + m));
                        }
                    }
                    Ok(Ok(v))
                },
                Err(e) => Err(e),
            }
        } else if idx == 1 {
            let ghost d1 = *decoder;
            match U::decode(decoder) {
                Ok(v) => {
                    proof {
                        let n = old(decoder).pending().len() - d1.pending().len();
                        if let Ok((w, m, k2)) = U::decoding(d1.settings(), d1.claimed(), d1.pending()) {
                            assert(decoder.pending() =~= old(decoder).pending().skip(n + m));
                        }
                    }
                    Ok(Err(v))
                },
                Err(e) => Err(e),
            }
        } else {
            Err(DecodeError::UnexpectedVariant { min: 0, max: 1, found_index: idx })
        }
    }
}

impl<'de, Context, T: BorrowDecode<'de, Context>, U: BorrowDecode<'de, Context>> BorrowDecode<'de, Context> for Result<T, U> {
    fn borrow_from_byte(b: u8) -> (r: Option<Self>) {
        None
    }

    open spec fn borrow_decoding(c: Configuration, k: nat, s: Seq<u8>) -> Result<(Result<T::V, U::V>, nat, nat), DecodeError> {
        match dec_variant_index(c, k, s) {
            Ok((idx, n, k1)) => if idx == 0 {
                match T::borrow_decoding(c, k1, s.skip(n as int)) {
                    Ok((v, m, k2)) => Ok((Ok(v), n + m, k2)),
                    Err(e) => Err(e),
                }
            } else if idx == 1 {
                match U::borrow_decoding(c, k1, s.skip(n as int)) {
                    Ok((v, m, k2)) => Ok((Err(v), n + m, k2)),
                    Err(e) => Err(e),
                }
            } else {
                Err(DecodeError::UnexpectedVariant { min: 0, max: 1, found_index: idx })
            },
            Err(e) => Err(e),
        }
    }

    /// A borrow-decoded result holds a value in the form borrow decoding gives.
    open spec fn borrowed_form(&self) -> bool {
        match self {
            Ok(x) => x.borrowed_form(),
            Err(e) => e.borrowed_form(),
        }
    }

    fn borrow_decode<D: BorrowDecoder<'de, Context = Context>>(decoder: &mut D) -> (r: Result<Self, DecodeError>) {
        let idx = match decoder.decode_variant_index() {
            Ok(i) => i,
            Err(e) => return Err(e),
        };
        if idx == 0 {
            let ghost d1 = *decoder;
            match T::borrow_decode(decoder) {
                Ok(v) => {
                    proof {
                        let n = old(decoder).pending().len() - d1.pending().len();
                        if let Ok((w, m, k2)) = T::borrow_decoding(d1.settings(), d1.claimed(), d1.pending()) {
                            assert(decoder.pending() =~= old(decoder).pending().skip(n + m));
                        }
                    }
                    Ok(Ok(v))
                },
                Err(e) => Err(e),
            }
        } else if idx == 1 {
            let ghost d1 = *decoder;
            match U::borrow_decode(decoder) {
                Ok(v) => {
                    proof {
                        let n = old(decoder).pending().len() - d1.pending().len();
                        if let Ok((w, m, k2)) = U::borrow_decoding(d1.settings(), d1.claimed(), d1.pending()) {
                            assert(decoder.pending() =~= old(decoder).pending().skip(n + m));
                        }
                    }
                    Ok(Err(v))
                },
                Err(e) => Err(e),
            }
        } else {
            Err(DecodeError::UnexpectedVariant { min: 0, max: 1, found_index: idx })
        }
    }
}

/// The number of bytes of the UTF-8 encoding that starts with the byte `b`; `0` for a byte that
/// starts none.
pub open spec fn utf8_char_width(b: u8) -> nat {
    if b < 0x80 {
        1
    } else if 0xC2 <= b <= 0xDF {
        2
    } else if 0xE0 <= b <= 0xEF {
        3
    } else if 0xF0 <= b <= 0xF4 {
        4
    } else {
        0
    }
}

fn char_width(b: u8) -> (w: usize)
    ensures
        w == utf8_char_width(b),
{
    if b < 0x80 {
        1
    } else if 0xC2 <= b && b <= 0xDF {
        2
    } else if 0xE0 <= b && b <= 0xEF {
        3
    } else if 0xF0 <= b && b <= 0xF4 {
        4
    } else {
        0
    }
}

/// What decoding a `char` does: the first byte tells the width of its UTF-8 encoding, which is
/// claimed; the bytes must then be a valid encoding of one character. A refused encoding is
/// reported with its bytes, padded with zeroes.
pub open spec fn char_decoding(c: Configuration, k: nat, s: Seq<u8>) -> Result<(char, nat, nat), DecodeError> {
    if s.len() == 0 {
        Err(short_read(1, 0))
    } else {
        let w = utf8_char_width(s[0]);
        if w == 0 {
            Err(DecodeError::InvalidCharEncoding(s[0], 0, 0, 0))
        } else {
            match claim(c, k, w) {
                Ok(k2) => if w == 1 {
                    Ok((s[0] as char, 1, k2))
                } else if s.len() < w {
                    Err(short_read((w - 1) as nat, (s.len() - 1) as nat))
                } else if valid_utf8(s.take(w as int)) {
                    Ok((decode_utf8(s.take(w as int))[0], w, k2))
                } else {
                    Err(
                        DecodeError::InvalidCharEncoding(
                            s[0],
                            s[1],
                            if w > 2 { s[2] } else { 0 },
                            if w > 3 { s[3] } else { 0 },
                        ),
                    )
                },
                Err(e) => Err(e),
            }
        }
    }
}

fn decode_char<D: Decoder>(decoder: &mut D) -> (r: Result<char, DecodeError>)
    ensures
        final(decoder).settings() == old(decoder).settings(),
        decoded_as(
            old(decoder).pending(),
            final(decoder).pending(),
            final(decoder).claimed(),
            char_decoding(old(decoder).settings(), old(decoder).claimed(), old(decoder).pending()),
            r,
        ),
{
    let ghost s = old(decoder).pending();
    let mut first = [0u8; 1];
    match decoder.read(&mut first) {
        Ok(()) => {},
        Err(e) => return Err(e),
    }
    let b0 = first[0];
    let width = char_width(b0);
    if width == 0 {
        return Err(DecodeError::InvalidCharEncoding(b0, 0, 0, 0));
    }
    match decoder.claim_bytes_read(width) {
        Ok(()) => {},
        Err(e) => return Err(e),
    }
    if width == 1 {
        return Ok(b0 as char);
    }
    let mut rest: Vec<u8> = vec![0u8; width - 1];
    match decoder.read(rest.as_mut_slice()) {
        Ok(()) => {},
        Err(e) => return Err(e),
    }
    let mut buf: Vec<u8> = Vec::new();
    buf.push(b0);
    let mut i: usize = 0;
    while i < rest.len()
        invariant
            i <= rest@.len(),
            buf@ == seq![b0] + rest@.take(i as int),
        decreases rest@.len() - i,
    {
        buf.push(rest[i]);
        proof {
            assert(rest@.take(i + 1) =~= rest@.take(i as int).push(rest@[i as int]));
            assert(seq![b0] + rest@.take(i + 1) =~= (seq![b0] + rest@.take(i as int)).push(rest@[i as int]));
        }
        i = i + 1;
    }
    proof {
        assert(rest@.take(i as int) =~= rest@);
        assert(buf@ =~= s.take(width as int));
        assert(decoder.pending() =~= s.skip(width as int));
    }
    match str_from_utf8(buf.as_slice()) {
        Some(text) => {
            proof {
                encode_utf8_decode_utf8(text@);
                if text@.len() == 0 {
                    assert(encode_utf8(text@) =~= Seq::<u8>::empty());
                }
            }
            Ok(text.get_char(0))
        },
        None => {
            let b2 = if width > 2 { buf[2] } else { 0 };
            let b3 = if width > 3 { buf[3] } else { 0 };
            Err(DecodeError::InvalidCharEncoding(b0, buf[1], b2, b3))
        },
    }
}

impl<Context> Decode<Context> for char {
    fn from_byte(b: u8) -> (r: Option<Self>) {
        None
    }

    open spec fn decoding(c: Configuration, k: nat, s: Seq<u8>) -> Result<(char, nat, nat), DecodeError> {
        char_decoding(c, k, s)
    }

    fn decode<D: Decoder<Context = Context>>(decoder: &mut D) -> (r: Result<Self, DecodeError>) {
        decode_char(decoder)
    }
}

impl<'de, Context> BorrowDecode<'de, Context> for char {
    fn borrow_from_byte(b: u8) -> (r: Option<Self>) {
        None
    }

    open spec fn borrow_decoding(c: Configuration, k: nat, s: Seq<u8>) -> Result<(char, nat, nat), DecodeError> {
        char_decoding(c, k, s)
    }

    fn borrow_decode<D: BorrowDecoder<'de, Context = Context>>(decoder: &mut D) -> (r: Result<Self, DecodeError>) {
        decode_char(decoder)
    }
}

impl<T> Model for PhantomData<T> {
    type V = ();

    open spec fn model(&self) -> () {
        ()
    }

    open spec fn byte_sized() -> bool {
        false
    }

    fn is_byte_sized() -> (r: bool) {
        false
    }

    open spec fn byte_value(b: u8) -> () {
        ()
    }

    open spec fn byte_of(&self) -> u8 {
        0
    }

    fn to_byte(&self) -> (b: u8) {
        0
    }
}

impl<Context, T> Decode<Context> for PhantomData<T> {
    open spec fn decoding(c: Configuration, k: nat, s: Seq<u8>) -> Result<((), nat, nat), DecodeError> {
        Ok(((), 0, k))
    }

    fn from_byte(b: u8) -> (r: Option<Self>) {
        None
    }

    fn decode<D: Decoder<Context = Context>>(decoder: &mut D) -> (r: Result<Self, DecodeError>) {
        proof {
            assert(decoder.pending().skip(0) =~= decoder.pending());
        }
        Ok(PhantomData)
    }
}

impl<'de, Context, T> BorrowDecode<'de, Context> for PhantomData<T> {
    open spec fn borrow_decoding(c: Configuration, k: nat, s: Seq<u8>) -> Result<((), nat, nat), DecodeError> {
        Ok(((), 0, k))
    }

    fn borrow_from_byte(b: u8) -> (r: Option<Self>) {
        None
    }

    fn borrow_decode<D: BorrowDecoder<'de, Context = Context>>(decoder: &mut D) -> (r: Result<Self, DecodeError>) {
        proof {
            assert(decoder.pending().skip(0) =~= decoder.pending());
        }
        Ok(PhantomData)
    }
}

impl<T: Model> Model for Range<T> {
    type V = (T::V, T::V);

    open spec fn model(&self) -> (T::V, T::V) {
        (self.start.model(), self.end.model())
    }

    open spec fn byte_sized() -> bool {
        false
    }

    fn is_byte_sized() -> (r: bool) {
        false
    }

    open spec fn byte_value(b: u8) -> (T::V, T::V) {
        (T::byte_value(b), T::byte_value(b))
    }

    open spec fn byte_of(&self) -> u8 {
        0
    }

    fn to_byte(&self) -> (b: u8) {
        0
    }
}

impl<Context, T: Decode<Context>> Decode<Context> for Range<T> {
    open spec fn decoding(c: Configuration, k: nat, s: Seq<u8>) -> Result<((T::V, T::V), nat, nat), DecodeError> {
        <(T, T) as Decode<Context>>::decoding(c, k, s)
    }

    fn from_byte(b: u8) -> (r: Option<Self>) {
        None
    }

    fn decode<D: Decoder<Context = Context>>(decoder: &mut D) -> (r: Result<Self, DecodeError>) {
        match <(T, T) as Decode<Context>>::decode(decoder) {
            Ok((start, end)) => Ok(start..end),
            Err(e) => Err(e),
        }
    }
}

impl<'de, Context, T: BorrowDecode<'de, Context>> BorrowDecode<'de, Context> for Range<T> {
    open spec fn borrow_decoding(c: Configuration, k: nat, s: Seq<u8>) -> Result<((T::V, T::V), nat, nat), DecodeError> {
        <(T, T) as BorrowDecode<'de, Context>>::borrow_decoding(c, k, s)
    }

    fn borrow_from_byte(b: u8) -> (r: Option<Self>) {
        None
    }

    fn borrow_decode<D: BorrowDecoder<'de, Context = Context>>(decoder: &mut D) -> (r: Result<Self, DecodeError>) {
        match <(T, T) as BorrowDecode<'de, Context>>::borrow_decode(decoder) {
            Ok((start, end)) => Ok(start..end),
            Err(e) => Err(e),
        }
    }
}

impl<T: Model> Model for RangeInclusive<T> {
    type V = (T::V, T::V);

    open spec fn model(&self) -> (T::V, T::V) {
        (self@.start.model(), self@.end.model())
    }

    open spec fn byte_sized() -> bool {
        false
    }

    fn is_byte_sized() -> (r: bool) {
        false
    }

    open spec fn byte_value(b: u8) -> (T::V, T::V) {
        (T::byte_value(b), T::byte_value(b))
    }

    open spec fn byte_of(&self) -> u8 {
        0
    }

    fn to_byte(&self) -> (b: u8) {
        0
    }
}

impl<Context, T: Decode<Context>> Decode<Context> for RangeInclusive<T> {
    open spec fn decoding(c: Configuration, k: nat, s: Seq<u8>) -> Result<((T::V, T::V), nat, nat), DecodeError> {
        <(T, T) as Decode<Context>>::decoding(c, k, s)
    }

    fn from_byte(b: u8) -> (r: Option<Self>) {
        None
    }

    fn decode<D: Decoder<Context = Context>>(decoder: &mut D) -> (r: Result<Self, DecodeError>) {
        match <(T, T) as Decode<Context>>::decode(decoder) {
            Ok((start, end)) => Ok(RangeInclusive::new(start, end)),
            Err(e) => Err(e),
        }
    }
}

impl<'de, Context, T: BorrowDecode<'de, Context>> BorrowDecode<'de, Context> for RangeInclusive<T> {
    open spec fn borrow_decoding(c: Configuration, k: nat, s: Seq<u8>) -> Result<((T::V, T::V), nat, nat), DecodeError> {
        <(T, T) as BorrowDecode<'de, Context>>::borrow_decoding(c, k, s)
    }

    fn borrow_from_byte(b: u8) -> (r: Option<Self>) {
        None
    }

    fn borrow_decode<D: BorrowDecoder<'de, Context = Context>>(decoder: &mut D) -> (r: Result<Self, DecodeError>) {
        match <(T, T) as BorrowDecode<'de, Context>>::borrow_decode(decoder) {
            Ok((start, end)) => Ok(RangeInclusive::new(start, end)),
            Err(e) => Err(e),
        }
    }
}

} // verus!
