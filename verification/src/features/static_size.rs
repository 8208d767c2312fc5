//! Static size trait for compile-time memory bound validation.
use crate::bytes::{lemma_endian_bytes_len, lemma_pow256_values, pow256};
use crate::config::{Configuration, IntEncoding};
use crate::enc::{enc_int, enc_uint, is_bincode, twos_complement, Encode};
use crate::varint::{lemma_varint_len, zigzag};
use std::marker::PhantomData;
use vstd::layout::size_of;
use vstd::prelude::*;

pub mod helpers;

verus! {

/// A trait that calculates the upper bound of a type's serialized size as a `const` value.
pub trait StaticSize {
    /// The maximum possible serialized size in bytes.
    const MAX_SIZE: usize;
}

impl StaticSize for bool {
    const MAX_SIZE: usize = 1;
}

impl StaticSize for u8 {
    const MAX_SIZE: usize = 1;
}

impl StaticSize for i8 {
    const MAX_SIZE: usize = 1;
}

impl StaticSize for u16 {
    const MAX_SIZE: usize = 3;
}

impl StaticSize for i16 {
    const MAX_SIZE: usize = 3;
}

impl StaticSize for u32 {
    const MAX_SIZE: usize = 5;
}

impl StaticSize for i32 {
    const MAX_SIZE: usize = 5;
}

impl StaticSize for u64 {
    const MAX_SIZE: usize = 9;
}

impl StaticSize for i64 {
    const MAX_SIZE: usize = 9;
}

impl StaticSize for u128 {
    const MAX_SIZE: usize = 17;
}

impl StaticSize for i128 {
    const MAX_SIZE: usize = 17;
}

impl StaticSize for usize {
    const MAX_SIZE: usize = 9;
}

impl StaticSize for isize {
    const MAX_SIZE: usize = 9;
}

impl StaticSize for char {
    const MAX_SIZE: usize = 4;
}

impl StaticSize for () {
    const MAX_SIZE: usize = 0;
}

impl<T> StaticSize for PhantomData<T> {
    const MAX_SIZE: usize = 0;
}

impl<T: StaticSize, const N: usize> StaticSize for [T; N] {
    const MAX_SIZE: usize = T::MAX_SIZE * N;
}

impl<T: StaticSize> StaticSize for Option<T> {
    const MAX_SIZE: usize = 1 + T::MAX_SIZE;
}

/// A result takes its variant index (at most 5 bytes) and the larger of its two sides.
impl<T: StaticSize, E: StaticSize> StaticSize for Result<T, E> {
    const MAX_SIZE: usize = 5 + (T::MAX_SIZE > E::MAX_SIZE) as usize * T::MAX_SIZE
        + (T::MAX_SIZE <= E::MAX_SIZE) as usize * E::MAX_SIZE;
}

impl<A: StaticSize> StaticSize for (A,) {
    const MAX_SIZE: usize = A::MAX_SIZE;
}

impl<A: StaticSize, B: StaticSize> StaticSize for (A, B) {
    const MAX_SIZE: usize = A::MAX_SIZE + B::MAX_SIZE;
}

impl<A: StaticSize, B: StaticSize, C: StaticSize> StaticSize for (A, B, C) {
    const MAX_SIZE: usize = A::MAX_SIZE + B::MAX_SIZE + C::MAX_SIZE;
}

impl<A: StaticSize, B: StaticSize, C: StaticSize, D: StaticSize> StaticSize for (A, B, C, D) {
    const MAX_SIZE: usize = A::MAX_SIZE + B::MAX_SIZE + C::MAX_SIZE + D::MAX_SIZE;
}

impl<A: StaticSize, B: StaticSize, C: StaticSize, D: StaticSize, E: StaticSize> StaticSize for (A, B, C, D, E) {
    const MAX_SIZE: usize = A::MAX_SIZE + B::MAX_SIZE + C::MAX_SIZE + D::MAX_SIZE + E::MAX_SIZE;
}

impl<A: StaticSize, B: StaticSize, C: StaticSize, D: StaticSize, E: StaticSize, F: StaticSize> StaticSize for (A, B, C, D, E, F) {
    const MAX_SIZE: usize = A::MAX_SIZE + B::MAX_SIZE + C::MAX_SIZE + D::MAX_SIZE + E::MAX_SIZE + F::MAX_SIZE;
}

impl<A: StaticSize, B: StaticSize, C: StaticSize, D: StaticSize, E: StaticSize, F: StaticSize, G: StaticSize> StaticSize for (A, B, C, D, E, F, G) {
    const MAX_SIZE: usize = A::MAX_SIZE + B::MAX_SIZE + C::MAX_SIZE + D::MAX_SIZE + E::MAX_SIZE + F::MAX_SIZE + G::MAX_SIZE;
}

impl<A: StaticSize, B: StaticSize, C: StaticSize, D: StaticSize, E: StaticSize, F: StaticSize, G: StaticSize, H: StaticSize> StaticSize for (A, B, C, D, E, F, G, H) {
    const MAX_SIZE: usize = A::MAX_SIZE + B::MAX_SIZE + C::MAX_SIZE + D::MAX_SIZE + E::MAX_SIZE + F::MAX_SIZE + G::MAX_SIZE + H::MAX_SIZE;
}

impl<A: StaticSize, B: StaticSize, C: StaticSize, D: StaticSize, E: StaticSize, F: StaticSize, G: StaticSize, H: StaticSize, I: StaticSize> StaticSize for (A, B, C, D, E, F, G, H, I) {
    const MAX_SIZE: usize = A::MAX_SIZE + B::MAX_SIZE + C::MAX_SIZE + D::MAX_SIZE + E::MAX_SIZE + F::MAX_SIZE + G::MAX_SIZE + H::MAX_SIZE + I::MAX_SIZE;
}

impl<A: StaticSize, B: StaticSize, C: StaticSize, D: StaticSize, E: StaticSize, F: StaticSize, G: StaticSize, H: StaticSize, I: StaticSize, J: StaticSize> StaticSize for (A, B, C, D, E, F, G, H, I, J) {
    const MAX_SIZE: usize = A::MAX_SIZE + B::MAX_SIZE + C::MAX_SIZE + D::MAX_SIZE + E::MAX_SIZE + F::MAX_SIZE + G::MAX_SIZE + H::MAX_SIZE + I::MAX_SIZE + J::MAX_SIZE;
}

impl<A: StaticSize, B: StaticSize, C: StaticSize, D: StaticSize, E: StaticSize, F: StaticSize, G: StaticSize, H: StaticSize, I: StaticSize, J: StaticSize, K: StaticSize> StaticSize for (A, B, C, D, E, F, G, H, I, J, K) {
    const MAX_SIZE: usize = A::MAX_SIZE + B::MAX_SIZE + C::MAX_SIZE + D::MAX_SIZE + E::MAX_SIZE + F::MAX_SIZE + G::MAX_SIZE + H::MAX_SIZE + I::MAX_SIZE + J::MAX_SIZE + K::MAX_SIZE;
}

impl<A: StaticSize, B: StaticSize, C: StaticSize, D: StaticSize, E: StaticSize, F: StaticSize, G: StaticSize, H: StaticSize, I: StaticSize, J: StaticSize, K: StaticSize, L: StaticSize> StaticSize for (A, B, C, D, E, F, G, H, I, J, K, L) {
    const MAX_SIZE: usize = A::MAX_SIZE + B::MAX_SIZE + C::MAX_SIZE + D::MAX_SIZE + E::MAX_SIZE + F::MAX_SIZE + G::MAX_SIZE + H::MAX_SIZE + I::MAX_SIZE + J::MAX_SIZE + K::MAX_SIZE + L::MAX_SIZE;
}


/// Whether the bytes of `x` under `c`, where it has any, are no more than `T::MAX_SIZE`.
pub open spec fn fits_static_size<T: Encode + StaticSize>(x: T, c: Configuration) -> bool {
    x.encoding(c) is Ok ==> x.encoding(c)->Ok_0.len() <= T::MAX_SIZE
}

/// In bincode an unsigned integer of `width` bytes takes at most one byte more than its width.
pub proof fn lemma_uint_size_bound(c: Configuration, v: nat, width: nat)
    requires
        is_bincode(c),
        width == 2 || width == 4 || width == 8 || width == 16,
        v < pow256(width),
    ensures
        enc_uint(c, v, width).len() <= width + 1,
{
    lemma_pow256_values();
    lemma_varint_len(c.endian, v);
    lemma_endian_bytes_len(c.endian, v, width);
}

/// In bincode a signed integer of `width` bytes takes at most one byte more than its width.
pub proof fn lemma_int_size_bound(c: Configuration, v: int, width: nat)
    requires
        is_bincode(c),
        width == 2 || width == 4 || width == 8 || width == 16,
        -(pow256(width) / 2) <= v < pow256(width) / 2,
    ensures
        enc_int(c, v, width).len() <= width + 1,
{
    lemma_pow256_values();
    lemma_varint_len(c.endian, zigzag(v));
    lemma_endian_bytes_len(c.endian, twos_complement(v, width), width);
}

/// In bincode a `u16` takes at most `MAX_SIZE` bytes.
pub proof fn lemma_u16_fits(v: u16, c: Configuration)
    requires
        is_bincode(c),
    ensures
        fits_static_size(v, c),
{
    lemma_pow256_values();
    lemma_uint_size_bound(c, v as nat, 2);
}

/// In bincode a `u32` takes at most `MAX_SIZE` bytes.
pub proof fn lemma_u32_fits(v: u32, c: Configuration)
    requires
        is_bincode(c),
    ensures
        fits_static_size(v, c),
{
    lemma_pow256_values();
    lemma_uint_size_bound(c, v as nat, 4);
}

/// In bincode a `u64` takes at most `MAX_SIZE` bytes.
pub proof fn lemma_u64_fits(v: u64, c: Configuration)
    requires
        is_bincode(c),
    ensures
        fits_static_size(v, c),
{
    lemma_pow256_values();
    lemma_uint_size_bound(c, v as nat, 8);
}

/// In bincode a `u128` takes at most `MAX_SIZE` bytes.
pub proof fn lemma_u128_fits(v: u128, c: Configuration)
    requires
        is_bincode(c),
    ensures
        fits_static_size(v, c),
{
    lemma_pow256_values();
    lemma_uint_size_bound(c, v as nat, 16);
}

/// In bincode a `usize` takes at most `MAX_SIZE` bytes.
pub proof fn lemma_usize_fits(v: usize, c: Configuration)
    requires
        is_bincode(c),
    ensures
        fits_static_size(v, c),
{
    lemma_pow256_values();
    lemma_uint_size_bound(c, v as nat, 8);
}

/// In bincode an `i16` takes at most `MAX_SIZE` bytes.
pub proof fn lemma_i16_fits(v: i16, c: Configuration)
    requires
        is_bincode(c),
    ensures
        fits_static_size(v, c),
{
    lemma_pow256_values();
    lemma_int_size_bound(c, v as int, 2);
}

/// In bincode an `i32` takes at most `MAX_SIZE` bytes.
pub proof fn lemma_i32_fits(v: i32, c: Configuration)
    requires
        is_bincode(c),
    ensures
        fits_static_size(v, c),
{
    lemma_pow256_values();
    lemma_int_size_bound(c, v as int, 4);
}

/// In bincode an `i64` takes at most `MAX_SIZE` bytes.
pub proof fn lemma_i64_fits(v: i64, c: Configuration)
    requires
        is_bincode(c),
    ensures
        fits_static_size(v, c),
{
    lemma_pow256_values();
    lemma_int_size_bound(c, v as int, 8);
}

/// In bincode an `i128` takes at most `MAX_SIZE` bytes.
pub proof fn lemma_i128_fits(v: i128, c: Configuration)
    requires
        is_bincode(c),
    ensures
        fits_static_size(v, c),
{
    lemma_pow256_values();
    lemma_int_size_bound(c, v as int, 16);
}

/// In bincode an `isize` takes at most `MAX_SIZE` bytes.
pub proof fn lemma_isize_fits(v: isize, c: Configuration)
    requires
        is_bincode(c),
    ensures
        fits_static_size(v, c),
{
    lemma_pow256_values();
    lemma_int_size_bound(c, v as int, 8);
}

/// In bincode a `u8`, an `i8`, a `bool` and a `()` take at most `MAX_SIZE` bytes.
pub proof fn lemma_byte_types_fit(a: u8, b: i8, t: bool, u: (), c: Configuration)
    requires
        is_bincode(c),
    ensures
        fits_static_size(a, c),
        fits_static_size(b, c),
        fits_static_size(t, c),
        fits_static_size(u, c),
{
}

/// A `char` takes at most `MAX_SIZE` bytes under every configuration.
pub proof fn lemma_char_fits(v: char, c: Configuration)
    ensures
        fits_static_size(v, c),
{
}

/// In bincode an optional value takes at most `MAX_SIZE` bytes when the value inside does (and
/// the bound fits a `usize`, as the compiler demands of the constant).
pub proof fn lemma_option_fits<T: Encode + StaticSize>(v: Option<T>, c: Configuration)
    requires
        is_bincode(c),
        T::MAX_SIZE < usize::MAX,
        v matches Some(x) ==> fits_static_size(x, c),
    ensures
        fits_static_size(v, c),
{
    assert(<Option<T> as StaticSize>::MAX_SIZE == 1 + T::MAX_SIZE);
}

/// In bincode a result takes at most `MAX_SIZE` bytes when the value inside does (and the
/// bounds fit a `usize`, as the compiler demands of the constant).
pub proof fn lemma_result_fits<T: Encode + StaticSize, E: Encode + StaticSize>(v: Result<T, E>, c: Configuration)
    requires
        is_bincode(c),
        T::MAX_SIZE + 5 <= usize::MAX,
        E::MAX_SIZE + 5 <= usize::MAX,
        v matches Ok(x) ==> fits_static_size(x, c),
        v matches Err(x) ==> fits_static_size(x, c),
    ensures
        fits_static_size(v, c),
{
    lemma_pow256_values();
    lemma_uint_size_bound(c, 0, 4);
    lemma_uint_size_bound(c, 1, 4);
}

/// With fixed-width integers in bincode, a value takes no more bytes than it takes in memory:
/// exactly as many for integers and `bool`, at most as many for `char`.
pub proof fn lemma_fixint_memory_size(
    c: Configuration,
    a: u8,
    b: u16,
    d: u32,
    f: u64,
    g: u128,
    h: i8,
    i: i16,
    j: i32,
    l: i64,
    m: i128,
    t: bool,
    ch: char,
)
    requires
        is_bincode(c),
        c.int_encoding == IntEncoding::Fixed,
    ensures
        a.encoding(c)->Ok_0.len() == size_of::<u8>(),
        b.encoding(c)->Ok_0.len() == size_of::<u16>(),
        d.encoding(c)->Ok_0.len() == size_of::<u32>(),
        f.encoding(c)->Ok_0.len() == size_of::<u64>(),
        g.encoding(c)->Ok_0.len() == size_of::<u128>(),
        h.encoding(c)->Ok_0.len() == size_of::<i8>(),
        i.encoding(c)->Ok_0.len() == size_of::<i16>(),
        j.encoding(c)->Ok_0.len() == size_of::<i32>(),
        l.encoding(c)->Ok_0.len() == size_of::<i64>(),
        m.encoding(c)->Ok_0.len() == size_of::<i128>(),
        t.encoding(c)->Ok_0.len() == size_of::<bool>(),
        ch.encoding(c)->Ok_0.len() <= size_of::<char>(),
{
    broadcast use vstd::layout::layout_of_primitives;

    lemma_pow256_values();
    lemma_endian_bytes_len(c.endian, b as nat, 2);
    lemma_endian_bytes_len(c.endian, d as nat, 4);
    lemma_endian_bytes_len(c.endian, f as nat, 8);
    lemma_endian_bytes_len(c.endian, g as nat, 16);
    lemma_endian_bytes_len(c.endian, twos_complement(i as int, 2), 2);
    lemma_endian_bytes_len(c.endian, twos_complement(j as int, 4), 4);
    lemma_endian_bytes_len(c.endian, twos_complement(l as int, 8), 8);
    lemma_endian_bytes_len(c.endian, twos_complement(m as int, 16), 16);
}

} // verus!
