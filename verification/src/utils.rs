//! Marker traits and compile-time checks shared by the encoders and decoders.
use vstd::layout::size_of;
use vstd::prelude::*;

verus! {

/// A trait that only types of this crate can implement.
pub trait Sealed {}

impl<T> Sealed for &mut T where T: Sealed {}

/// A helper trait to perform compile-time checks on bit-packed fields.
pub trait BitPackedCheck<const BITS: u8>: Sized {
    /// Performs the check: a bit-packed field is 1 to 64 bits wide and fits the type it is stored in.
    fn check() -> (ok: bool)
        ensures
            ok == (0 < BITS <= 64 && BITS <= size_of::<Self>() * 8),
    ;
}

impl<const BITS: u8, T> BitPackedCheck<BITS> for T {
    fn check() -> (ok: bool) {
        let bits = BITS as usize;
        let size = core::mem::size_of::<T>();
        proof {
            assert((bits + 7) / 8 <= size <==> bits <= size * 8) by (nonlinear_arith)
                requires
                    bits <= 255,
            ;
        }
        BITS > 0 && BITS <= 64 && (bits + 7) / 8 <= size
    }
}

/// A trait to indicate that a type is a bincode primitive.
/// This is used for bulk copy optimizations when the configuration allows it.
pub trait IsPrimitive: Copy + 'static {}

impl IsPrimitive for u8 {}

impl IsPrimitive for i8 {}

impl IsPrimitive for u16 {}

impl IsPrimitive for i16 {}

impl IsPrimitive for u32 {}

impl IsPrimitive for i32 {}

impl IsPrimitive for u64 {}

impl IsPrimitive for i64 {}

impl IsPrimitive for u128 {}

impl IsPrimitive for i128 {}

} // verus!
