//! Compile-time check that any potential error path is covered.
use vstd::prelude::*;

verus! {

/// Compile-Time check that any potential error path is covered.
/// Only the decoding path (`0`) and the encoding path (`1`) are covered.
pub trait BincodeErrorPathCovered<const PATH: u8> {
    /// The assertion that this path is covered.
    const ASSERT: () = ();

    /// Asserts that this path is covered; it only compiles where it is.
    fn assert_covered() {
    }
}

impl BincodeErrorPathCovered<0> for () {}

impl BincodeErrorPathCovered<1> for () {}

} // verus!
