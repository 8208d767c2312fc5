//! Helper constants for common bincode structures
use vstd::prelude::*;

verus! {

/// The maximum bytes a `usize` (length) can take when encoded as a varint.
pub const VARINT_MAX_64: usize = 9;

/// The maximum bytes a `u32` can take when encoded as a varint.
pub const VARINT_MAX_32: usize = 5;

} // verus!
