//! Support for the standard collections and strings.
pub mod impl_alloc;
pub mod static_size;
pub mod bounded;
pub mod impl_arrays;
pub mod impl_std;
