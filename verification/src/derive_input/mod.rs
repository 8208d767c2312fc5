//! What the derive macros decide before they write any code: how the `#[bincode(..)]`,
//! `#[static_size(..)]` and `#[repr(..)]` attributes of a type and its fields read, how many
//! bits an enum's variant index takes, how a struct's fields fall into runs of bit-packed and
//! plain fields, the `StaticSize` expression of a type, and the text of the bodies that the
//! `BitPacked` derive writes for the encode and decode functions of a struct or an enum, and of
//! what the `ZeroCopy` derive writes for its builder.
//!
//! The macros themselves receive token streams from the compiler; here an attribute's argument
//! list is given as plain text items, and the results are plain values.


pub mod attribute;
pub mod bit_packed_text;
pub mod layout;
pub mod size_expr;
pub mod text;
pub mod zero_copy_text;
