//! Decisions of the buffered writer over `std::io::Write`.
use vstd::prelude::*;

verus! {

/// The capacity of the buffer of a writer over `std::io::Write`.
pub const IO_BUFFER_LEN: usize = 2048;

/// What a buffered writer does with `incoming` bytes.
#[derive(Copy, Clone, Debug, PartialEq, Eq, Structural)]
pub enum WritePlan {
    /// Copy the bytes behind the buffered ones.
    Append,
    /// Hand the buffered bytes to the underlying writer, then copy the bytes into the empty
    /// buffer.
    FlushThenBuffer,
    /// Hand the buffered bytes to the underlying writer, then hand it the bytes directly.
    FlushThenWrite,
}

/// Decide what a writer with `buffered` bytes in a buffer of `capacity` bytes does with
/// `incoming` more: keep them if they fit behind the others; otherwise flush, then keep them if
/// they are fewer than the capacity, else write them through.
pub fn plan_write(buffered: usize, incoming: usize, capacity: usize) -> (p: WritePlan)
    requires
        buffered <= capacity,
    ensures
        incoming <= capacity - buffered ==> p == WritePlan::Append,
        incoming > capacity - buffered && incoming < capacity ==> p == WritePlan::FlushThenBuffer,
        incoming > capacity - buffered && incoming >= capacity ==> p == WritePlan::FlushThenWrite,
{
    if incoming <= capacity - buffered {
        WritePlan::Append
    } else if incoming >= capacity {
        WritePlan::FlushThenWrite
    } else {
        WritePlan::FlushThenBuffer
    }
}

} // verus!
