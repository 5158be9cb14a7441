//! A transfer of a fixed number of bytes, in chunks.
use vstd::prelude::*;

verus! {

/// The most that is sent at once: 64 packets of 1500 bytes.
pub const SEND_CHUNK: usize = 96000;

/// What is sent next, when `remaining` bytes are left.
pub fn next_chunk(remaining: usize) -> (n: usize)
    ensures
        n == if remaining <= SEND_CHUNK {
            remaining
        } else {
            SEND_CHUNK
        },
{
    if remaining <= SEND_CHUNK {
        remaining
    } else {
        SEND_CHUNK
    }
}

} // verus!
