//! Request-size limit of the ingestion path.

use vstd::prelude::*;

verus! {

/// Largest request body the ingestion path accepts, in bytes.
pub const MAX_SIZE_BUFFER_REQUEST: usize = 16_777_216;

/// Whether appending a chunk of `chunk_len` bytes to a body of `body_len`
/// bytes would push the body over [`MAX_SIZE_BUFFER_REQUEST`].
pub fn exceeds_buffer_limit(body_len: usize, chunk_len: usize) -> (r: bool)
    ensures
        r <==> body_len + chunk_len > MAX_SIZE_BUFFER_REQUEST,
{
    chunk_len > MAX_SIZE_BUFFER_REQUEST || body_len > MAX_SIZE_BUFFER_REQUEST - chunk_len
}

} // verus!
