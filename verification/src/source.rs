//! The byte source of the I/O-bound workload: how large it is to be, when
//! an existing file can serve as it is, and the bytes it is filled with.

use vstd::prelude::*;

verus! {

/// The bytes in one mebibyte.
pub const BYTES_PER_MIB: usize = 1048576;

/// The size in bytes of a source of `size_mib` mebibytes, or `None` when
/// that does not fit in `usize`.
pub fn source_size_bytes(size_mib: usize) -> (size: Option<usize>)
    ensures
        size_mib * BYTES_PER_MIB <= usize::MAX ==> size == Some(
            (size_mib * BYTES_PER_MIB) as usize,
        ),
        size_mib * BYTES_PER_MIB > usize::MAX ==> size is None,
{
    size_mib.checked_mul(BYTES_PER_MIB)
}

/// Whether a file that is already there can serve as the source: it
/// exists, `existing_len` being its length, and has exactly `size_bytes`
/// bytes.
pub fn source_is_ready(existing_len: Option<u64>, size_bytes: usize) -> (ready: bool)
    ensures
        ready == (existing_len == Some(size_bytes as u64)),
{
    match existing_len {
        Some(len) => len == size_bytes as u64,
        None => false,
    }
}

/// The chunk that the source is filled with: `len` bytes that count from 0
/// to 255 over and over.
pub fn pattern_chunk(len: usize) -> (chunk: Vec<u8>)
    ensures
        chunk@.len() == len,
        forall|i: int| 0 <= i < len ==> #[trigger] chunk@[i] == i % 256,
{
    let mut chunk: Vec<u8> = Vec::new();
    let mut i: usize = 0;
    while i < len
        invariant
            i <= len,
            chunk@.len() == i,
            forall|j: int| 0 <= j < i ==> #[trigger] chunk@[j] == j % 256,
        decreases len - i,
    {
        chunk.push((i % 256) as u8);
        i = i + 1;
    }
    chunk
}

} // verus!
