//! LZ4 block compression, done by the `lz4_flex` crate.

use vstd::prelude::*;

verus! {

/// The LZ4 block that `lz4_flex` makes of `raw`.
pub uninterp spec fn lz4_block(raw: Seq<u8>) -> Seq<u8>;

/// What `lz4_flex` decodes from the block `compressed` into a buffer of
/// `capacity` bytes: the bytes, or nothing where the block is malformed or
/// holds more than the buffer.
pub uninterp spec fn lz4_unblock(compressed: Seq<u8>, capacity: int) -> Option<Seq<u8>>;

/// Longest block that `lz4_flex` makes of `len` bytes.
pub open spec fn lz4_block_len_max(len: int) -> int {
    20 + len * 110 / 100
}

/// The bytes of an optional buffer.
pub open spec fn bytes_of(data: Option<Vec<u8>>) -> Option<Seq<u8>> {
    match data {
        Some(v) => Some(v@),
        None => None,
    }
}

/// Calls `lz4_flex::block::compress`.
///
/// Trusted: the result is the crate's block for these bytes (the same
/// bytes always give the same block); it is no longer than the size the
/// crate itself reserves for it, `get_maximum_output_size`; and, the
/// format being lossless, the crate decodes the block back to these bytes
/// into any buffer that is large enough for them.
#[verifier::external_body]
pub fn compress_lz4(raw: &[u8]) -> (out: Vec<u8>)
    ensures
        out@ == lz4_block(raw@),
        out@.len() <= lz4_block_len_max(raw@.len() as int),
        forall|capacity: int|
            capacity >= raw@.len() ==> #[trigger] lz4_unblock(out@, capacity) == Some(raw@),
{
    lz4_flex::block::compress(raw)
}

/// Calls `lz4_flex::block::decompress`.
///
/// Trusted: the result is a function of the block and the buffer size, and
/// it never holds more than `min_size` bytes. The crate's checked decoder
/// reports every malformed block, and every block that holds more than
/// `min_size` bytes, as an error, which comes out as `None`. The buffer
/// that the crate makes holds `min_size` bytes, which must be no more than
/// a `Vec` can hold.
#[verifier::external_body]
pub fn decompress_lz4(compressed: &[u8], min_size: usize) -> (out: Option<Vec<u8>>)
    requires
        min_size <= isize::MAX,
    ensures
        bytes_of(out) == lz4_unblock(compressed@, min_size as int),
        out matches Some(v) ==> v@.len() <= min_size,
{
    lz4_flex::block::decompress(compressed, min_size).ok()
}

} // verus!
