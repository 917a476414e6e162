//! The decompression collaborator: the one stage of decoding done by an
//! outside crate. Given the assembled compressed buffer and a cap on the
//! output size, it yields the decompressed bytes or fails.

use vstd::prelude::*;

verus! {

/// What decompressing `data` under the output cap `limit` yields, or
/// `None` when the stream cannot be decompressed within the cap. The
/// outcome is a function of the two arguments alone.
pub uninterp spec fn inflate_of(data: Seq<u8>, limit: nat) -> Option<Seq<u8>>;

/// Relies on miniz_oxide::inflate::decompress_to_vec_zlib_with_limit: it
/// decompresses an RFC 1950 stream into a buffer grown to at most
/// `limit` bytes, deterministically in its two arguments, and reports
/// every failure on malformed or oversized input as an error value
/// rather than panicking.
#[verifier::external_body]
pub(crate) fn inflate(data: &[u8], limit: usize) -> (res: Option<Vec<u8>>)
    ensures
        res matches Some(v) ==> inflate_of(data@, limit as nat) == Option::Some(v@),
        res is None ==> inflate_of(data@, limit as nat) is None,
{
    match miniz_oxide::inflate::decompress_to_vec_zlib_with_limit(data, limit) {
        Ok(v) => Some(v),
        Err(_) => None,
    }
}

} // verus!
