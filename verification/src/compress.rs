//! The zlib compression applied to metadata stored in a PNG file.

use vstd::prelude::*;

verus! {

/// The zlib stream that the compressor produces for a byte string.
pub uninterp spec fn spec_deflate_zlib(input: Seq<u8>) -> Seq<u8>;

/// Calls `deflate::deflate_bytes_zlib`, which compresses at the default level
/// into a fresh vector and adds the zlib header and trailer. The output is a
/// function of the input alone; the contract gives that function its name
/// and claims nothing else of it.
#[verifier::external_body]
pub(crate) fn deflate_zlib(input: &[u8]) -> (out: Vec<u8>)
    ensures
        out@ == spec_deflate_zlib(input@),
{
    deflate::deflate_bytes_zlib(input)
}

} // verus!
