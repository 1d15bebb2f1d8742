//! The trusted boundary to the compressor.
//!
//! The distance engine needs one number per text: the length of its gzip
//! compression at the fixed default level. That length is a function of the
//! input characters alone, so it is given a name, `gzip_len`, and the one
//! wrapper around `flate2` is the only code the verifier takes on trust.

use std::io::Write;

use flate2::write::GzEncoder;
use flate2::Compression;
use vstd::prelude::*;

verus! {

/// The length, in bytes, of the gzip compression of `s` at the default
/// compression level. Only the trusted wrapper below says anything about it.
pub uninterp spec fn gzip_len(s: Seq<char>) -> nat;

/// Relies on `flate2::write::GzEncoder` over an in-memory `Vec<u8>` sink at
/// `Compression::default()`: the encoder is deterministic, and writing to a
/// `Vec` cannot fail, so the compressed length is a function of the input
/// characters alone.
#[verifier::external_body]
pub(crate) fn compress_len(data: &str) -> (r: usize)
    ensures
        r == gzip_len(data@),
{
    let mut encoder = GzEncoder::new(Vec::new(), Compression::default());
    encoder.write_all(data.as_bytes()).unwrap();
    encoder.finish().unwrap().len()
}

} // verus!
