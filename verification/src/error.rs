//! Failure modes of the PNG normalizer.  All are fatal for the single call
//! that raised them and carry no partial output.

use vstd::prelude::*;

verus! {

/// Why a normalization call failed.
#[derive(Clone, Copy, Debug, PartialEq, Eq, Structural)]
pub enum NormalizeError {
    /// The buffer is shorter than 20 bytes or does not start with the
    /// 8-byte PNG signature.
    MalformedHeader,
    /// The accumulated pixel-data payload was not a decodable raw DEFLATE
    /// stream, or the uncompressed size implied by the header chunk's
    /// geometry cannot be addressed on this machine.
    DecompressionFailure,
    /// Recompressing the reordered pixel buffer failed, or its compressed
    /// form is too long for a chunk's 32-bit length field.
    CompressionFailure,
}

impl NormalizeError {
    /// A short human-readable description.
    pub fn message(&self) -> (r: &'static str)
        ensures
            r@.len() > 0,
    {
        proof {
            reveal_strlit("invalid PNG header");
            reveal_strlit("could not decompress pixel data");
            reveal_strlit("could not recompress pixel data");
        }
        match self {
            NormalizeError::MalformedHeader => "invalid PNG header",
            NormalizeError::DecompressionFailure => "could not decompress pixel data",
            NormalizeError::CompressionFailure => "could not recompress pixel data",
        }
    }
}

} // verus!
