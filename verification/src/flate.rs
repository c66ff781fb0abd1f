//! Trusted boundary to `flate2`: raw (headerless) DEFLATE decompression of
//! the accumulated pixel data, and recompression of the reordered pixel
//! buffer into a standard zlib stream.  What the DEFLATE coder computes is
//! named, never restated.

use vstd::prelude::*;

verus! {

/// What a raw (headerless) DEFLATE stream decodes to, `None` when the bytes
/// are not a well-formed stream.  Uninterpreted: decoding is deterministic
/// in the input bytes, so the result only gets a name here; the trusted
/// items below speak in terms of it.
pub uninterp spec fn raw_inflate_of(s: Seq<u8>) -> Option<Seq<u8>>;

/// What a standard zlib stream (2-byte header, DEFLATE body, Adler-32
/// trailer) decodes to, `None` when the bytes are not a well-formed stream.
pub uninterp spec fn zlib_inflate_of(s: Seq<u8>) -> Option<Seq<u8>>;

/// The zlib stream that compressing `s` at the fast preset produces.
/// Uninterpreted: with the one compression backend this build links, the
/// encoder's output is a function of the input bytes alone.
pub uninterp spec fn zlib_deflate_of(s: Seq<u8>) -> Seq<u8>;

/// Relies on `flate2::Decompress::decompress` with `zlib_header == false`
/// and `FlushDecompress::Finish`: decodes `compressed` as a raw DEFLATE
/// stream into a buffer of `expected` bytes and returns the bytes produced.
/// A stream that decodes to at most `expected` bytes is decoded in full; a
/// longer or ill-formed stream yields at most `expected` bytes or an error.
/// The backend handles at most `u32::MAX` input and output bytes in one
/// call, so both buffers are bounded here.
#[verifier::external_body]
pub(crate) fn inflate_raw(compressed: &Vec<u8>, expected: usize) -> (r: Result<Vec<u8>, ()>)
    requires
        compressed@.len() <= 0xFFFFFFFF,
        expected as int <= 0xFFFFFFFF,
    ensures
        (r matches Ok(v) ==> v@.len() <= expected),
        (r matches Ok(v) ==> (raw_inflate_of(compressed@) matches Some(d) ==> (d.len()
            <= expected as int ==> v@ == d))),
        (r is Err ==> (raw_inflate_of(compressed@) matches Some(d) ==> d.len()
            > expected as int)),
{
    let mut out = vec![0u8; expected];
    let mut dec = flate2::Decompress::new(false);
    match dec.decompress(compressed.as_slice(), &mut out, flate2::FlushDecompress::Finish) {
        Ok(_) => {
            out.truncate(dec.total_out() as usize);
            Ok(out)
        },
        Err(_) => Err(()),
    }
}

/// Relies on `flate2::write::ZlibEncoder` at `Compression::fast`: wraps
/// `data` in a standard zlib stream; decoding the stream yields `data`
/// again.  The encoder writes into a `Vec`, whose writes cannot fail, and
/// signals an error only from an inconsistent stream state, so the call
/// always returns the encoded bytes.
#[verifier::external_body]
pub(crate) fn deflate_zlib(data: &Vec<u8>) -> (r: Vec<u8>)
    ensures
        r@ == zlib_deflate_of(data@),
        zlib_inflate_of(r@) == Some(data@),
{
    let mut enc = flate2::write::ZlibEncoder::new(Vec::new(), flate2::Compression::fast());
    std::io::Write::write_all(&mut enc, data.as_slice()).expect("writes to a Vec cannot fail");
    enc.finish().expect("writes to a Vec cannot fail")
}

} // verus!
