//! Normalizer for the vendor-proprietary `CgBI` PNG variant: parses the
//! chunk stream, drops the vendor marker chunk, decompresses the accumulated
//! pixel data as a headerless DEFLATE stream, swaps each pixel's red and
//! blue bytes, recompresses into a standard zlib stream, and reassembles a
//! standards-compliant PNG with freshly computed CRCs.
//!
//! A truncated chunk stream is not an error: parsing stops and the chunks
//! already rewritten are returned, matching the best-effort policy for the
//! malformed files this variant produces in the wild.

use vstd::prelude::*;
use crate::chunk::{chunk_bytes, push_bytes, read_be32, u32_of_be, write_chunk};
use crate::error::NormalizeError;
use crate::flate::{deflate_zlib, inflate_raw, raw_inflate_of, zlib_deflate_of, zlib_inflate_of};
use crate::pixels::{spec_swapped, swap_rgb_channels};

verus! {

/// The 8-byte PNG signature.
pub open spec fn png_signature() -> Seq<u8> {
    seq![0x89u8, 0x50u8, 0x4Eu8, 0x47u8, 0x0Du8, 0x0Au8, 0x1Au8, 0x0Au8]
}

/// Type tag of the header chunk, `IHDR`.
pub open spec fn ihdr_tag() -> Seq<u8> {
    seq![0x49u8, 0x48u8, 0x44u8, 0x52u8]
}

/// Type tag of a pixel-data chunk, `IDAT`.
pub open spec fn idat_tag() -> Seq<u8> {
    seq![0x49u8, 0x44u8, 0x41u8, 0x54u8]
}

/// Type tag of the vendor marker chunk, `CgBI`.
pub open spec fn cgbi_tag() -> Seq<u8> {
    seq![0x43u8, 0x67u8, 0x42u8, 0x49u8]
}

/// Type tag of the terminal chunk, `IEND`.
pub open spec fn iend_tag() -> Seq<u8> {
    seq![0x49u8, 0x45u8, 0x4Eu8, 0x44u8]
}

/// A buffer long enough to inspect that starts with the PNG signature.
pub open spec fn spec_has_png_header(d: Seq<u8>) -> bool {
    d.len() >= 20 && d.subrange(0, 8) == png_signature()
}

/// The vendor variant: a PNG whose second chunk's type tag, at bytes 12-16,
/// is the vendor marker.
pub open spec fn spec_is_cgbi(d: Seq<u8>) -> bool {
    spec_has_png_header(d) && d.subrange(12, 16) == cgbi_tag()
}

/// What one pass over the chunk stream accumulates.
pub struct ScanState {
    /// Bytes rewritten for chunks that pass through (header chunk and any
    /// unrecognized chunk), in encounter order, CRCs recomputed.
    pub out: Seq<u8>,
    /// Concatenated payloads of the pixel-data chunks.
    pub idat: Seq<u8>,
    /// Width from the last header chunk seen, 0 before any.
    pub width: u32,
    /// Height from the last header chunk seen, 0 before any.
    pub height: u32,
    /// Whether the terminal chunk was reached before the buffer ran out.
    pub ended: bool,
}

/// One pass over the chunk stream of `d` from byte offset `pos`, with `w`
/// and `h` the geometry gathered so far.  Stops without error when fewer
/// than 12 bytes remain for a chunk frame or a declared length overruns the
/// buffer; stops after the terminal chunk.  The vendor marker chunk and the
/// pixel-data chunks contribute nothing to `out`: the marker is dropped and
/// the pixel data is diverted into `idat`.
pub open spec fn spec_scan(d: Seq<u8>, pos: int, w: u32, h: u32) -> ScanState
    decreases d.len() - pos,
{
    if pos < 0 || pos + 12 > d.len() {
        ScanState { out: seq![], idat: seq![], width: w, height: h, ended: false }
    } else {
        let length = u32_of_be(d[pos], d[pos + 1], d[pos + 2], d[pos + 3]) as int;
        let ty = d.subrange(pos + 4, pos + 8);
        let dend = pos + 8 + length;
        if dend + 4 > d.len() {
            ScanState { out: seq![], idat: seq![], width: w, height: h, ended: false }
        } else {
            let payload = d.subrange(pos + 8, dend);
            if ty == iend_tag() {
                ScanState { out: seq![], idat: seq![], width: w, height: h, ended: true }
            } else {
                let w2 = if ty == ihdr_tag() && length >= 8 {
                    u32_of_be(payload[0], payload[1], payload[2], payload[3])
                } else {
                    w
                };
                let h2 = if ty == ihdr_tag() && length >= 8 {
                    u32_of_be(payload[4], payload[5], payload[6], payload[7])
                } else {
                    h
                };
                let rest = spec_scan(d, dend + 4, w2, h2);
                let contrib_out = if ty == idat_tag() || ty == cgbi_tag() {
                    seq![]
                } else {
                    chunk_bytes(ty, payload)
                };
                let contrib_idat = if ty == idat_tag() {
                    payload
                } else {
                    seq![]
                };
                ScanState {
                    out: contrib_out + rest.out,
                    idat: contrib_idat + rest.idat,
                    width: rest.width,
                    height: rest.height,
                    ended: rest.ended,
                }
            }
        }
    }
}

/// The scan of a whole buffer: from byte offset 8, geometry unknown.
pub open spec fn scan_of(d: Seq<u8>) -> ScanState {
    spec_scan(d, 8, 0u32, 0u32)
}

/// Whether the scan gathered everything a rebuilt pixel-data chunk needs:
/// a terminal chunk, some pixel data, and nonzero geometry.
pub open spec fn spec_needs_rebuild(d: Seq<u8>) -> bool {
    let s = scan_of(d);
    s.ended && s.idat.len() > 0 && s.width > 0 && s.height > 0
}

/// The uncompressed size the geometry implies: one filter byte per row plus
/// four bytes per pixel.
pub open spec fn expected_len(w: u32, h: u32) -> int {
    (w as int) * (h as int) * 4 + (h as int)
}

/// The normalized output when no pixel-data chunk is rebuilt: signature,
/// pass-through chunks, and the terminal chunk if it was reached.
pub open spec fn plain_output(d: Seq<u8>) -> Seq<u8> {
    let s = scan_of(d);
    if s.ended {
        png_signature() + s.out + chunk_bytes(iend_tag(), seq![])
    } else {
        png_signature() + s.out
    }
}

/// The normalized output when a pixel-data chunk is rebuilt: signature,
/// pass-through chunks, one pixel-data chunk holding the fast-preset zlib
/// encoding of the channel-swapped pixel buffer, and the terminal chunk.
/// The pixel buffer is the raw DEFLATE decoding of the accumulated pixel
/// data whenever that decoding exists and fits the expected size.
pub open spec fn rebuilt_output(d: Seq<u8>, out: Seq<u8>) -> bool {
    let s = scan_of(d);
    exists|zl: Seq<u8>, px: Seq<u8>|
        {
            &&& px.len() <= expected_len(s.width, s.height)
            &&& (raw_inflate_of(s.idat) matches Some(p0) ==> (p0.len() <= expected_len(
                s.width,
                s.height,
            ) ==> px == p0))
            &&& zl == zlib_deflate_of(spec_swapped(px, s.width as nat, s.height as nat))
            &&& zlib_inflate_of(zl) == Some(spec_swapped(px, s.width as nat, s.height as nat))
            &&& zl.len() <= 0xFFFFFFFF
            &&& out == png_signature() + s.out + chunk_bytes(idat_tag(), zl) + chunk_bytes(
                iend_tag(),
                seq![],
            )
        }
}

/// Everything the rebuild path needs to succeed, with `p` the raw DEFLATE
/// decoding of the accumulated pixel data: a vendor variant with pixel
/// data and geometry, pixel data and uncompressed size inside the 32-bit
/// bound of one chunk and one decompression call, and a recompressed
/// stream that fits one chunk's length field.
pub open spec fn rebuild_succeeds(d: Seq<u8>, p: Seq<u8>) -> bool {
    let s = scan_of(d);
    &&& spec_is_cgbi(d)
    &&& spec_needs_rebuild(d)
    &&& expected_len(s.width, s.height) <= 0xFFFFFFFF
    &&& s.idat.len() <= 0xFFFFFFFF
    &&& p.len() <= expected_len(s.width, s.height)
    &&& zlib_deflate_of(spec_swapped(p, s.width as nat, s.height as nat)).len() <= 0xFFFFFFFF
}

/// The exact bytes of the rebuilt PNG whose pixel buffer decodes to `p`.
pub open spec fn rebuilt_bytes(d: Seq<u8>, p: Seq<u8>) -> Seq<u8> {
    let s = scan_of(d);
    png_signature() + s.out + chunk_bytes(
        idat_tag(),
        zlib_deflate_of(spec_swapped(p, s.width as nat, s.height as nat)),
    ) + chunk_bytes(iend_tag(), seq![])
}

/// Compares four bytes of `data` starting at `pos` with a type tag.
fn tag_is(data: &[u8], pos: usize, t0: u8, t1: u8, t2: u8, t3: u8) -> (r: bool)
    requires
        pos + 4 <= data@.len(),
    ensures
        r == (data@.subrange(pos as int, pos as int + 4) == seq![t0, t1, t2, t3]),
{
    let r = data[pos] == t0 && data[pos + 1] == t1 && data[pos + 2] == t2 && data[pos + 3] == t3;
    proof {
        let s = data@.subrange(pos as int, pos as int + 4);
        if r {
            assert(s =~= seq![t0, t1, t2, t3]);
        } else {
            if s == seq![t0, t1, t2, t3] {
                assert(data@[pos as int] == s[0]);
                assert(data@[pos as int + 1] == s[1]);
                assert(data@[pos as int + 2] == s[2]);
                assert(data@[pos as int + 3] == s[3]);
            }
        }
    }
    r
}

/// Whether `data` is long enough to inspect and starts with the PNG
/// signature.
fn has_png_header(data: &[u8]) -> (r: bool)
    ensures
        r == spec_has_png_header(data@),
{
    if data.len() < 20 {
        return false;
    }
    let r = data[0] == 0x89 && data[1] == 0x50 && data[2] == 0x4E && data[3] == 0x47 && data[4]
        == 0x0D && data[5] == 0x0A && data[6] == 0x1A && data[7] == 0x0A;
    proof {
        let s = data@.subrange(0, 8);
        if r {
            assert(s =~= png_signature());
        } else {
            if s == png_signature() {
                assert(data@[0] == s[0]);
                assert(data@[1] == s[1]);
                assert(data@[2] == s[2]);
                assert(data@[3] == s[3]);
                assert(data@[4] == s[4]);
                assert(data@[5] == s[5]);
                assert(data@[6] == s[6]);
                assert(data@[7] == s[7]);
            }
        }
    }
    r
}

/// Detects the vendor variant: a PNG signature and the vendor marker tag at
/// bytes 12-16, where the vendor toolchain always places its marker chunk.
/// Returns false for buffers shorter than 20 bytes.
pub fn is_cgbi_png(data: &[u8]) -> (r: bool)
    ensures
        r == spec_is_cgbi(data@),
{
    if !has_png_header(data) {
        return false;
    }
    tag_is(data, 12, 0x43, 0x67, 0x42, 0x49)
}

/// Builds a 4-byte type tag as an owned buffer.
fn tag_vec(t0: u8, t1: u8, t2: u8, t3: u8) -> (r: Vec<u8>)
    ensures
        r@ == seq![t0, t1, t2, t3],
{
    let mut v: Vec<u8> = Vec::new();
    v.push(t0);
    v.push(t1);
    v.push(t2);
    v.push(t3);
    proof {
        assert(v@ =~= seq![t0, t1, t2, t3]);
    }
    v
}

/// Rebuilds the pixel-data payload: decompresses `compressed` as a raw
/// DEFLATE stream sized by the geometry, swaps each pixel's red and blue
/// bytes in place, and wraps the result in a standard zlib stream.  Fails
/// with `DecompressionFailure` when the stream will not decode within the
/// expected size or either buffer exceeds the 32-bit bound of one
/// decompression call, and with `CompressionFailure` when the recompressed
/// stream cannot be framed in one chunk.
pub fn normalize_idat(compressed: &Vec<u8>, width: u32, height: u32) -> (r: Result<
    Vec<u8>,
    NormalizeError,
>)
    ensures
        (r matches Ok(v) ==> exists|px: Seq<u8>|
            {
                &&& px.len() <= expected_len(width, height)
                &&& (raw_inflate_of(compressed@) matches Some(p0) ==> (p0.len() <= expected_len(
                    width,
                    height,
                ) ==> px == p0))
                &&& v@ == zlib_deflate_of(spec_swapped(px, width as nat, height as nat))
                &&& zlib_inflate_of(v@) == Some(spec_swapped(px, width as nat, height as nat))
            }),
        (r matches Ok(v) ==> v@.len() <= 0xFFFFFFFF),
        (raw_inflate_of(compressed@) matches Some(p) ==> ((expected_len(width, height)
            <= 0xFFFFFFFF && compressed@.len() <= 0xFFFFFFFF && p.len() <= expected_len(
            width,
            height,
        ) && zlib_deflate_of(spec_swapped(p, width as nat, height as nat)).len() <= 0xFFFFFFFF)
            ==> (r matches Ok(v) && v@ == zlib_deflate_of(
            spec_swapped(p, width as nat, height as nat),
        )))),
        (r == Err::<Vec<u8>, NormalizeError>(NormalizeError::DecompressionFailure) ==> expected_len(
            width,
            height,
        ) > 0xFFFFFFFF || compressed@.len() > 0xFFFFFFFF || (raw_inflate_of(
            compressed@,
        ) matches Some(p) ==> p.len() > expected_len(width, height))),
        (r == Err::<Vec<u8>, NormalizeError>(NormalizeError::CompressionFailure) ==> exists|
            px: Seq<u8>,
        |
            {
                &&& px.len() <= expected_len(width, height)
                &&& (raw_inflate_of(compressed@) matches Some(p0) ==> (p0.len() <= expected_len(
                    width,
                    height,
                ) ==> px == p0))
                &&& zlib_deflate_of(spec_swapped(px, width as nat, height as nat)).len()
                    > 0xFFFFFFFF
            }),
        (r is Err ==> r == Err::<Vec<u8>, NormalizeError>(NormalizeError::DecompressionFailure)
            || r == Err::<Vec<u8>, NormalizeError>(NormalizeError::CompressionFailure)),
{
    let wu: u64 = width as u64;
    let hu: u64 = height as u64;
    proof {
        assert(wu * hu <= 0xFFFFFFFFu64 * 0xFFFFFFFFu64) by (nonlinear_arith)
            requires
                wu <= 0xFFFFFFFFu64,
                hu <= 0xFFFFFFFFu64,
        ;
    }
    let prod: u64 = wu * hu;
    let total: u128 = (prod as u128) * 4 + (hu as u128);
    if total > 0xFFFFFFFFu128 {
        return Err(NormalizeError::DecompressionFailure);
    }
    if (compressed.len() as u64) > 0xFFFFFFFFu64 {
        return Err(NormalizeError::DecompressionFailure);
    }
    let expected: usize = total as usize;
    let mut pixels = match inflate_raw(compressed, expected) {
        Ok(p) => p,
        Err(()) => {
            return Err(NormalizeError::DecompressionFailure);
        },
    };
    let ghost px0: Seq<u8> = pixels@;
    swap_rgb_channels(&mut pixels, width, height);
    let z = deflate_zlib(&pixels);
    if z.len() > 0xFFFFFFFF {
        proof {
            assert(exists|px: Seq<u8>|
                {
                    &&& px.len() <= expected_len(width, height)
                    &&& (raw_inflate_of(compressed@) matches Some(p0) ==> (p0.len()
                        <= expected_len(width, height) ==> px == p0))
                    &&& zlib_deflate_of(spec_swapped(px, width as nat, height as nat)).len()
                        > 0xFFFFFFFF
                }) by {
                assert(px0.len() <= expected_len(width, height));
                assert(zlib_deflate_of(spec_swapped(px0, width as nat, height as nat)).len()
                    > 0xFFFFFFFF);
            }
        }
        return Err(NormalizeError::CompressionFailure);
    }
    proof {
        assert(exists|px: Seq<u8>|
            {
                &&& px.len() <= expected_len(width, height)
                &&& (raw_inflate_of(compressed@) matches Some(p0) ==> (p0.len() <= expected_len(
                    width,
                    height,
                ) ==> px == p0))
                &&& z@ == zlib_deflate_of(spec_swapped(px, width as nat, height as nat))
                &&& zlib_inflate_of(z@) == Some(spec_swapped(px, width as nat, height as nat))
            }) by {
            assert(px0.len() <= expected_len(width, height));
            assert(z@ == zlib_deflate_of(spec_swapped(px0, width as nat, height as nat)));
            assert(zlib_inflate_of(z@) == Some(spec_swapped(px0, width as nat, height as nat)));
        }
    }
    Ok(z)
}

/// Normalizes a vendor-variant PNG to a standards-compliant one.
///
/// A buffer that is too short or lacks the PNG signature is rejected.  A
/// PNG that is not the vendor variant is returned unchanged.  Otherwise the
/// chunk stream is rewritten: the header chunk and unrecognized chunks pass
/// through with recomputed CRCs, the vendor marker chunk is dropped, the
/// pixel-data chunks are rebuilt into one standard chunk, and a truncated
/// stream yields whatever chunks were fully parsed.  Whenever the
/// accumulated pixel data decodes within the geometry's bounds and the
/// rebuilt stream fits one chunk, the call succeeds and its output bytes
/// are fixed exactly.
pub fn normalize_cgbi_png(data: &[u8]) -> (r: Result<Vec<u8>, NormalizeError>)
    ensures
        ((r == Err::<Vec<u8>, NormalizeError>(NormalizeError::MalformedHeader))
            <==> !spec_has_png_header(data@)),
        (spec_has_png_header(data@) && !spec_is_cgbi(data@) ==> (r matches Ok(v) && v@ == data@)),
        (spec_is_cgbi(data@) && !spec_needs_rebuild(data@) ==> (r matches Ok(v) && v@
            == plain_output(data@))),
        (spec_is_cgbi(data@) && spec_needs_rebuild(data@) ==> (r matches Ok(v) ==> rebuilt_output(
            data@,
            v@,
        ))),
        (raw_inflate_of(scan_of(data@).idat) matches Some(p) ==> (rebuild_succeeds(data@, p)
            ==> (r matches Ok(v) && v@ == rebuilt_bytes(data@, p)))),
        (r == Err::<Vec<u8>, NormalizeError>(NormalizeError::DecompressionFailure)
            ==> spec_is_cgbi(data@) && spec_needs_rebuild(data@) && (expected_len(
            scan_of(data@).width,
            scan_of(data@).height,
        ) > 0xFFFFFFFF || scan_of(data@).idat.len() > 0xFFFFFFFF || (raw_inflate_of(
            scan_of(data@).idat,
        ) matches Some(p) ==> p.len() > expected_len(scan_of(data@).width, scan_of(data@).height)))),
        (r == Err::<Vec<u8>, NormalizeError>(NormalizeError::CompressionFailure) ==> spec_is_cgbi(
            data@,
        ) && spec_needs_rebuild(data@) && (exists|px: Seq<u8>|
            {
                &&& px.len() <= expected_len(scan_of(data@).width, scan_of(data@).height)
                &&& (raw_inflate_of(scan_of(data@).idat) matches Some(p0) ==> (p0.len()
                    <= expected_len(scan_of(data@).width, scan_of(data@).height) ==> px == p0))
                &&& zlib_deflate_of(
                    spec_swapped(px, scan_of(data@).width as nat, scan_of(data@).height as nat),
                ).len() > 0xFFFFFFFF
            })),
{
    if !has_png_header(data) {
        return Err(NormalizeError::MalformedHeader);
    }
    if !is_cgbi_png(data) {
        // already standard: idempotent pass-through
        let mut v: Vec<u8> = Vec::new();
        push_bytes(&mut v, data);
        proof {
            assert(v@ =~= data@);
        }
        return Ok(v);
    }
    let ghost d: Seq<u8> = data@;
    let ghost target: ScanState = scan_of(d);
    let len: usize = data.len();
    let mut result: Vec<u8> = Vec::new();
    push_bytes(&mut result, &data[0..8]);
    proof {
        assert(result@ =~= png_signature());
        assert(result@.take(8) =~= png_signature());
        assert(result@.skip(8) =~= Seq::<u8>::empty());
    }
    let mut idat: Vec<u8> = Vec::new();
    let mut width: u32 = 0;
    let mut height: u32 = 0;
    let mut ended: bool = false;
    let mut pos: usize = 8;
    loop
        invariant_except_break
            ended == false,
            target.out == result@.skip(8) + spec_scan(d, pos as int, width, height).out,
            target.idat == idat@ + spec_scan(d, pos as int, width, height).idat,
            target.width == spec_scan(d, pos as int, width, height).width,
            target.height == spec_scan(d, pos as int, width, height).height,
            target.ended == spec_scan(d, pos as int, width, height).ended,
        invariant
            data@ == d,
            len == d.len(),
            d.len() >= 20,
            8 <= pos as int <= d.len(),
            result@.len() >= 8,
            result@.take(8) == png_signature(),
        ensures
            target.out == result@.skip(8),
            target.idat == idat@,
            target.width == width,
            target.height == height,
            target.ended == ended,
        decreases d.len() - pos,
    {
        let ghost s_cur: ScanState = spec_scan(d, pos as int, width, height);
        if len - pos < 12 {
            proof {
                assert(s_cur.out =~= Seq::<u8>::empty());
                assert(result@.skip(8) + s_cur.out =~= result@.skip(8));
                assert(idat@ + s_cur.idat =~= idat@);
            }
            break;
        }
        let length_u32 = read_be32(data, pos);
        let rem: usize = len - pos - 12;
        if (length_u32 as u64) > (rem as u64) {
            proof {
                assert(pos + 8 + (length_u32 as int) + 4 > d.len());
                assert(s_cur.out =~= Seq::<u8>::empty());
                assert(result@.skip(8) + s_cur.out =~= result@.skip(8));
                assert(idat@ + s_cur.idat =~= idat@);
            }
            break;
        }
        let length: usize = length_u32 as usize;
        let dstart: usize = pos + 8;
        let dend: usize = dstart + length;
        let payload = &data[dstart..dend];
        let ghost ty: Seq<u8> = d.subrange(pos as int + 4, pos as int + 8);
        let ghost pl: Seq<u8> = d.subrange(dstart as int, dend as int);
        proof {
            assert(payload@ == pl);
            assert(pos + 8 + (length_u32 as int) + 4 <= d.len());
        }
        if tag_is(data, pos + 4, 0x49, 0x45, 0x4E, 0x44) {
            // terminal chunk: stop after it
            ended = true;
            proof {
                assert(ty == iend_tag());
                assert(s_cur.ended);
                assert(s_cur.out =~= Seq::<u8>::empty());
                assert(result@.skip(8) + s_cur.out =~= result@.skip(8));
                assert(idat@ + s_cur.idat =~= idat@);
            }
            break;
        } else if tag_is(data, pos + 4, 0x49, 0x48, 0x44, 0x52) {
            // header chunk: record geometry, copy through
            let tag = &data[pos + 4..pos + 8];
            let ghost out_before: Seq<u8> = result@;
            write_chunk(&mut result, tag, payload);
            if length >= 8 {
                width = read_be32(payload, 0);
                height = read_be32(payload, 4);
            }
            proof {
                assert(ty == ihdr_tag());
                assert(ty != iend_tag() && ty != idat_tag() && ty != cgbi_tag());
                let s_next = spec_scan(d, dend + 4, width, height);
                assert(s_cur.out == chunk_bytes(ty, pl) + s_next.out);
                assert(result@.take(8) =~= out_before.take(8));
                assert(result@.skip(8) =~= out_before.skip(8) + chunk_bytes(ty, pl));
                assert(out_before.skip(8) + s_cur.out =~= result@.skip(8) + s_next.out);
                assert(idat@ + s_cur.idat =~= idat@ + s_next.idat);
            }
        } else if tag_is(data, pos + 4, 0x49, 0x44, 0x41, 0x54) {
            // pixel-data chunk: divert the payload
            let ghost idat_before: Seq<u8> = idat@;
            push_bytes(&mut idat, payload);
            proof {
                assert(ty == idat_tag());
                assert(ty != iend_tag() && ty != ihdr_tag() && ty != cgbi_tag());
                let s_next = spec_scan(d, dend + 4, width, height);
                assert(s_cur.out == Seq::<u8>::empty() + s_next.out);
                assert(result@.skip(8) + s_cur.out =~= result@.skip(8) + s_next.out);
                assert(idat_before + s_cur.idat =~= idat@ + s_next.idat);
            }
        } else if tag_is(data, pos + 4, 0x43, 0x67, 0x42, 0x49) {
            // vendor marker chunk: dropped
            proof {
                assert(ty == cgbi_tag());
                assert(ty != iend_tag() && ty != ihdr_tag() && ty != idat_tag());
                let s_next = spec_scan(d, dend + 4, width, height);
                assert(result@.skip(8) + s_cur.out =~= result@.skip(8) + s_next.out);
                assert(idat@ + s_cur.idat =~= idat@ + s_next.idat);
            }
        } else {
            // any other chunk passes through unchanged
            let tag = &data[pos + 4..pos + 8];
            let ghost out_before: Seq<u8> = result@;
            write_chunk(&mut result, tag, payload);
            proof {
                assert(ty != iend_tag() && ty != ihdr_tag() && ty != idat_tag() && ty
                    != cgbi_tag());
                let s_next = spec_scan(d, dend + 4, width, height);
                assert(s_cur.out == chunk_bytes(ty, pl) + s_next.out);
                assert(result@.take(8) =~= out_before.take(8));
                assert(result@.skip(8) =~= out_before.skip(8) + chunk_bytes(ty, pl));
                assert(out_before.skip(8) + s_cur.out =~= result@.skip(8) + s_next.out);
                assert(idat@ + s_cur.idat =~= idat@ + s_next.idat);
            }
        }
        pos = dend + 4;
    }
    if ended && idat.len() > 0 && width > 0 && height > 0 {
        proof {
            assert(spec_needs_rebuild(d));
        }
        match normalize_idat(&idat, width, height) {
            Ok(z) => {
                let idat_ty = tag_vec(0x49, 0x44, 0x41, 0x54);
                let iend_ty = tag_vec(0x49, 0x45, 0x4E, 0x44);
                let empty_payload: Vec<u8> = Vec::new();
                let ghost loop_result: Seq<u8> = result@;
                write_chunk(&mut result, idat_ty.as_slice(), z.as_slice());
                write_chunk(&mut result, iend_ty.as_slice(), empty_payload.as_slice());
                proof {
                    let s = scan_of(d);
                    assert(idat_ty@ =~= idat_tag());
                    assert(iend_ty@ =~= iend_tag());
                    assert(empty_payload@ =~= Seq::<u8>::empty());
                    assert(loop_result =~= png_signature() + s.out) by {
                        assert(loop_result.take(8) + loop_result.skip(8) =~= loop_result);
                    }
                    assert(result@ =~= png_signature() + s.out + chunk_bytes(idat_tag(), z@)
                        + chunk_bytes(iend_tag(), Seq::<u8>::empty()));
                    let px0 = choose|px: Seq<u8>|
                        {
                            &&& px.len() <= expected_len(width, height)
                            &&& (raw_inflate_of(idat@) matches Some(p0) ==> (p0.len()
                                <= expected_len(width, height) ==> px == p0))
                            &&& z@ == zlib_deflate_of(spec_swapped(px, width as nat, height as nat))
                            &&& zlib_inflate_of(z@) == Some(
                                spec_swapped(px, width as nat, height as nat),
                            )
                        };
                    assert(rebuilt_output(d, result@)) by {
                        assert({
                            &&& px0.len() <= expected_len(s.width, s.height)
                            &&& (raw_inflate_of(s.idat) matches Some(p0) ==> (p0.len()
                                <= expected_len(s.width, s.height) ==> px0 == p0))
                            &&& z@ == zlib_deflate_of(
                                spec_swapped(px0, s.width as nat, s.height as nat),
                            )
                            &&& zlib_inflate_of(z@) == Some(
                                spec_swapped(px0, s.width as nat, s.height as nat),
                            )
                            &&& z@.len() <= 0xFFFFFFFF
                            &&& result@ == png_signature() + s.out + chunk_bytes(idat_tag(), z@)
                                + chunk_bytes(iend_tag(), seq![])
                        });
                    }
                    if raw_inflate_of(s.idat) is Some {
                        let p = raw_inflate_of(s.idat)->Some_0;
                        if rebuild_succeeds(d, p) {
                            assert(z@ == zlib_deflate_of(
                                spec_swapped(p, s.width as nat, s.height as nat),
                            ));
                            assert(result@ == rebuilt_bytes(d, p));
                        }
                    }
                }
                Ok(result)
            },
            Err(e) => {
                proof {
                    assert(e == NormalizeError::DecompressionFailure || e
                        == NormalizeError::CompressionFailure);
                    let s = scan_of(d);
                    if raw_inflate_of(s.idat) is Some {
                        let p = raw_inflate_of(s.idat)->Some_0;
                        if rebuild_succeeds(d, p) {
                            assert(false);
                        }
                    }
                    if e == NormalizeError::CompressionFailure {
                        let pxw = choose|px: Seq<u8>|
                            {
                                &&& px.len() <= expected_len(width, height)
                                &&& (raw_inflate_of(idat@) matches Some(p0) ==> (p0.len()
                                    <= expected_len(width, height) ==> px == p0))
                                &&& zlib_deflate_of(
                                    spec_swapped(px, width as nat, height as nat),
                                ).len() > 0xFFFFFFFF
                            };
                        assert(exists|px: Seq<u8>|
                            {
                                &&& px.len() <= expected_len(s.width, s.height)
                                &&& (raw_inflate_of(s.idat) matches Some(p0) ==> (p0.len()
                                    <= expected_len(s.width, s.height) ==> px == p0))
                                &&& zlib_deflate_of(
                                    spec_swapped(px, s.width as nat, s.height as nat),
                                ).len() > 0xFFFFFFFF
                            }) by {
                            assert({
                                &&& pxw.len() <= expected_len(s.width, s.height)
                                &&& (raw_inflate_of(s.idat) matches Some(p0) ==> (p0.len()
                                    <= expected_len(s.width, s.height) ==> pxw == p0))
                                &&& zlib_deflate_of(
                                    spec_swapped(pxw, s.width as nat, s.height as nat),
                                ).len() > 0xFFFFFFFF
                            });
                        }
                    }
                }
                Err(e)
            },
        }
    } else {
        if ended {
            let iend_ty = tag_vec(0x49, 0x45, 0x4E, 0x44);
            let empty_payload: Vec<u8> = Vec::new();
            let ghost loop_result: Seq<u8> = result@;
            write_chunk(&mut result, iend_ty.as_slice(), empty_payload.as_slice());
            proof {
                let s = scan_of(d);
                assert(iend_ty@ =~= iend_tag());
                assert(empty_payload@ =~= Seq::<u8>::empty());
                assert(loop_result =~= png_signature() + s.out) by {
                    assert(loop_result.take(8) + loop_result.skip(8) =~= loop_result);
                }
                assert(result@ =~= png_signature() + s.out + chunk_bytes(iend_tag(), seq![]));
            }
        } else {
            proof {
                let s = scan_of(d);
                assert(result@ =~= png_signature() + s.out) by {
                    assert(result@.take(8) + result@.skip(8) =~= result@);
                }
            }
        }
        Ok(result)
    }
}

/// Round-trip geometry consistency: when a rebuilt PNG's accumulated pixel
/// data decodes to exactly `width*height*4 + height` bytes, the zlib stream
/// inside the rebuilt pixel-data chunk decodes to exactly that many bytes
/// again.
pub proof fn lemma_round_trip_geometry(d: Seq<u8>, out: Seq<u8>)
    requires
        rebuilt_output(d, out),
        raw_inflate_of(scan_of(d).idat) is Some,
        (raw_inflate_of(scan_of(d).idat)->Some_0).len() == expected_len(
            scan_of(d).width,
            scan_of(d).height,
        ),
    ensures
        exists|zl: Seq<u8>|
            {
                &&& out == png_signature() + scan_of(d).out + chunk_bytes(idat_tag(), zl)
                    + chunk_bytes(iend_tag(), seq![])
                &&& zlib_inflate_of(zl) is Some
                &&& (zlib_inflate_of(zl)->Some_0).len() == expected_len(
                    scan_of(d).width,
                    scan_of(d).height,
                )
            },
{
    let s = scan_of(d);
    let (zl, px) = choose|zl: Seq<u8>, px: Seq<u8>|
        {
            &&& px.len() <= expected_len(s.width, s.height)
            &&& (raw_inflate_of(s.idat) matches Some(p0) ==> (p0.len() <= expected_len(
                s.width,
                s.height,
            ) ==> px == p0))
            &&& zl == zlib_deflate_of(spec_swapped(px, s.width as nat, s.height as nat))
            &&& zlib_inflate_of(zl) == Some(spec_swapped(px, s.width as nat, s.height as nat))
            &&& zl.len() <= 0xFFFFFFFF
            &&& out == png_signature() + s.out + chunk_bytes(idat_tag(), zl) + chunk_bytes(
                iend_tag(),
                seq![],
            )
        };
    let p0 = raw_inflate_of(s.idat)->Some_0;
    assert(px == p0);
    assert(spec_swapped(px, s.width as nat, s.height as nat).len() == px.len());
    assert({
        &&& out == png_signature() + scan_of(d).out + chunk_bytes(idat_tag(), zl) + chunk_bytes(
            iend_tag(),
            seq![],
        )
        &&& zlib_inflate_of(zl) is Some
        &&& (zlib_inflate_of(zl)->Some_0).len() == expected_len(scan_of(d).width, scan_of(d).height)
    });
}

} // verus!
