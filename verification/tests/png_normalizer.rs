//! Tests for the CgBI PNG normalizer: detection, CRC computation, channel
//! reordering, chunk writing, and the end-to-end rebuild.

use ipa_parser::chunk::write_chunk;
use ipa_parser::crc::crc32;
use ipa_parser::error::NormalizeError;
use ipa_parser::pixels::swap_rgb_channels;
use ipa_parser::png_normalizer::{is_cgbi_png, normalize_cgbi_png, normalize_idat};
use std::io::{Read, Write};

const PNG_SIGNATURE: [u8; 8] = [0x89, b'P', b'N', b'G', b'\r', b'\n', 0x1A, b'\n'];

fn chunk(ty: &[u8; 4], payload: &[u8]) -> Vec<u8> {
    let mut out = Vec::new();
    write_chunk(&mut out, ty, payload);
    out
}

fn ihdr_payload(width: u32, height: u32) -> Vec<u8> {
    let mut p = Vec::new();
    p.extend_from_slice(&width.to_be_bytes());
    p.extend_from_slice(&height.to_be_bytes());
    p.extend_from_slice(&[8, 6, 0, 0, 0]);
    p
}

fn raw_deflate(data: &[u8]) -> Vec<u8> {
    let mut enc = flate2::write::DeflateEncoder::new(Vec::new(), flate2::Compression::default());
    enc.write_all(data).unwrap();
    enc.finish().unwrap()
}

fn zlib_decode(data: &[u8]) -> Vec<u8> {
    let mut dec = flate2::read::ZlibDecoder::new(data);
    let mut out = Vec::new();
    dec.read_to_end(&mut out).unwrap();
    out
}

/// Splits a PNG buffer into (type, payload, stored crc) triples.
fn parse_chunks(buf: &[u8]) -> Vec<([u8; 4], Vec<u8>, u32)> {
    assert_eq!(&buf[0..8], &PNG_SIGNATURE);
    let mut chunks = Vec::new();
    let mut pos = 8;
    while pos + 12 <= buf.len() {
        let len = u32::from_be_bytes(buf[pos..pos + 4].try_into().unwrap()) as usize;
        let ty: [u8; 4] = buf[pos + 4..pos + 8].try_into().unwrap();
        let payload = buf[pos + 8..pos + 8 + len].to_vec();
        let crc = u32::from_be_bytes(buf[pos + 8 + len..pos + 12 + len].try_into().unwrap());
        chunks.push((ty, payload, crc));
        pos += 12 + len;
    }
    assert_eq!(pos, buf.len(), "trailing garbage after last chunk");
    chunks
}

fn cgbi_png(width: u32, height: u32, idat_payload: &[u8]) -> Vec<u8> {
    let mut png = Vec::new();
    png.extend_from_slice(&PNG_SIGNATURE);
    png.extend_from_slice(&chunk(b"CgBI", &[0x50, 0x00, 0x20, 0x06]));
    png.extend_from_slice(&chunk(b"IHDR", &ihdr_payload(width, height)));
    png.extend_from_slice(&chunk(b"IDAT", idat_payload));
    png.extend_from_slice(&chunk(b"IEND", &[]));
    png
}

#[test]
fn test_is_cgbi_png() {
    // the marker tag sits at bytes 12-16; the four payload bytes after it
    // bring the buffer to the 20-byte minimum the detector inspects
    let cgbi_png = b"\x89PNG\r\n\x1a\n\x00\x00\x00\x04CgBI\x50\x00\x20\x06";
    assert!(is_cgbi_png(cgbi_png));

    let normal_png = b"\x89PNG\r\n\x1a\n\x00\x00\x00\x04IHDR\x00\x00\x00\x01";
    assert!(!is_cgbi_png(normal_png));
}

#[test]
fn test_is_cgbi_png_short_buffer() {
    // anything under 20 bytes is rejected, even with the marker in place
    assert!(!is_cgbi_png(b""));
    assert!(!is_cgbi_png(b"\x89PNG\r\n\x1a\n\x00\x00\x00\x04CgBI"));
}

#[test]
fn test_crc32_header_chunk() {
    // reference value from an independent CRC-32 (zip/PNG variant)
    let crc = crc32(b"IHDR", &ihdr_payload(1, 1));
    assert_eq!(crc, 0x1F15_C489);
}

#[test]
fn test_crc32_empty_payload() {
    assert_eq!(crc32(b"IEND", &[]), 0xAE42_6082);
}

#[test]
fn test_write_chunk_layout() {
    let mut out = Vec::new();
    write_chunk(&mut out, b"IEND", &[]);
    assert_eq!(out, vec![0, 0, 0, 0, b'I', b'E', b'N', b'D', 0xAE, 0x42, 0x60, 0x82]);
}

#[test]
fn test_channel_swap_2x2() {
    // two rows: one filter byte, then two 4-byte pixels per row
    let mut buf = vec![
        7, 1, 2, 3, 4, 5, 6, 7, 8, // row 0
        9, 11, 12, 13, 14, 15, 16, 17, 18, // row 1
    ];
    swap_rgb_channels(&mut buf, 2, 2);
    assert_eq!(
        buf,
        vec![
            7, 3, 2, 1, 4, 7, 6, 5, 8, // row 0: bytes 0 and 2 of each pixel traded
            9, 13, 12, 11, 14, 17, 16, 15, 18, // row 1
        ]
    );
}

#[test]
fn test_channel_swap_clamps_to_buffer() {
    // second row is cut short: its incomplete group must stay untouched
    let mut buf = vec![0, 1, 2, 3, 4, 0, 9, 8];
    swap_rgb_channels(&mut buf, 1, 2);
    assert_eq!(buf, vec![0, 3, 2, 1, 4, 0, 9, 8]);
}

#[test]
fn test_normalize_passthrough_standard_png() {
    // a standard PNG (no vendor marker) must come back byte-for-byte
    let mut png = Vec::new();
    png.extend_from_slice(&PNG_SIGNATURE);
    png.extend_from_slice(&chunk(b"IHDR", &ihdr_payload(1, 1)));
    png.extend_from_slice(&chunk(b"IDAT", &[1, 2, 3]));
    png.extend_from_slice(&chunk(b"IEND", &[]));
    let out = normalize_cgbi_png(&png).unwrap();
    assert_eq!(out, png);
}

#[test]
fn test_normalize_rejects_bad_header() {
    assert_eq!(normalize_cgbi_png(b"not a png"), Err(NormalizeError::MalformedHeader));
    let mut torn = PNG_SIGNATURE.to_vec();
    torn.extend_from_slice(&[0, 0, 0, 0]);
    assert_eq!(normalize_cgbi_png(&torn), Err(NormalizeError::MalformedHeader));
}

#[test]
fn test_normalize_rejects_garbage_idat() {
    let png = cgbi_png(1, 1, &[0xFF, 0xFF, 0xFF, 0xFF, 0xFF, 0xFF]);
    assert_eq!(normalize_cgbi_png(&png), Err(NormalizeError::DecompressionFailure));
}

#[test]
fn test_normalize_end_to_end_single_pixel() {
    // one BGRA pixel [10, 20, 30, 255] behind filter byte 0
    let compressed = raw_deflate(&[0, 10, 20, 30, 255]);
    let png = cgbi_png(1, 1, &compressed);
    let out = normalize_cgbi_png(&png).unwrap();

    let chunks = parse_chunks(&out);
    assert_eq!(chunks.len(), 3);
    let (ty0, payload0, crc0) = &chunks[0];
    assert_eq!(ty0, b"IHDR");
    assert_eq!(payload0, &ihdr_payload(1, 1));
    assert_eq!(*crc0, 0x1F15_C489);
    let (ty1, payload1, crc1) = &chunks[1];
    assert_eq!(ty1, b"IDAT");
    assert_eq!(*crc1, crc32(b"IDAT", payload1));
    assert_eq!(zlib_decode(payload1), vec![0, 30, 20, 10, 255]);
    let (ty2, payload2, crc2) = &chunks[2];
    assert_eq!(ty2, b"IEND");
    assert!(payload2.is_empty());
    assert_eq!(*crc2, 0xAE42_6082);
}

#[test]
fn test_normalize_round_trip_geometry() {
    // width 2, height 2: the rebuilt pixel data must decode to
    // width*height*4 + height bytes
    let pixels: Vec<u8> = vec![0, 1, 2, 3, 4, 5, 6, 7, 8, 1, 9, 10, 11, 12, 13, 14, 15, 16];
    assert_eq!(pixels.len(), 2 * 2 * 4 + 2);
    let png = cgbi_png(2, 2, &raw_deflate(&pixels));
    let out = normalize_cgbi_png(&png).unwrap();
    let chunks = parse_chunks(&out);
    let idat = chunks.iter().find(|(ty, _, _)| ty == b"IDAT").unwrap();
    assert_eq!(zlib_decode(&idat.1).len(), 2 * 2 * 4 + 2);
}

#[test]
fn test_normalize_idat_spans_chunk_boundaries() {
    // the compressed stream split across two pixel-data chunks
    let pixels: Vec<u8> = vec![0, 1, 2, 3, 4, 5, 6, 7, 8, 1, 9, 10, 11, 12, 13, 14, 15, 16];
    let compressed = raw_deflate(&pixels);
    let (front, back) = compressed.split_at(3);
    let mut png = Vec::new();
    png.extend_from_slice(&PNG_SIGNATURE);
    png.extend_from_slice(&chunk(b"CgBI", &[0x50, 0x00, 0x20, 0x06]));
    png.extend_from_slice(&chunk(b"IHDR", &ihdr_payload(2, 2)));
    png.extend_from_slice(&chunk(b"IDAT", front));
    png.extend_from_slice(&chunk(b"IDAT", back));
    png.extend_from_slice(&chunk(b"IEND", &[]));
    let out = normalize_cgbi_png(&png).unwrap();
    let chunks = parse_chunks(&out);
    assert_eq!(chunks.len(), 3);
    assert_eq!(&chunks[1].0, b"IDAT");
    let decoded = zlib_decode(&chunks[1].1);
    assert_eq!(decoded[0], 0);
    assert_eq!(decoded[1], 3); // red and blue traded
    assert_eq!(decoded[3], 1);
}

#[test]
fn test_normalize_drops_marker_and_copies_unknown_chunks() {
    let compressed = raw_deflate(&[0, 10, 20, 30, 255]);
    let mut png = Vec::new();
    png.extend_from_slice(&PNG_SIGNATURE);
    png.extend_from_slice(&chunk(b"CgBI", &[0x50, 0x00, 0x20, 0x06]));
    png.extend_from_slice(&chunk(b"IHDR", &ihdr_payload(1, 1)));
    png.extend_from_slice(&chunk(b"tEXt", b"comment"));
    png.extend_from_slice(&chunk(b"IDAT", &compressed));
    png.extend_from_slice(&chunk(b"IEND", &[]));
    let out = normalize_cgbi_png(&png).unwrap();
    let chunks = parse_chunks(&out);
    let types: Vec<[u8; 4]> = chunks.iter().map(|(ty, _, _)| *ty).collect();
    assert_eq!(types, vec![*b"IHDR", *b"tEXt", *b"IDAT", *b"IEND"]);
    assert_eq!(chunks[1].1, b"comment");
}

#[test]
fn test_normalize_truncated_stream() {
    // cut off mid-chunk after the header chunk: no crash, no infinite
    // loop, the fully parsed chunks come back
    let mut png = Vec::new();
    png.extend_from_slice(&PNG_SIGNATURE);
    png.extend_from_slice(&chunk(b"CgBI", &[0x50, 0x00, 0x20, 0x06]));
    png.extend_from_slice(&chunk(b"IHDR", &ihdr_payload(4, 4)));
    png.extend_from_slice(&[0, 0, 0, 40, b'I', b'D', b'A', b'T', 1, 2, 3]);
    let out = normalize_cgbi_png(&png).unwrap();
    let mut expected = Vec::new();
    expected.extend_from_slice(&PNG_SIGNATURE);
    expected.extend_from_slice(&chunk(b"IHDR", &ihdr_payload(4, 4)));
    assert_eq!(out, expected);
}

#[test]
fn test_normalize_idat_direct() {
    // normalize_idat on its own: geometry 1x1, stream decodes to the
    // 5 expected bytes, result is a decodable zlib stream
    let compressed = raw_deflate(&[0, 40, 50, 60, 70]);
    let z = normalize_idat(&compressed, 1, 1).unwrap();
    assert_eq!(zlib_decode(&z), vec![0, 60, 50, 40, 70]);
}

#[test]
fn test_error_messages_distinct() {
    let texts = [
        NormalizeError::MalformedHeader.message(),
        NormalizeError::DecompressionFailure.message(),
        NormalizeError::CompressionFailure.message(),
    ];
    assert!(!texts[0].is_empty());
    assert_ne!(texts[0], texts[1]);
    assert_ne!(texts[1], texts[2]);
}

#[test]
fn test_normalize_deterministic() {
    // normalization is a pure function of the bytes: equal inputs give
    // byte-equal outputs
    let compressed = raw_deflate(&[0, 10, 20, 30, 255]);
    let png = cgbi_png(1, 1, &compressed);
    let first = normalize_cgbi_png(&png).unwrap();
    let second = normalize_cgbi_png(&png).unwrap();
    assert_eq!(first, second);
}

#[test]
fn test_normalize_ignores_input_crcs() {
    // input CRC trailers are never read, only recomputed on write
    let compressed = raw_deflate(&[0, 10, 20, 30, 255]);
    let png = cgbi_png(1, 1, &compressed);
    let mut scrambled = png.clone();
    // flip the CRC trailer of the header chunk (marker chunk ends at 24,
    // header chunk holds 13 payload bytes, so its CRC sits at 45..49)
    for i in 45..49 {
        scrambled[i] ^= 0xFF;
    }
    assert_eq!(normalize_cgbi_png(&png).unwrap(), normalize_cgbi_png(&scrambled).unwrap());
}
