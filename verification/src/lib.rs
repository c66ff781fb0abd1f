//! Metadata and icon handling for mobile application archives.
//!
//! The heart of the crate is the PNG normalizer: it rewrites the
//! vendor-proprietary `CgBI` PNG variant (swapped color channels, headerless
//! DEFLATE pixel stream) into a standards-compliant PNG byte stream.  The
//! chunk codec, CRC-32 engine and channel-reorder engine are verified; the
//! DEFLATE round trips go through `flate2` behind trusted wrappers.

pub mod chunk;
pub mod crc;
pub mod error;
pub mod flate;
pub mod icon_extractor;
pub mod pixels;
pub mod plist_parser;
pub mod png_normalizer;
pub mod text;
