//! Chunk codec: the byte layout of a PNG chunk (big-endian length, 4-byte
//! type tag, payload, CRC-32 over tag and payload) and the writer that emits
//! it.  The CRC is always recomputed here, never copied from input.

use vstd::prelude::*;
use crate::crc::{crc32, spec_crc32};

verus! {

/// The four bytes of `n` in big-endian order.
pub open spec fn be32(n: u32) -> Seq<u8> {
    seq![
        ((n >> 24) & 0xFF) as u8,
        ((n >> 16) & 0xFF) as u8,
        ((n >> 8) & 0xFF) as u8,
        (n & 0xFF) as u8,
    ]
}

/// The `u32` read from four bytes in big-endian order.
pub open spec fn u32_of_be(b0: u8, b1: u8, b2: u8, b3: u8) -> u32 {
    (((b0 as u32) << 24) | ((b1 as u32) << 16) | ((b2 as u32) << 8) | (b3 as u32)) as u32
}

/// The full encoding of one chunk: length, type tag, payload, CRC.
/// Meaningful when `data.len()` fits in a `u32`.
pub open spec fn chunk_bytes(ty: Seq<u8>, data: Seq<u8>) -> Seq<u8> {
    be32(data.len() as u32) + ty + data + be32(spec_crc32(ty + data))
}

/// Appends a whole slice to the output buffer.
pub fn push_bytes(out: &mut Vec<u8>, s: &[u8])
    ensures
        final(out)@ == old(out)@ + s@,
{
    let mut i: usize = 0;
    while i < s.len()
        invariant
            i <= s@.len(),
            out@ == old(out)@ + s@.take(i as int),
        decreases s@.len() - i,
    {
        out.push(s[i]);
        proof {
            assert(s@.take(i + 1) =~= s@.take(i as int).push(s@[i as int]));
        }
        i = i + 1;
    }
    proof {
        assert(s@.take(s@.len() as int) =~= s@);
    }
}

/// Appends `n` in big-endian order to the output buffer.
pub fn push_be32(out: &mut Vec<u8>, n: u32)
    ensures
        final(out)@ == old(out)@ + be32(n),
{
    proof {
        assert((n >> 24) & 0xFF < 256 && (n >> 16) & 0xFF < 256 && (n >> 8) & 0xFF < 256 && n
            & 0xFF < 256) by (bit_vector);
    }
    out.push(((n >> 24) & 0xFF) as u8);
    out.push(((n >> 16) & 0xFF) as u8);
    out.push(((n >> 8) & 0xFF) as u8);
    out.push((n & 0xFF) as u8);
    proof {
        assert(out@ =~= old(out)@ + be32(n));
    }
}

/// Reads the big-endian `u32` starting at `pos`.
pub fn read_be32(data: &[u8], pos: usize) -> (r: u32)
    requires
        pos + 4 <= data@.len(),
    ensures
        r == u32_of_be(data@[pos as int], data@[pos + 1], data@[pos + 2], data@[pos + 3]),
{
    let b0 = data[pos];
    let b1 = data[pos + 1];
    let b2 = data[pos + 2];
    let b3 = data[pos + 3];
    ((b0 as u32) << 24) | ((b1 as u32) << 16) | ((b2 as u32) << 8) | (b3 as u32)
}

/// Emits one chunk: big-endian length, type tag, payload, then the CRC-32
/// recomputed over tag and payload.
pub fn write_chunk(output: &mut Vec<u8>, chunk_type: &[u8], data: &[u8])
    requires
        data@.len() <= 0xFFFFFFFF,
    ensures
        final(output)@ == old(output)@ + chunk_bytes(chunk_type@, data@),
{
    let length: u32 = data.len() as u32;
    push_be32(output, length);
    push_bytes(output, chunk_type);
    push_bytes(output, data);
    let crc = crc32(chunk_type, data);
    push_be32(output, crc);
    proof {
        assert(output@ =~= old(output)@ + chunk_bytes(chunk_type@, data@));
    }
}

} // verus!
