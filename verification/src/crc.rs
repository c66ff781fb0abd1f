//! CRC-32 engine: the checksum that trails every PNG chunk, computed with
//! the reversed polynomial `0xEDB88320` and initial/final XOR `0xFFFFFFFF`
//! (the conventional PNG/zip variant).

use vstd::prelude::*;

verus! {

/// One shift-and-conditional-xor step of the bitwise CRC-32 update.
pub open spec fn crc_bit_step(c: u32) -> u32 {
    if c & 1 == 1 {
        (c >> 1) ^ 0xEDB88320u32
    } else {
        c >> 1
    }
}

/// `crc_bit_step` applied `n` times.
pub open spec fn crc_bits(c: u32, n: nat) -> u32
    decreases n,
{
    if n == 0 {
        c
    } else {
        crc_bit_step(crc_bits(c, (n - 1) as nat))
    }
}

/// Folding one input byte into the running CRC register.
pub open spec fn crc_byte_step(c: u32, b: u8) -> u32 {
    crc_bits(c ^ (b as u32), 8)
}

/// Folding a whole byte sequence into the running CRC register.
pub open spec fn crc_fold(c: u32, s: Seq<u8>) -> u32
    decreases s.len(),
{
    if s.len() == 0 {
        c
    } else {
        crc_byte_step(crc_fold(c, s.drop_last()), s.last())
    }
}

/// The CRC-32 of a byte sequence: fold starting from `0xFFFFFFFF`, then
/// complement the register.
pub open spec fn spec_crc32(s: Seq<u8>) -> u32 {
    !crc_fold(0xFFFFFFFFu32, s)
}

/// Folds one byte into the CRC register, eight bit steps.
fn crc_update(c: u32, b: u8) -> (r: u32)
    ensures
        r == crc_byte_step(c, b),
{
    let start: u32 = c ^ (b as u32);
    let mut crc: u32 = start;
    let mut j: usize = 0;
    while j < 8
        invariant
            j <= 8,
            crc == crc_bits(start, j as nat),
        decreases 8 - j,
    {
        crc = if crc & 1 == 1 {
            (crc >> 1) ^ 0xEDB88320
        } else {
            crc >> 1
        };
        j = j + 1;
    }
    crc
}

/// CRC-32 over a chunk's type tag followed by its payload, as PNG requires.
pub fn crc32(chunk_type: &[u8], data: &[u8]) -> (r: u32)
    ensures
        r == spec_crc32(chunk_type@ + data@),
{
    let mut crc: u32 = 0xFFFFFFFF;
    let mut i: usize = 0;
    while i < chunk_type.len()
        invariant
            i <= chunk_type@.len(),
            crc == crc_fold(0xFFFFFFFFu32, chunk_type@.take(i as int)),
        decreases chunk_type@.len() - i,
    {
        let b = chunk_type[i];
        proof {
            assert(chunk_type@.take(i + 1).drop_last() =~= chunk_type@.take(i as int));
            assert(chunk_type@.take(i + 1).last() == chunk_type@[i as int]);
        }
        crc = crc_update(crc, b);
        i = i + 1;
    }
    proof {
        assert(chunk_type@.take(chunk_type@.len() as int) =~= chunk_type@);
        assert(chunk_type@ + data@.take(0) =~= chunk_type@);
    }
    let mut k: usize = 0;
    while k < data.len()
        invariant
            k <= data@.len(),
            crc == crc_fold(0xFFFFFFFFu32, chunk_type@ + data@.take(k as int)),
        decreases data@.len() - k,
    {
        let b = data[k];
        proof {
            assert((chunk_type@ + data@.take(k + 1)).drop_last() =~= chunk_type@ + data@.take(
                k as int,
            ));
            assert((chunk_type@ + data@.take(k + 1)).last() == data@[k as int]);
        }
        crc = crc_update(crc, b);
        k = k + 1;
    }
    proof {
        assert(chunk_type@ + data@.take(data@.len() as int) =~= chunk_type@ + data@);
    }
    !crc
}

} // verus!
