//! Channel reorder engine: the uncompressed pixel buffer is `height` rows of
//! one filter byte followed by `width` 4-byte pixels.  Reordering swaps each
//! pixel's byte 0 and byte 2 (red and blue), leaves bytes 1 and 3 (green and
//! alpha), and never touches a filter byte.  Clamped defensively: a group is
//! swapped only when its four bytes lie inside both the row and the buffer.

use vstd::prelude::*;
use vstd::arithmetic::div_mod::{
    lemma_div_is_ordered,
    lemma_fundamental_div_mod_converse,
};
use vstd::arithmetic::mul::lemma_mul_is_distributive_add_other_way;

verus! {

/// Bytes in one scanline: the filter byte plus four bytes per pixel.
pub open spec fn row_len(w: nat) -> nat {
    1 + 4 * w
}

/// Index of the byte that position `i` holds after reordering a buffer of
/// `len` bytes laid out as rows of `row_len(w)`: byte 0 and byte 2 of every
/// complete 4-byte group inside the first `h` rows trade places, everything
/// else stays put.
pub open spec fn swap_src(len: int, w: nat, h: nat, i: int) -> int {
    let rl = row_len(w) as int;
    let row = i / rl;
    let off = i % rl;
    if 0 <= i < len && row < h && 1 <= off {
        let p = (off - 1) % 4;
        let g = i - p;
        let row_end = if (row + 1) * rl <= len {
            (row + 1) * rl
        } else {
            len
        };
        if g + 3 < row_end {
            if p == 0 {
                i + 2
            } else if p == 2 {
                i - 2
            } else {
                i
            }
        } else {
            i
        }
    } else {
        i
    }
}

/// The whole buffer after channel reordering.
pub open spec fn spec_swapped(s: Seq<u8>, w: nat, h: nat) -> Seq<u8> {
    Seq::new(s.len(), |i: int| s[swap_src(s.len() as int, w, h, i)])
}

/// `swap_src` stays inside the buffer.
proof fn lemma_swap_src_in_bounds(len: int, w: nat, h: nat, i: int)
    requires
        0 <= i < len,
    ensures
        0 <= swap_src(len, w, h, i) < len,
{
    let rl = row_len(w) as int;
    vstd::arithmetic::div_mod::lemma_fundamental_div_mod(i, rl);
    vstd::arithmetic::div_mod::lemma_mod_bound(i, rl);
    let off = i % rl;
    if i / rl < h && 1 <= off {
        vstd::arithmetic::div_mod::lemma_mod_bound(off - 1, 4);
        vstd::arithmetic::div_mod::lemma_fundamental_div_mod(off - 1, 4);
    }
}

/// Evaluates `swap_src` at a position given by an explicit row/offset
/// decomposition, so that loop indices need no division reasoning.
proof fn lemma_swap_src_at(len: int, w: nat, h: nat, row: int, off: int)
    requires
        0 <= row,
        0 <= off < row_len(w),
        0 <= row * (row_len(w) as int) + off < len,
    ensures
        ({
            let rl = row_len(w) as int;
            let i = row * rl + off;
            let row_end = if (row + 1) * rl <= len {
                (row + 1) * rl
            } else {
                len
            };
            swap_src(len, w, h, i) == if row < h && 1 <= off {
                if (i - ((off - 1) % 4)) + 3 < row_end {
                    if (off - 1) % 4 == 0 {
                        i + 2
                    } else if (off - 1) % 4 == 2 {
                        i - 2
                    } else {
                        i
                    }
                } else {
                    i
                }
            } else {
                i
            }
        }),
{
    let rl = row_len(w) as int;
    let i = row * rl + off;
    lemma_fundamental_div_mod_converse(i, rl, row, off);
}

/// Reorders the pixel buffer in place: for each of `height` rows, skip the
/// filter byte, then swap byte 0 with byte 2 of every complete 4-byte pixel
/// group, clamped to the buffer's length.
pub fn swap_rgb_channels(data: &mut Vec<u8>, width: u32, height: u32)
    ensures
        final(data)@ == spec_swapped(old(data)@, width as nat, height as nat),
{
    let ghost orig: Seq<u8> = data@;
    let ghost w: nat = width as nat;
    let ghost h: nat = height as nat;
    let ghost rl: int = row_len(w) as int;
    let len: usize = data.len();
    let mut row: u32 = 0;
    let mut pos: usize = 0;
    while row < height && pos < len
        invariant
            len == data@.len(),
            orig.len() == len,
            w == width as nat,
            h == height as nat,
            rl == row_len(w) as int,
            row <= height,
            pos as int == if (row as int) * rl <= len as int {
                (row as int) * rl
            } else {
                len as int
            },
            forall|j: int|
                0 <= j < len ==> data@[j] == (if j < pos as int {
                    orig[swap_src(len as int, w, h, j)]
                } else {
                    orig[j]
                }),
        decreases height - row,
    {
        let ghost rstart: int = pos as int;
        proof {
            assert(rstart == (row as int) * rl);
            // the filter byte at the row start is never moved
            lemma_swap_src_at(len as int, w, h, row as int, 0);
        }
        pos = pos + 1;
        let avail: usize = len - pos;
        let four_w: u64 = 4 * (width as u64);
        let row_end: usize = if (avail as u64) >= four_w {
            pos + (four_w as usize)
        } else {
            len
        };
        proof {
            lemma_mul_is_distributive_add_other_way(rl, row as int, 1);
            assert(row_end as int == if (row as int + 1) * rl <= len as int {
                (row as int + 1) * rl
            } else {
                len as int
            });
        }
        let mut i: usize = pos;
        while i < row_end && row_end - i >= 4
            invariant
                len == data@.len(),
                orig.len() == len,
                w == width as nat,
                h == height as nat,
                rl == row_len(w) as int,
                row < height,
                rstart == (row as int) * rl,
                rstart + 1 <= i as int <= row_end as int,
                row_end <= len,
                row_end as int == if (row as int + 1) * rl <= len as int {
                    (row as int + 1) * rl
                } else {
                    len as int
                },
                (i as int - (rstart + 1)) % 4 == 0,
                i as int - rstart <= rl,
                forall|j: int|
                    0 <= j < len ==> data@[j] == (if j < i as int {
                        orig[swap_src(len as int, w, h, j)]
                    } else {
                        orig[j]
                    }),
            decreases row_end - i,
        {
            let a: u8 = data[i];
            let b: u8 = data[i + 2];
            proof {
                lemma_mul_is_distributive_add_other_way(rl, row as int, 1);
                let k: int = i as int - rstart - 1;
                lemma_fundamental_div_mod_converse(k, 4, k / 4, 0);
                lemma_fundamental_div_mod_converse(k + 1, 4, k / 4, 1);
                lemma_fundamental_div_mod_converse(k + 2, 4, k / 4, 2);
                lemma_fundamental_div_mod_converse(k + 3, 4, k / 4, 3);
                lemma_swap_src_at(len as int, w, h, row as int, k + 1);
                lemma_swap_src_at(len as int, w, h, row as int, k + 2);
                lemma_swap_src_at(len as int, w, h, row as int, k + 3);
                lemma_swap_src_at(len as int, w, h, row as int, k + 4);
            }
            data[i] = b;
            data[i + 2] = a;
            i = i + 4;
        }
        proof {
            // groups cut off by the row or buffer end stay in place
            assert forall|j: int| i as int <= j < row_end as int implies orig[swap_src(
                len as int,
                w,
                h,
                j,
            )] == orig[j] by {
                let k: int = i as int - rstart - 1;
                let d: int = j - i as int;
                lemma_fundamental_div_mod_converse(k + d, 4, k / 4, d);
                lemma_swap_src_at(len as int, w, h, row as int, j - rstart);
            }
            lemma_mul_is_distributive_add_other_way(rl, row as int, 1);
        }
        pos = row_end;
        row = row + 1;
    }
    proof {
        if pos < len {
            // rows past `height` are untouched by the specification
            assert forall|j: int| pos as int <= j < len as int implies orig[swap_src(
                len as int,
                w,
                h,
                j,
            )] == orig[j] by {
                assert((h * rl) <= j);
                lemma_div_is_ordered(h * rl, j, rl);
                lemma_fundamental_div_mod_converse(h * rl, rl, h as int, 0);
                assert(j / rl >= h);
            }
        }
        assert forall|j: int| 0 <= j < len implies data@[j] == spec_swapped(orig, w, h)[j] by {
            lemma_swap_src_in_bounds(len as int, w, h, j);
        }
        assert(data@ =~= spec_swapped(orig, w, h));
    }
}

/// For a buffer of exactly `h` rows of one filter byte plus `w` pixels,
/// reordering swaps the first and third byte of every pixel, keeps its
/// second and fourth byte, and keeps every row's filter byte.
pub proof fn lemma_swapped_pixel_bytes(s: Seq<u8>, w: nat, h: nat, row: nat, k: nat)
    requires
        s.len() == h * row_len(w),
        row < h,
        k < w,
    ensures
        spec_swapped(s, w, h).len() == s.len(),
        spec_swapped(s, w, h)[(row * row_len(w)) as int] == s[(row * row_len(w)) as int],
        ({
            let g = (row * row_len(w) + 1 + 4 * k) as int;
            &&& spec_swapped(s, w, h)[g] == s[g + 2]
            &&& spec_swapped(s, w, h)[g + 1] == s[g + 1]
            &&& spec_swapped(s, w, h)[g + 2] == s[g]
            &&& spec_swapped(s, w, h)[g + 3] == s[g + 3]
        }),
{
    let rl = row_len(w) as int;
    let len = s.len() as int;
    let rstart = (row as int) * rl;
    vstd::arithmetic::mul::lemma_mul_inequality(row as int + 1, h as int, rl);
    lemma_mul_is_distributive_add_other_way(rl, row as int, 1);
    assert((row as int + 1) * rl <= (h as int) * rl);
    lemma_fundamental_div_mod_converse(4 * (k as int), 4, k as int, 0);
    lemma_fundamental_div_mod_converse(4 * (k as int) + 1, 4, k as int, 1);
    lemma_fundamental_div_mod_converse(4 * (k as int) + 2, 4, k as int, 2);
    lemma_fundamental_div_mod_converse(4 * (k as int) + 3, 4, k as int, 3);
    lemma_swap_src_at(len, w, h, row as int, 0);
    lemma_swap_src_at(len, w, h, row as int, 1 + 4 * (k as int));
    lemma_swap_src_at(len, w, h, row as int, 2 + 4 * (k as int));
    lemma_swap_src_at(len, w, h, row as int, 3 + 4 * (k as int));
    lemma_swap_src_at(len, w, h, row as int, 4 + 4 * (k as int));
}

} // verus!
