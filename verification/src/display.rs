//! The display server's frame: a vertical bar that moves across the frame
//! one column per frame, on black.
//!
//! A frame is `width * height` pixels, four bytes each (red, green, blue,
//! alpha), row after row.  The bar starts at column `frame_number % width`
//! and is `BAR_WIDTH` columns wide, cut at the right edge; its pixels are
//! opaque green.

use vstd::prelude::*;
use vstd::arithmetic::div_mod::{lemma_fundamental_div_mod, lemma_fundamental_div_mod_converse, lemma_mod_pos_bound};

verus! {

/// The bar's width, in pixels.
pub const BAR_WIDTH: usize = 32;

/// The column the bar starts at in frame `frame_number`.
pub open spec fn bar_column(frame_number: u64, width: usize) -> int {
    (frame_number as usize) as int % (width as int)
}

/// Byte `i` of a frame `width` pixels wide whose bar starts at column
/// `bar_x`: the green and alpha bytes of a bar pixel are 255, every other
/// byte is 0.
pub open spec fn frame_byte(i: int, width: int, bar_x: int) -> u8 {
    let col = (i / 4) % width;
    if bar_x <= col < bar_x + BAR_WIDTH && (i % 4 == 1 || i % 4 == 3) {
        255
    } else {
        0
    }
}

proof fn lemma_pixel_index(width: int, y: int, c: int, k: int)
    requires
        width > 0,
        y >= 0,
        0 <= c < width,
        0 <= k < 4,
    ensures
        ((y * width + c) * 4 + k) / 4 == y * width + c,
        ((y * width + c) * 4 + k) % 4 == k,
        (((y * width + c) * 4 + k) / 4) / width == y,
        (((y * width + c) * 4 + k) / 4) % width == c,
{
    let p = y * width + c;
    lemma_fundamental_div_mod_converse(p * 4 + k, 4, p, k);
    lemma_fundamental_div_mod_converse(p, width, y, c);
}

proof fn lemma_pixel_of(width: int, i: int)
    requires
        width > 0,
        i >= 0,
    ensures
        i / 4 == ((i / 4) / width) * width + (i / 4) % width,
        0 <= (i / 4) % width < width,
        (i / 4) / width >= 0,
        i == (i / 4) * 4 + i % 4,
        0 <= i % 4 < 4,
{
    let p = i / 4;
    lemma_fundamental_div_mod(p, width);
    lemma_mod_pos_bound(p, width);
    assert(p / width >= 0) by (nonlinear_arith)
        requires
            p >= 0,
            width > 0,
    ;
    assert(width * (p / width) == (p / width) * width) by (nonlinear_arith);
}

/// Draw frame `frame_number` into `back`, a frame of `width * height`
/// pixels.
pub fn write_frame(back: &mut Vec<u8>, frame_number: u64, width: usize, height: usize)
    requires
        width > 0,
        old(back)@.len() == width * height * 4,
    ensures
        final(back)@.len() == old(back)@.len(),
        forall|i: int|
            0 <= i < final(back)@.len() ==> final(back)@[i] == frame_byte(
                i,
                width as int,
                bar_column(frame_number, width),
            ),
{
    let len = back.len();
    let bar_x = (frame_number as usize) % width;
    let ghost w = width as int;
    let ghost bx = bar_x as int;
    let mut k: usize = 0;
    while k < len
        invariant
            len == back@.len(),
            k <= len,
            forall|i: int| 0 <= i < k ==> back@[i] == 0,
        decreases len - k,
    {
        back.set(k, 0);
        k = k + 1;
    }
    assert(height * width * 4 == len) by (nonlinear_arith)
        requires
            len == width * height * 4,
    ;
    let mut y: usize = 0;
    while y < height
        invariant
            len == back@.len(),
            len == width * height * 4,
            width > 0,
            w == width,
            bx == bar_x,
            bar_x < width,
            y <= height,
            forall|i: int|
                0 <= i < len ==> back@[i] == (if (i / 4) / w < y {
                    frame_byte(i, w, bx)
                } else {
                    0u8
                }),
        decreases height - y,
    {
        assert((y * width + width) * 4 <= len) by (nonlinear_arith)
            requires
                y < height,
                len == width * height * 4,
        ;
        let row_start = (y * width + bar_x) * 4;
        let mut x: usize = 0;
        while x < BAR_WIDTH && bar_x + x < width
            invariant
                len == back@.len(),
                len == width * height * 4,
                width > 0,
                w == width,
                bx == bar_x,
                bar_x < width,
                y < height,
                (y * width + width) * 4 <= len,
                row_start == (y * width + bar_x) * 4,
                x <= BAR_WIDTH,
                bar_x + x <= width,
                forall|i: int|
                    0 <= i < len ==> back@[i] == (if (i / 4) / w < y || ((i / 4) / w == y && (i
                        / 4) % w < bx + x) {
                        frame_byte(i, w, bx)
                    } else {
                        0u8
                    }),
            decreases BAR_WIDTH - x,
        {
            let ghost c = bx + x;
            assert(row_start + x * 4 == (y * width + bar_x + x) * 4) by (nonlinear_arith)
                requires
                    row_start == (y * width + bar_x) * 4,
            ;
            assert((y * width + bar_x + x) * 4 + 3 < len) by (nonlinear_arith)
                requires
                    bar_x + x < width,
                    (y * width + width) * 4 <= len,
            ;
            let px = row_start + x * 4;
            let ghost before = back@;
            back.set(px, 0);
            back.set(px + 1, 255);
            back.set(px + 2, 0);
            back.set(px + 3, 255);
            proof {
                let p = y * w + c;
                assert(px == p * 4);
                assert forall|i: int| 0 <= i < len implies back@[i] == (if (i / 4) / w < y || ((i / 4)
                    / w == y && (i / 4) % w < bx + x + 1) {
                    frame_byte(i, w, bx)
                } else {
                    0u8
                }) by {
                    lemma_pixel_of(w, i);
                    if px <= i < px + 4 {
                        lemma_pixel_index(w, y as int, c, i - px);
                        assert(i == (y * w + c) * 4 + (i - px));
                    } else {
                        assert(back@[i] == before[i]);
                        if (i / 4) / w == y && (i / 4) % w == c {
                            assert(i / 4 == p);
                            assert(false);
                        }
                    }
                }
            }
            x = x + 1;
        }
        proof {
            assert forall|i: int| 0 <= i < len implies back@[i] == (if (i / 4) / w < y + 1 {
                frame_byte(i, w, bx)
            } else {
                0u8
            }) by {
                lemma_pixel_of(w, i);
            }
        }
        y = y + 1;
    }
    proof {
        assert forall|i: int| 0 <= i < len implies back@[i] == frame_byte(i, w, bx) by {
            lemma_pixel_of(w, i);
            let p = i / 4;
            assert(p < width * height) by (nonlinear_arith)
                requires
                    i < len,
                    len == width * height * 4,
                    p == i / 4,
                    i >= 0,
            ;
            assert(p / w < height) by (nonlinear_arith)
                requires
                    p < width * height,
                    p >= 0,
                    w == width,
                    w > 0,
                    p == (p / w) * w + p % w,
                    0 <= p % w,
            ;
        }
    }
}

} // verus!
