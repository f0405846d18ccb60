//! Decoded tile imagery as a plain RGBA byte buffer, with the two pixel
//! rearrangements the pipeline performs: cropping an ancestor tile to a
//! descendant's footprint and flipping scanlines for renderers whose
//! vertical axis grows upward.

use vstd::prelude::*;

verus! {

/// A decoded image: `width * height` pixels of four bytes each, scanline
/// by scanline from the top.
pub struct Bitmap {
    pub width: u32,
    pub height: u32,
    pub pixels: Vec<u8>,
}

impl Bitmap {
    /// The buffer holds exactly four bytes per pixel.
    pub open spec fn wf(self) -> bool {
        self.pixels@.len() == 4 * self.width * self.height
    }
}

/// The square sub-image of edge `s` whose top-left pixel sits at
/// (x0, y0) in `src`: byte `k` of its scanline `y` is byte `k` of the
/// source scanline `y0 + y` starting at column `x0`.
pub fn crop(src: &Bitmap, x0: u32, y0: u32, s: u32) -> (r: Bitmap)
    requires
        src.wf(),
        x0 + s <= src.width,
        y0 + s <= src.height,
    ensures
        r.wf(),
        r.width == s,
        r.height == s,
        forall|y: int, k: int|
            0 <= y < s && 0 <= k < 4 * s ==> #[trigger] r.pixels@[4 * s * y + k] == src.pixels@[4
                * ((y0 + y) * src.width + x0) + k],
{
    let w: usize = src.width as usize;
    let h: usize = src.height as usize;
    let n: usize = src.pixels.len();
    let su: usize = s as usize;
    let mut out: Vec<u8> = Vec::new();
    let mut y: usize = 0;
    while y < su
        invariant
            src.wf(),
            x0 + s <= src.width,
            y0 + s <= src.height,
            w == src.width,
            h == src.height,
            su == s,
            n == src.pixels@.len(),
            n == 4 * w * h,
            0 <= y <= su,
            out@.len() == 4 * su * y,
            forall|yy: int, k: int|
                0 <= yy < y && 0 <= k < 4 * su ==> #[trigger] out@[4 * su * yy + k]
                    == src.pixels@[4 * ((y0 + yy) * w + x0) + k],
        decreases su - y,
    {
        proof {
            assert((y0 + y) * w + x0 + su <= h * w && 4 * (h * w) == 4 * w * h)
                by (nonlinear_arith)
                requires
                    y0 + y < h,
                    x0 + su <= w,
                    0 <= y0,
                    0 <= y,
                    0 <= x0,
                    0 <= w,
                    0 <= h,
            ;
        }
        let row: usize = (y0 as usize + y) * w + x0 as usize;
        let start: usize = 4 * row;
        let mut k: usize = 0;
        while k < 4 * su
            invariant
                src.wf(),
                w == src.width,
                su == s,
                n == src.pixels@.len(),
                n == 4 * w * h,
                row == (y0 + y) * w + x0,
                start == 4 * row,
                4 * (row + su) <= n,
                0 <= y < su,
                0 <= k <= 4 * su,
                out@.len() == 4 * su * y + k,
                forall|yy: int, kk: int|
                    0 <= yy < y && 0 <= kk < 4 * su ==> #[trigger] out@[4 * su * yy + kk]
                        == src.pixels@[4 * ((y0 + yy) * w + x0) + kk],
                forall|kk: int|
                    0 <= kk < k ==> #[trigger] out@[4 * su * y + kk] == src.pixels@[4 * ((y0 + y)
                        * w + x0) + kk],
            decreases 4 * su - k,
        {
            let b: u8 = src.pixels[start + k];
            out.push(b);
            proof {
                assert forall|yy: int, kk: int|
                    0 <= yy < y && 0 <= kk < 4 * su implies #[trigger] out@[4 * su * yy + kk]
                    == src.pixels@[4 * ((y0 + yy) * w + x0) + kk] by {
                    assert(4 * su * yy + 4 * su <= 4 * su * y) by (nonlinear_arith)
                        requires
                            yy + 1 <= y,
                            su >= 0,
                    ;
                };
            }
            k = k + 1;
        }
        y = y + 1;
        proof {
            assert(4 * su * (y - 1) + 4 * su == 4 * su * y) by (nonlinear_arith);
            assert forall|yy: int, kk: int|
                0 <= yy < y && 0 <= kk < 4 * su implies #[trigger] out@[4 * su * yy + kk]
                == src.pixels@[4 * ((y0 + yy) * w + x0) + kk] by {
                if yy < y - 1 {
                    assert(4 * su * yy + 4 * su <= 4 * su * (y - 1)) by (nonlinear_arith)
                        requires
                            yy + 1 <= y - 1,
                            su >= 0,
                    ;
                }
            };
        }
    }
    Bitmap { width: s, height: s, pixels: out }
}

/// The same image with its scanlines in reverse order: byte `k` of
/// scanline `y` comes from source scanline `height - 1 - y`.
pub fn flip_vertical(src: &Bitmap) -> (r: Bitmap)
    requires
        src.wf(),
    ensures
        r.wf(),
        r.width == src.width,
        r.height == src.height,
        forall|y: int, k: int|
            0 <= y < src.height && 0 <= k < 4 * src.width ==> #[trigger] r.pixels@[4 * src.width
                * y + k] == src.pixels@[4 * src.width * (src.height - 1 - y) + k],
{
    let w: usize = src.width as usize;
    let h: usize = src.height as usize;
    let n: usize = src.pixels.len();
    let mut out: Vec<u8> = Vec::new();
    let mut y: usize = 0;
    while y < h
        invariant
            src.wf(),
            w == src.width,
            h == src.height,
            n == src.pixels@.len(),
            n == 4 * w * h,
            0 <= y <= h,
            out@.len() == 4 * w * y,
            forall|yy: int, k: int|
                0 <= yy < y && 0 <= k < 4 * w ==> #[trigger] out@[4 * w * yy + k] == src.pixels@[4
                    * w * (h - 1 - yy) + k],
        decreases h - y,
    {
        let row: usize = h - 1 - y;
        proof {
            assert(4 * w * row + 4 * w <= 4 * w * h && 4 * (w * h) == 4 * w * h)
                by (nonlinear_arith)
                requires
                    row < h,
                    0 <= row,
                    0 <= w,
            ;
        }
        let start: usize = 4 * w * row;
        let mut k: usize = 0;
        while k < 4 * w
            invariant
                src.wf(),
                w == src.width,
                h == src.height,
                n == src.pixels@.len(),
                n == 4 * w * h,
                row == h - 1 - y,
                start == 4 * w * row,
                4 * w * row + 4 * w <= n,
                0 <= y < h,
                0 <= k <= 4 * w,
                out@.len() == 4 * w * y + k,
                forall|yy: int, kk: int|
                    0 <= yy < y && 0 <= kk < 4 * w ==> #[trigger] out@[4 * w * yy + kk]
                        == src.pixels@[4 * w * (h - 1 - yy) + kk],
                forall|kk: int|
                    0 <= kk < k ==> #[trigger] out@[4 * w * y + kk] == src.pixels@[4 * w * (h - 1
                        - y) + kk],
            decreases 4 * w - k,
        {
            let b: u8 = src.pixels[start + k];
            out.push(b);
            proof {
                assert forall|yy: int, kk: int|
                    0 <= yy < y && 0 <= kk < 4 * w implies #[trigger] out@[4 * w * yy + kk]
                    == src.pixels@[4 * w * (h - 1 - yy) + kk] by {
                    assert(4 * w * yy + 4 * w <= 4 * w * y) by (nonlinear_arith)
                        requires
                            yy + 1 <= y,
                            w >= 0,
                    ;
                };
            }
            k = k + 1;
        }
        y = y + 1;
        proof {
            assert(4 * w * (y - 1) + 4 * w == 4 * w * y) by (nonlinear_arith);
            assert forall|yy: int, kk: int|
                0 <= yy < y && 0 <= kk < 4 * w implies #[trigger] out@[4 * w * yy + kk]
                == src.pixels@[4 * w * (h - 1 - yy) + kk] by {
                if yy < y - 1 {
                    assert(4 * w * yy + 4 * w <= 4 * w * (y - 1)) by (nonlinear_arith)
                        requires
                            yy + 1 <= y - 1,
                            w >= 0,
                    ;
                }
            };
        }
    }
    Bitmap { width: src.width, height: src.height, pixels: out }
}

} // verus!
