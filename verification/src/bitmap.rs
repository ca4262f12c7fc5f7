//! The captured bitmap: an RGBA8 image held as plain bytes, four per pixel in
//! row-major order, together with the verified sub-rectangle crop that the
//! save pipeline applies before encoding.

use vstd::prelude::*;
use crate::geom::Rect;

verus! {

/// An immutable RGBA8 bitmap. `pixels` holds `4 * width * height` bytes,
/// row-major, in the order red, green, blue, alpha per pixel.
pub struct Image {
    pub width: u32,
    pub height: u32,
    pub pixels: Vec<u8>,
}

/// A byte of one channel: `k` selects red (0), green (1), blue (2) or
/// alpha (3) of the pixel at column `x`, row `y` of a `w`-wide bitmap.
pub open spec fn pixel_byte(pixels: Seq<u8>, w: int, x: int, y: int, k: int) -> u8 {
    pixels[4 * (y * w + x) + k]
}

/// The pixel bytes of the sub-rectangle `r` of `img`, row-major, four bytes
/// per pixel.
pub open spec fn crop_seq(img: Image, r: Rect) -> Seq<u8> {
    Seq::new(
        (4 * r.w * r.h) as nat,
        |i: int|
            pixel_byte(
                img.pixels@,
                img.width as int,
                r.x + (i / 4) % (r.w as int),
                r.y + (i / 4) / (r.w as int),
                i % 4,
            ),
    )
}

impl Image {
    /// The pixel buffer holds exactly one RGBA quadruple per grid cell.
    pub open spec fn wf(self) -> bool {
        self.pixels@.len() == 4 * self.width * self.height
    }

    /// Build an image after checking that the buffer length matches the
    /// dimensions; `None` exactly when it does not.
    pub fn new(width: u32, height: u32, pixels: Vec<u8>) -> (r: Option<Image>)
        ensures
            match r {
                Some(img) => img.wf() && img.width == width && img.height == height
                    && img.pixels@ == pixels@,
                None => pixels@.len() != 4 * width * height,
            },
    {
        proof {
            assert((width as int) * (height as int) <= (u32::MAX as int) * (u32::MAX as int)
                < u64::MAX) by (nonlinear_arith)
                requires width <= u32::MAX, height <= u32::MAX;
        }
        proof {
            assert(4 * width * height == 4 * ((width as int) * (height as int)))
                by (nonlinear_arith);
        }
        let wh = width as u64 * height as u64;
        let len = pixels.len();
        if len % 4 == 0 && (len / 4) as u64 == wh {
            Some(Image { width, height, pixels })
        } else {
            None
        }
    }

    /// Copy out the sub-rectangle `r`, which must lie inside the image.
    /// The result is an `r.w`-by-`r.h` image whose pixel at `(cx, cy)` is
    /// this image's pixel at `(r.x + cx, r.y + cy)`.
    pub fn crop(&self, r: &Rect) -> (out: Image)
        requires
            self.wf(),
            r.w >= 0,
            r.h >= 0,
            r.in_bounds(self.width, self.height),
        ensures
            out.wf(),
            out.width == r.w,
            out.height == r.h,
            out.pixels@ == crop_seq(*self, *r),
            forall|cx: int, cy: int, k: int|
                0 <= cx < r.w && 0 <= cy < r.h && 0 <= k < 4
                    ==> #[trigger] pixel_byte(out.pixels@, r.w as int, cx, cy, k)
                        == pixel_byte(self.pixels@, self.width as int, r.x + cx, r.y + cy, k),
    {
        let rw = r.w as usize;
        let rh = r.h as usize;
        let total = self.pixels.len();
        proof {
            assert(total == 4 * self.width * self.height);
            lemma_grid_prefix_bound(r.w as int, r.h as int, self.width as int, self.height as int);
        }
        let mut pixels: Vec<u8> = Vec::new();
        let mut cy: usize = 0;
        while cy < rh
            invariant
                self.wf(),
                r.in_bounds(self.width, self.height),
                r.w >= 0,
                r.h >= 0,
                rw == r.w,
                rh == r.h,
                total == self.pixels@.len(),
                0 <= cy <= rh,
                pixels@.len() == 4 * (cy * rw),
                4 * (rw * rh) <= usize::MAX,
                forall|cx2: int, cy2: int, k2: int|
                    0 <= cx2 < rw && 0 <= cy2 < cy && 0 <= k2 < 4
                        ==> #[trigger] pixel_byte(pixels@, rw as int, cx2, cy2, k2)
                            == pixel_byte(self.pixels@, self.width as int, r.x + cx2, r.y + cy2, k2),
            decreases rh - cy,
        {
            let mut cx: usize = 0;
            proof {
                assert(cy * rw + rw <= rh * rw) by (nonlinear_arith)
                    requires cy < rh, rw >= 0;
                assert(rw * rh == rh * rw) by (nonlinear_arith);
            }
            while cx < rw
                invariant
                    self.wf(),
                    r.in_bounds(self.width, self.height),
                    r.w >= 0,
                    r.h >= 0,
                    rw == r.w,
                    rh == r.h,
                    total == self.pixels@.len(),
                    0 <= cy < rh,
                    0 <= cx <= rw,
                    pixels@.len() == 4 * (cy * rw + cx),
                    4 * (cy * rw + rw) <= 4 * (rw * rh) <= usize::MAX,
                    forall|cx2: int, cy2: int, k2: int|
                        0 <= cx2 < rw && 0 <= cy2 < cy && 0 <= k2 < 4
                            ==> #[trigger] pixel_byte(pixels@, rw as int, cx2, cy2, k2)
                                == pixel_byte(self.pixels@, self.width as int, r.x + cx2, r.y + cy2, k2),
                    forall|cx2: int, k2: int|
                        0 <= cx2 < cx && 0 <= k2 < 4
                            ==> #[trigger] pixel_byte(pixels@, rw as int, cx2, cy as int, k2)
                                == pixel_byte(self.pixels@, self.width as int, r.x + cx2, r.y + cy as int, k2),
                decreases rw - cx,
            {
                let sx = (r.x as usize) + cx;
                let sy = (r.y as usize) + cy;
                proof {
                    lemma_pixel_index_bound(sx as int, sy as int, self.width as int, self.height as int);
                }
                let base = 4 * (sy * (self.width as usize) + sx);
                let ghost pixels_before = pixels@;
                let b0 = self.pixels[base];
                let b1 = self.pixels[base + 1];
                let b2 = self.pixels[base + 2];
                let b3 = self.pixels[base + 3];
                pixels.push(b0);
                pixels.push(b1);
                pixels.push(b2);
                pixels.push(b3);
                proof {
                    lemma_crop_step(
                        pixels_before,
                        pixels@,
                        self.pixels@,
                        rw as int,
                        self.width as int,
                        r.x as int,
                        r.y as int,
                        cx as int,
                        cy as int,
                    );
                }
                cx = cx + 1;
            }
            proof {
                assert((cy + 1) * rw == cy * rw + rw) by (nonlinear_arith);
            }
            cy = cy + 1;
        }
        proof {
            assert(4 * (rh * rw) == 4 * rw * rh) by (nonlinear_arith);
            assert(4 * ((rw * rh) as int) == 4 * rw * rh) by (nonlinear_arith);
            assert forall|i: int| 0 <= i < pixels@.len() implies pixels@[i] == crop_seq(
                *self,
                *r,
            )[i] by {
                lemma_flat_coords(i, 4, (rw * rh) as int);
                let pi = i / 4;
                let k = i % 4;
                lemma_flat_coords(pi, rw as int, rh as int);
                let cx = pi % (rw as int);
                let cy = pi / (rw as int);
                assert(pixel_byte(pixels@, rw as int, cx, cy, k) == pixel_byte(
                    self.pixels@,
                    self.width as int,
                    r.x + cx,
                    r.y + cy,
                    k,
                ));
                assert(4 * (cy * (rw as int) + cx) + k == i);
            }
            assert(pixels@ =~= crop_seq(*self, *r));
        }
        Image { width: r.w as u32, height: r.h as u32, pixels }
    }
}

/// A cell inside the grid has a flat index inside the grid's area.
pub proof fn lemma_row_major_bound(x: int, y: int, w: int, h: int)
    requires
        0 <= x < w,
        0 <= y < h,
    ensures
        0 <= y * w + x < w * h,
{
    assert(0 <= y * w + x < w * h) by (nonlinear_arith)
        requires 0 <= x < w, 0 <= y < h;
}

/// Distinct cells of one grid have distinct flat indices.
pub proof fn lemma_row_major_injective(x1: int, y1: int, x2: int, y2: int, w: int)
    requires
        0 <= x1 < w,
        0 <= x2 < w,
        y1 * w + x1 == y2 * w + x2,
    ensures
        x1 == x2 && y1 == y2,
{
    assert(x1 == x2 && y1 == y2) by (nonlinear_arith)
        requires 0 <= x1 < w, 0 <= x2 < w, y1 * w + x1 == y2 * w + x2;
}

/// A flat index into a `w`-by-`h` grid decomposes uniquely into a column
/// `i % w` and a row `i / w`.
pub proof fn lemma_flat_coords(i: int, w: int, h: int)
    requires
        0 <= i < w * h,
        0 <= h,
    ensures
        0 <= i % w < w,
        0 <= i / w < h,
        (i / w) * w + (i % w) == i,
{
    assert(w > 0) by (nonlinear_arith)
        requires 0 <= i < w * h, 0 <= h;
    assert(0 <= i % w < w && (i / w) * w + (i % w) == i && 0 <= i / w < h) by (nonlinear_arith)
        requires 0 <= i < w * h, w > 0;
}

proof fn lemma_grid_prefix_bound(rw: int, rh: int, w: int, h: int)
    requires
        0 <= rw <= w,
        0 <= rh <= h,
        4 * w * h <= usize::MAX,
    ensures
        4 * (rw * rh) <= usize::MAX,
{
    assert(4 * (rw * rh) <= 4 * w * h) by (nonlinear_arith)
        requires 0 <= rw <= w, 0 <= rh <= h;
}

/// The four bytes of an in-grid cell lie inside the pixel buffer.
proof fn lemma_pixel_index_bound(x: int, y: int, w: int, h: int)
    requires
        0 <= x < w,
        0 <= y < h,
    ensures
        0 <= 4 * (y * w + x),
        4 * (y * w + x) + 3 < 4 * w * h,
{
    assert(0 <= 4 * (y * w + x) && 4 * (y * w + x) + 3 < 4 * w * h) by (nonlinear_arith)
        requires 0 <= x < w, 0 <= y < h;
}

proof fn lemma_crop_step(
    before: Seq<u8>,
    after: Seq<u8>,
    src: Seq<u8>,
    rw: int,
    w: int,
    rx: int,
    ry: int,
    cx: int,
    cy: int,
)
    requires
        0 <= cx < rw,
        0 <= cy,
        before.len() == 4 * (cy * rw + cx),
        after == before
            .push(src[4 * ((ry + cy) * w + (rx + cx)) + 0])
            .push(src[4 * ((ry + cy) * w + (rx + cx)) + 1])
            .push(src[4 * ((ry + cy) * w + (rx + cx)) + 2])
            .push(src[4 * ((ry + cy) * w + (rx + cx)) + 3]),
        forall|cx2: int, cy2: int, k2: int|
            0 <= cx2 < rw && 0 <= cy2 < cy && 0 <= k2 < 4
                ==> #[trigger] pixel_byte(before, rw, cx2, cy2, k2)
                    == pixel_byte(src, w, rx + cx2, ry + cy2, k2),
        forall|cx2: int, k2: int|
            0 <= cx2 < cx && 0 <= k2 < 4
                ==> #[trigger] pixel_byte(before, rw, cx2, cy, k2)
                    == pixel_byte(src, w, rx + cx2, ry + cy, k2),
    ensures
        after.len() == 4 * (cy * rw + (cx + 1)),
        forall|cx2: int, cy2: int, k2: int|
            0 <= cx2 < rw && 0 <= cy2 < cy && 0 <= k2 < 4
                ==> #[trigger] pixel_byte(after, rw, cx2, cy2, k2)
                    == pixel_byte(src, w, rx + cx2, ry + cy2, k2),
        forall|cx2: int, k2: int|
            0 <= cx2 < cx + 1 && 0 <= k2 < 4
                ==> #[trigger] pixel_byte(after, rw, cx2, cy, k2)
                    == pixel_byte(src, w, rx + cx2, ry + cy, k2),
{
    assert forall|cx2: int, cy2: int, k2: int|
        0 <= cx2 < rw && 0 <= cy2 < cy && 0 <= k2 < 4
            implies #[trigger] pixel_byte(after, rw, cx2, cy2, k2)
                == pixel_byte(src, w, rx + cx2, ry + cy2, k2) by {
        assert(4 * (cy2 * rw + cx2) + k2 < 4 * (cy * rw + cx)) by (nonlinear_arith)
            requires 0 <= cx2 < rw, 0 <= cy2 < cy, 0 <= k2 < 4, 0 <= cx;
        assert(0 <= 4 * (cy2 * rw + cx2) + k2) by (nonlinear_arith)
            requires 0 <= cx2, 0 <= cy2, 0 <= k2, 0 <= rw;
        assert(pixel_byte(after, rw, cx2, cy2, k2) == pixel_byte(before, rw, cx2, cy2, k2));
    }
    assert forall|cx2: int, k2: int|
        0 <= cx2 < cx + 1 && 0 <= k2 < 4
            implies #[trigger] pixel_byte(after, rw, cx2, cy, k2)
                == pixel_byte(src, w, rx + cx2, ry + cy, k2) by {
        if cx2 < cx {
            assert(4 * (cy * rw + cx2) + k2 < 4 * (cy * rw + cx));
            assert(0 <= 4 * (cy * rw + cx2) + k2) by (nonlinear_arith)
                requires 0 <= cx2, 0 <= cy, 0 <= k2, 0 <= rw;
            assert(pixel_byte(after, rw, cx2, cy, k2) == pixel_byte(before, rw, cx2, cy, k2));
        } else {
            assert(4 * (cy * rw + cx2) + k2 == before.len() + k2);
        }
    }
}

} // verus!
