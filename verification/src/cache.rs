//! The display cache and compositor: per captured image a packed ARGB copy
//! (`original`) and a desaturated, darkened variant (`dimmed`) are computed
//! once; each frame the on-screen buffer (`composite`) is rebuilt from them,
//! showing the original pixels inside the current selection, the dimmed
//! pixels outside it, and one-pixel red/green outlines on the selection
//! rectangles.

use vstd::prelude::*;
use crate::bitmap::{Image, lemma_flat_coords, lemma_row_major_bound, lemma_row_major_injective};
use crate::geom::Rect;

verus! {

/// Packed ARGB colour of the primary (red) selection outline.
pub const RED_OUTLINE: u32 = 0xFFFF0000;

/// Packed ARGB colour of the nested (green) selection outline.
pub const GREEN_OUTLINE: u32 = 0xFF00FF00;

/// The packed pixel of a `w`-wide buffer at column `x`, row `y`.
pub open spec fn pix(s: Seq<u32>, w: int, x: int, y: int) -> u32 {
    s[y * w + x]
}

/// Pack four 8-bit channels as `0xAARRGGBB`.
pub open spec fn pack_argb(a: u8, r: u8, g: u8, b: u8) -> u32 {
    ((a as u32) << 24) | ((r as u32) << 16) | ((g as u32) << 8) | (b as u32)
}

/// The weighted grey level of a pixel, `(3R + 6G + B) / 10`.
pub open spec fn gray_of(r: u8, g: u8, b: u8) -> int {
    (3 * r + 6 * g + b) / 10
}

/// One dimmed channel: 30% of the original channel plus 70% of the grey level.
pub open spec fn dim_channel(c: u8, gray: int) -> int {
    (3 * c + 7 * gray) / 10
}

/// The packed original colour of pixel `i` of the image.
pub open spec fn original_at(img: Image, i: int) -> u32 {
    pack_argb(
        img.pixels@[4 * i + 3],
        img.pixels@[4 * i],
        img.pixels@[4 * i + 1],
        img.pixels@[4 * i + 2],
    )
}

/// The packed dimmed colour of pixel `i` of the image.
pub open spec fn dimmed_at(img: Image, i: int) -> u32 {
    let r = img.pixels@[4 * i];
    let g = img.pixels@[4 * i + 1];
    let b = img.pixels@[4 * i + 2];
    let a = img.pixels@[4 * i + 3];
    let gray = gray_of(r, g, b);
    pack_argb(
        a,
        dim_channel(r, gray) as u8,
        dim_channel(g, gray) as u8,
        dim_channel(b, gray) as u8,
    )
}

/// All packed original pixels of the image, in row-major order.
pub open spec fn original_seq(img: Image) -> Seq<u32> {
    Seq::new((img.width * img.height) as nat, |i: int| original_at(img, i))
}

/// All packed dimmed pixels of the image, in row-major order.
pub open spec fn dimmed_seq(img: Image) -> Seq<u32> {
    Seq::new((img.width * img.height) as nat, |i: int| dimmed_at(img, i))
}

/// `(x, y)` lies in the (half-open) area covered by `r`.
pub open spec fn in_area(r: Rect, x: int, y: int) -> bool {
    r.x <= x < r.x + r.w && r.y <= y < r.y + r.h
}

/// `(x, y)` lies on the one-pixel border of `r`: on its top or bottom row
/// within the horizontal span, or on its left or right column within the
/// vertical span.
pub open spec fn on_outline(r: Rect, x: int, y: int) -> bool {
    (r.x <= x < r.x + r.w && (y == r.y || y == r.y + r.h - 1)) || (r.y <= y < r.y + r.h && (x
        == r.x || x == r.x + r.w - 1))
}

/// What the compositor leaves at `(x, y)`: with no selection, the original
/// pixel; with a red selection, the dimmed pixel outside it and the original
/// pixel inside it, overridden by the red outline colour on the red border
/// and by the green outline colour on the border of a nested selection.
pub open spec fn composite_at(
    orig: Seq<u32>,
    dim: Seq<u32>,
    w: int,
    red: Option<Rect>,
    green: Option<Rect>,
    x: int,
    y: int,
) -> u32 {
    match red {
        Option::None => pix(orig, w, x, y),
        Option::Some(r) => {
            let base = if in_area(r, x, y) {
                pix(orig, w, x, y)
            } else {
                pix(dim, w, x, y)
            };
            let with_red = if on_outline(r, x, y) {
                RED_OUTLINE
            } else {
                base
            };
            match green {
                Option::Some(g) => if on_outline(g, x, y) {
                    GREEN_OUTLINE
                } else {
                    with_red
                },
                Option::None => with_red,
            }
        },
    }
}

/// Per captured image: the packed original pixels, the dimmed variant
/// (both computed once and never written again), and the per-frame
/// composite buffer.
pub struct DisplayCache {
    pub width: u32,
    pub height: u32,
    pub original: Vec<u32>,
    pub dimmed: Vec<u32>,
    pub composite: Vec<u32>,
}

impl DisplayCache {
    /// Each buffer holds one packed pixel per grid cell, and the grid's byte
    /// count fits the address space (the image it came from held four bytes
    /// per cell).
    pub open spec fn wf(self) -> bool {
        &&& self.original@.len() == self.width * self.height
        &&& self.dimmed@.len() == self.width * self.height
        &&& self.composite@.len() == self.width * self.height
        &&& 4 * ((self.width * self.height) as int) <= usize::MAX
    }

    /// The cache belongs to `img`: same dimensions, `original` packs the
    /// image's pixels, `dimmed` is their dimmed variant.
    pub open spec fn matches(self, img: Image) -> bool {
        &&& self.width == img.width
        &&& self.height == img.height
        &&& self.original@ == original_seq(img)
        &&& self.dimmed@ == dimmed_seq(img)
    }

    /// Build the cache of `img`: pack its pixels, precompute the dimmed
    /// variant, and start the composite buffer at the original pixels.
    pub fn new(img: &Image) -> (c: DisplayCache)
        requires
            img.wf(),
        ensures
            c.wf(),
            c.matches(*img),
            c.composite@ == original_seq(*img),
    {
        let w = img.width;
        let h = img.height;
        let total = img.pixels.len();
        proof {
            assert(4 * ((w * h) as int) == 4 * w * h) by (nonlinear_arith);
            assert(0 <= (w * h) as int <= 4 * ((w * h) as int)) by (nonlinear_arith);
        }
        let n = (w as usize) * (h as usize);
        let mut original: Vec<u32> = Vec::new();
        let mut dimmed: Vec<u32> = Vec::new();
        let mut composite: Vec<u32> = Vec::new();
        let mut i: usize = 0;
        while i < n
            invariant
                img.wf(),
                w == img.width,
                h == img.height,
                total == img.pixels@.len(),
                n == w * h,
                total == 4 * n,
                0 <= i <= n,
                original@.len() == i,
                dimmed@.len() == i,
                composite@.len() == i,
                forall|j: int| 0 <= j < i ==> original@[j] == original_at(*img, j),
                forall|j: int| 0 <= j < i ==> dimmed@[j] == dimmed_at(*img, j),
                forall|j: int| 0 <= j < i ==> composite@[j] == original_at(*img, j),
            decreases n - i,
        {
            let base = 4 * i;
            let rr = img.pixels[base] as u32;
            let gg = img.pixels[base + 1] as u32;
            let bb = img.pixels[base + 2] as u32;
            let aa = img.pixels[base + 3] as u32;
            let orig_px = (aa << 24) | (rr << 16) | (gg << 8) | bb;
            let gray = (3 * rr + 6 * gg + bb) / 10;
            let dr = (3 * rr + 7 * gray) / 10;
            let dg = (3 * gg + 7 * gray) / 10;
            let db = (3 * bb + 7 * gray) / 10;
            let dim_px = (aa << 24) | (dr << 16) | (dg << 8) | db;
            proof {
                assert(orig_px == original_at(*img, i as int));
                assert(gray == gray_of(
                    img.pixels@[4 * i],
                    img.pixels@[4 * i + 1],
                    img.pixels@[4 * i + 2],
                ));
                assert(dim_px == dimmed_at(*img, i as int));
            }
            original.push(orig_px);
            dimmed.push(dim_px);
            composite.push(orig_px);
            i = i + 1;
        }
        let c = DisplayCache { width: w, height: h, original, dimmed, composite };
        proof {
            assert(c.original@ =~= original_seq(*img));
            assert(c.dimmed@ =~= dimmed_seq(*img));
            assert(c.composite@ =~= original_seq(*img));
        }
        c
    }

    /// Write `color` at grid cell `(x, y)` of the composite buffer.
    fn put_pixel(&mut self, x: i64, y: i64, color: u32)
        requires
            old(self).wf(),
            0 <= x < old(self).width,
            0 <= y < old(self).height,
        ensures
            final(self).wf(),
            final(self).width == old(self).width,
            final(self).height == old(self).height,
            final(self).original == old(self).original,
            final(self).dimmed == old(self).dimmed,
            final(self).composite@ == old(self).composite@.update(y * old(self).width + x, color),
    {
        proof {
            lemma_row_major_bound(x as int, y as int, self.width as int, self.height as int);
        }
        let idx = (y * (self.width as i64) + x) as usize;
        self.composite[idx] = color;
    }

    /// Rebuild the composite buffer entirely from `src`: the original pixels
    /// when `from_dimmed` is false, the dimmed pixels otherwise.
    fn composite_fill(&mut self, from_dimmed: bool)
        requires
            old(self).wf(),
        ensures
            final(self).wf(),
            final(self).width == old(self).width,
            final(self).height == old(self).height,
            final(self).original == old(self).original,
            final(self).dimmed == old(self).dimmed,
            final(self).composite@ == if from_dimmed {
                final(self).dimmed@
            } else {
                final(self).original@
            },
    {
        let n = self.composite.len();
        let mut i: usize = 0;
        while i < n
            invariant
                self.wf(),
                self.width == old(self).width,
                self.height == old(self).height,
                self.original == old(self).original,
                self.dimmed == old(self).dimmed,
                n == self.composite@.len(),
                0 <= i <= n,
                forall|j: int|
                    0 <= j < i ==> self.composite@[j] == if from_dimmed {
                        self.dimmed@[j]
                    } else {
                        self.original@[j]
                    },
            decreases n - i,
        {
            let v = if from_dimmed {
                self.dimmed[i]
            } else {
                self.original[i]
            };
            self.composite[i] = v;
            i = i + 1;
        }
        proof {
            if from_dimmed {
                assert(self.composite@ =~= self.dimmed@);
            } else {
                assert(self.composite@ =~= self.original@);
            }
        }
    }

    /// Copy the original pixels over the composite buffer inside the part of
    /// `r`'s area that lies on the grid; every other cell keeps its value.
    fn composite_restore_area(&mut self, r: Rect)
        requires
            old(self).wf(),
        ensures
            final(self).wf(),
            final(self).width == old(self).width,
            final(self).height == old(self).height,
            final(self).original == old(self).original,
            final(self).dimmed == old(self).dimmed,
            final(self).composite@.len() == old(self).composite@.len(),
            forall|x: int, y: int|
                0 <= x < final(self).width && 0 <= y < final(self).height
                    ==> #[trigger] pix(final(self).composite@, final(self).width as int, x, y) == if in_area(
                    r,
                    x,
                    y,
                ) {
                    pix(final(self).original@, final(self).width as int, x, y)
                } else {
                    pix(old(self).composite@, final(self).width as int, x, y)
                },
    {
        let w64 = self.width as i64;
        let h64 = self.height as i64;
        let x0 = if r.x as i64 >= 0 {
            r.x as i64
        } else {
            0
        };
        let x1 = if r.x as i64 + r.w as i64 <= w64 {
            r.x as i64 + r.w as i64
        } else {
            w64
        };
        let y0 = if r.y as i64 >= 0 {
            r.y as i64
        } else {
            0
        };
        let y1 = if r.y as i64 + r.h as i64 <= h64 {
            r.y as i64 + r.h as i64
        } else {
            h64
        };
        let ghost snap = self.composite@;
        let mut y = y0;
        while y < y1
            invariant
                self.wf(),
                self.width == old(self).width,
                self.height == old(self).height,
                self.original == old(self).original,
                self.dimmed == old(self).dimmed,
                self.composite@.len() == snap.len(),
                snap.len() == self.width * self.height,
                w64 == self.width,
                h64 == self.height,
                x0 == if r.x >= 0 { r.x as int } else { 0 },
                x1 == if r.x + r.w <= w64 { r.x + r.w } else { w64 as int },
                y0 == if r.y >= 0 { r.y as int } else { 0 },
                y1 == if r.y + r.h <= h64 { r.y + r.h } else { h64 as int },
                y0 <= y,
                y <= y1 || y == y0,
                forall|x2: int, y2: int|
                    0 <= x2 < self.width && 0 <= y2 < self.height
                        ==> #[trigger] pix(self.composite@, self.width as int, x2, y2) == if (
                        in_area(r, x2, y2) && y2 < y) {
                        pix(self.original@, self.width as int, x2, y2)
                    } else {
                        pix(snap, self.width as int, x2, y2)
                    },
            decreases y1 - y,
        {
            let mut x = x0;
            while x < x1
                invariant
                    self.wf(),
                    self.width == old(self).width,
                    self.height == old(self).height,
                    self.original == old(self).original,
                    self.dimmed == old(self).dimmed,
                    self.composite@.len() == snap.len(),
                    snap.len() == self.width * self.height,
                    w64 == self.width,
                    h64 == self.height,
                    x0 == if r.x >= 0 { r.x as int } else { 0 },
                    x1 == if r.x + r.w <= w64 { r.x + r.w } else { w64 as int },
                    y0 == if r.y >= 0 { r.y as int } else { 0 },
                    y1 == if r.y + r.h <= h64 { r.y + r.h } else { h64 as int },
                    y0 <= y < y1,
                    x0 <= x,
                    x <= x1 || x == x0,
                    forall|x2: int, y2: int|
                        0 <= x2 < self.width && 0 <= y2 < self.height
                            ==> #[trigger] pix(self.composite@, self.width as int, x2, y2) == if (
                            in_area(r, x2, y2) && (y2 < y || (y2 == y && x2 < x))) {
                            pix(self.original@, self.width as int, x2, y2)
                        } else {
                            pix(snap, self.width as int, x2, y2)
                        },
                decreases x1 - x,
            {
                proof {
                    assert(0 <= (self.width * self.height) as int) by (nonlinear_arith);
                    lemma_row_major_bound(x as int, y as int, self.width as int, self.height as int);
                }
                let idx = (y * w64 + x) as usize;
                let v = self.original[idx];
                let ghost before = self.composite@;
                self.composite[idx] = v;
                proof {
                    let wi = self.width as int;
                    assert(idx == y * wi + x);
                    assert(self.composite@ == before.update(y * wi + x, v));
                    assert(in_area(r, x as int, y as int));
                    assert forall|x2: int, y2: int|
                        0 <= x2 < self.width && 0 <= y2 < self.height
                            implies #[trigger] pix(self.composite@, self.width as int, x2, y2)
                            == if (in_area(r, x2, y2) && (y2 < y || (y2 == y && x2 < x + 1))) {
                            pix(self.original@, self.width as int, x2, y2)
                        } else {
                            pix(snap, self.width as int, x2, y2)
                        } by {
                        lemma_row_major_bound(x2, y2, wi, self.height as int);
                        assert(pix(before, wi, x2, y2) == if (in_area(r, x2, y2) && (y2 < y || (y2
                            == y && x2 < x))) {
                            pix(self.original@, wi, x2, y2)
                        } else {
                            pix(snap, wi, x2, y2)
                        });
                        if y2 * wi + x2 == y * wi + x {
                            lemma_row_major_injective(x2, y2, x as int, y as int, wi);
                            assert(pix(self.composite@, wi, x2, y2) == v);
                        } else {
                            assert(pix(self.composite@, wi, x2, y2) == pix(before, wi, x2, y2));
                        }
                    }
                }
                x = x + 1;
            }
            y = y + 1;
        }
    }

    /// Draw a one-pixel outline of `rect` in `color` over the composite
    /// buffer: its top and bottom rows across the rectangle's horizontal
    /// span, and its left and right columns across the vertical span, each
    /// cell written only where it lies on the grid.
    pub fn draw_rectangle(&mut self, rect: Rect, color: u32)
        requires
            old(self).wf(),
        ensures
            final(self).wf(),
            final(self).width == old(self).width,
            final(self).height == old(self).height,
            final(self).original == old(self).original,
            final(self).dimmed == old(self).dimmed,
            final(self).composite@.len() == old(self).composite@.len(),
            forall|x: int, y: int|
                0 <= x < final(self).width && 0 <= y < final(self).height
                    ==> #[trigger] pix(final(self).composite@, final(self).width as int, x, y) == if on_outline(
                    rect,
                    x,
                    y,
                ) {
                    color
                } else {
                    pix(old(self).composite@, final(self).width as int, x, y)
                },
    {
        let w64 = self.width as i64;
        let h64 = self.height as i64;
        let rx = rect.x as i64;
        let ry = rect.y as i64;
        let rw = rect.w as i64;
        let rh = rect.h as i64;
        let ghost snap0 = self.composite@;

        // Top and bottom rows.
        let x_lo = if rx >= 0 {
            rx
        } else {
            0
        };
        let x_hi = if rx + rw <= w64 {
            rx + rw
        } else {
            w64
        };
        let mut i = x_lo;
        while i < x_hi
            invariant
                self.wf(),
                self.width == old(self).width,
                self.height == old(self).height,
                self.original == old(self).original,
                self.dimmed == old(self).dimmed,
                self.composite@.len() == snap0.len(),
                snap0.len() == self.width * self.height,
                w64 == self.width,
                h64 == self.height,
                rx == rect.x && ry == rect.y && rw == rect.w && rh == rect.h,
                x_lo == if rect.x >= 0 { rect.x as int } else { 0 },
                x_hi == if rect.x + rect.w <= w64 { rect.x + rect.w } else { w64 as int },
                x_lo <= i,
                i <= x_hi || i == x_lo,
                forall|x2: int, y2: int|
                    0 <= x2 < self.width && 0 <= y2 < self.height
                        ==> #[trigger] pix(self.composite@, self.width as int, x2, y2) == if (rect.x
                        <= x2 < i && (y2 == rect.y || y2 == rect.y + rect.h - 1)) {
                        color
                    } else {
                        pix(snap0, self.width as int, x2, y2)
                    },
            decreases x_hi - i,
        {
            let ghost st0 = self.composite@;
            if ry >= 0 && ry < h64 {
                self.put_pixel(i, ry, color);
            }
            let ghost st1 = self.composite@;
            if ry + rh - 1 >= 0 && ry + rh - 1 < h64 {
                self.put_pixel(i, ry + rh - 1, color);
            }
            proof {
                let wi = self.width as int;
                let hi = self.height as int;
                if ry >= 0 && ry < h64 {
                    lemma_put_effect(st0, st1, wi, hi, i as int, ry as int, color);
                }
                if ry + rh - 1 >= 0 && ry + rh - 1 < h64 {
                    lemma_put_effect(st1, self.composite@, wi, hi, i as int, ry + rh - 1, color);
                }
                assert forall|x2: int, y2: int|
                    0 <= x2 < self.width && 0 <= y2 < self.height
                        implies #[trigger] pix(self.composite@, self.width as int, x2, y2) == if (
                        rect.x <= x2 < i + 1 && (y2 == rect.y || y2 == rect.y + rect.h - 1)) {
                        color
                    } else {
                        pix(snap0, self.width as int, x2, y2)
                    } by {
                    assert(pix(st0, wi, x2, y2) == if (rect.x <= x2 < i && (y2 == rect.y || y2
                        == rect.y + rect.h - 1)) {
                        color
                    } else {
                        pix(snap0, wi, x2, y2)
                    });
                    if ry >= 0 && ry < h64 {
                        assert(pix(st1, wi, x2, y2) == if x2 == i && y2 == ry {
                            color
                        } else {
                            pix(st0, wi, x2, y2)
                        });
                    }
                    if ry + rh - 1 >= 0 && ry + rh - 1 < h64 {
                        assert(pix(self.composite@, wi, x2, y2) == if x2 == i && y2 == ry + rh
                            - 1 {
                            color
                        } else {
                            pix(st1, wi, x2, y2)
                        });
                    }
                }
            }
            i = i + 1;
        }
        let ghost snap1 = self.composite@;

        // Left and right columns.
        let y_lo = if ry >= 0 {
            ry
        } else {
            0
        };
        let y_hi = if ry + rh <= h64 {
            ry + rh
        } else {
            h64
        };
        let mut j = y_lo;
        while j < y_hi
            invariant
                self.wf(),
                self.width == old(self).width,
                self.height == old(self).height,
                self.original == old(self).original,
                self.dimmed == old(self).dimmed,
                self.composite@.len() == snap1.len(),
                snap1.len() == self.width * self.height,
                w64 == self.width,
                h64 == self.height,
                rx == rect.x && ry == rect.y && rw == rect.w && rh == rect.h,
                y_lo == if rect.y >= 0 { rect.y as int } else { 0 },
                y_hi == if rect.y + rect.h <= h64 { rect.y + rect.h } else { h64 as int },
                y_lo <= j,
                j <= y_hi || j == y_lo,
                forall|x2: int, y2: int|
                    0 <= x2 < self.width && 0 <= y2 < self.height
                        ==> #[trigger] pix(self.composite@, self.width as int, x2, y2) == if (rect.y
                        <= y2 < j && (x2 == rect.x || x2 == rect.x + rect.w - 1)) {
                        color
                    } else {
                        pix(snap1, self.width as int, x2, y2)
                    },
            decreases y_hi - j,
        {
            let ghost st0 = self.composite@;
            if rx >= 0 && rx < w64 {
                self.put_pixel(rx, j, color);
            }
            let ghost st1 = self.composite@;
            if rx + rw - 1 >= 0 && rx + rw - 1 < w64 {
                self.put_pixel(rx + rw - 1, j, color);
            }
            proof {
                let wi = self.width as int;
                let hi = self.height as int;
                if rx >= 0 && rx < w64 {
                    lemma_put_effect(st0, st1, wi, hi, rx as int, j as int, color);
                }
                if rx + rw - 1 >= 0 && rx + rw - 1 < w64 {
                    lemma_put_effect(st1, self.composite@, wi, hi, rx + rw - 1, j as int, color);
                }
                assert forall|x2: int, y2: int|
                    0 <= x2 < self.width && 0 <= y2 < self.height
                        implies #[trigger] pix(self.composite@, self.width as int, x2, y2) == if (
                        rect.y <= y2 < j + 1 && (x2 == rect.x || x2 == rect.x + rect.w - 1)) {
                        color
                    } else {
                        pix(snap1, self.width as int, x2, y2)
                    } by {
                    assert(pix(st0, wi, x2, y2) == if (rect.y <= y2 < j && (x2 == rect.x || x2
                        == rect.x + rect.w - 1)) {
                        color
                    } else {
                        pix(snap1, wi, x2, y2)
                    });
                    if rx >= 0 && rx < w64 {
                        assert(pix(st1, wi, x2, y2) == if x2 == rx && y2 == j {
                            color
                        } else {
                            pix(st0, wi, x2, y2)
                        });
                    }
                    if rx + rw - 1 >= 0 && rx + rw - 1 < w64 {
                        assert(pix(self.composite@, wi, x2, y2) == if x2 == rx + rw - 1 && y2
                            == j {
                            color
                        } else {
                            pix(st1, wi, x2, y2)
                        });
                    }
                }
            }
            j = j + 1;
        }
        proof {
            assert forall|x2: int, y2: int|
                0 <= x2 < self.width && 0 <= y2 < self.height
                    implies #[trigger] pix(self.composite@, self.width as int, x2, y2)
                    == if on_outline(rect, x2, y2) {
                    color
                } else {
                    pix(snap0, self.width as int, x2, y2)
                } by {
            }
        }
    }

    /// Rebuild the composite buffer for the current selections: original
    /// pixels only when no red rectangle exists; otherwise dimmed pixels with
    /// the red area restored to the original pixels and outlines drawn over
    /// the red rectangle and, when present, the green one.
    pub fn update_display(&mut self, red_region: Option<Rect>, green_region: Option<Rect>)
        requires
            old(self).wf(),
        ensures
            final(self).wf(),
            final(self).width == old(self).width,
            final(self).height == old(self).height,
            final(self).original == old(self).original,
            final(self).dimmed == old(self).dimmed,
            forall|x: int, y: int|
                0 <= x < final(self).width && 0 <= y < final(self).height
                    ==> #[trigger] pix(final(self).composite@, final(self).width as int, x, y) == composite_at(
                    final(self).original@,
                    final(self).dimmed@,
                    final(self).width as int,
                    red_region,
                    green_region,
                    x,
                    y,
                ),
    {
        match red_region {
            None => {
                self.composite_fill(false);
                proof {
                    assert forall|x: int, y: int|
                        0 <= x < self.width && 0 <= y < self.height
                            implies #[trigger] pix(self.composite@, self.width as int, x, y)
                            == composite_at(
                            self.original@,
                            self.dimmed@,
                            self.width as int,
                            red_region,
                            green_region,
                            x,
                            y,
                        ) by {
                        lemma_row_major_bound(x, y, self.width as int, self.height as int);
                    }
                }
            },
            Some(red) => {
                self.composite_fill(true);
                let ghost dim_stage = self.composite@;
                self.composite_restore_area(red);
                self.draw_rectangle(red, RED_OUTLINE);
                if let Some(green) = green_region {
                    self.draw_rectangle(green, GREEN_OUTLINE);
                }
                proof {
                    assert forall|x: int, y: int|
                        0 <= x < self.width && 0 <= y < self.height
                            implies #[trigger] pix(self.composite@, self.width as int, x, y)
                            == composite_at(
                            self.original@,
                            self.dimmed@,
                            self.width as int,
                            red_region,
                            green_region,
                            x,
                            y,
                        ) by {
                        lemma_row_major_bound(x, y, self.width as int, self.height as int);
                        assert(pix(dim_stage, self.width as int, x, y) == pix(
                            self.dimmed@,
                            self.width as int,
                            x,
                            y,
                        ));
                    }
                }
            },
        }
    }
}

/// Writing one grid cell changes that cell alone.
proof fn lemma_put_effect(
    before: Seq<u32>,
    after: Seq<u32>,
    w: int,
    h: int,
    x: int,
    y: int,
    color: u32,
)
    requires
        0 <= x < w,
        0 <= y < h,
        before.len() == w * h,
        after == before.update(y * w + x, color),
    ensures
        after.len() == before.len(),
        forall|x2: int, y2: int|
            0 <= x2 < w && 0 <= y2 < h ==> #[trigger] pix(after, w, x2, y2) == if x2 == x && y2
                == y {
                color
            } else {
                pix(before, w, x2, y2)
            },
{
    lemma_row_major_bound(x, y, w, h);
    assert forall|x2: int, y2: int|
        0 <= x2 < w && 0 <= y2 < h implies #[trigger] pix(after, w, x2, y2) == if x2 == x && y2
            == y {
            color
        } else {
            pix(before, w, x2, y2)
        } by {
        lemma_row_major_bound(x2, y2, w, h);
        if y2 * w + x2 == y * w + x {
            lemma_row_major_injective(x2, y2, x, y, w);
        }
    }
}

/// The dimmed buffer is a pure function of the captured image: two caches of
/// the same image hold identical dimmed bytes, however often they are
/// recomputed.
pub proof fn lemma_dimmed_deterministic(c1: DisplayCache, c2: DisplayCache, img: Image)
    requires
        c1.matches(img),
        c2.matches(img),
    ensures
        c1.dimmed@ == c2.dimmed@,
        c1.original@ == c2.original@,
{
}

/// Rebuilding the composite for the same cache contents and the same
/// selections always yields identical bytes: the composite is pinned
/// pointwise by `composite_at`.
pub proof fn lemma_composite_idempotent(
    c1: DisplayCache,
    c2: DisplayCache,
    red: Option<Rect>,
    green: Option<Rect>,
)
    requires
        c1.wf(),
        c2.wf(),
        c1.width == c2.width,
        c1.height == c2.height,
        c1.original@ == c2.original@,
        c1.dimmed@ == c2.dimmed@,
        forall|x: int, y: int|
            0 <= x < c1.width && 0 <= y < c1.height
                ==> #[trigger] pix(c1.composite@, c1.width as int, x, y) == composite_at(
                c1.original@,
                c1.dimmed@,
                c1.width as int,
                red,
                green,
                x,
                y,
            ),
        forall|x: int, y: int|
            0 <= x < c2.width && 0 <= y < c2.height
                ==> #[trigger] pix(c2.composite@, c2.width as int, x, y) == composite_at(
                c2.original@,
                c2.dimmed@,
                c2.width as int,
                red,
                green,
                x,
                y,
            ),
    ensures
        c1.composite@ == c2.composite@,
{
    let w = c1.width as int;
    let h = c1.height as int;
    assert forall|i: int| 0 <= i < c1.composite@.len() implies c1.composite@[i]
        == c2.composite@[i] by {
        lemma_flat_coords(i, w, h);
        let x = i % w;
        let y = i / w;
        assert(pix(c1.composite@, w, x, y) == composite_at(
            c1.original@,
            c1.dimmed@,
            w,
            red,
            green,
            x,
            y,
        ));
        assert(pix(c2.composite@, w, x, y) == composite_at(
            c2.original@,
            c2.dimmed@,
            w,
            red,
            green,
            x,
            y,
        ));
    }
    assert(c1.composite@ =~= c2.composite@);
}

/// The pixels the compositor leaves, read off `composite_at`: original
/// pixels on the red area away from the outlines, dimmed pixels strictly
/// outside the red rectangle, the outline colours on the outlines, with the
/// green outline painted over the red one.
pub proof fn lemma_composite_values(
    orig: Seq<u32>,
    dim: Seq<u32>,
    w: int,
    red: Rect,
    green: Option<Rect>,
    x: int,
    y: int,
)
    ensures
        in_area(red, x, y) && !on_outline(red, x, y) && (green matches Some(g) ==> !on_outline(
            g,
            x,
            y,
        )) ==> composite_at(orig, dim, w, Some(red), green, x, y) == pix(orig, w, x, y),
        !in_area(red, x, y) && !on_outline(red, x, y) && (green matches Some(g) ==> !on_outline(
            g,
            x,
            y,
        )) ==> composite_at(orig, dim, w, Some(red), green, x, y) == pix(dim, w, x, y),
        on_outline(red, x, y) && (green matches Some(g) ==> !on_outline(g, x, y))
            ==> composite_at(orig, dim, w, Some(red), green, x, y) == RED_OUTLINE,
        (green matches Some(g) && on_outline(g, x, y)) ==> composite_at(
            orig,
            dim,
            w,
            Some(red),
            green,
            x,
            y,
        ) == GREEN_OUTLINE,
{
}

} // verus!
