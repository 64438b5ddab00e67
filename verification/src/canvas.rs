//! The output raster: a row-major grid of pixels.
//!
//! The grid is generic in its pixel type; the renderer instantiates it with
//! its color type.  `blit` copies a finished sub-raster into place, which is
//! how the tiled render assembles its final image.

use vstd::prelude::*;

verus! {

/// Row-major index of pixel `(x, y)` in a grid `width` pixels wide.
pub open spec fn pixel_index(width: int, x: int, y: int) -> int {
    y * width + x
}

/// Inside a `width` by `height` grid, a pixel's row-major index is in range.
pub proof fn lemma_pixel_index_bounds(width: int, height: int, x: int, y: int)
    requires
        0 <= x < width,
        0 <= y < height,
    ensures
        0 <= pixel_index(width, x, y) < width * height,
{
    assert(0 <= y * width + x < width * height) by (nonlinear_arith)
        requires
            0 <= x < width,
            0 <= y < height,
    ;
}

/// Distinct pixel coordinates of one grid have distinct row-major indices.
pub proof fn lemma_pixel_index_injective(width: int, x1: int, y1: int, x2: int, y2: int)
    requires
        0 <= x1 < width,
        0 <= x2 < width,
        0 <= y1,
        0 <= y2,
        pixel_index(width, x1, y1) == pixel_index(width, x2, y2),
    ensures
        x1 == x2 && y1 == y2,
{
    assert(y1 * width + x1 == y2 * width + x2 ==> y1 == y2 && x1 == x2) by (nonlinear_arith)
        requires
            0 <= x1 < width,
            0 <= x2 < width,
            0 <= y1,
            0 <= y2,
    ;
}

/// A raster of `width` by `height` pixels, stored row-major.
pub struct Canvas<C> {
    pub width: u32,
    pub height: u32,
    /// Row-major pixel storage; kept consistent with the dimensions by
    /// construction (`wf`).
    pub pixels: Vec<C>,
}

impl<C: Copy> Canvas<C> {
    /// The storage holds exactly one pixel per coordinate.
    pub open spec fn wf(&self) -> bool {
        self.pixels@.len() == self.width * self.height
    }

    /// The pixel at `(x, y)`.
    pub open spec fn pixel_value(&self, x: int, y: int) -> C
        recommends
            self.wf(),
            0 <= x < self.width,
            0 <= y < self.height,
    {
        self.pixels@[pixel_index(self.width as int, x, y)]
    }

    /// A grid filled with the given background pixel.
    pub fn new(width: u32, height: u32, background: C) -> (c: Canvas<C>)
        requires
            width * height <= usize::MAX,
        ensures
            c.wf(),
            c.width == width,
            c.height == height,
            forall|x: int, y: int|
                0 <= x < width && 0 <= y < height ==> #[trigger] c.pixel_value(x, y) == background,
    {
        proof {
            assert((width as int) * (height as int) >= 0) by (nonlinear_arith)
                requires
                    width >= 0,
                    height >= 0,
            ;
        }
        let n: usize = (width as usize) * (height as usize);
        let mut pixels: Vec<C> = Vec::new();
        let mut i: usize = 0;
        while i < n
            invariant
                i <= n,
                pixels@.len() == i,
                forall|k: int| 0 <= k < i ==> pixels@[k] == background,
            decreases n - i,
        {
            pixels.push(background);
            i = i + 1;
        }
        let c = Canvas { width, height, pixels };
        proof {
            assert forall|x: int, y: int|
                0 <= x < width && 0 <= y < height implies #[trigger] c.pixel_value(x, y)
                == background by {
                lemma_pixel_index_bounds(width as int, height as int, x, y);
            }
        }
        c
    }

    pub fn pixel_at(&self, x: u32, y: u32) -> (r: &C)
        requires
            self.wf(),
            x < self.width,
            y < self.height,
        ensures
            *r == self.pixel_value(x as int, y as int),
    {
        let len = self.pixels.len();
        proof {
            lemma_pixel_index_bounds(self.width as int, self.height as int, x as int, y as int);
            assert((y as int) * (self.width as int) <= pixel_index(
                self.width as int,
                x as int,
                y as int,
            ) < len);
        }
        let index: usize = (y as usize) * (self.width as usize) + (x as usize);
        &self.pixels[index]
    }

    /// Overwrites the pixel at `(x, y)`, leaving every other pixel unchanged.
    pub fn write_pixel(&mut self, x: u32, y: u32, color: &C)
        requires
            old(self).wf(),
            x < old(self).width,
            y < old(self).height,
        ensures
            final(self).wf(),
            final(self).width == old(self).width,
            final(self).height == old(self).height,
            final(self).pixels@ == old(self).pixels@.update(
                pixel_index(old(self).width as int, x as int, y as int),
                *color,
            ),
    {
        let len = self.pixels.len();
        proof {
            lemma_pixel_index_bounds(self.width as int, self.height as int, x as int, y as int);
            assert((y as int) * (self.width as int) <= pixel_index(
                self.width as int,
                x as int,
                y as int,
            ) < len);
        }
        let index: usize = (y as usize) * (self.width as usize) + (x as usize);
        let p = &mut self.pixels[index];
        *p = *color;
    }

    /// Copies a finished sub-raster into place: within the destination
    /// rectangle every pixel takes the sub-raster's value, outside it none
    /// changes.  This is the single hand-over a tile worker makes to the
    /// final image.
    pub fn blit(self, sub: &Canvas<C>, x0: u32, y0: u32) -> (r: Canvas<C>)
        requires
            self.wf(),
            sub.wf(),
            x0 + sub.width <= self.width,
            y0 + sub.height <= self.height,
        ensures
            r.wf(),
            r.width == self.width,
            r.height == self.height,
            forall|px: int, py: int|
                0 <= px < self.width && 0 <= py < self.height ==> #[trigger] r.pixel_value(px, py)
                    == (if x0 <= px < x0 + sub.width && y0 <= py < y0 + sub.height {
                    sub.pixel_value(px - x0, py - y0)
                } else {
                    self.pixel_value(px, py)
                }),
    {
        let ghost dst0 = self;
        let mut dst = self;
        let mut y: u32 = 0;
        while y < sub.height
            invariant
                y <= sub.height,
                dst.wf(),
                dst.width == dst0.width,
                dst.height == dst0.height,
                dst0.wf(),
                sub.wf(),
                x0 + sub.width <= dst0.width,
                y0 + sub.height <= dst0.height,
                forall|px: int, py: int|
                    0 <= px < dst0.width && 0 <= py < dst0.height ==> #[trigger] dst.pixel_value(
                        px,
                        py,
                    ) == (if x0 <= px < x0 + sub.width && y0 <= py < y0 + y {
                        sub.pixel_value(px - x0, py - y0)
                    } else {
                        dst0.pixel_value(px, py)
                    }),
            decreases sub.height - y,
        {
            let mut x: u32 = 0;
            while x < sub.width
                invariant
                    x <= sub.width,
                    y < sub.height,
                    dst.wf(),
                    dst.width == dst0.width,
                    dst.height == dst0.height,
                    dst0.wf(),
                    sub.wf(),
                    x0 + sub.width <= dst0.width,
                    y0 + sub.height <= dst0.height,
                    forall|px: int, py: int|
                        0 <= px < dst0.width && 0 <= py < dst0.height ==> #[trigger] dst.pixel_value(
                            px,
                            py,
                        ) == (if (x0 <= px < x0 + sub.width && y0 <= py < y0 + y) || (y0 + y == py
                            && x0 <= px < x0 + x) {
                            sub.pixel_value(px - x0, py - y0)
                        } else {
                            dst0.pixel_value(px, py)
                        }),
                decreases sub.width - x,
            {
                let ghost before = dst;
                let value = *sub.pixel_at(x, y);
                dst.write_pixel(x0 + x, y0 + y, &value);
                proof {
                    let w = dst.width as int;
                    let wx = x0 + x as int;
                    let wy = y0 + y as int;
                    lemma_pixel_index_bounds(w, dst.height as int, wx, wy);
                    assert forall|px: int, py: int|
                        0 <= px < dst0.width && 0 <= py < dst0.height implies #[trigger] dst.pixel_value(
                        px,
                        py,
                    ) == (if (x0 <= px < x0 + sub.width && y0 <= py < y0 + y) || (y0 + y == py && x0
                        <= px < x0 + x + 1) {
                        sub.pixel_value(px - x0, py - y0)
                    } else {
                        dst0.pixel_value(px, py)
                    }) by {
                        if px == wx && py == wy {
                        } else {
                            lemma_pixel_index_bounds(w, dst.height as int, px, py);
                            if pixel_index(w, px, py) == pixel_index(w, wx, wy) {
                                lemma_pixel_index_injective(w, px, py, wx, wy);
                                assert(false);
                            }
                            assert(dst.pixel_value(px, py) == before.pixel_value(px, py));
                        }
                    }
                }
                x = x + 1;
            }
            y = y + 1;
        }
        dst
    }
}

} // verus!
