//! Camera resolution and the tiled-render partition.

use vstd::prelude::*;

use crate::canvas::Canvas;

verus! {

/// Pixel dimensions of the output image.
#[derive(Debug, Copy, Clone, PartialEq, Eq, Structural)]
#[non_exhaustive]
pub struct Resolution {
    pub hsize: u32, // pixel width
    pub vsize: u32, // pixel height
}

impl Resolution {
    pub fn new(hsize: u32, vsize: u32) -> (r: Self)
        ensures
            r.hsize == hsize,
            r.vsize == vsize,
    {
        Resolution { hsize, vsize }
    }

    /// Total number of pixels; the product never overflows a `u64`.
    pub fn num_pixels(&self) -> (r: u64)
        ensures
            r == self.hsize * self.vsize,
    {
        proof {
            assert((self.hsize as u64) * (self.vsize as u64) <= 0xffff_ffffu64 * 0xffff_ffffu64)
                by (nonlinear_arith)
                requires
                    self.hsize <= 0xffff_ffffu64,
                    self.vsize <= 0xffff_ffffu64,
            ;
        }
        self.hsize as u64 * self.vsize as u64
    }
}

impl Default for Resolution {
    fn default() -> (r: Self)
        ensures
            r.hsize == 100,
            r.vsize == 50,
    {
        Resolution { hsize: 100, vsize: 50 }
    }
}

/// Where tile `i` of `divs` begins along an axis of `extent` pixels: tiles
/// are `extent / divs` wide.
pub open spec fn tile_start(extent: int, divs: int, i: int) -> int {
    i * (extent / divs)
}

/// Where tile `i` ends.  The last tile absorbs the remainder lost to the
/// integer division, so the grid exactly covers the axis.
pub open spec fn tile_end(extent: int, divs: int, i: int) -> int {
    if i == divs - 1 {
        extent
    } else {
        (i + 1) * (extent / divs)
    }
}

/// Which tile of the axis holds pixel `p`.
pub open spec fn tile_of(extent: int, divs: int, p: int) -> int {
    let step = extent / divs;
    if step == 0 {
        divs - 1
    } else if p / step < divs - 1 {
        p / step
    } else {
        divs - 1
    }
}

/// Tile spans lie inside the axis and are ordered.
pub proof fn lemma_tile_span_bounds(extent: int, divs: int, i: int)
    requires
        0 <= extent,
        1 <= divs,
        0 <= i < divs,
    ensures
        0 <= tile_start(extent, divs, i) <= tile_end(extent, divs, i) <= extent,
{
    let step = extent / divs;
    vstd::arithmetic::div_mod::lemma_fundamental_div_mod(extent, divs);
    assert(0 <= extent % divs < divs) by {
        vstd::arithmetic::div_mod::lemma_mod_bound(extent, divs);
    }
    assert(0 <= step) by (nonlinear_arith)
        requires
            extent == divs * step + extent % divs,
            0 <= extent % divs < divs,
            0 <= extent,
            1 <= divs,
    ;
    assert(0 <= i * step <= (i + 1) * step <= divs * step <= extent) by (nonlinear_arith)
        requires
            extent == divs * step + extent % divs,
            0 <= extent % divs,
            0 <= step,
            0 <= i < divs,
    ;
}

/// Every pixel of the axis lies inside the span of its tile.
pub proof fn lemma_tile_cover(extent: int, divs: int, p: int)
    requires
        1 <= divs,
        0 <= p < extent,
    ensures
        0 <= tile_of(extent, divs, p) < divs,
        tile_start(extent, divs, tile_of(extent, divs, p)) <= p < tile_end(
            extent,
            divs,
            tile_of(extent, divs, p),
        ),
{
    let step = extent / divs;
    vstd::arithmetic::div_mod::lemma_fundamental_div_mod(extent, divs);
    vstd::arithmetic::div_mod::lemma_mod_bound(extent, divs);
    if step == 0 {
        assert((divs - 1) * step == 0) by (nonlinear_arith)
            requires
                step == 0,
        ;
        assert(tile_start(extent, divs, divs - 1) == 0);
    } else {
        let q = p / step;
        vstd::arithmetic::div_mod::lemma_fundamental_div_mod(p, step);
        vstd::arithmetic::div_mod::lemma_mod_bound(p, step);
        assert(0 <= q) by (nonlinear_arith)
            requires
                p == step * q + p % step,
                0 <= p % step < step,
                0 <= p,
        ;
        if q < divs - 1 {
            assert(q * step <= p < (q + 1) * step) by (nonlinear_arith)
                requires
                    p == step * q + p % step,
                    0 <= p % step < step,
            ;
        } else {
            assert((divs - 1) * step <= q * step <= p) by (nonlinear_arith)
                requires
                    p == step * q + p % step,
                    0 <= p % step < step,
                    divs - 1 <= q,
                    0 < step,
            ;
        }
    }
}

/// A pixel lies in the span of only one tile: the spans are disjoint.
pub proof fn lemma_tile_unique(extent: int, divs: int, p: int, i: int)
    requires
        1 <= divs,
        0 <= p < extent,
        0 <= i < divs,
        tile_start(extent, divs, i) <= p < tile_end(extent, divs, i),
    ensures
        i == tile_of(extent, divs, p),
{
    let step = extent / divs;
    vstd::arithmetic::div_mod::lemma_fundamental_div_mod(extent, divs);
    vstd::arithmetic::div_mod::lemma_mod_bound(extent, divs);
    if step == 0 {
        if i < divs - 1 {
            assert(i * step == 0 && (i + 1) * step == 0) by (nonlinear_arith)
                requires
                    step == 0,
            ;
            assert(tile_start(extent, divs, i) == tile_end(extent, divs, i));
        }
    } else {
        let q = p / step;
        vstd::arithmetic::div_mod::lemma_fundamental_div_mod(p, step);
        vstd::arithmetic::div_mod::lemma_mod_bound(p, step);
        if i < divs - 1 {
            assert(q == i) by (nonlinear_arith)
                requires
                    p == step * q + p % step,
                    0 <= p % step < step,
                    i * step <= p < (i + 1) * step,
            ;
        } else {
            assert(divs - 1 <= q) by (nonlinear_arith)
                requires
                    p == step * q + p % step,
                    0 <= p % step < step,
                    (divs - 1) * step <= p,
                    0 < step,
            ;
        }
    }
}

/// The start and end of tile `i` along an axis of `extent` pixels split into
/// `divs` tiles.
pub fn tile_span(extent: u32, divs: u32, i: u32) -> (r: (u32, u32))
    requires
        1 <= divs,
        i < divs,
    ensures
        r.0 == tile_start(extent as int, divs as int, i as int),
        r.1 == tile_end(extent as int, divs as int, i as int),
        r.0 <= r.1 <= extent,
{
    proof {
        lemma_tile_span_bounds(extent as int, divs as int, i as int);
        if i + 1 < divs {
            lemma_tile_span_bounds(extent as int, divs as int, i as int + 1);
        }
    }
    let step = extent / divs;
    let start = i * step;
    let end = if i == divs - 1 {
        extent
    } else {
        (i + 1) * step
    };
    (start, end)
}

/// Total length of the first `i` tile spans along an axis.
pub open spec fn spans_total(extent: int, divs: int, i: int) -> int
    decreases i,
{
    if i <= 0 {
        0
    } else {
        spans_total(extent, divs, i - 1) + (tile_end(extent, divs, i - 1) - tile_start(
            extent,
            divs,
            i - 1,
        ))
    }
}

/// The spans of an axis telescope: the first `i` of them add up to where tile
/// `i` begins, and all of them together to the whole axis.  A progress count
/// fed one span at a time therefore reaches exactly the image's extent.
pub proof fn lemma_spans_total(extent: int, divs: int, i: int)
    requires
        0 <= extent,
        1 <= divs,
        0 <= i <= divs,
    ensures
        spans_total(extent, divs, i) == if i < divs {
            tile_start(extent, divs, i)
        } else {
            extent
        },
    decreases i,
{
    if i > 0 {
        lemma_spans_total(extent, divs, i - 1);
    }
}

/// Tile `k` (row-major in an `xdiv` by `ydiv` grid over a `width` by
/// `height` image) is well-formed and has exactly its span's dimensions.
pub open spec fn tile_dims_ok<C: Copy>(
    width: int,
    height: int,
    xdiv: int,
    ydiv: int,
    tiles: Seq<Canvas<C>>,
    k: int,
) -> bool {
    let tx = k % xdiv;
    let ty = k / xdiv;
    &&& tiles[k].wf()
    &&& tiles[k].width == tile_end(width, xdiv, tx) - tile_start(width, xdiv, tx)
    &&& tiles[k].height == tile_end(height, ydiv, ty) - tile_start(height, ydiv, ty)
}

/// The color pixel `(px, py)` receives from the tile grid: the pixel of the
/// one tile whose spans contain it.
pub open spec fn tile_pixel<C: Copy>(
    width: int,
    height: int,
    xdiv: int,
    ydiv: int,
    tiles: Seq<Canvas<C>>,
    px: int,
    py: int,
) -> C {
    let tx = tile_of(width, xdiv, px);
    let ty = tile_of(height, ydiv, py);
    tiles[ty * xdiv + tx].pixel_value(
        px - tile_start(width, xdiv, tx),
        py - tile_start(height, ydiv, ty),
    )
}

/// Assembles the full image from the finished sub-rasters of an `xdiv` by
/// `ydiv` tile grid, handed over in row-major tile order.  Every pixel of the
/// result is the corresponding pixel of the one tile that covers it: this is
/// the recombination step of the parallel render, and together with the span
/// lemmas it makes the tiled path agree pixel for pixel with a single pass
/// over the image.
pub fn assemble_tiles<C: Copy>(
    width: u32,
    height: u32,
    xdiv: u32,
    ydiv: u32,
    tiles: Vec<Canvas<C>>,
    background: C,
) -> (r: Canvas<C>)
    requires
        1 <= xdiv,
        1 <= ydiv,
        width * height <= usize::MAX,
        tiles@.len() == xdiv * ydiv,
        forall|k: int|
            0 <= k < tiles@.len() ==> #[trigger] tile_dims_ok(
                width as int,
                height as int,
                xdiv as int,
                ydiv as int,
                tiles@,
                k,
            ),
    ensures
        r.wf(),
        r.width == width,
        r.height == height,
        forall|px: int, py: int|
            0 <= px < width && 0 <= py < height ==> #[trigger] r.pixel_value(px, py) == tile_pixel(
                width as int,
                height as int,
                xdiv as int,
                ydiv as int,
                tiles@,
                px,
                py,
            ),
{
    let ghost w = width as int;
    let ghost h = height as int;
    let ghost xd = xdiv as int;
    let ghost yd = ydiv as int;
    let mut image = Canvas::<C>::new(width, height, background);
    let mut ty: u32 = 0;
    while ty < ydiv
        invariant
            ty <= ydiv,
            1 <= xdiv,
            1 <= ydiv,
            w == width as int,
            h == height as int,
            xd == xdiv as int,
            yd == ydiv as int,
            tiles@.len() == xdiv * ydiv,
            forall|k: int|
                0 <= k < tiles@.len() ==> #[trigger] tile_dims_ok(w, h, xd, yd, tiles@, k),
            image.wf(),
            image.width == width,
            image.height == height,
            forall|px: int, py: int|
                0 <= px < width && 0 <= py < height ==> #[trigger] image.pixel_value(px, py) == (
                if tile_of(h, yd, py) < ty {
                    tile_pixel(w, h, xd, yd, tiles@, px, py)
                } else {
                    background
                }),
        decreases ydiv - ty,
    {
        let (ys, ye) = tile_span(height, ydiv, ty);
        let mut tx: u32 = 0;
        while tx < xdiv
            invariant
                tx <= xdiv,
                ty < ydiv,
                1 <= xdiv,
                1 <= ydiv,
                w == width as int,
                h == height as int,
                xd == xdiv as int,
                yd == ydiv as int,
                tiles@.len() == xdiv * ydiv,
                forall|k: int|
                    0 <= k < tiles@.len() ==> #[trigger] tile_dims_ok(w, h, xd, yd, tiles@, k),
                ys == tile_start(h, yd, ty as int),
                ye == tile_end(h, yd, ty as int),
                image.wf(),
                image.width == width,
                image.height == height,
                forall|px: int, py: int|
                    0 <= px < width && 0 <= py < height ==> #[trigger] image.pixel_value(px, py)
                        == (if tile_of(h, yd, py) < ty || (tile_of(h, yd, py) == ty && tile_of(
                        w,
                        xd,
                        px,
                    ) < tx) {
                        tile_pixel(w, h, xd, yd, tiles@, px, py)
                    } else {
                        background
                    }),
            decreases xdiv - tx,
        {
            let ghost prev = image;
            let (xs, xe) = tile_span(width, xdiv, tx);
            let ntiles = tiles.len();
            proof {
                assert((ty as int) * xd + (tx as int) < yd * xd && 0 <= (ty as int) * xd + (
                tx as int)) by (nonlinear_arith)
                    requires
                        0 <= (ty as int) < yd,
                        0 <= (tx as int) < xd,
                        1 <= xd,
                ;
                assert(yd * xd == ntiles);
                vstd::arithmetic::div_mod::lemma_fundamental_div_mod_converse(
                    (ty as int) * xd + (tx as int),
                    xd,
                    ty as int,
                    tx as int,
                );
                assert(tile_dims_ok(w, h, xd, yd, tiles@, (ty as int) * xd + (tx as int)));
                lemma_tile_span_bounds(w, xd, tx as int);
                lemma_tile_span_bounds(h, yd, ty as int);
            }
            let k: usize = (ty as usize) * (xdiv as usize) + (tx as usize);
            image = image.blit(&tiles[k], xs, ys);
            proof {
                let tk = tiles@[k as int];
                assert forall|px: int, py: int|
                    0 <= px < width && 0 <= py < height implies #[trigger] image.pixel_value(
                    px,
                    py,
                ) == (if tile_of(h, yd, py) < ty || (tile_of(h, yd, py) == ty && tile_of(w, xd, px)
                    < tx + 1) {
                    tile_pixel(w, h, xd, yd, tiles@, px, py)
                } else {
                    background
                }) by {
                    lemma_tile_cover(w, xd, px);
                    lemma_tile_cover(h, yd, py);
                    if xs <= px < xs + tk.width && ys <= py < ys + tk.height {
                        // Inside the freshly blitted rectangle: this pixel's
                        // unique tile is the one just copied.
                        lemma_tile_unique(w, xd, px, tx as int);
                        lemma_tile_unique(h, yd, py, ty as int);
                        assert(image.pixel_value(px, py) == tk.pixel_value(px - xs, py - ys));
                    } else {
                        // Outside it: untouched, and not owned by this tile.
                        assert(image.pixel_value(px, py) == prev.pixel_value(px, py));
                        if tile_of(h, yd, py) == ty && tile_of(w, xd, px) == tx {
                            assert(false);
                        }
                    }
                }
            }
            tx = tx + 1;
        }
        proof {
            assert forall|px: int, py: int|
                0 <= px < width && 0 <= py < height implies #[trigger] image.pixel_value(px, py)
                == (if tile_of(h, yd, py) < ty + 1 {
                tile_pixel(w, h, xd, yd, tiles@, px, py)
            } else {
                background
            }) by {
                lemma_tile_cover(w, xd, px);
            }
        }
        ty = ty + 1;
    }
    proof {
        assert forall|px: int, py: int|
            0 <= px < width && 0 <= py < height implies #[trigger] image.pixel_value(px, py)
            == tile_pixel(w, h, xd, yd, tiles@, px, py) by {
            lemma_tile_cover(h, yd, py);
        }
    }
    image
}

/// A tile grid renders a per-pixel function `f` when every tile holds `f` of
/// its own span, offset to its corner.
pub open spec fn tiles_render<C: Copy>(
    width: int,
    height: int,
    xdiv: int,
    ydiv: int,
    tiles: Seq<Canvas<C>>,
    f: spec_fn(int, int) -> C,
) -> bool {
    forall|k: int, x: int, y: int|
        0 <= k < xdiv * ydiv && 0 <= x < tiles[k].width && 0 <= y < tiles[k].height
            ==> #[trigger] tiles[k].pixel_value(x, y) == f(
            tile_start(width, xdiv, k % xdiv) + x,
            tile_start(height, ydiv, k / xdiv) + y,
        )
}

/// Single-pass/tiled equivalence: when each tile of the grid holds the
/// per-pixel function `f` over its own span, the assembled image is `f` at
/// every pixel — exactly what one sequential pass over the whole image
/// computes.  Combined with `assemble_tiles`, this pins the parallel render's
/// output pixel for pixel.
pub proof fn lemma_tiled_render_matches_single<C: Copy>(
    width: int,
    height: int,
    xdiv: int,
    ydiv: int,
    tiles: Seq<Canvas<C>>,
    f: spec_fn(int, int) -> C,
    px: int,
    py: int,
)
    requires
        1 <= xdiv,
        1 <= ydiv,
        tiles.len() == xdiv * ydiv,
        forall|k: int| 0 <= k < tiles.len() ==> #[trigger] tile_dims_ok(width, height, xdiv, ydiv, tiles, k),
        tiles_render(width, height, xdiv, ydiv, tiles, f),
        0 <= px < width,
        0 <= py < height,
    ensures
        tile_pixel(width, height, xdiv, ydiv, tiles, px, py) == f(px, py),
{
    let tx = tile_of(width, xdiv, px);
    let ty = tile_of(height, ydiv, py);
    lemma_tile_cover(width, xdiv, px);
    lemma_tile_cover(height, ydiv, py);
    let k = ty * xdiv + tx;
    assert(0 <= ty * xdiv + tx < xdiv * ydiv) by (nonlinear_arith)
        requires
            0 <= ty < ydiv,
            0 <= tx < xdiv,
            1 <= xdiv,
    ;
    vstd::arithmetic::div_mod::lemma_fundamental_div_mod_converse(k, xdiv, ty, tx);
    assert(tile_dims_ok(width, height, xdiv, ydiv, tiles, k));
    let x = px - tile_start(width, xdiv, tx);
    let y = py - tile_start(height, ydiv, ty);
    assert(0 <= x < tiles[k].width);
    assert(0 <= y < tiles[k].height);
    assert(tiles[k].pixel_value(x, y) == f(px, py));
}

} // verus!
