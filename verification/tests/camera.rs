use rust_rtc::camera::{assemble_tiles, tile_span, Resolution};
use rust_rtc::canvas::Canvas;

#[test]
fn resolution_new_and_default() {
    let r = Resolution::new(640, 480);
    assert_eq!(r.hsize, 640);
    assert_eq!(r.vsize, 480);
    assert_eq!(Resolution::default(), Resolution::new(100, 50));
}

#[test]
fn num_pixels_is_exact_product() {
    assert_eq!(Resolution::new(1920, 1080).num_pixels(), 2_073_600);
    assert_eq!(Resolution::new(0, 7).num_pixels(), 0);
    assert_eq!(
        Resolution::new(u32::MAX, u32::MAX).num_pixels(),
        (u32::MAX as u64) * (u32::MAX as u64)
    );
}

#[test]
fn last_tile_absorbs_division_remainder() {
    // 100 pixels over 8 tiles: step 12, last tile runs to the edge.
    assert_eq!(tile_span(100, 8, 0), (0, 12));
    assert_eq!(tile_span(100, 8, 6), (72, 84));
    assert_eq!(tile_span(100, 8, 7), (84, 100));
    // one tile covers everything
    assert_eq!(tile_span(33, 1, 0), (0, 33));
    // more tiles than pixels: all but the last are empty
    assert_eq!(tile_span(3, 5, 0), (0, 0));
    assert_eq!(tile_span(3, 5, 4), (0, 3));
}

#[test]
fn tile_spans_cover_each_pixel_exactly_once() {
    for (extent, divs) in [(13u32, 5u32), (100, 8), (7, 7), (4, 9), (1, 1)] {
        for p in 0..extent {
            let owners = (0..divs)
                .filter(|&i| {
                    let (s, e) = tile_span(extent, divs, i);
                    s <= p && p < e
                })
                .count();
            assert_eq!(owners, 1, "pixel {p} of {extent} over {divs} tiles");
        }
    }
}

fn shade(x: u32, y: u32) -> u32 {
    y * 100 + x
}

// A single pass over the whole image and a tiled render assembled from
// independently produced sub-rasters give identical output.
#[test]
fn single_pass_and_tiled_assembly_agree() {
    let (width, height) = (5u32, 3u32);
    let (xdiv, ydiv) = (2u32, 2u32);

    let mut whole: Canvas<u32> = Canvas::new(width, height, 0);
    for y in 0..height {
        for x in 0..width {
            whole.write_pixel(x, y, &shade(x, y));
        }
    }

    let mut tiles: Vec<Canvas<u32>> = Vec::new();
    for ty in 0..ydiv {
        for tx in 0..xdiv {
            let (xs, xe) = tile_span(width, xdiv, tx);
            let (ys, ye) = tile_span(height, ydiv, ty);
            let mut tile: Canvas<u32> = Canvas::new(xe - xs, ye - ys, 0);
            for y in 0..ye - ys {
                for x in 0..xe - xs {
                    tile.write_pixel(x, y, &shade(xs + x, ys + y));
                }
            }
            tiles.push(tile);
        }
    }

    let assembled = assemble_tiles(width, height, xdiv, ydiv, tiles, 0);
    assert_eq!(assembled.width, whole.width);
    assert_eq!(assembled.height, whole.height);
    for y in 0..height {
        for x in 0..width {
            assert_eq!(assembled.pixel_at(x, y), whole.pixel_at(x, y), "pixel ({x}, {y})");
        }
    }
}

#[test]
fn span_lengths_sum_to_extent() {
    for (extent, divs) in [(100u32, 8u32), (13, 5), (3, 5), (7, 1), (0, 3)] {
        let total: u32 = (0..divs)
            .map(|i| {
                let (s, e) = tile_span(extent, divs, i);
                e - s
            })
            .sum();
        assert_eq!(total, extent, "{extent} over {divs} tiles");
    }
}
