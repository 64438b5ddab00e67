use rust_rtc::canvas::Canvas;

type Color = (f64, f64, f64);

const BLACK: Color = (0.0, 0.0, 0.0);

// Creating a canvas
#[test]
fn creating_a_canvas() {
    let c: Canvas<Color> = Canvas::new(10, 20, BLACK);
    assert_eq!(c.width, 10);
    assert_eq!(c.height, 20);
    for x in 0..c.width {
        for y in 0..c.height {
            assert_eq!(*c.pixel_at(x, y), BLACK);
        }
    }
}

// Writing pixels to a canvas
#[test]
fn writing_pixels_to_a_canvas() {
    let mut c: Canvas<Color> = Canvas::new(10, 20, BLACK);
    let red: Color = (1.0, 0.0, 0.0);
    c.write_pixel(2, 3, &red);
    assert_eq!(*c.pixel_at(2, 2), BLACK);
    assert_eq!(*c.pixel_at(2, 4), BLACK);
    assert_eq!(*c.pixel_at(2, 3), red);
}

#[test]
fn blit_copies_rectangle_and_leaves_rest() {
    let dst: Canvas<u32> = Canvas::new(4, 4, 0);
    let mut sub: Canvas<u32> = Canvas::new(2, 2, 0);
    sub.write_pixel(0, 0, &1);
    sub.write_pixel(1, 0, &2);
    sub.write_pixel(0, 1, &3);
    sub.write_pixel(1, 1, &4);

    let dst = dst.blit(&sub, 1, 2);
    for x in 0..4u32 {
        for y in 0..4u32 {
            let expected = match (x, y) {
                (1, 2) => 1,
                (2, 2) => 2,
                (1, 3) => 3,
                (2, 3) => 4,
                _ => 0,
            };
            assert_eq!(*dst.pixel_at(x, y), expected, "pixel ({x}, {y})");
        }
    }
}
