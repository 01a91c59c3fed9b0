use rasterizer::canvas::{to_barycentric, Canvas, Color};

const BLACK: Color = Color { r: 0, g: 0, b: 0 };
const WHITE: Color = Color { r: 255, g: 255, b: 255 };

#[test]
fn new_canvas_is_black_with_inclusive_bounds() {
    let canvas = Canvas::new(4, 3);

    for x in 0..=4 {
        for y in 0..=3 {
            assert_eq!(canvas.pixel_at(x, y), BLACK);
        }
    }
}

#[test]
fn horizontal_line_is_half_open() {
    let mut canvas = Canvas::new(20, 20);
    canvas.line(0, 0, 10, 0);

    for x in 0..10 {
        assert_eq!(canvas.pixel_at(x, 0), WHITE);
    }
    assert_eq!(canvas.pixel_at(10, 0), BLACK);
    assert_eq!(canvas.pixel_at(5, 1), BLACK);
    assert_eq!(canvas.pixel_at(11, 0), BLACK);
}

#[test]
fn zero_width_steep_line_plots_one_column() {
    let mut canvas = Canvas::new(10, 10);
    canvas.line(3, 0, 3, 5);

    for y in 0..5 {
        assert_eq!(canvas.pixel_at(3, y), WHITE);
    }
    assert_eq!(canvas.pixel_at(3, 5), BLACK);
    for y in 0..=10 {
        assert_eq!(canvas.pixel_at(2, y), BLACK);
        assert_eq!(canvas.pixel_at(4, y), BLACK);
    }
}

#[test]
fn diagonal_line_right_to_left() {
    let mut canvas = Canvas::new(10, 10);
    canvas.line(5, 5, 0, 0);

    for k in 0..5 {
        assert_eq!(canvas.pixel_at(k, k), WHITE);
    }
    assert_eq!(canvas.pixel_at(5, 5), BLACK);
}

#[test]
fn set_color_applies_only_to_later_drawing() {
    let red = Color { r: 255, g: 0, b: 0 };
    let mut canvas = Canvas::new(10, 10);
    canvas.line(0, 0, 4, 0);
    canvas.set_color(red);
    canvas.line(0, 2, 4, 2);

    assert_eq!(canvas.pixel_at(1, 0), WHITE);
    assert_eq!(canvas.pixel_at(1, 2), red);
}

#[test]
fn triangle_fills_interior_and_edges() {
    let mut canvas = Canvas::new(20, 20);
    canvas.triangle((0, 0), (10, 0), (0, 10));

    // The bounding box scan excludes its right and bottom edges and
    // runs to the vertices' own y extent; inside it, a pixel is painted
    // exactly when x + y <= 10.
    for x in 0..=12 {
        for y in 0..=12 {
            let expected = if x < 10 && y < 10 && x + y <= 10 {
                WHITE
            } else {
                BLACK
            };
            assert_eq!(canvas.pixel_at(x, y), expected);
        }
    }
}

#[test]
fn degenerate_triangle_plots_nothing() {
    let mut canvas = Canvas::new(10, 10);
    canvas.triangle((2, 2), (4, 4), (6, 6));
    canvas.triangle((5, 5), (5, 5), (5, 5));

    for x in 0..=10 {
        for y in 0..=10 {
            assert_eq!(canvas.pixel_at(x, y), BLACK);
        }
    }
}

#[test]
fn barycentric_identifies_each_vertex() {
    let t0 = (2, 3);
    let t1 = (10, 4);
    let t2 = (5, 9);

    let at0 = to_barycentric(t0, t1, t2, t0);
    assert_ne!(at0.den, 0);
    assert_eq!(at0.w0_num, at0.den);
    assert_eq!(at0.w1_num, 0);
    assert_eq!(at0.w2_num, 0);

    let at1 = to_barycentric(t0, t1, t2, t1);
    assert_eq!(at1.w0_num, 0);
    assert_eq!(at1.w1_num, at1.den);
    assert_eq!(at1.w2_num, 0);

    let at2 = to_barycentric(t0, t1, t2, t2);
    assert_eq!(at2.w0_num, 0);
    assert_eq!(at2.w1_num, 0);
    assert_eq!(at2.w2_num, at2.den);
}

#[test]
fn barycentric_sentinel_for_collinear_points() {
    let bc = to_barycentric((1, 1), (2, 2), (3, 3), (2, 1));

    assert_eq!(bc.w0_num, -1);
    assert_eq!(bc.w1_num, 1);
    assert_eq!(bc.w2_num, 1);
    assert_eq!(bc.den, 1);
    assert!(bc.has_negative());
}

#[test]
fn encode_same_buffer_twice_is_byte_identical() {
    let mut canvas = Canvas::new(16, 16);
    canvas.line(0, 0, 10, 7);
    canvas.triangle((2, 2), (12, 3), (5, 14));

    let first = canvas.encode_picture().unwrap();
    let second = canvas.encode_picture().unwrap();

    assert_eq!(first, second);
}

#[test]
fn encode_produces_png_bytes() {
    let canvas = Canvas::new(4, 4);
    let bytes = canvas.encode_picture().unwrap();

    assert!(bytes.len() > 8);
    assert_eq!(&bytes[0..8], &[137u8, 80, 78, 71, 13, 10, 26, 10]);
}
