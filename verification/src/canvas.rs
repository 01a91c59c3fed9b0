use vstd::prelude::*;

verus! {

use vstd::math::{abs, max, min};

/// Largest width or height a canvas accepts; keeps every pixel-index and
/// barycentric product comfortably within the machine integers.
pub const MAX_DIM: u32 = 16384;

/// An 8-bit-per-channel RGB color; the canvas has no alpha channel.
#[derive(Clone, Copy, PartialEq, Eq, Structural, Debug)]
pub struct Color {
    pub r: u8,
    pub g: u8,
    pub b: u8,
}

/// The color every pixel of a fresh canvas starts at.
pub open spec fn black() -> Color {
    Color { r: 0, g: 0, b: 0 }
}

/// The draw color a fresh canvas starts with.
pub open spec fn white() -> Color {
    Color { r: 255, g: 255, b: 255 }
}

/// Drawing failed; the caller decides whether that is fatal.
#[derive(Clone, Copy, PartialEq, Eq, Structural, Debug)]
pub enum CanvasError {
    /// The image encoder refused the buffer.
    Encode,
}

/// A pixel buffer of `(width + 1) * (height + 1)` colors, row-major with
/// the origin at the top left, x growing right and y growing down, plus
/// the mutable draw state: the current color applied by every draw call.
pub struct Canvas {
    pub width: u32,
    pub height: u32,
    pub pixels: Vec<Color>,
    pub background_color: Color,
    pub current_color: Color,
}

/// Exact barycentric coordinates of a point with respect to a triangle,
/// kept as integer numerators over a common nonzero denominator: the
/// coordinates are `(w0_num/den, w1_num/den, w2_num/den)`.
#[derive(Clone, Copy, PartialEq, Eq, Structural, Debug)]
pub struct Barycentric {
    pub w0_num: i64,
    pub w1_num: i64,
    pub w2_num: i64,
    pub den: i64,
}

/// Twice the signed area of the triangle: zero exactly when the three
/// points are collinear.
pub open spec fn tri_det(t0: (int, int), t1: (int, int), t2: (int, int)) -> int {
    (t1.0 - t0.0) * (t2.1 - t0.1) - (t2.0 - t0.0) * (t1.1 - t0.1)
}

/// Numerator of the barycentric coordinate attached to `t1`.
pub open spec fn bary1_num(t0: (int, int), t1: (int, int), t2: (int, int), px: int, py: int) -> int {
    (px - t0.0) * (t2.1 - t0.1) - (t2.0 - t0.0) * (py - t0.1)
}

/// Numerator of the barycentric coordinate attached to `t2`.
pub open spec fn bary2_num(t0: (int, int), t1: (int, int), t2: (int, int), px: int, py: int) -> int {
    (t1.0 - t0.0) * (py - t0.1) - (px - t0.0) * (t1.1 - t0.1)
}

/// The pixels `triangle` paints: the points of the bounding box (right
/// and bottom edges excluded) whose three exact barycentric coordinates
/// are all nonnegative.  A coordinate `n/d` is nonnegative exactly when
/// `n * d >= 0`, which needs no division.  A degenerate triangle covers
/// nothing.
pub open spec fn tri_covers(
    t0: (int, int),
    t1: (int, int),
    t2: (int, int),
    px: int,
    py: int,
) -> bool {
    let d = tri_det(t0, t1, t2);
    let n1 = bary1_num(t0, t1, t2, px, py);
    let n2 = bary2_num(t0, t1, t2, px, py);
    &&& min(t0.0, min(t1.0, t2.0)) <= px < max(t0.0, max(t1.0, t2.0))
    &&& min(t0.1, min(t1.1, t2.1)) <= py < max(t0.1, max(t1.1, t2.1))
    &&& d != 0
    &&& n1 * d >= 0
    &&& n2 * d >= 0
    &&& (d - n1 - n2) * d >= 0
}

/// A segment is steep when its vertical extent exceeds its horizontal
/// extent; the line algorithm then transposes it.
pub open spec fn line_steep(x0: int, y0: int, x1: int, y1: int) -> bool {
    abs(x0 - x1) < abs(y0 - y1)
}

/// Endpoints after the line algorithm's two normalizing swaps: transpose
/// a steep segment, then order the endpoints left to right.  The result
/// `(a0, b0, a1, b1)` has `a0 <= a1`, and `a` is the axis stepped over.
pub open spec fn line_norm(x0: int, y0: int, x1: int, y1: int) -> (int, int, int, int) {
    let t = if line_steep(x0, y0, x1, y1) {
        (y0, x0, y1, x1)
    } else {
        (x0, y0, x1, y1)
    };
    if t.0 > t.2 {
        (t.2, t.3, t.0, t.1)
    } else {
        t
    }
}

/// The row the line algorithm plots at step `x`: the linear interpolation
/// between `b0` and `b1`, rounded toward zero (all inputs here are
/// nonnegative, so this is the floor of the exact fraction).
pub open spec fn line_lerp(a0: int, b0: int, a1: int, b1: int, x: int) -> int {
    (b0 * (a1 - a0) + (b1 - b0) * (x - a0)) / (a1 - a0)
}

/// The pixels plotted by steps `a0 <= t < hi` of the normalized traversal.
pub open spec fn line_covers_upto(
    steep: bool,
    a0: int,
    b0: int,
    a1: int,
    b1: int,
    hi: int,
    px: int,
    py: int,
) -> bool {
    if steep {
        a0 <= py < hi && px == line_lerp(a0, b0, a1, b1, py)
    } else {
        a0 <= px < hi && py == line_lerp(a0, b0, a1, b1, px)
    }
}

/// The pixels `line` paints.  The endpoint at the far end of the stepped
/// axis is never plotted: the traversal is half-open.
pub open spec fn line_covers(x0: int, y0: int, x1: int, y1: int, px: int, py: int) -> bool {
    let steep = line_steep(x0, y0, x1, y1);
    let n = line_norm(x0, y0, x1, y1);
    line_covers_upto(steep, n.0, n.1, n.2, n.3, n.2, px, py)
}

/// Bytes of the pixel sequence, three per pixel in r, g, b order.
pub open spec fn rgb_bytes_spec(pixels: Seq<Color>) -> Seq<u8> {
    Seq::new(
        (pixels.len() * 3) as nat,
        |i: int|
            if i % 3 == 0 {
                pixels[i / 3].r
            } else if i % 3 == 1 {
                pixels[i / 3].g
            } else {
                pixels[i / 3].b
            },
    )
}

/// The PNG encoding of a row-major byte buffer of the given dimensions.
/// The encoder is deterministic: the bytes depend on the arguments alone.
pub uninterp spec fn png_encoding(width: int, height: int, bytes: Seq<u8>) -> Seq<u8>;

/// Relies on `image::RgbImage::from_raw` (accepts any buffer of at
/// least, here exactly, `3 * width * height` bytes) and
/// `ImageBuffer::write_to` with `ImageFormat::Png`, writing into an
/// in-memory cursor.  The PNG encoder accepts every 8-bit RGB image of
/// nonzero dimensions whose buffer length matches, and a cursor over a
/// vector never raises a write error, so the call succeeds on every
/// admitted input; its bytes are a function of the dimensions and the
/// raw bytes alone.
#[verifier::external_body]
fn png_encode(width: u32, height: u32, data: Vec<u8>) -> (r: Option<Vec<u8>>)
    requires
        1 <= width,
        1 <= height,
        data@.len() == (width * height) * 3,
    ensures
        r is Some,
        r is Some ==> r->0@ == png_encoding(width as int, height as int, data@),
{
    match image::RgbImage::from_raw(width, height, data) {
        Some(img) => {
            let mut out = std::io::Cursor::new(Vec::new());
            match img.write_to(&mut out, image::ImageFormat::Png) {
                Ok(()) => Some(out.into_inner()),
                Err(_) => None,
            }
        },
        None => None,
    }
}

proof fn lemma_mul_le(a: int, b: int, c: int, d: int)
    by (nonlinear_arith)
    requires
        0 <= a <= c,
        0 <= b <= d,
    ensures
        a * b <= c * d,
{
}

proof fn lemma_mul_abs2(a: int, b: int, m: int, n: int)
    by (nonlinear_arith)
    requires
        -m <= a <= m,
        -n <= b <= n,
        0 <= m,
        0 <= n,
    ensures
        -(m * n) <= a * b <= m * n,
{
}

proof fn lemma_grid_index(w: int, h: int, x: int, y: int)
    by (nonlinear_arith)
    requires
        0 <= x <= w,
        0 <= y <= h,
    ensures
        0 <= y * (w + 1) + x < (w + 1) * (h + 1),
{
}

proof fn lemma_grid_index_injective(w: int, x1: int, y1: int, x2: int, y2: int)
    by (nonlinear_arith)
    requires
        0 <= x1 <= w,
        0 <= x2 <= w,
        0 <= y1,
        0 <= y2,
        y1 * (w + 1) + x1 == y2 * (w + 1) + x2,
    ensures
        x1 == x2 && y1 == y2,
{
}

impl Barycentric {
    /// Some coordinate of the triple is negative, so the point lies
    /// outside the triangle.  A coordinate `n/den` is negative exactly
    /// when `n * den < 0`.
    pub fn has_negative(&self) -> (r: bool)
        requires
            -2_000_000_000 <= self.w0_num <= 2_000_000_000,
            -2_000_000_000 <= self.w1_num <= 2_000_000_000,
            -2_000_000_000 <= self.w2_num <= 2_000_000_000,
            -2_000_000_000 <= self.den <= 2_000_000_000,
        ensures
            r == (self.w0_num * self.den < 0 || self.w1_num * self.den < 0 || self.w2_num
                * self.den < 0),
    {
        proof {
            lemma_mul_abs2(self.w0_num as int, self.den as int, 2_000_000_000, 2_000_000_000);
            lemma_mul_abs2(self.w1_num as int, self.den as int, 2_000_000_000, 2_000_000_000);
            lemma_mul_abs2(self.w2_num as int, self.den as int, 2_000_000_000, 2_000_000_000);
        }
        self.w0_num * self.den < 0 || self.w1_num * self.den < 0 || self.w2_num * self.den < 0
    }
}

/// Exact barycentric coordinates of `point` with respect to the triangle
/// `(t0, t1, t2)`, as numerators over the common denominator
/// [`tri_det`].  A degenerate triangle (denominator zero) yields the
/// sentinel `(-1, 1, 1)`, whose negative first coordinate makes every
/// point test as outside.  The orientation here is the standard one for
/// the plane, under which each vertex gets coordinate one for itself and
/// zero for the other two; the negated middle component of
/// [`crate::vec3::cross_spec`] is deliberately not used.
pub fn to_barycentric(t0: (u32, u32), t1: (u32, u32), t2: (u32, u32), point: (u32, u32)) -> (r:
    Barycentric)
    requires
        t0.0 <= MAX_DIM && t0.1 <= MAX_DIM,
        t1.0 <= MAX_DIM && t1.1 <= MAX_DIM,
        t2.0 <= MAX_DIM && t2.1 <= MAX_DIM,
        point.0 <= MAX_DIM && point.1 <= MAX_DIM,
    ensures
        -2_000_000_000 <= r.w0_num <= 2_000_000_000,
        -2_000_000_000 <= r.w1_num <= 2_000_000_000,
        -2_000_000_000 <= r.w2_num <= 2_000_000_000,
        -2_000_000_000 <= r.den <= 2_000_000_000,
        tri_det(
            (t0.0 as int, t0.1 as int),
            (t1.0 as int, t1.1 as int),
            (t2.0 as int, t2.1 as int),
        ) == 0 ==> r == (Barycentric { w0_num: -1i64, w1_num: 1i64, w2_num: 1i64, den: 1i64 }),
        tri_det(
            (t0.0 as int, t0.1 as int),
            (t1.0 as int, t1.1 as int),
            (t2.0 as int, t2.1 as int),
        ) != 0 ==> {
            &&& r.den == tri_det(
                (t0.0 as int, t0.1 as int),
                (t1.0 as int, t1.1 as int),
                (t2.0 as int, t2.1 as int),
            )
            &&& r.w1_num == bary1_num(
                (t0.0 as int, t0.1 as int),
                (t1.0 as int, t1.1 as int),
                (t2.0 as int, t2.1 as int),
                point.0 as int,
                point.1 as int,
            )
            &&& r.w2_num == bary2_num(
                (t0.0 as int, t0.1 as int),
                (t1.0 as int, t1.1 as int),
                (t2.0 as int, t2.1 as int),
                point.0 as int,
                point.1 as int,
            )
            &&& r.w0_num == r.den - r.w1_num - r.w2_num
        },
{
    let e1x: i64 = t1.0 as i64 - t0.0 as i64;
    let e1y: i64 = t1.1 as i64 - t0.1 as i64;
    let e2x: i64 = t2.0 as i64 - t0.0 as i64;
    let e2y: i64 = t2.1 as i64 - t0.1 as i64;
    let qx: i64 = point.0 as i64 - t0.0 as i64;
    let qy: i64 = point.1 as i64 - t0.1 as i64;
    proof {
        lemma_mul_abs2(e1x as int, e2y as int, MAX_DIM as int, MAX_DIM as int);
        lemma_mul_abs2(e2x as int, e1y as int, MAX_DIM as int, MAX_DIM as int);
        lemma_mul_abs2(qx as int, e2y as int, MAX_DIM as int, MAX_DIM as int);
        lemma_mul_abs2(e2x as int, qy as int, MAX_DIM as int, MAX_DIM as int);
        lemma_mul_abs2(e1x as int, qy as int, MAX_DIM as int, MAX_DIM as int);
        lemma_mul_abs2(qx as int, e1y as int, MAX_DIM as int, MAX_DIM as int);
    }
    let den: i64 = e1x * e2y - e2x * e1y;
    if den == 0 {
        return Barycentric { w0_num: -1, w1_num: 1, w2_num: 1, den: 1 };
    }
    let n1: i64 = qx * e2y - e2x * qy;
    let n2: i64 = e1x * qy - qx * e1y;
    Barycentric { w0_num: den - n1 - n2, w1_num: n1, w2_num: n2, den }
}

/// A segment whose endpoints share their x coordinate is steep, and
/// every pixel it plots stays in that one column.
pub proof fn lemma_zero_width_line_stays_in_column(
    x0: int,
    y0: int,
    y1: int,
    px: int,
    py: int,
)
    requires
        0 <= x0,
        0 <= y0,
        0 <= y1,
        y0 != y1,
        line_covers(x0, y0, x0, y1, px, py),
    ensures
        px == x0,
{
    let n = line_norm(x0, y0, x0, y1);
    assert(px == (x0 * (n.2 - n.0) + (x0 - x0) * (py - n.0)) / (n.2 - n.0));
    assert((x0 * (n.2 - n.0)) / (n.2 - n.0) == x0) by (nonlinear_arith)
        requires
            n.2 - n.0 >= 1,
    ;
}

/// A degenerate triangle — its three points collinear, which is exactly
/// a zero determinant — covers no point at all.
pub proof fn lemma_degenerate_triangle_covers_nothing(
    t0: (int, int),
    t1: (int, int),
    t2: (int, int),
    px: int,
    py: int,
)
    requires
        tri_det(t0, t1, t2) == 0,
    ensures
        !tri_covers(t0, t1, t2, px, py),
{
}

/// At each vertex of a nondegenerate triangle the barycentric triple is
/// exact: the coordinate of that vertex is one (numerator equal to the
/// denominator) and the other two are zero.
pub proof fn lemma_barycentric_identifies_vertices(t0: (int, int), t1: (int, int), t2: (int, int))
    by (nonlinear_arith)
    requires
        tri_det(t0, t1, t2) != 0,
    ensures
        bary1_num(t0, t1, t2, t0.0, t0.1) == 0,
        bary2_num(t0, t1, t2, t0.0, t0.1) == 0,
        bary1_num(t0, t1, t2, t1.0, t1.1) == tri_det(t0, t1, t2),
        bary2_num(t0, t1, t2, t1.0, t1.1) == 0,
        bary1_num(t0, t1, t2, t2.0, t2.1) == 0,
        bary2_num(t0, t1, t2, t2.0, t2.1) == tri_det(t0, t1, t2),
{
}

impl Canvas {
    /// The canvas is well formed: its buffer holds exactly one color per
    /// addressable pixel.
    pub open spec fn wf(self) -> bool {
        &&& self.width <= MAX_DIM
        &&& self.height <= MAX_DIM
        &&& self.pixels@.len() == (self.width + 1) * (self.height + 1)
    }

    /// The color of the pixel at `(px, py)`.
    pub open spec fn pix(self, px: int, py: int) -> Color {
        self.pixels@[py * (self.width + 1) + px]
    }

    /// `(px, py)` addresses a pixel of this canvas.
    pub open spec fn in_bounds(self, px: int, py: int) -> bool {
        0 <= px <= self.width && 0 <= py <= self.height
    }

    /// The draw state and dimensions of `other` carried over unchanged.
    pub open spec fn same_frame(self, other: Canvas) -> bool {
        &&& self.width == other.width
        &&& self.height == other.height
        &&& self.background_color == other.background_color
        &&& self.current_color == other.current_color
    }

    /// A canvas of `(width + 1) x (height + 1)` pixels, all black, with
    /// the draw color starting at white.
    pub fn new(width: u32, height: u32) -> (r: Canvas)
        requires
            width <= MAX_DIM,
            height <= MAX_DIM,
        ensures
            r.wf(),
            r.width == width,
            r.height == height,
            r.background_color == black(),
            r.current_color == white(),
            forall|px: int, py: int| r.in_bounds(px, py) ==> r.pix(px, py) == black(),
    {
        proof {
            assert(MAX_DIM == 16384);
            lemma_mul_le((width + 1) as int, (height + 1) as int, 16385, 16385);
        }
        let n: usize = (width as usize + 1) * (height as usize + 1);
        let mut pixels: Vec<Color> = Vec::new();
        let mut i: usize = 0;
        while i < n
            invariant
                i <= n,
                pixels@.len() == i,
                forall|k: int| 0 <= k < i ==> pixels@[k] == black(),
            decreases n - i,
        {
            pixels.push(Color { r: 0, g: 0, b: 0 });
            i = i + 1;
        }
        let r = Canvas {
            width,
            height,
            pixels,
            background_color: Color { r: 0, g: 0, b: 0 },
            current_color: Color { r: 255, g: 255, b: 255 },
        };
        proof {
            assert forall|px: int, py: int| r.in_bounds(px, py) implies r.pix(px, py)
                == black() by {
                lemma_grid_index(width as int, height as int, px, py);
            }
        }
        r
    }

    /// Replaces the current draw color; already-drawn pixels keep theirs.
    pub fn set_color(&mut self, color: Color)
        ensures
            final(self).current_color == color,
            final(self).width == old(self).width,
            final(self).height == old(self).height,
            final(self).background_color == old(self).background_color,
            final(self).pixels == old(self).pixels,
    {
        self.current_color = color;
    }

    /// The color currently stored for pixel `(x, y)`.
    pub fn pixel_at(&self, x: u32, y: u32) -> (c: Color)
        requires
            self.wf(),
            self.in_bounds(x as int, y as int),
        ensures
            c == self.pix(x as int, y as int),
    {
        proof {
            lemma_grid_index(self.width as int, self.height as int, x as int, y as int);
            lemma_mul_le(y as int, (self.width + 1) as int, (MAX_DIM) as int, (MAX_DIM + 1) as int);
        }
        let idx: usize = y as usize * (self.width as usize + 1) + x as usize;
        self.pixels[idx]
    }

    /// Paints pixel `(x, y)` with the current color.
    fn put_pixel(&mut self, x: u32, y: u32)
        requires
            old(self).wf(),
            old(self).in_bounds(x as int, y as int),
        ensures
            final(self).wf(),
            final(self).same_frame(*old(self)),
            forall|px: int, py: int|
                old(self).in_bounds(px, py) ==> final(self).pix(px, py) == if px == x as int && py
                    == y as int {
                    old(self).current_color
                } else {
                    old(self).pix(px, py)
                },
    {
        proof {
            lemma_grid_index(self.width as int, self.height as int, x as int, y as int);
            lemma_mul_le(y as int, (self.width + 1) as int, (MAX_DIM) as int, (MAX_DIM + 1) as int);
        }
        let idx: usize = y as usize * (self.width as usize + 1) + x as usize;
        let c = self.current_color;
        self.pixels[idx] = c;
        proof {
            assert forall|px: int, py: int| old(self).in_bounds(px, py) implies self.pix(px, py)
                == if px == x as int && py == y as int {
                old(self).current_color
            } else {
                old(self).pix(px, py)
            } by {
                lemma_grid_index(self.width as int, self.height as int, px, py);
                if !(px == x as int && py == y as int) {
                    if py * (self.width + 1) + px == y as int * (self.width + 1) + x as int {
                        lemma_grid_index_injective(
                            self.width as int,
                            px,
                            py,
                            x as int,
                            y as int,
                        );
                    }
                }
            }
        }
    }

    /// Draws the segment from `(x0, y0)` to `(x1, y1)` in the current
    /// color.  A steep segment is transposed, the endpoints are ordered
    /// left to right, and one pixel is plotted for every step of the
    /// longer axis, at the interpolated row; the far endpoint itself is
    /// never plotted.  [`line_covers`] states the exact pixel set.
    pub fn line(&mut self, x0: u32, y0: u32, x1: u32, y1: u32)
        requires
            old(self).wf(),
            x0 <= old(self).width,
            x1 <= old(self).width,
            y0 <= old(self).height,
            y1 <= old(self).height,
        ensures
            final(self).wf(),
            final(self).same_frame(*old(self)),
            forall|px: int, py: int|
                old(self).in_bounds(px, py) ==> final(self).pix(px, py) == if line_covers(
                    x0 as int,
                    y0 as int,
                    x1 as int,
                    y1 as int,
                    px,
                    py,
                ) {
                    old(self).current_color
                } else {
                    old(self).pix(px, py)
                },
    {
        let dx = if x0 >= x1 {
            x0 - x1
        } else {
            x1 - x0
        };
        let dy = if y0 >= y1 {
            y0 - y1
        } else {
            y1 - y0
        };
        let steep = dx < dy;
        proof {
            assert(steep == line_steep(x0 as int, y0 as int, x1 as int, y1 as int));
        }
        let a0i = if steep {
            y0
        } else {
            x0
        };
        let b0i = if steep {
            x0
        } else {
            y0
        };
        let a1i = if steep {
            y1
        } else {
            x1
        };
        let b1i = if steep {
            x1
        } else {
            y1
        };
        let swap = a0i > a1i;
        let a0 = if swap {
            a1i
        } else {
            a0i
        };
        let b0 = if swap {
            b1i
        } else {
            b0i
        };
        let a1 = if swap {
            a0i
        } else {
            a1i
        };
        let b1 = if swap {
            b0i
        } else {
            b1i
        };
        proof {
            assert((a0 as int, b0 as int, a1 as int, b1 as int) == line_norm(
                x0 as int,
                y0 as int,
                x1 as int,
                y1 as int,
            ));
        }
        let mut x = a0;
        while x < a1
            invariant
                self.wf(),
                self.same_frame(*old(self)),
                a0 <= x <= a1,
                steep == line_steep(x0 as int, y0 as int, x1 as int, y1 as int),
                (a0 as int, b0 as int, a1 as int, b1 as int) == line_norm(
                    x0 as int,
                    y0 as int,
                    x1 as int,
                    y1 as int,
                ),
                steep ==> a1 <= old(self).height && b0 <= old(self).width && b1 <= old(
                    self,
                ).width,
                !steep ==> a1 <= old(self).width && b0 <= old(self).height && b1 <= old(
                    self,
                ).height,
                forall|px: int, py: int|
                    old(self).in_bounds(px, py) ==> self.pix(px, py) == if line_covers_upto(
                        steep,
                        a0 as int,
                        b0 as int,
                        a1 as int,
                        b1 as int,
                        x as int,
                        px,
                        py,
                    ) {
                        old(self).current_color
                    } else {
                        old(self).pix(px, py)
                    },
            decreases a1 - x,
        {
            let d_i64: i64 = a1 as i64 - a0 as i64;
            let dyn_i64: i64 = b1 as i64 - b0 as i64;
            proof {
                lemma_mul_abs2(
                    dyn_i64 as int,
                    (x - a0) as int,
                    MAX_DIM as int,
                    MAX_DIM as int,
                );
                lemma_mul_le(b0 as int, d_i64 as int, MAX_DIM as int, MAX_DIM as int);
            }
            let off: i64 = dyn_i64 * (x as i64 - a0 as i64);
            let num: i64 = b0 as i64 * d_i64 + off;
            proof {
                let bl: int = min(b0 as int, b1 as int);
                let bh: int = max(b0 as int, b1 as int);
                if b1 >= b0 {
                    assert(off >= 0 && off <= dyn_i64 * d_i64) by (nonlinear_arith)
                        requires
                            dyn_i64 >= 0,
                            0 <= x - a0 <= d_i64,
                            off == dyn_i64 * (x - a0),
                    ;
                    assert(bl * d_i64 <= num <= bh * d_i64) by (nonlinear_arith)
                        requires
                            bl == b0,
                            bh == b1,
                            num == b0 * d_i64 + off,
                            0 <= off <= (b1 - b0) * d_i64,
                            dyn_i64 == b1 - b0,
                            off <= dyn_i64 * d_i64,
                    ;
                } else {
                    assert(dyn_i64 * d_i64 <= off && off <= 0) by (nonlinear_arith)
                        requires
                            dyn_i64 < 0,
                            0 <= x - a0 <= d_i64,
                            off == dyn_i64 * (x - a0),
                    ;
                    assert(bl * d_i64 <= num <= bh * d_i64) by (nonlinear_arith)
                        requires
                            bl == b1,
                            bh == b0,
                            num == b0 * d_i64 + off,
                            dyn_i64 == b1 - b0,
                            dyn_i64 * d_i64 <= off <= 0,
                    ;
                }
                assert(num >= 0) by (nonlinear_arith)
                    requires
                        num >= bl * d_i64,
                        bl >= 0,
                        d_i64 >= 1,
                ;
                assert(bl <= num / d_i64 <= bh) by (nonlinear_arith)
                    requires
                        bl * d_i64 <= num <= bh * d_i64,
                        d_i64 >= 1,
                        bl >= 0,
                ;
            }
            let y: u32 = ((num as u64) / (d_i64 as u64)) as u32;
            proof {
                assert(y as int == line_lerp(a0 as int, b0 as int, a1 as int, b1 as int, x as int));
            }
            if steep {
                self.put_pixel(y, x);
            } else {
                self.put_pixel(x, y);
            }
            x = x + 1;
        }
    }

    /// Fills the triangle `(t0, t1, t2)` with the current color: every
    /// point of the bounding box (right and bottom edges excluded) whose
    /// three exact barycentric coordinates are all nonnegative is
    /// painted, so points exactly on an edge are included and a shared
    /// edge of two triangles is covered by both.  [`tri_covers`] states
    /// the exact pixel set; a degenerate triangle paints nothing.
    pub fn triangle(&mut self, t0: (u32, u32), t1: (u32, u32), t2: (u32, u32))
        requires
            old(self).wf(),
            t0.0 <= old(self).width && t0.1 <= old(self).height,
            t1.0 <= old(self).width && t1.1 <= old(self).height,
            t2.0 <= old(self).width && t2.1 <= old(self).height,
        ensures
            final(self).wf(),
            final(self).same_frame(*old(self)),
            forall|px: int, py: int|
                old(self).in_bounds(px, py) ==> final(self).pix(px, py) == if tri_covers(
                    (t0.0 as int, t0.1 as int),
                    (t1.0 as int, t1.1 as int),
                    (t2.0 as int, t2.1 as int),
                    px,
                    py,
                ) {
                    old(self).current_color
                } else {
                    old(self).pix(px, py)
                },
    {
        let max_x = if t0.0 >= t1.0 && t0.0 >= t2.0 {
            t0.0
        } else if t1.0 >= t2.0 {
            t1.0
        } else {
            t2.0
        };
        let min_x = if t0.0 <= t1.0 && t0.0 <= t2.0 {
            t0.0
        } else if t1.0 <= t2.0 {
            t1.0
        } else {
            t2.0
        };
        let max_y = if t0.1 >= t1.1 && t0.1 >= t2.1 {
            t0.1
        } else if t1.1 >= t2.1 {
            t1.1
        } else {
            t2.1
        };
        let min_y = if t0.1 <= t1.1 && t0.1 <= t2.1 {
            t0.1
        } else if t1.1 <= t2.1 {
            t1.1
        } else {
            t2.1
        };
        let mut x = min_x;
        while x < max_x
            invariant
                self.wf(),
                self.same_frame(*old(self)),
                min_x <= x <= max_x,
                min_x as int == min(t0.0 as int, min(t1.0 as int, t2.0 as int)),
                max_x as int == max(t0.0 as int, max(t1.0 as int, t2.0 as int)),
                min_y as int == min(t0.1 as int, min(t1.1 as int, t2.1 as int)),
                max_y as int == max(t0.1 as int, max(t1.1 as int, t2.1 as int)),
                t0.0 <= old(self).width && t0.1 <= old(self).height,
                t1.0 <= old(self).width && t1.1 <= old(self).height,
                t2.0 <= old(self).width && t2.1 <= old(self).height,
                forall|px: int, py: int|
                    old(self).in_bounds(px, py) ==> self.pix(px, py) == if tri_covers(
                        (t0.0 as int, t0.1 as int),
                        (t1.0 as int, t1.1 as int),
                        (t2.0 as int, t2.1 as int),
                        px,
                        py,
                    ) && px < x as int {
                        old(self).current_color
                    } else {
                        old(self).pix(px, py)
                    },
            decreases max_x - x,
        {
            let mut y = min_y;
            while y < max_y
                invariant
                    self.wf(),
                    self.same_frame(*old(self)),
                    min_x <= x < max_x,
                    min_y <= y <= max_y,
                    min_x as int == min(t0.0 as int, min(t1.0 as int, t2.0 as int)),
                    max_x as int == max(t0.0 as int, max(t1.0 as int, t2.0 as int)),
                    min_y as int == min(t0.1 as int, min(t1.1 as int, t2.1 as int)),
                    max_y as int == max(t0.1 as int, max(t1.1 as int, t2.1 as int)),
                    t0.0 <= old(self).width && t0.1 <= old(self).height,
                    t1.0 <= old(self).width && t1.1 <= old(self).height,
                    t2.0 <= old(self).width && t2.1 <= old(self).height,
                    forall|px: int, py: int|
                        old(self).in_bounds(px, py) ==> self.pix(px, py) == if tri_covers(
                            (t0.0 as int, t0.1 as int),
                            (t1.0 as int, t1.1 as int),
                            (t2.0 as int, t2.1 as int),
                            px,
                            py,
                        ) && (px < x as int || (px == x as int && py < y as int)) {
                            old(self).current_color
                        } else {
                            old(self).pix(px, py)
                        },
                decreases max_y - y,
            {
                let bc = to_barycentric(t0, t1, t2, (x, y));
                if !bc.has_negative() {
                    self.put_pixel(x, y);
                }
                y = y + 1;
            }
            x = x + 1;
        }
    }

    /// The buffer flattened to raw bytes, three per pixel, r then g then b.
    fn rgb_bytes(&self) -> (r: Vec<u8>)
        ensures
            r@ == rgb_bytes_spec(self.pixels@),
    {
        let mut out: Vec<u8> = Vec::new();
        let mut k: usize = 0;
        while k < self.pixels.len()
            invariant
                k <= self.pixels@.len(),
                out@ == rgb_bytes_spec(self.pixels@.take(k as int)),
            decreases self.pixels@.len() - k,
        {
            let p = self.pixels[k];
            out.push(p.r);
            out.push(p.g);
            out.push(p.b);
            k = k + 1;
            proof {
                assert(out@ =~= rgb_bytes_spec(self.pixels@.take(k as int)));
            }
        }
        proof {
            assert(self.pixels@.take(self.pixels@.len() as int) =~= self.pixels@);
        }
        out
    }

    /// Encodes the buffer as a PNG image.  Encoding succeeds on every
    /// well-formed canvas, and the bytes are a pure function of the
    /// canvas dimensions and pixels, so an unchanged canvas always
    /// encodes to the same bytes.
    pub fn encode_picture(&self) -> (r: Result<Vec<u8>, CanvasError>)
        requires
            self.wf(),
        ensures
            r is Ok,
            r->Ok_0@ == png_encoding(
                self.width + 1,
                self.height + 1,
                rgb_bytes_spec(self.pixels@),
            ),
    {
        let data = self.rgb_bytes();
        proof {
            lemma_mul_le(
                (self.width + 1) as int,
                (self.height + 1) as int,
                (MAX_DIM + 1) as int,
                (MAX_DIM + 1) as int,
            );
        }
        match png_encode(self.width + 1, self.height + 1, data) {
            Some(bytes) => Ok(bytes),
            None => Err(CanvasError::Encode),
        }
    }
}

/// Encoding is deterministic: two canvases with the same dimensions and
/// the same pixels yield byte-identical images, wherever each is saved
/// afterwards.
pub proof fn lemma_encode_deterministic(c1: Canvas, c2: Canvas, b1: Seq<u8>, b2: Seq<u8>)
    requires
        c1.width == c2.width,
        c1.height == c2.height,
        c1.pixels@ == c2.pixels@,
        b1 == png_encoding(c1.width + 1, c1.height + 1, rgb_bytes_spec(c1.pixels@)),
        b2 == png_encoding(c2.width + 1, c2.height + 1, rgb_bytes_spec(c2.pixels@)),
    ensures
        b1 == b2,
{
}

} // verus!
