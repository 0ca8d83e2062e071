use vstd::prelude::*;

use crate::color::Color;
use crate::geometry::Point2;

verus! {

/// The signed-area denominator of the barycentric edge functions:
/// twice the signed area of the triangle `p0 p1 p2`.  Zero exactly for
/// degenerate (collinear or coincident) corner points.
pub open spec fn tri_denom(p0: Point2, p1: Point2, p2: Point2) -> int {
    (p1.y - p2.y) * (p0.x - p2.x) + (p2.x - p1.x) * (p0.y - p2.y)
}

/// First barycentric edge numerator, sampled at the center of pixel
/// `(x, y)`.  Coordinates are doubled so that the center `(x + 1/2,
/// y + 1/2)` becomes the integer pair `(2x + 1, 2y + 1)`; the weight of
/// corner `p0` at the pixel center is `edge0 / (2 * tri_denom)`.
pub open spec fn edge0(p0: Point2, p1: Point2, p2: Point2, x: int, y: int) -> int {
    (p1.y - p2.y) * (2 * x + 1 - 2 * p2.x) + (p2.x - p1.x) * (2 * y + 1 - 2 * p2.y)
}

/// Second barycentric edge numerator (weight of corner `p1`).
pub open spec fn edge1(p0: Point2, p1: Point2, p2: Point2, x: int, y: int) -> int {
    (p2.y - p0.y) * (2 * x + 1 - 2 * p2.x) + (p0.x - p2.x) * (2 * y + 1 - 2 * p2.y)
}

/// Third barycentric edge numerator (weight of corner `p2`).
pub open spec fn edge2(p0: Point2, p1: Point2, p2: Point2, x: int, y: int) -> int {
    (p0.y - p1.y) * (2 * x + 1 - 2 * p0.x) + (p1.x - p0.x) * (2 * y + 1 - 2 * p0.y)
}

/// Whether the center of pixel `(x, y)` lies inside or on the triangle
/// `p0 p1 p2`: the triangle is non-degenerate and all three barycentric
/// weights are at least zero.  Points exactly on an edge count as
/// covered, so an edge shared by two adjacent triangles is filled by
/// both.
pub open spec fn covers(p0: Point2, p1: Point2, p2: Point2, x: int, y: int) -> bool {
    let d = tri_denom(p0, p1, p2);
    &&& d != 0
    &&& if d > 0 {
        edge0(p0, p1, p2, x, y) >= 0 && edge1(p0, p1, p2, x, y) >= 0 && edge2(p0, p1, p2, x, y)
            >= 0
    } else {
        edge0(p0, p1, p2, x, y) <= 0 && edge1(p0, p1, p2, x, y) <= 0 && edge2(p0, p1, p2, x, y)
            <= 0
    }
}

/// Three points on one line (coincident points included).
pub open spec fn collinear(p0: Point2, p1: Point2, p2: Point2) -> bool {
    (p1.x - p0.x) * (p2.y - p0.y) == (p1.y - p0.y) * (p2.x - p0.x)
}

pub open spec fn min3(a: int, b: int, c: int) -> int {
    if a <= b && a <= c {
        a
    } else if b <= c {
        b
    } else {
        c
    }
}

pub open spec fn max3(a: int, b: int, c: int) -> int {
    if a >= b && a >= c {
        a
    } else if b >= c {
        b
    } else {
        c
    }
}

/// Both coordinates small enough that every intermediate product of the
/// scan-conversion arithmetic fits a machine word.
pub open spec fn in_coord_range(p: Point2) -> bool {
    -1_000_000 <= p.x <= 1_000_000 && -1_000_000 <= p.y <= 1_000_000
}

/// Partition of unity, in exact integer form: at every sampled pixel
/// center the three barycentric edge numerators sum to twice the
/// denominator, i.e. the three weights `edge_k / (2 * tri_denom)` sum
/// to exactly one whenever the triangle has nonzero area.
pub proof fn lemma_partition_of_unity(p0: Point2, p1: Point2, p2: Point2, x: int, y: int)
    ensures
        edge0(p0, p1, p2, x, y) + edge1(p0, p1, p2, x, y) + edge2(p0, p1, p2, x, y) == 2
            * tri_denom(p0, p1, p2),
{
    let x0 = p0.x as int;
    let y0 = p0.y as int;
    let x1 = p1.x as int;
    let y1 = p1.y as int;
    let x2 = p2.x as int;
    let y2 = p2.y as int;
    let c = 2 * x + 1;
    let e = 2 * y + 1;
    let s = y1 - y2;
    let t = x2 - x1;
    let u = y2 - y0;
    let v = x0 - x2;
    let w = y0 - y2;
    let px = c - 2 * x2;
    let py = e - 2 * y2;
    assert(edge0(p0, p1, p2, x, y) == s * px + t * py);
    assert(edge1(p0, p1, p2, x, y) == u * px + v * py);
    assert(edge2(p0, p1, p2, x, y) == (-s - u) * (px - 2 * v) + (-t - v) * (py + 2 * u));
    assert(tri_denom(p0, p1, p2) == s * v + t * w);
    assert(s * px + t * py + (u * px + v * py) + ((-s - u) * (px - 2 * v) + (-t - v) * (py + 2 * u))
        == 2 * (s * v + t * w)) by (nonlinear_arith)
        requires
            w == -u,
    ;
}

/// A degenerate triangle covers no pixel at all: for collinear (or
/// coincident) corner points the denominator vanishes, so no pixel
/// center passes the coverage test.
pub proof fn lemma_degenerate_no_cover(p0: Point2, p1: Point2, p2: Point2)
    requires
        collinear(p0, p1, p2),
    ensures
        tri_denom(p0, p1, p2) == 0,
        forall|x: int, y: int| !covers(p0, p1, p2, x, y),
{
    let x0 = p0.x as int;
    let y0 = p0.y as int;
    let x1 = p1.x as int;
    let y1 = p1.y as int;
    let x2 = p2.x as int;
    let y2 = p2.y as int;
    assert((y1 - y2) * (x0 - x2) + (x2 - x1) * (y0 - y2) == (x1 - x0) * (y2 - y0) - (y1 - y0) * (x2
        - x0)) by (nonlinear_arith);
}

proof fn lemma_mul_bound(a: int, b: int, m: int, n: int)
    requires
        -m <= a <= m,
        -n <= b <= n,
    ensures
        -(m * n) <= a * b <= m * n,
{
    assert(-(m * n) <= a * b <= m * n) by (nonlinear_arith)
        requires
            -m <= a <= m,
            -n <= b <= n,
    ;
}

proof fn lemma_weighted_bound(
    n0: int,
    n1: int,
    n2: int,
    v0: int,
    v1: int,
    v2: int,
    d: int,
    c: int,
    lo: int,
    hi: int,
)
    requires
        n0 + n1 + n2 == 2 * d,
        n0 * v0 + n1 * v1 + n2 * v2 == d * c,
        d != 0,
        d > 0 ==> n0 >= 0 && n1 >= 0 && n2 >= 0,
        d < 0 ==> n0 <= 0 && n1 <= 0 && n2 <= 0,
        lo <= v0 <= hi,
        lo <= v1 <= hi,
        lo <= v2 <= hi,
    ensures
        2 * lo <= c <= 2 * hi,
{
    if d > 0 {
        assert(n0 * v0 <= n0 * hi) by (nonlinear_arith)
            requires
                n0 >= 0,
                v0 <= hi,
        ;
        assert(n1 * v1 <= n1 * hi) by (nonlinear_arith)
            requires
                n1 >= 0,
                v1 <= hi,
        ;
        assert(n2 * v2 <= n2 * hi) by (nonlinear_arith)
            requires
                n2 >= 0,
                v2 <= hi,
        ;
        assert(n0 * hi + n1 * hi + n2 * hi == (2 * d) * hi) by (nonlinear_arith)
            requires
                n0 + n1 + n2 == 2 * d,
        ;
        assert(c <= 2 * hi) by (nonlinear_arith)
            requires
                d > 0,
                d * c <= (2 * d) * hi,
        ;
        assert(n0 * v0 >= n0 * lo) by (nonlinear_arith)
            requires
                n0 >= 0,
                v0 >= lo,
        ;
        assert(n1 * v1 >= n1 * lo) by (nonlinear_arith)
            requires
                n1 >= 0,
                v1 >= lo,
        ;
        assert(n2 * v2 >= n2 * lo) by (nonlinear_arith)
            requires
                n2 >= 0,
                v2 >= lo,
        ;
        assert(n0 * lo + n1 * lo + n2 * lo == (2 * d) * lo) by (nonlinear_arith)
            requires
                n0 + n1 + n2 == 2 * d,
        ;
        assert(c >= 2 * lo) by (nonlinear_arith)
            requires
                d > 0,
                d * c >= (2 * d) * lo,
        ;
    } else {
        assert(n0 * v0 >= n0 * hi) by (nonlinear_arith)
            requires
                n0 <= 0,
                v0 <= hi,
        ;
        assert(n1 * v1 >= n1 * hi) by (nonlinear_arith)
            requires
                n1 <= 0,
                v1 <= hi,
        ;
        assert(n2 * v2 >= n2 * hi) by (nonlinear_arith)
            requires
                n2 <= 0,
                v2 <= hi,
        ;
        assert(n0 * hi + n1 * hi + n2 * hi == (2 * d) * hi) by (nonlinear_arith)
            requires
                n0 + n1 + n2 == 2 * d,
        ;
        assert(c <= 2 * hi) by (nonlinear_arith)
            requires
                d < 0,
                d * c >= (2 * d) * hi,
        ;
        assert(n0 * v0 <= n0 * lo) by (nonlinear_arith)
            requires
                n0 <= 0,
                v0 >= lo,
        ;
        assert(n1 * v1 <= n1 * lo) by (nonlinear_arith)
            requires
                n1 <= 0,
                v1 >= lo,
        ;
        assert(n2 * v2 <= n2 * lo) by (nonlinear_arith)
            requires
                n2 <= 0,
                v2 >= lo,
        ;
        assert(n0 * lo + n1 * lo + n2 * lo == (2 * d) * lo) by (nonlinear_arith)
            requires
                n0 + n1 + n2 == 2 * d,
        ;
        assert(c >= 2 * lo) by (nonlinear_arith)
            requires
                d < 0,
                d * c <= (2 * d) * lo,
        ;
    }
}

/// Every covered pixel lies inside the integer bounding box of the
/// three corner points; in fact strictly left of and above the maxima,
/// because pixel centers sit half a unit past the pixel coordinate.
pub proof fn lemma_cover_in_box(p0: Point2, p1: Point2, p2: Point2, x: int, y: int)
    requires
        covers(p0, p1, p2, x, y),
    ensures
        min3(p0.x as int, p1.x as int, p2.x as int) <= x < max3(
            p0.x as int,
            p1.x as int,
            p2.x as int,
        ),
        min3(p0.y as int, p1.y as int, p2.y as int) <= y < max3(
            p0.y as int,
            p1.y as int,
            p2.y as int,
        ),
{
    let x0 = p0.x as int;
    let y0 = p0.y as int;
    let x1 = p1.x as int;
    let y1 = p1.y as int;
    let x2 = p2.x as int;
    let y2 = p2.y as int;
    let c = 2 * x + 1;
    let e = 2 * y + 1;
    let d = tri_denom(p0, p1, p2);
    let n0 = edge0(p0, p1, p2, x, y);
    let n1 = edge1(p0, p1, p2, x, y);
    let n2 = edge2(p0, p1, p2, x, y);
    let s = y1 - y2;
    let t = x2 - x1;
    let u = y2 - y0;
    let v = x0 - x2;
    let px = c - 2 * x2;
    let py = e - 2 * y2;
    lemma_partition_of_unity(p0, p1, p2, x, y);
    assert(n0 == s * px + t * py);
    assert(n1 == u * px + v * py);
    assert(d == s * v + t * (y0 - y2));
    assert(d == s * v - t * u) by (nonlinear_arith)
        requires
            d == s * v + t * (y0 - y2),
            y0 - y2 == -u,
    ;
    // The weighted sum of the x coordinates: n0*x0 + n1*x1 + n2*x2 == d * (2x+1).
    assert(n0 * x0 + n1 * x1 + n2 * x2 == (n0 + n1 + n2) * x2 + n0 * v - n1 * t)
        by (nonlinear_arith)
        requires
            x0 == x2 + v,
            x1 == x2 - t,
    ;
    assert(n0 * v - n1 * t == d * px) by (nonlinear_arith)
        requires
            n0 == s * px + t * py,
            n1 == u * px + v * py,
            d == s * v - t * u,
    ;
    assert((n0 + n1 + n2) * x2 == (2 * d) * x2);
    assert(d * c == d * px + (2 * d) * x2) by (nonlinear_arith)
        requires
            c == px + 2 * x2,
    ;
    // The weighted sum of the y coordinates: n0*y0 + n1*y1 + n2*y2 == d * (2y+1).
    assert(n0 * y0 + n1 * y1 + n2 * y2 == (n0 + n1 + n2) * y2 + n1 * s - n0 * u)
        by (nonlinear_arith)
        requires
            y0 == y2 - u,
            y1 == y2 + s,
    ;
    assert(n1 * s - n0 * u == d * py) by (nonlinear_arith)
        requires
            n0 == s * px + t * py,
            n1 == u * px + v * py,
            d == s * v - t * u,
    ;
    assert((n0 + n1 + n2) * y2 == (2 * d) * y2);
    assert(d * e == d * py + (2 * d) * y2) by (nonlinear_arith)
        requires
            e == py + 2 * y2,
    ;
    lemma_weighted_bound(n0, n1, n2, x0, x1, x2, d, c, min3(x0, x1, x2), max3(x0, x1, x2));
    lemma_weighted_bound(n0, n1, n2, y0, y1, y2, d, e, min3(y0, y1, y2), max3(y0, y1, y2));
}

proof fn lemma_index_in_range(w: int, h: int, i: int, j: int)
    requires
        0 <= i < w,
        0 <= j < h,
    ensures
        0 <= j * w + i < w * h,
{
    assert(0 <= j * w + i < w * h) by (nonlinear_arith)
        requires
            0 <= i < w,
            0 <= j < h,
    ;
}

proof fn lemma_row_major_injective(w: int, i: int, j: int, x: int, y: int)
    requires
        0 <= i < w,
        0 <= x < w,
    ensures
        (j * w + i == y * w + x) <==> (i == x && j == y),
{
    assert((j * w + i == y * w + x) <==> (i == x && j == y)) by (nonlinear_arith)
        requires
            0 <= i < w,
            0 <= x < w,
    ;
}

fn min3_i32(a: i32, b: i32, c: i32) -> (r: i32)
    ensures
        r as int == min3(a as int, b as int, c as int),
{
    let m: i32 = if a <= b {
        a
    } else {
        b
    };
    if m <= c {
        m
    } else {
        c
    }
}

fn max3_i32(a: i32, b: i32, c: i32) -> (r: i32)
    ensures
        r as int == max3(a as int, b as int, c as int),
{
    let m: i32 = if a >= b {
        a
    } else {
        b
    };
    if m >= c {
        m
    } else {
        c
    }
}

/// The signed-area denominator, computed exactly in machine arithmetic.
fn tri_denom_i64(p0: Point2, p1: Point2, p2: Point2) -> (d: i64)
    requires
        in_coord_range(p0),
        in_coord_range(p1),
        in_coord_range(p2),
    ensures
        d as int == tri_denom(p0, p1, p2),
        -8_000_000_000_000 <= d <= 8_000_000_000_000,
{
    let x0: i64 = p0.x as i64;
    let y0: i64 = p0.y as i64;
    let x1: i64 = p1.x as i64;
    let y1: i64 = p1.y as i64;
    let x2: i64 = p2.x as i64;
    let y2: i64 = p2.y as i64;
    proof {
        lemma_mul_bound(y1 - y2, x0 - x2, 2_000_000, 2_000_000);
        lemma_mul_bound(x2 - x1, y0 - y2, 2_000_000, 2_000_000);
    }
    (y1 - y2) * (x0 - x2) + (x2 - x1) * (y0 - y2)
}

/// The three barycentric edge numerators at the center of pixel
/// `(x, y)`, in exact machine arithmetic.  They always sum to twice
/// the triangle's denominator (partition of unity): at any sampled
/// pixel center the weights `edge_k / (2 * tri_denom)` of a
/// nonzero-area triangle sum to exactly one.
pub fn edge_weights(p0: Point2, p1: Point2, p2: Point2, x: i32, y: i32) -> (w: (i64, i64, i64))
    requires
        in_coord_range(p0),
        in_coord_range(p1),
        in_coord_range(p2),
        -2_000_000 <= x <= 2_000_000,
        -2_000_000 <= y <= 2_000_000,
    ensures
        w.0 as int == edge0(p0, p1, p2, x as int, y as int),
        w.1 as int == edge1(p0, p1, p2, x as int, y as int),
        w.2 as int == edge2(p0, p1, p2, x as int, y as int),
        w.0 + w.1 + w.2 == 2 * tri_denom(p0, p1, p2),
{
    let x0: i64 = p0.x as i64;
    let y0: i64 = p0.y as i64;
    let x1: i64 = p1.x as i64;
    let y1: i64 = p1.y as i64;
    let x2: i64 = p2.x as i64;
    let y2: i64 = p2.y as i64;
    let d: i64 = tri_denom_i64(p0, p1, p2);
    let cx: i64 = 2 * (x as i64) + 1;
    let cy: i64 = 2 * (y as i64) + 1;
    proof {
        lemma_mul_bound(y1 - y2, cx - 2 * x2, 2_000_000, 6_000_001);
        lemma_mul_bound(x2 - x1, cy - 2 * y2, 2_000_000, 6_000_001);
        lemma_mul_bound(y2 - y0, cx - 2 * x2, 2_000_000, 6_000_001);
        lemma_mul_bound(x0 - x2, cy - 2 * y2, 2_000_000, 6_000_001);
    }
    let n0: i64 = (y1 - y2) * (cx - 2 * x2) + (x2 - x1) * (cy - 2 * y2);
    let n1: i64 = (y2 - y0) * (cx - 2 * x2) + (x0 - x2) * (cy - 2 * y2);
    let n2: i64 = 2 * d - n0 - n1;
    proof {
        lemma_partition_of_unity(p0, p1, p2, x as int, y as int);
    }
    (n0, n1, n2)
}

/// The coverage test of one pixel, exactly as `covers` states it.
fn pixel_covered(p0: Point2, p1: Point2, p2: Point2, x: i32, y: i32) -> (b: bool)
    requires
        in_coord_range(p0),
        in_coord_range(p1),
        in_coord_range(p2),
        -2_000_000 <= x <= 2_000_000,
        -2_000_000 <= y <= 2_000_000,
    ensures
        b == covers(p0, p1, p2, x as int, y as int),
{
    let d: i64 = tri_denom_i64(p0, p1, p2);
    if d == 0 {
        return false;
    }
    let w: (i64, i64, i64) = edge_weights(p0, p1, p2, x, y);
    if d > 0 {
        w.0 >= 0 && w.1 >= 0 && w.2 >= 0
    } else {
        w.0 <= 0 && w.1 <= 0 && w.2 <= 0
    }
}

/// A fixed-size pixel surface: a width x height buffer of colors with a
/// background color, cleared at the start of a frame and written one
/// bounds-checked pixel at a time during rasterization.
pub struct Framebuffer {
    width: usize,
    height: usize,
    bg_color: Color,
    pixels: Vec<Color>,
}

impl Framebuffer {
    pub closed spec fn spec_width(self) -> int {
        self.width as int
    }

    pub closed spec fn spec_height(self) -> int {
        self.height as int
    }

    pub closed spec fn spec_bg(self) -> Color {
        self.bg_color
    }

    /// The buffer holds exactly one color per coordinate pair.
    pub closed spec fn wf(self) -> bool {
        self.pixels.len() == self.width * self.height
    }

    /// The color stored at `(x, y)`, row-major.
    pub closed spec fn pixel(self, x: int, y: int) -> Color {
        self.pixels[y * self.width + x]
    }

    /// Dimensions and background are fixed for the surface's lifetime.
    pub open spec fn same_shape(self, other: Framebuffer) -> bool {
        self.spec_width() == other.spec_width() && self.spec_height() == other.spec_height()
            && self.spec_bg() == other.spec_bg()
    }

    pub fn new(width: usize, height: usize, bg_color: Color) -> (fb: Framebuffer)
        requires
            width * height <= usize::MAX,
        ensures
            fb.wf(),
            fb.spec_width() == width,
            fb.spec_height() == height,
            fb.spec_bg() == bg_color,
            forall|i: int, j: int|
                0 <= i < width && 0 <= j < height ==> #[trigger] fb.pixel(i, j) == bg_color,
    {
        let n: usize = width * height;
        let mut pixels: Vec<Color> = Vec::new();
        let mut k: usize = 0;
        while k < n
            invariant
                k <= n,
                pixels.len() == k,
                forall|t: int| 0 <= t < k ==> pixels[t] == bg_color,
            decreases n - k,
        {
            pixels.push(bg_color);
            k = k + 1;
        }
        let fb = Framebuffer { width, height, bg_color, pixels };
        proof {
            assert forall|i: int, j: int|
                0 <= i < width && 0 <= j < height implies #[trigger] fb.pixel(i, j)
                == bg_color by {
                lemma_index_in_range(width as int, height as int, i, j);
            }
        }
        fb
    }

    pub fn width(&self) -> (w: usize)
        ensures
            w == self.spec_width(),
    {
        self.width
    }

    pub fn height(&self) -> (h: usize)
        ensures
            h == self.spec_height(),
    {
        self.height
    }

    pub fn bg_color(&self) -> (c: Color)
        ensures
            c == self.spec_bg(),
    {
        self.bg_color
    }

    pub fn get_pixel(&self, x: usize, y: usize) -> (c: Color)
        requires
            self.wf(),
            x < self.spec_width(),
            y < self.spec_height(),
        ensures
            c == self.pixel(x as int, y as int),
    {
        proof {
            lemma_index_in_range(self.width as int, self.height as int, x as int, y as int);
        }
        self.pixels[y * self.width + x]
    }

    /// Sets every pixel back to the background color.
    pub fn clear(&mut self)
        requires
            old(self).wf(),
        ensures
            final(self).wf(),
            final(self).same_shape(*old(self)),
            forall|i: int, j: int|
                0 <= i < old(self).spec_width() && 0 <= j < old(self).spec_height()
                    ==> #[trigger] final(self).pixel(i, j) == old(self).spec_bg(),
    {
        let n: usize = self.pixels.len();
        let bg: Color = self.bg_color;
        let mut k: usize = 0;
        while k < n
            invariant
                k <= n,
                self.width == old(self).width,
                self.height == old(self).height,
                self.bg_color == old(self).bg_color,
                self.pixels.len() == n,
                n == self.width * self.height,
                bg == self.bg_color,
                forall|t: int| 0 <= t < k ==> self.pixels[t] == bg,
            decreases n - k,
        {
            self.pixels[k] = bg;
            k = k + 1;
        }
        proof {
            assert forall|i: int, j: int|
                0 <= i < self.spec_width() && 0 <= j < self.spec_height() implies #[trigger] self
                .pixel(i, j) == self.spec_bg() by {
                lemma_index_in_range(self.width as int, self.height as int, i, j);
            }
        }
    }

    /// Writes `color` at `(x, y)` iff the coordinate lies inside the
    /// surface; anything outside `[0, width) x [0, height)` is silently
    /// dropped, never an error, so the surface is unchanged there.
    pub fn draw_pixel(&mut self, x: i32, y: i32, color: Color)
        requires
            old(self).wf(),
        ensures
            final(self).wf(),
            final(self).same_shape(*old(self)),
            forall|i: int, j: int|
                0 <= i < old(self).spec_width() && 0 <= j < old(self).spec_height()
                    ==> #[trigger] final(self).pixel(i, j) == if i == x as int && j == y as int {
                    color
                } else {
                    old(self).pixel(i, j)
                },
            !(0 <= x && x < old(self).spec_width() && 0 <= y && y < old(self).spec_height())
                ==> *final(self) == *old(self),
    {
        if x >= 0 && y >= 0 && (x as usize) < self.width && (y as usize) < self.height {
            proof {
                lemma_index_in_range(self.width as int, self.height as int, x as int, y as int);
            }
            let idx: usize = (y as usize) * self.width + (x as usize);
            self.pixels[idx] = color;
            proof {
                assert forall|i: int, j: int|
                    0 <= i < self.spec_width() && 0 <= j < self.spec_height()
                    implies #[trigger] self.pixel(i, j) == if i == x as int && j == y as int {
                    color
                } else {
                    old(self).pixel(i, j)
                } by {
                    lemma_index_in_range(self.width as int, self.height as int, i, j);
                    lemma_row_major_injective(self.width as int, i, j, x as int, y as int);
                }
            }
        }
    }

    /// Fills the triangle `p0 p1 p2` by barycentric scan-conversion:
    /// after the call a pixel inside the surface holds `color` iff its
    /// center is covered by the triangle, and is untouched otherwise.
    /// A degenerate (zero-area) triangle covers nothing, so the fill is
    /// a complete no-op for it.
    pub fn fill_triangle(&mut self, p0: Point2, p1: Point2, p2: Point2, color: Color)
        requires
            old(self).wf(),
            in_coord_range(p0),
            in_coord_range(p1),
            in_coord_range(p2),
        ensures
            final(self).wf(),
            final(self).same_shape(*old(self)),
            forall|i: int, j: int|
                0 <= i < old(self).spec_width() && 0 <= j < old(self).spec_height()
                    ==> #[trigger] final(self).pixel(i, j) == if covers(p0, p1, p2, i, j) {
                    color
                } else {
                    old(self).pixel(i, j)
                },
            tri_denom(p0, p1, p2) == 0 ==> *final(self) == *old(self),
            collinear(p0, p1, p2) ==> *final(self) == *old(self),
    {
        let d: i64 = tri_denom_i64(p0, p1, p2);
        if d == 0 {
            return ;
        }
        proof {
            if collinear(p0, p1, p2) {
                lemma_degenerate_no_cover(p0, p1, p2);
            }
        }
        let minx: i32 = min3_i32(p0.x, p1.x, p2.x);
        let maxx: i32 = max3_i32(p0.x, p1.x, p2.x);
        let miny: i32 = min3_i32(p0.y, p1.y, p2.y);
        let maxy: i32 = max3_i32(p0.y, p1.y, p2.y);
        proof {
            assert forall|i: int, j: int| covers(p0, p1, p2, i, j) implies minx as int <= i
                < maxx as int && miny as int <= j < maxy as int by {
                lemma_cover_in_box(p0, p1, p2, i, j);
            }
        }
        let mut y: i32 = miny;
        while y <= maxy
            invariant
                self.wf(),
                self.same_shape(*old(self)),
                in_coord_range(p0),
                in_coord_range(p1),
                in_coord_range(p2),
                tri_denom(p0, p1, p2) != 0,
                !collinear(p0, p1, p2),
                minx == min3(p0.x as int, p1.x as int, p2.x as int),
                maxx == max3(p0.x as int, p1.x as int, p2.x as int),
                miny == min3(p0.y as int, p1.y as int, p2.y as int),
                maxy == max3(p0.y as int, p1.y as int, p2.y as int),
                miny <= y <= maxy + 1,
                forall|i: int, j: int| #[trigger]
                    covers(p0, p1, p2, i, j) ==> minx as int <= i < maxx as int && miny as int <= j
                        < maxy as int,
                forall|i: int, j: int|
                    0 <= i < self.spec_width() && 0 <= j < self.spec_height()
                        ==> #[trigger] self.pixel(i, j) == if covers(p0, p1, p2, i, j) && j
                        < y as int {
                        color
                    } else {
                        old(self).pixel(i, j)
                    },
            decreases maxy + 1 - y,
        {
            let mut x: i32 = minx;
            while x <= maxx
                invariant
                    self.wf(),
                    self.same_shape(*old(self)),
                    in_coord_range(p0),
                    in_coord_range(p1),
                    in_coord_range(p2),
                    tri_denom(p0, p1, p2) != 0,
                    !collinear(p0, p1, p2),
                    minx == min3(p0.x as int, p1.x as int, p2.x as int),
                    maxx == max3(p0.x as int, p1.x as int, p2.x as int),
                    miny == min3(p0.y as int, p1.y as int, p2.y as int),
                    maxy == max3(p0.y as int, p1.y as int, p2.y as int),
                    miny <= y <= maxy,
                    minx <= x <= maxx + 1,
                    forall|i: int, j: int| #[trigger]
                        covers(p0, p1, p2, i, j) ==> minx as int <= i < maxx as int && miny as int
                            <= j < maxy as int,
                    forall|i: int, j: int|
                        0 <= i < self.spec_width() && 0 <= j < self.spec_height()
                            ==> #[trigger] self.pixel(i, j) == if covers(p0, p1, p2, i, j) && (j
                            < y as int || (j == y as int && i < x as int)) {
                            color
                        } else {
                            old(self).pixel(i, j)
                        },
                decreases maxx + 1 - x,
            {
                if pixel_covered(p0, p1, p2, x, y) {
                    self.draw_pixel(x, y, color);
                }
                x = x + 1;
            }
            y = y + 1;
        }
    }
}

} // verus!
