//! A graphics context: an offset and clip window onto a buffer, with the
//! rasterisation primitives (points, lines, rectangles, polylines, ellipses).
//!
//! Every primitive is stated over a *shape*: the set of local points it
//! plots. A local point `(lx, ly)` is drawn only when `lx < w` and `ly < h`;
//! it then lands on buffer pixel `(x + lx, y + ly)`.

use core::marker::PhantomData;
use vstd::arithmetic::div_mod::lemma_fundamental_div_mod_converse;
use vstd::prelude::*;

use crate::buffer::{Buff, BufferError, in_bounds, same_size};
use crate::point::Point;
use crate::rect::Rect;

verus! {

/// Buffer pixel `(bx, by)` is where a local point of `shape` lands through context `g`.
pub open spec fn shows(g: Rect, shape: spec_fn(int, int) -> bool, bx: int, by: int) -> bool {
    &&& 0 <= bx - g.x < g.w
    &&& 0 <= by - g.y < g.h
    &&& shape(bx - g.x, by - g.y)
}

/// `after` is `before` with every pixel that `shape` shows through `g` set to `p`,
/// and every other pixel kept.
pub open spec fn painted<P, B: Buff<P>>(
    g: Rect,
    before: B,
    after: B,
    shape: spec_fn(int, int) -> bool,
    p: P,
) -> bool {
    &&& after.inv()
    &&& same_size(before, after)
    &&& forall|i: int, j: int|
        in_bounds::<P, B>(before, i, j) ==> #[trigger] after.pixel(i, j) == (if shows(
            g,
            shape,
            i,
            j,
        ) {
            p
        } else {
            before.pixel(i, j)
        })
}

/// The single local point `(x, y)`.
pub open spec fn point_shape(x: int, y: int) -> spec_fn(int, int) -> bool {
    |lx: int, ly: int| lx == x && ly == y
}

/// The local points inside `r`.
pub open spec fn rect_shape(r: Rect) -> spec_fn(int, int) -> bool {
    |lx: int, ly: int| r.x <= lx < r.x + r.w && r.y <= ly < r.y + r.h
}

/// The local points on the border of `r`: its first and last column and row.
pub open spec fn outline_shape(r: Rect) -> spec_fn(int, int) -> bool {
    |lx: int, ly: int|
        r.x <= lx < r.x + r.w && r.y <= ly < r.y + r.h && (lx == r.x || lx == r.x + r.w - 1 || ly
            == r.y || ly == r.y + r.h - 1)
}

/// The top and bottom rows of `r` up to column `r.x + cols`, and its left and
/// right columns up to row `r.y + rows`.
pub open spec fn edges_shape(r: Rect, cols: int, rows: int) -> spec_fn(int, int) -> bool {
    |lx: int, ly: int|
        (r.x <= lx < r.x + cols && (ly == r.y || ly == r.y + r.h - 1)) || (r.y <= ly < r.y + rows
            && (lx == r.x || lx == r.x + r.w - 1))
}

/// Absolute value.
pub open spec fn abs(d: int) -> int {
    if d < 0 {
        -d
    } else {
        d
    }
}

/// `k` steps from `from` in the direction of the sign of `d`.
pub open spec fn toward(from: int, d: int, k: int) -> int {
    if d > 0 {
        from + k
    } else if d < 0 {
        from - k
    } else {
        from
    }
}

/// How far the `k`-th point of a line has moved along its minor axis, for a
/// line spanning `major` steps on its major axis and `minor` on its minor one:
/// `ceil((k * minor - major / 2) / major)`. The error term starts at half the
/// major extent, and the minor coordinate steps each time it drops below zero.
pub open spec fn minor_offset(major: int, minor: int, k: int) -> int {
    if major == 0 {
        0
    } else {
        (k * minor - major / 2 + major - 1) / major
    }
}

/// `(u, v)` is one of the first `n` points of the line that starts at
/// `(u1, v1)` and steps one unit along `u` per point towards the sign of `du`.
pub open spec fn on_axis_line(u1: int, v1: int, du: int, dv: int, n: int, u: int, v: int) -> bool {
    let k = if du >= 0 {
        u - u1
    } else {
        u1 - u
    };
    &&& 0 <= k < n
    &&& v == toward(v1, dv, minor_offset(abs(du), abs(dv), k))
}

/// The first `n` points of the line from `p1` to `p2`, counted along its
/// major axis: `x` when the line is wider than tall, `y` otherwise.
pub open spec fn line_prefix(p1: Point, p2: Point, n: int) -> spec_fn(int, int) -> bool {
    let dx = p2.x - p1.x;
    let dy = p2.y - p1.y;
    |lx: int, ly: int|
        if abs(dx) > abs(dy) {
            on_axis_line(p1.x as int, p1.y as int, dx, dy, n, lx, ly)
        } else {
            on_axis_line(p1.y as int, p1.x as int, dy, dx, n, ly, lx)
        }
}

/// The points of the line from `p1` to `p2`: one per unit of its major axis,
/// both ends included.
pub open spec fn line_shape(p1: Point, p2: Point) -> spec_fn(int, int) -> bool {
    let dx = p2.x - p1.x;
    let dy = p2.y - p1.y;
    line_prefix(p1, p2, if abs(dx) > abs(dy) {
        abs(dx) + 1
    } else {
        abs(dy) + 1
    })
}

/// The points of the first `n` segments of the polyline through `pts`.
pub open spec fn polyline_prefix(pts: Seq<Point>, n: int) -> spec_fn(int, int) -> bool {
    |lx: int, ly: int|
        exists|i: int| 0 <= i < n && #[trigger] line_shape(pts[i], pts[i + 1])(lx, ly)
}

/// The points of the lines joining each point of `pts` to the next; nothing
/// for fewer than two points.
pub open spec fn polyline_shape(pts: Seq<Point>) -> spec_fn(int, int) -> bool {
    polyline_prefix(pts, pts.len() - 1)
}

/// First decision term of the midpoint ellipse walk at `(x, y)`, for semi-axes
/// `a` and `b`: `2b²(x+1)² + a²((y-1)² + y²) - 2a²b²`.
pub open spec fn ellipse_s(a: int, b: int, x: int, y: int) -> int {
    2 * ((b * b) * ((x + 1) * (x + 1))) + (a * a) * (2 * (y * y) - 2 * y + 1) - 2 * ((a * a) * (
    b * b))
}

/// Second decision term of the midpoint ellipse walk at `(x, y)`:
/// `b²(x² + (x+1)²) + 2a²(y-1)² - 2a²b²`.
pub open spec fn ellipse_t(a: int, b: int, x: int, y: int) -> int {
    (b * b) * (2 * (x * x) + 2 * x + 1) + 2 * ((a * a) * ((y - 1) * (y - 1))) - 2 * ((a * a) * (
    b * b))
}

/// The step of the walk from `(x, y)`: right while the first term is negative,
/// else diagonally down-right while the second is, else down.
pub open spec fn ellipse_next(a: int, b: int, x: int, y: int) -> (int, int) {
    if ellipse_s(a, b, x, y) < 0 {
        (x + 1, y)
    } else if ellipse_t(a, b, x, y) < 0 {
        (x + 1, y - 1)
    } else {
        (x, y - 1)
    }
}

/// The walk from `(x, y)` passes `(px, py)` before it reaches `y == 0`
/// (that last point included).
pub open spec fn ellipse_visits(a: int, b: int, x: int, y: int, px: int, py: int) -> bool
    decreases (a - x) + y,
    when 1 <= a && 1 <= b && 0 <= x <= a && 0 <= y
{
    proof {
        if ellipse_s(a, b, x, y) >= 0 && ellipse_t(a, b, x, y) < 0 {
            lemma_ellipse_t_bound(a, b, x, y);
        }
    }
    (px == x && py == y) || (y > 0 && if ellipse_s(a, b, x, y) < 0 {
        ellipse_visits(a, b, x + 1, y, px, py)
    } else if ellipse_t(a, b, x, y) < 0 {
        ellipse_visits(a, b, x + 1, y - 1, px, py)
    } else {
        ellipse_visits(a, b, x, y - 1, px, py)
    })
}

/// The four mirror images of walk point `(x, y)` in the quadrants of `r`.
pub open spec fn ellipse_mirrors(r: Rect, a: int, b: int, x: int, y: int, lx: int, ly: int) -> bool {
    &&& (lx == r.x + r.w - a + x || lx == r.x + a - x)
    &&& (ly == r.y + r.h - b + y || ly == r.y + b - y)
}

/// The points of the ellipse inscribed in `r`: with semi-axes
/// `a = (w + 1) / 2` and `b = (h + 1) / 2`, the mirror images of every point
/// of the walk from `(0, b)`; nothing when either semi-axis is zero.
pub open spec fn ellipse_shape(r: Rect) -> spec_fn(int, int) -> bool {
    let a = (r.w + 1) / 2;
    let b = (r.h + 1) / 2;
    |lx: int, ly: int|
        a > 0 && b > 0 && exists|x: int, y: int|
            #[trigger] ellipse_visits(a, b, 0, b, x, y) && ellipse_mirrors(r, a, b, x, y, lx, ly)
}

/// The mirror images of the walk points no later than the one at `level`
/// (a point's level is `(a - x) + y`, which every step lowers).
pub open spec fn ellipse_done(r: Rect, level: int) -> spec_fn(int, int) -> bool {
    let a = (r.w + 1) / 2;
    let b = (r.h + 1) / 2;
    |lx: int, ly: int|
        exists|x: int, y: int|
            #[trigger] ellipse_visits(a, b, 0, b, x, y) && (a - x) + y >= level && ellipse_mirrors(
                r,
                a,
                b,
                x,
                y,
                lx,
                ly,
            )
}

/// The walk moves right only while `x + 1 < a`.
proof fn lemma_ellipse_s_bound(a: int, b: int, x: int, y: int)
    requires
        a >= 1,
        b >= 1,
        x >= 0,
        ellipse_s(a, b, x, y) < 0,
    ensures
        x + 1 < a,
{
    if x + 1 >= a {
        assert((x + 1) * (x + 1) >= a * a) by (nonlinear_arith)
            requires
                x + 1 >= a,
                a >= 1,
        ;
        assert((b * b) * ((x + 1) * (x + 1)) >= (b * b) * (a * a)) by (nonlinear_arith)
            requires
                (x + 1) * (x + 1) >= a * a,
        ;
        assert(y * y >= y) by (nonlinear_arith);
        assert((a * a) * (2 * (y * y) - 2 * y + 1) >= a * a) by (nonlinear_arith)
            requires
                y * y >= y,
        ;
        assert((a * a) * (b * b) == (b * b) * (a * a)) by (nonlinear_arith);
        assert(a * a >= 1) by (nonlinear_arith)
            requires
                a >= 1,
        ;
    }
}

/// The walk moves diagonally only while `x < a`.
pub proof fn lemma_ellipse_t_bound(a: int, b: int, x: int, y: int)
    requires
        a >= 1,
        b >= 1,
        x >= 0,
        ellipse_t(a, b, x, y) < 0,
    ensures
        x < a,
{
    if x >= a {
        assert(2 * (x * x) + 2 * x + 1 > 2 * (a * a)) by (nonlinear_arith)
            requires
                x >= a,
                a >= 1,
        ;
        assert((b * b) * (2 * (x * x) + 2 * x + 1) > (b * b) * (2 * (a * a))) by (nonlinear_arith)
            requires
                2 * (x * x) + 2 * x + 1 > 2 * (a * a),
                b >= 1,
        ;
        assert((y - 1) * (y - 1) >= 0) by (nonlinear_arith);
        assert((a * a) * ((y - 1) * (y - 1)) >= 0) by (nonlinear_arith)
            requires
                (y - 1) * (y - 1) >= 0,
        ;
        assert((b * b) * (2 * (a * a)) == 2 * ((a * a) * (b * b))) by (nonlinear_arith);
    }
}

/// A step keeps the walk inside `0 <= x <= a`, `y >= 0`, and lowers its level.
proof fn lemma_ellipse_step(a: int, b: int, x: int, y: int)
    requires
        a >= 1,
        b >= 1,
        0 <= x <= a,
        y > 0,
    ensures
        0 <= ellipse_next(a, b, x, y).0 <= a,
        0 <= ellipse_next(a, b, x, y).1 <= y,
        (a - ellipse_next(a, b, x, y).0) + ellipse_next(a, b, x, y).1 < (a - x) + y,
        ellipse_next(a, b, x, y).1 >= y - 1,
{
    if ellipse_s(a, b, x, y) < 0 {
        lemma_ellipse_s_bound(a, b, x, y);
    } else if ellipse_t(a, b, x, y) < 0 {
        lemma_ellipse_t_bound(a, b, x, y);
    }
}

/// Every point the walk passes from `(x, y)` after `(x, y)` itself has a lower level.
proof fn lemma_ellipse_levels(a: int, b: int, x: int, y: int, px: int, py: int)
    requires
        a >= 1,
        b >= 1,
        0 <= x <= a,
        0 <= y,
        ellipse_visits(a, b, x, y, px, py),
    ensures
        (px == x && py == y) || (a - px) + py < (a - x) + y,
    decreases (a - x) + y,
{
    if !(px == x && py == y) {
        lemma_ellipse_step(a, b, x, y);
        let (nx, ny) = ellipse_next(a, b, x, y);
        assert(ellipse_visits(a, b, nx, ny, px, py));
        lemma_ellipse_levels(a, b, nx, ny, px, py);
    }
}

/// The decision terms stay far inside `i128` for semi-axes up to `2^30`.
proof fn lemma_ellipse_terms_fit(a: int, b: int, x: int, y: int)
    requires
        1 <= a <= 0x4000_0000,
        1 <= b <= 0x4000_0000,
        0 <= x <= a,
        0 <= y <= b,
    ensures
        -0x1000_0000_0000_0000_0000_0000_0000_0000 < ellipse_s(a, b, x, y)
            < 0x1000_0000_0000_0000_0000_0000_0000_0000,
        -0x1000_0000_0000_0000_0000_0000_0000_0000 < ellipse_t(a, b, x, y)
            < 0x1000_0000_0000_0000_0000_0000_0000_0000,
{
    let m: int = 0x4000_0001;
    assert(0 <= (b * b) <= m * m) by (nonlinear_arith)
        requires
            1 <= b <= m,
    ;
    assert(0 <= (a * a) <= m * m) by (nonlinear_arith)
        requires
            1 <= a <= m,
    ;
    assert(0 <= (x + 1) * (x + 1) <= m * m) by (nonlinear_arith)
        requires
            0 <= x + 1 <= m,
    ;
    assert(0 <= x * x <= m * m) by (nonlinear_arith)
        requires
            0 <= x <= m,
    ;
    assert(0 <= y * y <= m * m) by (nonlinear_arith)
        requires
            0 <= y <= m,
    ;
    if y == 0 {
        assert((y - 1) * (y - 1) == 1) by (nonlinear_arith)
            requires
                y == 0,
        ;
    } else {
        assert(0 <= (y - 1) * (y - 1) <= m * m) by (nonlinear_arith)
            requires
                0 <= y - 1 <= m,
        ;
    }
    let q = m * m;
    assert(q == 0x1000_0000_8000_0001);
    assert(0 <= (b * b) * ((x + 1) * (x + 1)) <= q * q) by (nonlinear_arith)
        requires
            0 <= (b * b) <= q,
            0 <= (x + 1) * (x + 1) <= q,
    ;
    assert(0 <= (a * a) * (b * b) <= q * q) by (nonlinear_arith)
        requires
            0 <= (b * b) <= q,
            0 <= (a * a) <= q,
    ;
    assert(0 <= (a * a) * ((y - 1) * (y - 1)) <= q * q) by (nonlinear_arith)
        requires
            0 <= (a * a) <= q,
            0 <= (y - 1) * (y - 1) <= q,
    ;
    assert(-q * (2 * q + 1) <= (a * a) * (2 * (y * y) - 2 * y + 1) <= q * (2 * q + 1))
        by (nonlinear_arith)
        requires
            0 <= (a * a) <= q,
            -2 * q <= 2 * (y * y) - 2 * y + 1 <= 2 * q + 1,
    ;
    assert(0 <= (b * b) * (2 * (x * x) + 2 * x + 1) <= q * (4 * q + 1)) by (nonlinear_arith)
        requires
            0 <= (b * b) <= q,
            0 <= 2 * (x * x) + 2 * x + 1 <= 4 * q + 1,
    ;
}

/// How each decision term changes when the walk moves right or down.
proof fn lemma_ellipse_deltas(a: int, b: int, x: int, y: int)
    ensures
        ellipse_s(a, b, x + 1, y) == ellipse_s(a, b, x, y) + (b * b * 2) * (x * 2 + 3),
        ellipse_t(a, b, x + 1, y) == ellipse_t(a, b, x, y) + (b * b * 4) * (x + 1),
        ellipse_s(a, b, x, y - 1) == ellipse_s(a, b, x, y) - (a * a * 4) * (y - 1),
        ellipse_t(a, b, x, y - 1) == ellipse_t(a, b, x, y) - (a * a * 2) * (y * 2 - 3),
{
    assert(ellipse_s(a, b, x + 1, y) == ellipse_s(a, b, x, y) + (b * b * 2) * (x * 2 + 3))
        by (nonlinear_arith);
    assert(ellipse_t(a, b, x + 1, y) == ellipse_t(a, b, x, y) + (b * b * 4) * (x + 1))
        by (nonlinear_arith);
    assert(ellipse_s(a, b, x, y - 1) == ellipse_s(a, b, x, y) - (a * a * 4) * (y - 1))
        by (nonlinear_arith);
    assert(ellipse_t(a, b, x, y - 1) == ellipse_t(a, b, x, y) - (a * a * 2) * (y * 2 - 3))
        by (nonlinear_arith);
}

/// The error term `acc` pins down the minor offset of the `k`-th point.
proof fn lemma_minor_offset(major: int, minor: int, k: int, m: int, acc: int)
    requires
        major > 0,
        acc == major / 2 - k * minor + m * major,
        0 <= acc < major,
    ensures
        minor_offset(major, minor, k) == m,
{
    lemma_fundamental_div_mod_converse(k * minor - major / 2 + major - 1, major, m, major - 1 - acc);
}

/// The four points `(cx_right + x or cx_left - x, cy_bottom + y or cy_top - y)`.
pub open spec fn mirror_shape(
    cx_right: int,
    cx_left: int,
    cy_bottom: int,
    cy_top: int,
    x: int,
    y: int,
) -> spec_fn(int, int) -> bool {
    |lx: int, ly: int|
        (lx == cx_right + x || lx == cx_left - x) && (ly == cy_bottom + y || ly == cy_top - y)
}

/// Painting nothing keeps the buffer.
proof fn lemma_paint_none<P, B: Buff<P>>(g: Rect, b: B, shape: spec_fn(int, int) -> bool, p: P)
    requires
        b.inv(),
        forall|lx: int, ly: int| 0 <= lx < g.w && 0 <= ly < g.h ==> !#[trigger] shape(lx, ly),
    ensures
        painted(g, b, b, shape, p),
{
}

/// Two shapes that agree inside the clip window paint alike.
proof fn lemma_paint_same<P, B: Buff<P>>(
    g: Rect,
    b0: B,
    b1: B,
    s1: spec_fn(int, int) -> bool,
    s2: spec_fn(int, int) -> bool,
    p: P,
)
    requires
        painted(g, b0, b1, s1, p),
        forall|lx: int, ly: int| 0 <= lx < g.w && 0 <= ly < g.h ==> #[trigger] s1(lx, ly) == s2(lx, ly),
    ensures
        painted(g, b0, b1, s2, p),
{
    assert forall|i: int, j: int| in_bounds::<P, B>(b0, i, j) implies shows(g, s1, i, j) == shows(
        g,
        s2,
        i,
        j,
    ) by {
        if 0 <= i - g.x < g.w && 0 <= j - g.y < g.h {
            assert(s1(i - g.x, j - g.y) == s2(i - g.x, j - g.y));
        }
    }
}

/// Painting `s1` and then `s2` paints their union.
proof fn lemma_paint_more<P, B: Buff<P>>(
    g: Rect,
    b0: B,
    b1: B,
    b2: B,
    s1: spec_fn(int, int) -> bool,
    s2: spec_fn(int, int) -> bool,
    s3: spec_fn(int, int) -> bool,
    p: P,
)
    requires
        painted(g, b0, b1, s1, p),
        painted(g, b1, b2, s2, p),
        forall|lx: int, ly: int| #[trigger] s3(lx, ly) == (s1(lx, ly) || s2(lx, ly)),
    ensures
        painted(g, b0, b2, s3, p),
{
    assert forall|i: int, j: int| in_bounds::<P, B>(b0, i, j) implies #[trigger] b2.pixel(i, j) == (
    if shows(g, s3, i, j) {
        p
    } else {
        b0.pixel(i, j)
    }) by {
        assert(b1.pixel(i, j) == (if shows(g, s1, i, j) {
            p
        } else {
            b0.pixel(i, j)
        }));
        assert(b2.pixel(i, j) == (if shows(g, s2, i, j) {
            p
        } else {
            b1.pixel(i, j)
        }));
        assert(s3(i - g.x, j - g.y) == (s1(i - g.x, j - g.y) || s2(i - g.x, j - g.y)));
    }
}

/// Something that draws itself through a graphics context onto a buffer.
pub trait Renderable<Pixel> {
    /// Renders onto `buffer`. The context's bounds are the same afterwards.
    fn render<B: Buff<Pixel>>(&mut self, graphics: &mut Graphics<Pixel>, buffer: &mut B)
        requires
            old(buffer).inv(),
        ensures
            final(buffer).inv(),
            same_size(*old(buffer), *final(buffer)),
            final(graphics)@ == old(graphics)@,
    ;
}

/// Something that can be drawn from: a pixel at each coordinate of its size.
pub trait Sprite<Pixel> {
    fn get(&mut self, x: usize, y: usize) -> &Pixel;

    fn size(&self) -> (usize, usize);
}

/// Graphics context used for rendering components: rendering is shifted by
/// `(x, y)` and limited to `w` by `h` local pixels.
pub struct Graphics<Pixel> {
    x: usize,
    y: usize,
    w: usize,
    h: usize,
    format: PhantomData<Pixel>,
}

impl<Pixel> View for Graphics<Pixel> {
    type V = Rect;

    closed spec fn view(&self) -> Rect {
        Rect { x: self.x, y: self.y, w: self.w, h: self.h }
    }
}

impl<Pixel> Graphics<Pixel> {
    /// A context with the given offset and limits.
    pub fn new(x: usize, y: usize, w: usize, h: usize) -> (g: Self)
        ensures
            g@ == (Rect { x, y, w, h }),
    {
        Graphics { x, y, w, h, format: PhantomData }
    }

    /// Writes local pixel `(x, y)` through the context: it is dropped when
    /// `x >= w` or `y >= h`, and otherwise lands on buffer pixel
    /// `(self.x + x, self.y + y)`. Fails when that pixel is outside the buffer.
    pub fn set<B: Buff<Pixel>>(&self, b: &mut B, x: usize, y: usize, p: &Pixel) -> (r: Result<
        (),
        BufferError,
    >)
        requires
            old(b).inv(),
        ensures
            painted(self@, *old(b), *final(b), point_shape(x as int, y as int), *p),
            !(x < self@.w && y < self@.h) ==> *final(b) == *old(b),
            r is Err ==> *final(b) == *old(b),
            r == (if x < self@.w && y < self@.h && !in_bounds::<Pixel, B>(
                *old(b),
                self@.x + x,
                self@.y + y,
            ) {
                Err(BufferError::OutOfRange)
            } else {
                Ok(())
            }),
    {
        if x < self.w && y < self.h {
            let new_x = match self.x.checked_add(x) {
                Some(v) => v,
                None => return Err(BufferError::OutOfRange),
            };
            let new_y = match self.y.checked_add(y) {
                Some(v) => v,
                None => return Err(BufferError::OutOfRange),
            };
            b.set(new_x, new_y, p)
        } else {
            Ok(())
        }
    }

    /// The context's offset and limits.
    pub fn get_bounds(&self) -> (r: Rect)
        ensures
            r == self@,
    {
        Rect::new(self.x, self.y, self.w, self.h)
    }

    /// Sets a new offset and limits for rendering.
    pub fn set_bounds(&mut self, bounds: &Rect)
        ensures
            final(self)@ == *bounds,
    {
        self.x = bounds.x;
        self.y = bounds.y;
        self.w = bounds.w;
        self.h = bounds.h;
    }

    /// `actual` clamped to `[min, max]`, `max` winning when they cross.
    fn limit(min: usize, max: usize, actual: usize) -> (r: usize)
        ensures
            r == (if actual > max {
                max
            } else if actual < min {
                min
            } else {
                actual
            }),
    {
        if actual > max {
            return max;
        }
        if actual < min {
            return min;
        }
        actual
    }

    /// Local pixels of the window at and after `start` along one axis.
    fn room(start: usize, limit: usize) -> (r: usize)
        ensures
            r == (if start < limit {
                limit - start
            } else {
                0
            }),
    {
        if start < limit {
            limit - start
        } else {
            0
        }
    }

    /// Writes local point `(lx, ly)`, which may lie off the addressable range;
    /// such a point falls outside the window and is dropped.
    fn plot<B: Buff<Pixel>>(&self, b: &mut B, lx: i128, ly: i128, p: &Pixel)
        requires
            old(b).inv(),
        ensures
            painted(self@, *old(b), *final(b), point_shape(lx as int, ly as int), *p),
    {
        if 0 <= lx && lx <= usize::MAX as i128 && 0 <= ly && ly <= usize::MAX as i128 {
            let _ = self.set(b, lx as usize, ly as usize, p);
        } else {
            proof {
                lemma_paint_none(self@, *b, point_shape(lx as int, ly as int), *p);
            }
        }
    }

    /// Fills every local point of `r`.
    pub fn fill_rect<B: Buff<Pixel>>(&self, b: &mut B, r: Rect, p: &Pixel)
        requires
            old(b).inv(),
        ensures
            painted(self@, *old(b), *final(b), rect_shape(r), *p),
    {
        let rows = Self::limit(0, Self::room(r.y, self.h), r.h);
        let cols = Self::limit(0, Self::room(r.x, self.w), r.w);
        let ghost g = self@;
        let ghost b0 = *b;
        let mut dy: usize = 0;
        proof {
            lemma_paint_none(g, b0, |lx: int, ly: int| false, *p);
        }
        while dy < rows
            invariant
                g == self@,
                b0 == *old(b),
                b0.inv(),
                dy <= rows,
                rows <= r.h,
                r.y + rows <= g.h || rows == 0,
                cols <= r.w,
                r.x + cols <= g.w || cols == 0,
                rows == r.h || r.y + rows >= g.h,
                cols == r.w || r.x + cols >= g.w,
                painted(
                    g,
                    b0,
                    *b,
                    |lx: int, ly: int| r.x <= lx < r.x + cols && r.y <= ly < r.y + dy,
                    *p,
                ),
            decreases rows - dy,
        {
            let mut dx: usize = 0;
            while dx < cols
                invariant
                    g == self@,
                    b0 == *old(b),
                    b0.inv(),
                    dy < rows,
                    dx <= cols,
                    rows <= r.h,
                    r.y + rows <= g.h || rows == 0,
                    cols <= r.w,
                    r.x + cols <= g.w || cols == 0,
                    painted(
                        g,
                        b0,
                        *b,
                        |lx: int, ly: int|
                            r.x <= lx < r.x + cols && r.y <= ly < r.y + dy || (ly == r.y + dy
                                && r.x <= lx < r.x + dx),
                        *p,
                    ),
                decreases cols - dx,
            {
                let ghost b1 = *b;
                self.plot(b, r.x as i128 + dx as i128, r.y as i128 + dy as i128, p);
                proof {
                    lemma_paint_more(
                        g,
                        b0,
                        b1,
                        *b,
                        |lx: int, ly: int|
                            r.x <= lx < r.x + cols && r.y <= ly < r.y + dy || (ly == r.y + dy
                                && r.x <= lx < r.x + dx),
                        point_shape(r.x + dx, r.y + dy),
                        |lx: int, ly: int|
                            r.x <= lx < r.x + cols && r.y <= ly < r.y + dy || (ly == r.y + dy
                                && r.x <= lx < r.x + dx + 1),
                        *p,
                    );
                }
                dx = dx + 1;
            }
            proof {
                lemma_paint_same(
                    g,
                    b0,
                    *b,
                    |lx: int, ly: int|
                        r.x <= lx < r.x + cols && r.y <= ly < r.y + dy || (ly == r.y + dy && r.x
                            <= lx < r.x + dx),
                    |lx: int, ly: int| r.x <= lx < r.x + cols && r.y <= ly < r.y + dy + 1,
                    *p,
                );
            }
            dy = dy + 1;
        }
        proof {
            lemma_paint_same(
                g,
                b0,
                *b,
                |lx: int, ly: int| r.x <= lx < r.x + cols && r.y <= ly < r.y + dy,
                rect_shape(r),
                *p,
            );
        }
    }

    /// Draws the outline of `r`: its first and last column and row.
    pub fn draw_rect<B: Buff<Pixel>>(&self, b: &mut B, r: Rect, p: &Pixel)
        requires
            old(b).inv(),
        ensures
            painted(self@, *old(b), *final(b), outline_shape(r), *p),
    {
        let ghost g = self@;
        let ghost b0 = *b;
        if r.w == 0 || r.h == 0 {
            proof {
                lemma_paint_none(g, b0, outline_shape(r), *p);
            }
            return ;
        }
        let rows = Self::limit(0, Self::room(r.y, self.h), r.h);
        let cols = Self::limit(0, Self::room(r.x, self.w), r.w);
        let last_x: i128 = r.x as i128 + r.w as i128 - 1;
        let last_y: i128 = r.y as i128 + r.h as i128 - 1;
        proof {
            lemma_paint_none(g, b0, edges_shape(r, 0, 0), *p);
        }
        let mut dx: usize = 0;
        while dx < cols
            invariant
                g == self@,
                b0 == *old(b),
                b0.inv(),
                r.w > 0 && r.h > 0,
                last_x == r.x + r.w - 1,
                last_y == r.y + r.h - 1,
                dx <= cols,
                cols <= r.w,
                painted(g, b0, *b, edges_shape(r, dx as int, 0), *p),
            decreases cols - dx,
        {
            let ghost b1 = *b;
            self.plot(b, r.x as i128 + dx as i128, r.y as i128, p);
            let ghost b2 = *b;
            self.plot(b, r.x as i128 + dx as i128, last_y, p);
            proof {
                lemma_paint_more(
                    g,
                    b0,
                    b1,
                    b2,
                    edges_shape(r, dx as int, 0),
                    point_shape(r.x + dx, r.y as int),
                    |lx: int, ly: int|
                        edges_shape(r, dx as int, 0)(lx, ly) || (lx == r.x + dx && ly == r.y),
                    *p,
                );
                lemma_paint_more(
                    g,
                    b0,
                    b2,
                    *b,
                    |lx: int, ly: int|
                        edges_shape(r, dx as int, 0)(lx, ly) || (lx == r.x + dx && ly == r.y),
                    point_shape(r.x + dx, last_y as int),
                    edges_shape(r, dx + 1, 0),
                    *p,
                );
            }
            dx = dx + 1;
        }
        let mut dy: usize = 0;
        while dy < rows
            invariant
                g == self@,
                b0 == *old(b),
                b0.inv(),
                r.w > 0 && r.h > 0,
                last_x == r.x + r.w - 1,
                last_y == r.y + r.h - 1,
                dy <= rows,
                rows <= r.h,
                painted(g, b0, *b, edges_shape(r, cols as int, dy as int), *p),
            decreases rows - dy,
        {
            let ghost b1 = *b;
            self.plot(b, r.x as i128, r.y as i128 + dy as i128, p);
            let ghost b2 = *b;
            self.plot(b, last_x, r.y as i128 + dy as i128, p);
            proof {
                lemma_paint_more(
                    g,
                    b0,
                    b1,
                    b2,
                    edges_shape(r, cols as int, dy as int),
                    point_shape(r.x as int, r.y + dy),
                    |lx: int, ly: int|
                        edges_shape(r, cols as int, dy as int)(lx, ly) || (lx == r.x && ly == r.y
                            + dy),
                    *p,
                );
                lemma_paint_more(
                    g,
                    b0,
                    b2,
                    *b,
                    |lx: int, ly: int|
                        edges_shape(r, cols as int, dy as int)(lx, ly) || (lx == r.x && ly == r.y
                            + dy),
                    point_shape(last_x as int, r.y + dy),
                    edges_shape(r, cols as int, dy + 1),
                    *p,
                );
            }
            dy = dy + 1;
        }
        proof {
            lemma_paint_same(g, b0, *b, edges_shape(r, cols as int, rows as int), outline_shape(r), *p);
        }
    }

    /// Draws the line from `p1` to `p2` with Bresenham's algorithm: one point
    /// per unit of the major axis, the minor coordinate stepping whenever the
    /// error term, started at half the major extent, drops below zero.
    pub fn draw_line<B: Buff<Pixel>>(&self, buf: &mut B, p1: Point, p2: Point, p: &Pixel)
        requires
            old(buf).inv(),
        ensures
            painted(self@, *old(buf), *final(buf), line_shape(p1, p2), *p),
    {
        let ghost g = self@;
        let ghost b0 = *buf;
        let x1 = p1.x as i128;
        let y1 = p1.y as i128;
        let dx = p2.x as i128 - x1;
        let dy = p2.y as i128 - y1;
        let ax = if dx < 0 {
            -dx
        } else {
            dx
        };
        let ay = if dy < 0 {
            -dy
        } else {
            dy
        };
        let x_major = ax > ay;
        let (u1, v1, du, dv) = if x_major {
            (x1, y1, dx, dy)
        } else {
            (y1, x1, dy, dx)
        };
        let major = if x_major {
            ax
        } else {
            ay
        };
        let minor = if x_major {
            ay
        } else {
            ax
        };
        let su: i128 = if du > 0 {
            1
        } else if du < 0 {
            -1
        } else {
            0
        };
        let sv: i128 = if dv > 0 {
            1
        } else if dv < 0 {
            -1
        } else {
            0
        };
        let mut u = u1;
        let mut v = v1;
        let mut accum = major / 2;
        let mut k: i128 = 0;
        proof {
            lemma_paint_none(g, b0, line_prefix(p1, p2, 0), *p);
            if major > 0 {
                lemma_minor_offset(major as int, minor as int, 0, 0, accum as int);
            }
        }
        loop
            invariant_except_break
                painted(g, b0, *buf, line_prefix(p1, p2, k as int), *p),
            invariant
                g == self@,
                b0 == *old(buf),
                b0.inv(),
                major == abs(du as int),
                minor == abs(dv as int),
                minor <= major,
                major < 0x1_0000_0000_0000_0000,
                0 <= u1 < 0x1_0000_0000_0000_0000,
                0 <= v1 < 0x1_0000_0000_0000_0000,
                0 <= toward(u1 as int, du as int, major as int) < 0x1_0000_0000_0000_0000,
                0 <= toward(v1 as int, dv as int, minor as int) < 0x1_0000_0000_0000_0000,
                x_major == (abs(dx as int) > abs(dy as int)),
                x_major ==> u1 == p1.x && v1 == p1.y && du == dx && dv == dy,
                !x_major ==> u1 == p1.y && v1 == p1.x && du == dy && dv == dx,
                dx == p2.x - p1.x,
                dy == p2.y - p1.y,
                su == (if du > 0 { 1int } else if du < 0 { -1int } else { 0int }),
                sv == (if dv > 0 { 1int } else if dv < 0 { -1int } else { 0int }),
                0 <= k <= major,
                u == toward(u1 as int, du as int, k as int),
                v == toward(v1 as int, dv as int, minor_offset(major as int, minor as int, k as int)),
                major > 0 ==> 0 <= accum < major,
                major > 0 ==> accum == major / 2 - k * minor + minor_offset(
                    major as int,
                    minor as int,
                    k as int,
                ) * major,
            ensures
                painted(g, b0, *buf, line_prefix(p1, p2, major + 1), *p),
            decreases major - k,
        {
            proof {
                assert(0 <= minor_offset(major as int, minor as int, k as int) <= minor) by {
                    if major > 0 {
                        assert(0 <= minor_offset(major as int, minor as int, k as int) <= minor)
                            by (nonlinear_arith)
                            requires
                                major > 0,
                                0 <= k <= major,
                                0 <= minor <= major,
                                accum == major / 2 - k * minor + minor_offset(
                                    major as int,
                                    minor as int,
                                    k as int,
                                ) * major,
                                0 <= accum < major,
                                0 <= major / 2 < major,
                        ;
                    }
                }
            }
            let ghost b1 = *buf;
            if x_major {
                self.plot(buf, u, v, p);
            } else {
                self.plot(buf, v, u, p);
            }
            proof {
                let pt = if x_major {
                    point_shape(u as int, v as int)
                } else {
                    point_shape(v as int, u as int)
                };
                lemma_paint_more(
                    g,
                    b0,
                    b1,
                    *buf,
                    line_prefix(p1, p2, k as int),
                    pt,
                    line_prefix(p1, p2, k + 1),
                    *p,
                );
            }
            if k == major {
                break ;
            }
            let ghost m = minor_offset(major as int, minor as int, k as int);
            accum = accum - minor;
            if accum < 0 {
                accum = accum + major;
                v = v + sv;
            }
            u = u + su;
            k = k + 1;
            proof {
                assert((k - 1) * minor + minor == k * minor) by (nonlinear_arith);
                assert(m * major + major == (m + 1) * major) by (nonlinear_arith);
                if accum == major / 2 - k * minor + m * major {
                    lemma_minor_offset(major as int, minor as int, k as int, m, accum as int);
                } else {
                    lemma_minor_offset(major as int, minor as int, k as int, m + 1, accum as int);
                }
            }
        }
        proof {
            lemma_paint_same(g, b0, *buf, line_prefix(p1, p2, major + 1), line_shape(p1, p2), *p);
        }
    }

    /// Draws a line from each point of `points` to the next.
    pub fn draw_polyline<B: Buff<Pixel>>(&self, b: &mut B, points: &[Point], p: &Pixel)
        requires
            old(b).inv(),
        ensures
            painted(self@, *old(b), *final(b), polyline_shape(points@), *p),
    {
        let ghost g = self@;
        let ghost b0 = *b;
        let len = points.len();
        let mut i: usize = 0;
        proof {
            lemma_paint_none(g, b0, polyline_prefix(points@, 0), *p);
        }
        while i + 1 < len
            invariant
                g == self@,
                b0 == *old(b),
                b0.inv(),
                len == points@.len(),
                i == 0 || i < len,
                painted(g, b0, *b, polyline_prefix(points@, i as int), *p),
            decreases len - i,
        {
            let ghost b1 = *b;
            self.draw_line(b, points[i], points[i + 1], p);
            proof {
                assert forall|lx: int, ly: int|
                    #[trigger] polyline_prefix(points@, i + 1)(lx, ly) == (polyline_prefix(
                        points@,
                        i as int,
                    )(lx, ly) || line_shape(points@[i as int], points@[i + 1])(lx, ly)) by {
                    if polyline_prefix(points@, i + 1)(lx, ly) {
                        let j = choose|j: int|
                            0 <= j < i + 1 && #[trigger] line_shape(points@[j], points@[j + 1])(
                                lx,
                                ly,
                            );
                        if j < i {
                            assert(polyline_prefix(points@, i as int)(lx, ly));
                        }
                    }
                }
                lemma_paint_more(
                    g,
                    b0,
                    b1,
                    *b,
                    polyline_prefix(points@, i as int),
                    line_shape(points@[i as int], points@[i + 1]),
                    polyline_prefix(points@, i + 1),
                    *p,
                );
            }
            i = i + 1;
        }
        proof {
            if len == 0 {
                lemma_paint_same(g, b0, *b, polyline_prefix(points@, 0), polyline_shape(points@), *p);
            }
        }
    }

    /// Writes the four mirror images of one point of an ellipse.
    fn plot_mirrors<B: Buff<Pixel>>(
        &self,
        buf: &mut B,
        cx_right: i128,
        cx_left: i128,
        cy_bottom: i128,
        cy_top: i128,
        x: i128,
        y: i128,
        p: &Pixel,
    )
        requires
            old(buf).inv(),
            0 <= cx_right < 0x1_0000_0000_0000_0000_0000,
            0 <= cx_left < 0x1_0000_0000_0000_0000_0000,
            0 <= cy_bottom < 0x1_0000_0000_0000_0000_0000,
            0 <= cy_top < 0x1_0000_0000_0000_0000_0000,
            0 <= x < 0x1_0000_0000_0000_0000_0000,
            0 <= y < 0x1_0000_0000_0000_0000_0000,
        ensures
            painted(
                self@,
                *old(buf),
                *final(buf),
                mirror_shape(
                    cx_right as int,
                    cx_left as int,
                    cy_bottom as int,
                    cy_top as int,
                    x as int,
                    y as int,
                ),
                *p,
            ),
    {
        let ghost g = self@;
        let ghost b0 = *buf;
        let ghost (xr, xl, yb, yt) = (cx_right + x, cx_left - x, cy_bottom + y, cy_top - y);
        self.plot(buf, cx_right + x, cy_bottom + y, p);
        let ghost b1 = *buf;
        self.plot(buf, cx_left - x, cy_bottom + y, p);
        proof {
            lemma_paint_more(
                g,
                b0,
                b1,
                *buf,
                point_shape(xr, yb),
                point_shape(xl, yb),
                |lx: int, ly: int| (lx == xr || lx == xl) && ly == yb,
                *p,
            );
        }
        let ghost b2 = *buf;
        self.plot(buf, cx_left - x, cy_top - y, p);
        proof {
            lemma_paint_more(
                g,
                b0,
                b2,
                *buf,
                |lx: int, ly: int| (lx == xr || lx == xl) && ly == yb,
                point_shape(xl, yt),
                |lx: int, ly: int| ((lx == xr || lx == xl) && ly == yb) || (lx == xl && ly == yt),
                *p,
            );
        }
        let ghost b3 = *buf;
        self.plot(buf, cx_right + x, cy_top - y, p);
        proof {
            lemma_paint_more(
                g,
                b0,
                b3,
                *buf,
                |lx: int, ly: int| ((lx == xr || lx == xl) && ly == yb) || (lx == xl && ly == yt),
                point_shape(xr, yt),
                mirror_shape(
                    cx_right as int,
                    cx_left as int,
                    cy_bottom as int,
                    cy_top as int,
                    x as int,
                    y as int,
                ),
                *p,
            );
        }
    }

    /// Draws the outline of the ellipse inscribed in `r` with the integer
    /// midpoint algorithm: from the top of one quadrant the walk steps right,
    /// diagonally or down by the signs of its two decision terms, and each
    /// point is mirrored into all four quadrants. Nothing is drawn when `r`
    /// has no width or no height.
    pub fn draw_ellipse<B: Buff<Pixel>>(&self, buf: &mut B, r: Rect, p: &Pixel)
        requires
            old(buf).inv(),
            r.w == 0 || r.h == 0 || (r.w < 0x8000_0000 && r.h < 0x8000_0000),
        ensures
            painted(self@, *old(buf), *final(buf), ellipse_shape(r), *p),
            r.w == 0 || r.h == 0 ==> *final(buf) == *old(buf),
    {
        let ghost g = self@;
        let ghost b0 = *buf;
        let left = r.x as i128;
        let right = left + r.w as i128;
        let top = r.y as i128;
        let bottom = top + r.h as i128;
        let a = (right - left + 1) / 2;
        let b = (bottom - top + 1) / 2;
        if a == 0 || b == 0 {
            proof {
                lemma_paint_none(g, b0, ellipse_shape(r), *p);
            }
            return ;
        }
        proof {
            assert(0 <= a * a <= 0x4000_0000 * 0x4000_0000) by (nonlinear_arith)
                requires
                    0 <= a <= 0x4000_0000,
            ;
            assert(0 <= b * b <= 0x4000_0000 * 0x4000_0000) by (nonlinear_arith)
                requires
                    0 <= b <= 0x4000_0000,
            ;
        }
        let a2 = a * a;
        let b2 = b * b;
        let two_a2 = a2 * 2;
        let two_b2 = b2 * 2;
        let four_a2 = a2 * 4;
        let four_b2 = b2 * 4;
        let mut x: i128 = 0;
        let mut y: i128 = b;
        proof {
            assert(a2 * (1 - b * 2) + two_b2 == ellipse_s(a as int, b as int, 0, b as int))
                by (nonlinear_arith)
                requires
                    a2 == a * a,
                    two_b2 == b * b * 2,
            ;
            assert(b2 - two_a2 * (b * 2 - 1) == ellipse_t(a as int, b as int, 0, b as int))
                by (nonlinear_arith)
                requires
                    b2 == b * b,
                    two_a2 == a * a * 2,
            ;
            assert(-0x1_0000_0000_0000_0000_0000_0000 < a2 * (1 - b * 2) <= 0) by (nonlinear_arith)
                requires
                    0 <= a2 <= 0x4000_0000 * 0x4000_0000,
                    1 <= b <= 0x4000_0000,
            ;
            assert(0 <= two_a2 * (b * 2 - 1) < 0x1_0000_0000_0000_0000_0000_0000) by (nonlinear_arith)
                requires
                    0 <= two_a2 <= 2 * 0x4000_0000 * 0x4000_0000,
                    1 <= b <= 0x4000_0000,
            ;
        }
        let mut s = a2 * (1 - b * 2) + two_b2;
        let mut t = b2 - two_a2 * (b * 2 - 1);
        let ghost cxr = right - a;
        let ghost cxl = left + a;
        let ghost cyb = bottom - b;
        let ghost cyt = top + b;
        let ghost aa = a as int;
        let ghost bb = b as int;
        self.plot_mirrors(buf, right - a, left + a, bottom - b, top + b, x, y, p);
        proof {
            assert forall|lx: int, ly: int| #[trigger]
                ellipse_done(r, aa + bb)(lx, ly) == mirror_shape(cxr, cxl, cyb, cyt, 0, bb)(
                    lx,
                    ly,
                ) by {
                if ellipse_done(r, aa + bb)(lx, ly) {
                    let (px, py) = choose|px: int, py: int|
                        #[trigger] ellipse_visits(aa, bb, 0, bb, px, py) && (aa - px) + py >= aa
                            + bb && ellipse_mirrors(r, aa, bb, px, py, lx, ly);
                    lemma_ellipse_levels(aa, bb, 0, bb, px, py);
                }
                if mirror_shape(cxr, cxl, cyb, cyt, 0, bb)(lx, ly) {
                    assert(ellipse_visits(aa, bb, 0, bb, 0, bb));
                    assert(ellipse_mirrors(r, aa, bb, 0, bb, lx, ly));
                }
            }
            lemma_paint_same(
                g,
                b0,
                *buf,
                mirror_shape(cxr, cxl, cyb, cyt, 0, bb),
                ellipse_done(r, aa + bb),
                *p,
            );
        }
        loop
            invariant_except_break
                y >= 1,
            invariant
                g == self@,
                b0 == *old(buf),
                b0.inv(),
                aa == a && bb == b,
                a == (r.w + 1) / 2,
                b == (r.h + 1) / 2,
                1 <= a <= 0x4000_0000,
                1 <= b <= 0x4000_0000,
                a2 == a * a && b2 == b * b,
                two_a2 == a * a * 2 && two_b2 == b * b * 2,
                four_a2 == a * a * 4 && four_b2 == b * b * 4,
                left == r.x && top == r.y && right == r.x + r.w && bottom == r.y + r.h,
                cxr == right - a && cxl == left + a && cyb == bottom - b && cyt == top + b,
                0 <= x <= a,
                0 <= y <= b,
                s == ellipse_s(aa, bb, x as int, y as int),
                t == ellipse_t(aa, bb, x as int, y as int),
                forall|px: int, py: int| #[trigger]
                    ellipse_visits(aa, bb, 0, bb, px, py) == ((ellipse_visits(aa, bb, 0, bb, px, py)
                        && (aa - px) + py > (aa - x) + y) || ellipse_visits(
                        aa,
                        bb,
                        x as int,
                        y as int,
                        px,
                        py,
                    )),
                painted(g, b0, *buf, ellipse_done(r, (aa - x) + y), *p),
            ensures
                y == 0,
            decreases (a - x) + y,
        {
            let ghost (x0, y0) = (x as int, y as int);
            let ghost b1 = *buf;
            proof {
                lemma_ellipse_step(aa, bb, x0, y0);
                lemma_ellipse_deltas(aa, bb, x0, y0);
                lemma_ellipse_deltas(aa, bb, x0 + 1, y0);
                if s < 0 {
                    lemma_ellipse_s_bound(aa, bb, x0, y0);
                } else if t < 0 {
                    lemma_ellipse_t_bound(aa, bb, x0, y0);
                }
                lemma_ellipse_terms_fit(aa, bb, x0, y0);
                if x0 + 1 <= aa {
                    lemma_ellipse_terms_fit(aa, bb, x0 + 1, y0);
                    lemma_ellipse_terms_fit(aa, bb, x0 + 1, y0 - 1);
                }
                lemma_ellipse_terms_fit(aa, bb, x0, y0 - 1);
                assert(0 <= two_b2 * (x * 2 + 3) < 0x1_0000_0000_0000_0000_0000_0000) by (
                nonlinear_arith)
                    requires
                        two_b2 == b * b * 2,
                        1 <= b <= 0x4000_0000,
                        0 <= x <= 0x4000_0000,
                ;
                assert(0 <= four_b2 * (x + 1) < 0x1_0000_0000_0000_0000_0000_0000) by (
                nonlinear_arith)
                    requires
                        four_b2 == b * b * 4,
                        1 <= b <= 0x4000_0000,
                        0 <= x <= 0x4000_0000,
                ;
                assert(0 <= four_a2 * (y - 1) < 0x1_0000_0000_0000_0000_0000_0000) by (
                nonlinear_arith)
                    requires
                        four_a2 == a * a * 4,
                        1 <= a <= 0x4000_0000,
                        1 <= y <= 0x4000_0000,
                ;
                assert(-0x1_0000_0000_0000_0000_0000_0000 < two_a2 * (y * 2 - 3)
                    < 0x1_0000_0000_0000_0000_0000_0000) by (nonlinear_arith)
                    requires
                        two_a2 == a * a * 2,
                        1 <= a <= 0x4000_0000,
                        1 <= y <= 0x4000_0000,
                ;
            }
            if s < 0 {
                s = s + two_b2 * (x * 2 + 3);
                t = t + four_b2 * (x + 1);
                x = x + 1;
            } else if t < 0 {
                s = s + two_b2 * (x * 2 + 3);
                s = s - four_a2 * (y - 1);
                t = t + four_b2 * (x + 1);
                t = t - two_a2 * (y * 2 - 3);
                x = x + 1;
                y = y - 1;
            } else {
                s = s - four_a2 * (y - 1);
                t = t - two_a2 * (y * 2 - 3);
                y = y - 1;
            }
            assert((x as int, y as int) == ellipse_next(aa, bb, x0, y0));
            self.plot_mirrors(buf, right - a, left + a, bottom - b, top + b, x, y, p);
            proof {
                let lvl0 = (aa - x0) + y0;
                let lvl1 = (aa - x) + y;
                assert forall|px: int, py: int|
                    ellipse_visits(aa, bb, x0, y0, px, py) == ((px == x0 && py == y0)
                        || ellipse_visits(aa, bb, x as int, y as int, px, py)) by {}
                assert forall|px: int, py: int| #[trigger]
                    ellipse_visits(aa, bb, 0, bb, px, py) == ((ellipse_visits(aa, bb, 0, bb, px, py)
                        && (aa - px) + py > lvl1) || ellipse_visits(
                        aa,
                        bb,
                        x as int,
                        y as int,
                        px,
                        py,
                    )) by {
                    assert(ellipse_visits(aa, bb, x0, y0, px, py) == ((px == x0 && py == y0)
                        || ellipse_visits(aa, bb, x as int, y as int, px, py)));
                }
                assert forall|lx: int, ly: int| #[trigger]
                    ellipse_done(r, lvl1)(lx, ly) == (ellipse_done(r, lvl0)(lx, ly) || mirror_shape(
                        cxr,
                        cxl,
                        cyb,
                        cyt,
                        x as int,
                        y as int,
                    )(lx, ly)) by {
                    if ellipse_done(r, lvl1)(lx, ly) {
                        let (px, py) = choose|px: int, py: int|
                            #[trigger] ellipse_visits(aa, bb, 0, bb, px, py) && (aa - px) + py
                                >= lvl1 && ellipse_mirrors(r, aa, bb, px, py, lx, ly);
                        if (aa - px) + py < lvl0 {
                            assert(ellipse_visits(aa, bb, x0, y0, px, py) == ((px == x0 && py
                                == y0) || ellipse_visits(aa, bb, x as int, y as int, px, py)));
                            lemma_ellipse_levels(aa, bb, x as int, y as int, px, py);
                        }
                    }
                    if mirror_shape(cxr, cxl, cyb, cyt, x as int, y as int)(lx, ly) {
                        assert(ellipse_visits(aa, bb, x as int, y as int, x as int, y as int));
                        assert(ellipse_visits(aa, bb, 0, bb, x as int, y as int));
                        assert(ellipse_mirrors(r, aa, bb, x as int, y as int, lx, ly));
                    }
                    if ellipse_done(r, lvl0)(lx, ly) {
                        let (px, py) = choose|px: int, py: int|
                            #[trigger] ellipse_visits(aa, bb, 0, bb, px, py) && (aa - px) + py
                                >= lvl0 && ellipse_mirrors(r, aa, bb, px, py, lx, ly);
                        assert(ellipse_visits(aa, bb, 0, bb, px, py) && (aa - px) + py >= lvl1);
                    }
                }
                lemma_paint_more(
                    g,
                    b0,
                    b1,
                    *buf,
                    ellipse_done(r, lvl0),
                    mirror_shape(cxr, cxl, cyb, cyt, x as int, y as int),
                    ellipse_done(r, lvl1),
                    *p,
                );
            }
            if y <= 0 {
                break ;
            }
        }
        proof {
            assert forall|lx: int, ly: int| #[trigger]
                ellipse_done(r, (aa - x) + y)(lx, ly) == ellipse_shape(r)(lx, ly) by {
                if ellipse_shape(r)(lx, ly) {
                    let (px, py) = choose|px: int, py: int|
                        #[trigger] ellipse_visits(aa, bb, 0, bb, px, py) && ellipse_mirrors(
                            r,
                            aa,
                            bb,
                            px,
                            py,
                            lx,
                            ly,
                        );
                    assert(ellipse_visits(aa, bb, x as int, y as int, px, py) ==> px == x && py
                        == y);
                }
            }
            lemma_paint_same(g, b0, *buf, ellipse_done(r, (aa - x) + y), ellipse_shape(r), *p);
        }
    }
}

/// A line from a point to itself is that single point.
pub proof fn lemma_line_single_point(q: Point, lx: int, ly: int)
    ensures
        line_shape(q, q)(lx, ly) == (lx == q.x && ly == q.y),
{
}

/// With no minor extent the minor coordinate never moves.
proof fn lemma_minor_offset_flat(major: int, k: int)
    requires
        0 <= k <= major,
    ensures
        minor_offset(major, 0, k) == 0,
{
    if major > 0 {
        lemma_fundamental_div_mod_converse(k * 0 - major / 2 + major - 1, major, 0, major - major / 2 - 1);
    }
}

/// With equal extents the minor coordinate moves with every step.
proof fn lemma_minor_offset_diagonal(d: int, k: int)
    requires
        0 <= k <= d,
    ensures
        minor_offset(d, d, k) == k,
{
    if d > 0 {
        assert(k * d - d / 2 + d - 1 == k * d + (d - d / 2 - 1));
        lemma_fundamental_div_mod_converse(k * d - d / 2 + d - 1, d, k, d - d / 2 - 1);
    }
}

/// The minor offsets of a line mirror each other: the offset `k` steps from
/// one end and the offset `major - k` steps from the other add up to `minor`.
pub open spec fn balanced(major: int, minor: int) -> bool {
    forall|k: int|
        0 <= k <= major ==> #[trigger] minor_offset(major, minor, k) + minor_offset(
            major,
            minor,
            major - k,
        ) == minor
}

/// The line from `p1` to `p2` has mirrored minor offsets.
pub open spec fn line_balanced(p1: Point, p2: Point) -> bool {
    let ax = abs(p2.x - p1.x);
    let ay = abs(p2.y - p1.y);
    if ax > ay {
        balanced(ax, ay)
    } else {
        balanced(ay, ax)
    }
}

/// A line with mirrored minor offsets covers the same points whichever end it
/// is drawn from. (Each major coordinate carries one point, so this is exactly
/// when both directions agree: the line from `(0, 0)` to `(2, 1)` is not
/// balanced, and its two directions differ at major coordinate 1.)
pub proof fn lemma_line_symmetric(p1: Point, p2: Point, lx: int, ly: int)
    requires
        line_balanced(p1, p2),
    ensures
        line_shape(p1, p2)(lx, ly) == line_shape(p2, p1)(lx, ly),
{
    let dx = p2.x - p1.x;
    let dy = p2.y - p1.y;
    if abs(dx) > abs(dy) {
        let k = if dx >= 0 { lx - p1.x } else { p1.x - lx };
        if 0 <= k <= abs(dx) {
            assert(minor_offset(abs(dx), abs(dy), k) + minor_offset(abs(dx), abs(dy), abs(dx) - k)
                == abs(dy));
        }
    } else {
        let k = if dy >= 0 { ly - p1.y } else { p1.y - ly };
        if 0 <= k <= abs(dy) {
            assert(minor_offset(abs(dy), abs(dx), k) + minor_offset(abs(dy), abs(dx), abs(dy) - k)
                == abs(dx));
        }
    }
}

/// Horizontal, vertical and diagonal lines are balanced, so each covers the
/// same points drawn from either end.
pub proof fn lemma_straight_lines_balanced(p1: Point, p2: Point)
    requires
        p1.x == p2.x || p1.y == p2.y || abs(p2.x - p1.x) == abs(p2.y - p1.y),
    ensures
        line_balanced(p1, p2),
{
    let ax = abs(p2.x - p1.x);
    let ay = abs(p2.y - p1.y);
    let (major, minor) = if ax > ay {
        (ax, ay)
    } else {
        (ay, ax)
    };
    assert forall|k: int| 0 <= k <= major implies #[trigger] minor_offset(major, minor, k)
        + minor_offset(major, minor, major - k) == minor by {
        if minor == 0 {
            lemma_minor_offset_flat(major, k);
            lemma_minor_offset_flat(major, major - k);
        } else {
            lemma_minor_offset_diagonal(major, k);
            lemma_minor_offset_diagonal(major, major - k);
        }
    }
}

/// An ellipse in a rectangle with no width or no height draws nothing: every
/// pixel keeps its value.
pub proof fn lemma_ellipse_degenerate<P, B: Buff<P>>(g: Rect, before: B, after: B, r: Rect, p: P)
    requires
        r.w == 0 || r.h == 0,
        painted(g, before, after, ellipse_shape(r), p),
    ensures
        forall|i: int, j: int|
            in_bounds::<P, B>(before, i, j) ==> #[trigger] after.pixel(i, j) == before.pixel(i, j),
{
}

} // verus!
