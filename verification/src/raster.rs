//! The rasterizer: bounding-box scanline fill, Bresenham line drawing, and
//! whole-triangle rendering.
//!
//! Every drawing pass is specified as painting a set of integer pixel
//! coordinates with one color: a pixel of the buffer changes exactly when
//! some in-bounds painted coordinate addresses it, and it then holds the
//! pass's color. The painted sets depend only on the drawing arguments,
//! never on the buffer contents, which is what makes rendering idempotent.

use vstd::math::*;
use vstd::prelude::*;

use crate::framebuffer::lemma_row_major_index_in_range;
use crate::framebuffer::Framebuffer;
use crate::geometry::edge_function;
use crate::geometry::inside_sp;
use crate::geometry::point_ok;
use crate::geometry::Point;
use crate::geometry::Triangle;

verus! {

/// Some coordinate in `pts` is in bounds for a `w x h` buffer and addresses
/// linear index `k`.
pub open spec fn covered(pts: Set<(int, int)>, w: int, h: int, k: int) -> bool {
    exists|p: (int, int)|
        #[trigger] pts.contains(p) && 0 <= p.0 < w && 0 <= p.1 < h && w * p.1 + p.0 == k
}

/// The buffer `buf` of a `w x h` framebuffer after painting every in-bounds
/// coordinate of `pts` with color `c`; all other pixels keep their value.
pub open spec fn paint(buf: Seq<u32>, pts: Set<(int, int)>, w: int, h: int, c: u32) -> Seq<u32> {
    Seq::new(buf.len(), |k: int| if covered(pts, w, h, k) { c } else { buf[k] })
}

/// Painting no coordinates leaves the buffer unchanged.
pub proof fn lemma_paint_empty(buf: Seq<u32>, w: int, h: int, c: u32)
    ensures
        paint(buf, Set::empty(), w, h, c) == buf,
{
    assert(paint(buf, Set::empty(), w, h, c) =~= buf);
}

/// Painting sets whose members agree pointwise paints the same buffer.
pub proof fn lemma_paint_congruence(
    buf: Seq<u32>,
    pts1: Set<(int, int)>,
    pts2: Set<(int, int)>,
    w: int,
    h: int,
    c: u32,
)
    requires
        pts1 =~= pts2,
    ensures
        paint(buf, pts1, w, h, c) == paint(buf, pts2, w, h, c),
{
    assert(paint(buf, pts1, w, h, c) =~= paint(buf, pts2, w, h, c));
}

/// Painting one more coordinate: an in-bounds coordinate updates the pixel
/// it addresses, an out-of-bounds one changes nothing.
pub proof fn lemma_paint_insert(
    buf: Seq<u32>,
    pts: Set<(int, int)>,
    w: int,
    h: int,
    c: u32,
    p: (int, int),
)
    requires
        buf.len() == w * h,
    ensures
        0 <= p.0 < w && 0 <= p.1 < h ==> paint(buf, pts.insert(p), w, h, c) == paint(
            buf,
            pts,
            w,
            h,
            c,
        ).update(w * p.1 + p.0, c),
        !(0 <= p.0 < w && 0 <= p.1 < h) ==> paint(buf, pts.insert(p), w, h, c) == paint(
            buf,
            pts,
            w,
            h,
            c,
        ),
{
    if 0 <= p.0 < w && 0 <= p.1 < h {
        lemma_row_major_index_in_range(w, h, p.0, p.1);
        let i = w * p.1 + p.0;
        let lhs = paint(buf, pts.insert(p), w, h, c);
        let rhs = paint(buf, pts, w, h, c).update(i, c);
        assert forall|k: int| 0 <= k < buf.len() implies lhs[k] == rhs[k] by {
            if k == i {
                assert(pts.insert(p).contains(p));
                assert(covered(pts.insert(p), w, h, k));
            } else {
                if covered(pts.insert(p), w, h, k) {
                    let q = choose|q: (int, int)|
                        #[trigger] pts.insert(p).contains(q) && 0 <= q.0 < w && 0 <= q.1 < h && w
                            * q.1 + q.0 == k;
                    assert(q != p);
                    assert(pts.contains(q));
                    assert(covered(pts, w, h, k));
                }
                if covered(pts, w, h, k) {
                    let q = choose|q: (int, int)|
                        #[trigger] pts.contains(q) && 0 <= q.0 < w && 0 <= q.1 < h && w * q.1 + q.0
                            == k;
                    assert(pts.insert(p).contains(q));
                    assert(covered(pts.insert(p), w, h, k));
                }
            }
        }
        assert(lhs =~= rhs);
    } else {
        let lhs = paint(buf, pts.insert(p), w, h, c);
        let rhs = paint(buf, pts, w, h, c);
        assert forall|k: int| 0 <= k < buf.len() implies lhs[k] == rhs[k] by {
            if covered(pts.insert(p), w, h, k) {
                let q = choose|q: (int, int)|
                    #[trigger] pts.insert(p).contains(q) && 0 <= q.0 < w && 0 <= q.1 < h && w * q.1
                        + q.0 == k;
                assert(q != p);
                assert(pts.contains(q));
                assert(covered(pts, w, h, k));
            }
            if covered(pts, w, h, k) {
                let q = choose|q: (int, int)|
                    #[trigger] pts.contains(q) && 0 <= q.0 < w && 0 <= q.1 < h && w * q.1 + q.0
                        == k;
                assert(pts.insert(p).contains(q));
            }
        }
        assert(lhs =~= rhs);
    }
}

/// Two same-color paint passes merge into one pass over the union of their
/// coordinate sets.
pub proof fn lemma_paint_union(
    buf: Seq<u32>,
    pts1: Set<(int, int)>,
    pts2: Set<(int, int)>,
    w: int,
    h: int,
    c: u32,
)
    ensures
        paint(paint(buf, pts1, w, h, c), pts2, w, h, c) == paint(buf, pts1.union(pts2), w, h, c),
{
    let inner = paint(buf, pts1, w, h, c);
    let lhs = paint(inner, pts2, w, h, c);
    let rhs = paint(buf, pts1.union(pts2), w, h, c);
    assert forall|k: int| 0 <= k < buf.len() implies lhs[k] == rhs[k] by {
        if covered(pts2, w, h, k) {
            let q = choose|q: (int, int)|
                #[trigger] pts2.contains(q) && 0 <= q.0 < w && 0 <= q.1 < h && w * q.1 + q.0 == k;
            assert(pts1.union(pts2).contains(q));
            assert(covered(pts1.union(pts2), w, h, k));
        } else if covered(pts1, w, h, k) {
            let q = choose|q: (int, int)|
                #[trigger] pts1.contains(q) && 0 <= q.0 < w && 0 <= q.1 < h && w * q.1 + q.0 == k;
            assert(pts1.union(pts2).contains(q));
            assert(covered(pts1.union(pts2), w, h, k));
        } else {
            if covered(pts1.union(pts2), w, h, k) {
                let q = choose|q: (int, int)|
                    #[trigger] pts1.union(pts2).contains(q) && 0 <= q.0 < w && 0 <= q.1 < h && w
                        * q.1 + q.0 == k;
                assert(pts1.contains(q) || pts2.contains(q));
                assert(covered(pts1, w, h, k) || covered(pts2, w, h, k));
            }
        }
    }
    assert(lhs =~= rhs);
}

/// The edge test of triangle edge `a -> b` against the integer coordinate
/// `(x, y)`.
pub open spec fn edge_at(a: Point, b: Point, x: int, y: int) -> bool {
    (x - a.x) * (b.y - a.y) - (y - a.y) * (b.x - a.x) >= 0
}

/// The point-in-triangle test at an integer coordinate: all three edge
/// tests pass.
pub open spec fn inside_at(t: Triangle, x: int, y: int) -> bool {
    &&& edge_at(t.v0, t.v1, x, y)
    &&& edge_at(t.v1, t.v2, x, y)
    &&& edge_at(t.v2, t.v0, x, y)
}

/// The fill pass's integer-coordinate inside test agrees with the
/// point-in-triangle test on points, so the winding and vertex lemmas of
/// the geometry module speak about exactly the test the fill applies.
pub proof fn lemma_inside_at_agrees(t: Triangle, p: Point)
    ensures
        inside_at(t, p.x as int, p.y as int) == inside_sp(t, p),
{
}

/// Leftmost vertex coordinate of `t`.
pub open spec fn box_x_min(t: Triangle) -> int {
    min(min(t.v0.x as int, t.v1.x as int), t.v2.x as int)
}

/// Rightmost vertex coordinate of `t`.
pub open spec fn box_x_max(t: Triangle) -> int {
    max(max(t.v0.x as int, t.v1.x as int), t.v2.x as int)
}

/// Topmost vertex coordinate of `t`.
pub open spec fn box_y_min(t: Triangle) -> int {
    min(min(t.v0.y as int, t.v1.y as int), t.v2.y as int)
}

/// Bottommost vertex coordinate of `t`.
pub open spec fn box_y_max(t: Triangle) -> int {
    max(max(t.v0.y as int, t.v1.y as int), t.v2.y as int)
}

/// The coordinates the fill pass scans: the triangle's bounding box, with
/// the maximum row and column excluded (the half-open `min..max`
/// convention of the scan loops).
pub open spec fn in_scan_box(t: Triangle, x: int, y: int) -> bool {
    box_x_min(t) <= x < box_x_max(t) && box_y_min(t) <= y < box_y_max(t)
}

/// The coordinates the fill pass paints: scanned coordinates that pass all
/// three edge tests.
pub open spec fn fill_points(t: Triangle) -> Set<(int, int)> {
    Set::new(|p: (int, int)| in_scan_box(t, p.0, p.1) && inside_at(t, p.0, p.1))
}

/// Fill monotonicity: every coordinate the fill pass paints lies within the
/// triangle's bounding box.
pub proof fn lemma_fill_within_bbox(t: Triangle, x: int, y: int)
    ensures
        fill_points(t).contains((x, y)) ==> in_scan_box(t, x, y),
{
}

/// The coordinates Bresenham's algorithm visits from `(x0, y0)` until it
/// reaches `(x1, y1)`, with step directions `(sx, sy)`, the fixed deltas
/// `(dx, dy)` and the current error term `err`; `fuel` bounds the
/// recursion and is never exhausted on the states the algorithm actually
/// reaches.
pub open spec fn bres_points(
    x0: int,
    y0: int,
    x1: int,
    y1: int,
    sx: int,
    sy: int,
    dx: int,
    dy: int,
    err: int,
    fuel: nat,
) -> Set<(int, int)>
    decreases fuel,
{
    if fuel == 0 {
        Set::empty()
    } else if x0 == x1 && y0 == y1 {
        Set::empty().insert((x0, y0))
    } else {
        let xstep = 2 * err >= dy;
        let ystep = 2 * err <= dx;
        let nx = if xstep {
            x0 + sx
        } else {
            x0
        };
        let ny = if ystep {
            y0 + sy
        } else {
            y0
        };
        let nerr = err + (if xstep {
            dy
        } else {
            0
        }) + (if ystep {
            dx
        } else {
            0
        });
        bres_points(nx, ny, x1, y1, sx, sy, dx, dy, nerr, (fuel - 1) as nat).insert((x0, y0))
    }
}

/// The 8-connected discrete path Bresenham's algorithm draws from `p0` to
/// `p1`, both endpoints included.
pub open spec fn line_points(p0: Point, p1: Point) -> Set<(int, int)> {
    let dx = abs(p1.x - p0.x) as int;
    let dy = -(abs(p1.y - p0.y) as int);
    let sx: int = if p0.x < p1.x {
        1
    } else {
        -1
    };
    let sy: int = if p0.y < p1.y {
        1
    } else {
        -1
    };
    bres_points(
        p0.x as int,
        p0.y as int,
        p1.x as int,
        p1.y as int,
        sx,
        sy,
        dx,
        dy,
        dx + dy,
        (dx - dy + 1) as nat,
    )
}

/// Every coordinate one triangle's drawing pass paints: the three edge
/// lines and the interior fill.
pub open spec fn tri_points(t: Triangle) -> Set<(int, int)> {
    line_points(t.v0, t.v1).union(line_points(t.v1, t.v2)).union(line_points(t.v2, t.v0)).union(
        fill_points(t),
    )
}

/// The buffer after one triangle is drawn: its outline and fill
/// coordinates painted with its color.
pub open spec fn spec_draw_triangle(buf: Seq<u32>, t: Triangle, w: int, h: int) -> Seq<u32> {
    paint(buf, tri_points(t), w, h, t.c)
}

/// The buffer after the triangles of `ts` are drawn in input order; a
/// pixel touched by several triangles ends with the last one's color.
pub open spec fn spec_render(buf: Seq<u32>, ts: Seq<Triangle>, w: int, h: int) -> Seq<u32>
    decreases ts.len(),
{
    if ts.len() == 0 {
        buf
    } else {
        spec_render(spec_draw_triangle(buf, ts[0], w, h), ts.skip(1), w, h)
    }
}

/// Some triangle of `ts` paints the pixel at linear index `k`.
pub open spec fn hit(ts: Seq<Triangle>, w: int, h: int, k: int) -> bool {
    exists|n: int| 0 <= n < ts.len() && #[trigger] covered(tri_points(ts[n]), w, h, k)
}

/// The color of the last triangle of `ts` that paints the pixel at linear
/// index `k`; meaningful only when some triangle does.
pub open spec fn last_color(ts: Seq<Triangle>, w: int, h: int, k: int) -> u32
    decreases ts.len(),
{
    if ts.len() == 0 {
        0u32
    } else if hit(ts.skip(1), w, h, k) {
        last_color(ts.skip(1), w, h, k)
    } else {
        ts[0].c
    }
}

/// Pointwise characterization of rendering: a pixel painted by some
/// triangle ends with the last such triangle's color, and every other
/// pixel keeps its input value. In particular the result does not depend
/// on the input buffer at painted pixels.
pub proof fn lemma_render_pointwise(buf: Seq<u32>, ts: Seq<Triangle>, w: int, h: int)
    ensures
        spec_render(buf, ts, w, h).len() == buf.len(),
        forall|k: int|
            0 <= k < buf.len() ==> spec_render(buf, ts, w, h)[k] == (if hit(ts, w, h, k) {
                last_color(ts, w, h, k)
            } else {
                buf[k]
            }),
    decreases ts.len(),
{
    if ts.len() == 0 {
        assert(forall|k: int| 0 <= k < buf.len() ==> !hit(ts, w, h, k));
    } else {
        let b1 = spec_draw_triangle(buf, ts[0], w, h);
        let rest = ts.skip(1);
        lemma_render_pointwise(b1, rest, w, h);
        assert forall|k: int| 0 <= k < buf.len() implies spec_render(buf, ts, w, h)[k] == (if hit(
            ts,
            w,
            h,
            k,
        ) {
            last_color(ts, w, h, k)
        } else {
            buf[k]
        }) by {
            if hit(rest, w, h, k) {
                let n = choose|n: int|
                    0 <= n < rest.len() && #[trigger] covered(tri_points(rest[n]), w, h, k);
                assert(rest[n] == ts[n + 1]);
                assert(covered(tri_points(ts[n + 1]), w, h, k));
                assert(hit(ts, w, h, k));
            } else if covered(tri_points(ts[0]), w, h, k) {
                assert(hit(ts, w, h, k));
            } else {
                if hit(ts, w, h, k) {
                    let n = choose|n: int|
                        0 <= n < ts.len() && #[trigger] covered(tri_points(ts[n]), w, h, k);
                    if n > 0 {
                        assert(rest[n - 1] == ts[n]);
                        assert(covered(tri_points(rest[n - 1]), w, h, k));
                        assert(hit(rest, w, h, k));
                    }
                    assert(false);
                }
            }
        }
    }
}

/// Idempotence of rendering: drawing the same triangle list again over an
/// already rendered buffer reproduces the same buffer, because what each
/// pass writes does not depend on what the buffer held.
pub proof fn lemma_render_idempotent(buf: Seq<u32>, ts: Seq<Triangle>, w: int, h: int)
    ensures
        spec_render(spec_render(buf, ts, w, h), ts, w, h) == spec_render(buf, ts, w, h),
{
    let r1 = spec_render(buf, ts, w, h);
    lemma_render_pointwise(buf, ts, w, h);
    lemma_render_pointwise(r1, ts, w, h);
    assert(spec_render(r1, ts, w, h) =~= r1);
}

/// The fill coordinates on rows above `y`.
spec fn fill_rows_below(t: Triangle, y: int) -> Set<(int, int)> {
    Set::new(|p: (int, int)| fill_points(t).contains(p) && p.1 < y)
}

/// The fill coordinates scanned before reaching column `x` of row `y`.
spec fn fill_upto(t: Triangle, y: int, x: int) -> Set<(int, int)> {
    Set::new(
        |p: (int, int)| fill_points(t).contains(p) && (p.1 < y || (p.1 == y && p.0 < x)),
    )
}

/// Multiplying by a sign of `1` or `-1` keeps or negates the value.
proof fn lemma_sign_mul(s: int, v: int)
    requires
        s == 1 || s == -1,
    ensures
        s == 1 ==> s * v == v,
        s == -1 ==> s * v == -v,
{
    assert(1 * v == v) by (nonlinear_arith);
    assert((-1) * v == -v) by (nonlinear_arith);
}

/// The smaller of two coordinates.
fn min_i64(a: i64, b: i64) -> (r: i64)
    ensures
        r == min(a as int, b as int),
{
    if a < b {
        a
    } else {
        b
    }
}

/// The larger of two coordinates.
fn max_i64(a: i64, b: i64) -> (r: i64)
    ensures
        r == max(a as int, b as int),
{
    if a > b {
        a
    } else {
        b
    }
}

impl Framebuffer {
    /// Draws a 1-pixel-wide line segment from `p0` to `p1` with Bresenham's
    /// integer algorithm, painting every visited coordinate with `c`. Both
    /// endpoints are always visited; out-of-bounds coordinates are skipped.
    pub fn draw_line(&mut self, p0: &Point, p1: &Point, c: u32)
        requires
            old(self).wf(),
            point_ok(*p0),
            point_ok(*p1),
        ensures
            final(self).wf(),
            old(self).same_shape(*final(self)),
            final(self).data@ == paint(
                old(self).data@,
                line_points(*p0, *p1),
                old(self).width as int,
                old(self).height as int,
                c,
            ),
            line_points(*p0, *p1).contains((p0.x as int, p0.y as int)),
            line_points(*p0, *p1).contains((p1.x as int, p1.y as int)),
            old(self).in_bounds(*p0) ==> final(self).data@[old(self).index_of(*p0)] == c,
            old(self).in_bounds(*p1) ==> final(self).data@[old(self).index_of(*p1)] == c,
    {
        let ghost w = self.width;
        let ghost h = self.height;
        let ghost buf0 = self.data@;
        let mut x0 = p0.x;
        let mut y0 = p0.y;
        let x1 = p1.x;
        let y1 = p1.y;
        let dx = if x1 > x0 {
            x1 - x0
        } else {
            x0 - x1
        };
        let dy = -(if y1 > y0 {
            y1 - y0
        } else {
            y0 - y1
        });
        let sx: i64 = if x0 < x1 {
            1
        } else {
            -1
        };
        let sy: i64 = if y0 < y1 {
            1
        } else {
            -1
        };
        let mut err = dx + dy;
        let ghost d = dx as int;
        let ghost e = -(dy as int);
        let ghost mut i: int = 0;
        let ghost mut j: int = 0;
        let ghost mut fuel: nat = (d + e + 1) as nat;
        let ghost mut done: Set<(int, int)> = Set::empty();
        proof {
            lemma_paint_empty(buf0, w as int, h as int, c);
            assert(line_points(*p0, *p1) == bres_points(
                p0.x as int,
                p0.y as int,
                p1.x as int,
                p1.y as int,
                sx as int,
                sy as int,
                d,
                -e,
                err as int,
                fuel,
            ));
            assert(Set::empty().union(
                bres_points(
                    p0.x as int,
                    p0.y as int,
                    p1.x as int,
                    p1.y as int,
                    sx as int,
                    sy as int,
                    d,
                    -e,
                    err as int,
                    fuel,
                ),
            ) =~= bres_points(
                p0.x as int,
                p0.y as int,
                p1.x as int,
                p1.y as int,
                sx as int,
                sy as int,
                d,
                -e,
                err as int,
                fuel,
            ));
        }
        loop
            invariant
                self.wf(),
                self.width == w,
                self.height == h,
                buf0.len() == w * h,
                point_ok(*p0),
                point_ok(*p1),
                point_ok(Point { x: x0, y: y0 }),
                x1 == p1.x,
                y1 == p1.y,
                d == abs(p1.x - p0.x),
                e == abs(p1.y - p0.y),
                dx == d,
                dy == -e,
                sx == (if p0.x < p1.x {
                    1int
                } else {
                    -1int
                }),
                sy == (if p0.y < p1.y {
                    1int
                } else {
                    -1int
                }),
                0 <= i <= d,
                0 <= j <= e,
                x0 == p0.x + sx * i,
                y0 == p0.y + sy * j,
                err == d - e + j * d - i * e,
                fuel >= (d - i) + (e - j) + 1,
                line_points(*p0, *p1) == done.union(
                    bres_points(
                        x0 as int,
                        y0 as int,
                        x1 as int,
                        y1 as int,
                        sx as int,
                        sy as int,
                        d,
                        -e,
                        err as int,
                        fuel,
                    ),
                ),
                self.data@ == paint(buf0, done, w as int, h as int, c),
                done.contains((p0.x as int, p0.y as int)) || (x0 == p0.x && y0 == p0.y && done
                    == Set::<(int, int)>::empty()),
            ensures
                self.wf(),
                self.width == w,
                self.height == h,
                self.data@ == paint(buf0, line_points(*p0, *p1), w as int, h as int, c),
                line_points(*p0, *p1).contains((p0.x as int, p0.y as int)),
                line_points(*p0, *p1).contains((p1.x as int, p1.y as int)),
            decreases fuel,
        {
            let p = Point { x: x0, y: y0 };
            let ghost done_pre = done;
            self.set_point(&p, c);
            proof {
                done = done.insert((x0 as int, y0 as int));
                lemma_paint_insert(buf0, done_pre, w as int, h as int, c, (x0 as int, y0 as int));
                assert(self.data@ == paint(buf0, done, w as int, h as int, c));
            }
            if x0 == x1 && y0 == y1 {
                proof {
                    assert(bres_points(
                        x0 as int,
                        y0 as int,
                        x1 as int,
                        y1 as int,
                        sx as int,
                        sy as int,
                        d,
                        -e,
                        err as int,
                        fuel,
                    ) == Set::empty().insert((x0 as int, y0 as int)));
                    assert(line_points(*p0, *p1) =~= done);
                    lemma_paint_congruence(
                        buf0,
                        done,
                        line_points(*p0, *p1),
                        w as int,
                        h as int,
                        c,
                    );
                    assert(done.contains((p0.x as int, p0.y as int)));
                    assert(done.contains((p1.x as int, p1.y as int)));
                }
                break ;
            }
            proof {
                assert(0 <= j * d <= e * d && 0 <= i * e <= d * e && e * d <= 0x40000000000 && d
                    * e <= 0x40000000000) by (nonlinear_arith)
                    requires
                        0 <= i <= d,
                        0 <= j <= e,
                        d <= 0x200000,
                        e <= 0x200000,
                ;
            }
            let e2 = 2 * err;
            let ghost x0_pre = x0 as int;
            let ghost y0_pre = y0 as int;
            let ghost err_pre = err as int;
            let ghost i_pre = i;
            let ghost j_pre = j;
            let ghost fuel_pre = fuel;
            let ghost done_mid = done;
            proof {
                lemma_sign_mul(sx as int, i);
                lemma_sign_mul(sy as int, j);
                assert(i == d ==> x0 == x1);
                assert(j == e ==> y0 == y1);
                // The two step tests cannot both fail: that would need
                // dx < 2 * err < dy while dy <= 0 <= dx.
                assert(2 * err_pre >= -e || 2 * err_pre <= d);
                // No overshoot past the target column: once x0 == x1 with
                // rows left, the error term keeps the x test false.
                if i == d && !(y0 == y1) {
                    assert(j < e);
                    assert(2 * err_pre < -e) by (nonlinear_arith)
                        requires
                            err_pre == d - e + j * d - d * e,
                            0 <= j < e,
                            d >= 0,
                    ;
                }
                // And past the target row likewise.
                if j == e && !(x0 == x1) {
                    assert(i < d);
                    assert(2 * err_pre > d) by (nonlinear_arith)
                        requires
                            err_pre == d - e + e * d - i * e,
                            0 <= i < d,
                            e >= 0,
                    ;
                }
            }
            if e2 >= dy {
                err = err + dy;
                x0 = x0 + sx;
                proof {
                    i = i + 1;
                    assert((i_pre + 1) * e == i_pre * e + e) by (nonlinear_arith);
                }
            }
            if e2 <= dx {
                err = err + dx;
                y0 = y0 + sy;
                proof {
                    j = j + 1;
                    assert((j_pre + 1) * d == j_pre * d + d) by (nonlinear_arith);
                }
            }
            proof {
                fuel = (fuel - 1) as nat;
                lemma_sign_mul(sx as int, i);
                lemma_sign_mul(sy as int, j);
                lemma_sign_mul(sx as int, i_pre);
                lemma_sign_mul(sy as int, j_pre);
                assert(bres_points(
                    x0_pre,
                    y0_pre,
                    x1 as int,
                    y1 as int,
                    sx as int,
                    sy as int,
                    d,
                    -e,
                    err_pre,
                    fuel_pre,
                ) == bres_points(
                    x0 as int,
                    y0 as int,
                    x1 as int,
                    y1 as int,
                    sx as int,
                    sy as int,
                    d,
                    -e,
                    err as int,
                    fuel,
                ).insert((x0_pre, y0_pre)));
                assert(done_pre.union(
                    bres_points(
                        x0_pre,
                        y0_pre,
                        x1 as int,
                        y1 as int,
                        sx as int,
                        sy as int,
                        d,
                        -e,
                        err_pre,
                        fuel_pre,
                    ),
                ) =~= done.union(
                    bres_points(
                        x0 as int,
                        y0 as int,
                        x1 as int,
                        y1 as int,
                        sx as int,
                        sy as int,
                        d,
                        -e,
                        err as int,
                        fuel,
                    ),
                ));
            }
        }
        proof {
            if old(self).in_bounds(*p0) {
                lemma_row_major_index_in_range(w as int, h as int, p0.x as int, p0.y as int);
                assert(covered(line_points(*p0, *p1), w as int, h as int, w * p0.y + p0.x));
            }
            if old(self).in_bounds(*p1) {
                lemma_row_major_index_in_range(w as int, h as int, p1.x as int, p1.y as int);
                assert(covered(line_points(*p0, *p1), w as int, h as int, w * p1.y + p1.x));
            }
        }
    }

    /// The bounding-box scanline fill: scans the triangle's bounding box
    /// (half-open, so the maximum row and column are not visited), tests
    /// each coordinate against all three edges, and paints the accepted
    /// coordinates with the triangle's color. Out-of-bounds coordinates
    /// are skipped.
    pub fn fill_triangle(&mut self, t: &Triangle)
        requires
            old(self).wf(),
            t.wf(),
        ensures
            final(self).wf(),
            old(self).same_shape(*final(self)),
            final(self).data@ == paint(
                old(self).data@,
                fill_points(*t),
                old(self).width as int,
                old(self).height as int,
                t.c,
            ),
    {
        let ghost w = self.width;
        let ghost h = self.height;
        let ghost buf0 = self.data@;
        let x_min = min_i64(min_i64(t.v0.x, t.v1.x), t.v2.x);
        let x_max = max_i64(max_i64(t.v0.x, t.v1.x), t.v2.x);
        let y_min = min_i64(min_i64(t.v0.y, t.v1.y), t.v2.y);
        let y_max = max_i64(max_i64(t.v0.y, t.v1.y), t.v2.y);
        proof {
            lemma_paint_empty(buf0, w as int, h as int, t.c);
            assert(fill_rows_below(*t, y_min as int) =~= Set::<(int, int)>::empty());
        }
        let mut y = y_min;
        while y < y_max
            invariant
                self.wf(),
                self.width == w,
                self.height == h,
                t.wf(),
                buf0.len() == w * h,
                x_min == box_x_min(*t),
                x_max == box_x_max(*t),
                y_min == box_y_min(*t),
                y_max == box_y_max(*t),
                y_min <= y <= y_max,
                self.data@ == paint(buf0, fill_rows_below(*t, y as int), w as int, h as int, t.c),
            decreases y_max - y,
        {
            let mut x = x_min;
            proof {
                assert(fill_upto(*t, y as int, x_min as int) =~= fill_rows_below(*t, y as int));
            }
            while x < x_max
                invariant
                    self.wf(),
                    self.width == w,
                    self.height == h,
                    t.wf(),
                    buf0.len() == w * h,
                    x_min == box_x_min(*t),
                    x_max == box_x_max(*t),
                    y_min == box_y_min(*t),
                    y_max == box_y_max(*t),
                    y_min <= y < y_max,
                    x_min <= x <= x_max,
                    self.data@ == paint(
                        buf0,
                        fill_upto(*t, y as int, x as int),
                        w as int,
                        h as int,
                        t.c,
                    ),
                decreases x_max - x,
            {
                let p = Point { x, y };
                let mut inside = true;
                inside = inside && edge_function(&t.v0, &t.v1, &p);
                inside = inside && edge_function(&t.v1, &t.v2, &p);
                inside = inside && edge_function(&t.v2, &t.v0, &p);
                proof {
                    assert(inside == inside_at(*t, x as int, y as int));
                }
                if inside {
                    self.set_point(&p, t.c);
                    proof {
                        assert(fill_points(*t).contains((x as int, y as int)));
                        lemma_paint_insert(
                            buf0,
                            fill_upto(*t, y as int, x as int),
                            w as int,
                            h as int,
                            t.c,
                            (x as int, y as int),
                        );
                        assert(fill_upto(*t, y as int, x as int).insert((x as int, y as int))
                            =~= fill_upto(*t, y as int, x as int + 1));
                        lemma_paint_congruence(
                            buf0,
                            fill_upto(*t, y as int, x as int).insert((x as int, y as int)),
                            fill_upto(*t, y as int, x as int + 1),
                            w as int,
                            h as int,
                            t.c,
                        );
                    }
                } else {
                    proof {
                        assert(!fill_points(*t).contains((x as int, y as int)));
                        assert(fill_upto(*t, y as int, x as int) =~= fill_upto(
                            *t,
                            y as int,
                            x as int + 1,
                        ));
                        lemma_paint_congruence(
                            buf0,
                            fill_upto(*t, y as int, x as int),
                            fill_upto(*t, y as int, x as int + 1),
                            w as int,
                            h as int,
                            t.c,
                        );
                    }
                }
                x = x + 1;
            }
            proof {
                assert(fill_upto(*t, y as int, x_max as int) =~= fill_rows_below(
                    *t,
                    y as int + 1,
                ));
                lemma_paint_congruence(
                    buf0,
                    fill_upto(*t, y as int, x_max as int),
                    fill_rows_below(*t, y as int + 1),
                    w as int,
                    h as int,
                    t.c,
                );
            }
            y = y + 1;
        }
        proof {
            assert(fill_rows_below(*t, y_max as int) =~= fill_points(*t));
            lemma_paint_congruence(
                buf0,
                fill_rows_below(*t, y_max as int),
                fill_points(*t),
                w as int,
                h as int,
                t.c,
            );
        }
    }

    /// Draws one triangle: its three outline edges with Bresenham lines,
    /// then the bounding-box fill, all in the triangle's color. Every
    /// in-bounds vertex pixel ends painted.
    pub fn draw_triangle(&mut self, t: &Triangle)
        requires
            old(self).wf(),
            t.wf(),
        ensures
            final(self).wf(),
            old(self).same_shape(*final(self)),
            final(self).data@ == spec_draw_triangle(
                old(self).data@,
                *t,
                old(self).width as int,
                old(self).height as int,
            ),
            old(self).in_bounds(t.v0) ==> final(self).data@[old(self).index_of(t.v0)] == t.c,
            old(self).in_bounds(t.v1) ==> final(self).data@[old(self).index_of(t.v1)] == t.c,
            old(self).in_bounds(t.v2) ==> final(self).data@[old(self).index_of(t.v2)] == t.c,
    {
        let ghost w = self.width as int;
        let ghost h = self.height as int;
        let ghost buf0 = self.data@;
        let ghost l01 = line_points(t.v0, t.v1);
        let ghost l12 = line_points(t.v1, t.v2);
        let ghost l20 = line_points(t.v2, t.v0);
        self.draw_line(&t.v0, &t.v1, t.c);
        self.draw_line(&t.v1, &t.v2, t.c);
        self.draw_line(&t.v2, &t.v0, t.c);
        self.fill_triangle(t);
        proof {
            lemma_paint_union(buf0, l01, l12, w, h, t.c);
            lemma_paint_union(buf0, l01.union(l12), l20, w, h, t.c);
            lemma_paint_union(buf0, l01.union(l12).union(l20), fill_points(*t), w, h, t.c);
            assert(tri_points(*t).contains((t.v0.x as int, t.v0.y as int)));
            assert(tri_points(*t).contains((t.v1.x as int, t.v1.y as int)));
            assert(tri_points(*t).contains((t.v2.x as int, t.v2.y as int)));
            if old(self).in_bounds(t.v0) {
                lemma_row_major_index_in_range(w, h, t.v0.x as int, t.v0.y as int);
                assert(covered(tri_points(*t), w, h, w * t.v0.y + t.v0.x));
            }
            if old(self).in_bounds(t.v1) {
                lemma_row_major_index_in_range(w, h, t.v1.x as int, t.v1.y as int);
                assert(covered(tri_points(*t), w, h, w * t.v1.y + t.v1.x));
            }
            if old(self).in_bounds(t.v2) {
                lemma_row_major_index_in_range(w, h, t.v2.x as int, t.v2.y as int);
                assert(covered(tri_points(*t), w, h, w * t.v2.y + t.v2.x));
            }
        }
    }

    /// Renders a triangle list in input order. Later triangles simply
    /// overwrite the pixels of earlier ones: last write wins.
    pub fn render(&mut self, ts: &Vec<Triangle>)
        requires
            old(self).wf(),
            forall|n: int| 0 <= n < ts@.len() ==> (#[trigger] ts@[n]).wf(),
        ensures
            final(self).wf(),
            old(self).same_shape(*final(self)),
            final(self).data@ == spec_render(
                old(self).data@,
                ts@,
                old(self).width as int,
                old(self).height as int,
            ),
    {
        let ghost w = self.width;
        let ghost h = self.height;
        let ghost buf0 = self.data@;
        let mut n: usize = 0;
        proof {
            assert(ts@.skip(0) =~= ts@);
        }
        while n < ts.len()
            invariant
                self.wf(),
                self.width == w,
                self.height == h,
                forall|m: int| 0 <= m < ts@.len() ==> (#[trigger] ts@[m]).wf(),
                0 <= n <= ts@.len(),
                spec_render(buf0, ts@, w as int, h as int) == spec_render(
                    self.data@,
                    ts@.skip(n as int),
                    w as int,
                    h as int,
                ),
            decreases ts@.len() - n,
        {
            let ghost pre = self.data@;
            self.draw_triangle(&ts[n]);
            proof {
                assert(ts@.skip(n as int)[0] == ts@[n as int]);
                assert(ts@.skip(n as int).skip(1) =~= ts@.skip(n as int + 1));
                assert(spec_render(pre, ts@.skip(n as int), w as int, h as int) == spec_render(
                    spec_draw_triangle(pre, ts@[n as int], w as int, h as int),
                    ts@.skip(n as int + 1),
                    w as int,
                    h as int,
                ));
            }
            n = n + 1;
        }
        proof {
            assert(ts@.skip(ts@.len() as int) =~= Seq::<Triangle>::empty());
        }
    }
}

} // verus!
