//! Points, triangles, the signed-area edge function, and winding
//! normalization.

use vstd::prelude::*;

verus! {

/// Largest coordinate magnitude the rasterizer accepts. Keeping every
/// coordinate within this range bounds the intermediate products of the
/// edge function and of Bresenham's error term well inside `i64`, so all
/// drawing arithmetic is free of overflow.
pub const COORD_LIMIT: i64 = 0x100000;

/// A 2D point with integer screen coordinates. Coordinates may be negative
/// or lie outside any particular buffer; bounds are only enforced at pixel
/// write time.
#[derive(Clone, Copy, PartialEq, Eq, Structural, Debug)]
pub struct Point {
    pub x: i64,
    pub y: i64,
}

/// A coordinate the rasterizer can do arithmetic on without overflow.
pub open spec fn coord_ok(v: i64) -> bool {
    -COORD_LIMIT <= v <= COORD_LIMIT
}

/// Both coordinates of `p` are within the accepted range.
pub open spec fn point_ok(p: Point) -> bool {
    coord_ok(p.x) && coord_ok(p.y)
}

/// The 2D cross product of the vectors `a -> b` and `a -> c`: twice the
/// signed area of the triangle `(a, b, c)`.
pub open spec fn cross(a: Point, b: Point, c: Point) -> int {
    (c.x - a.x) * (b.y - a.y) - (c.y - a.y) * (b.x - a.x)
}

/// The edge test: `c` lies on the inside (or exactly on) the directed line
/// `a -> b`, under the sign convention `cross >= 0`.
pub open spec fn edge_sp(a: Point, b: Point, c: Point) -> bool {
    cross(a, b, c) >= 0
}

/// Swapping the last two arguments negates the cross product.
pub proof fn lemma_cross_swap(a: Point, b: Point, c: Point)
    ensures
        cross(a, b, c) == -cross(a, c, b),
{
    assert(cross(a, b, c) == -cross(a, c, b)) by (nonlinear_arith);
}

/// The cross product is invariant under cyclic rotation of its arguments.
pub proof fn lemma_cross_cycle(a: Point, b: Point, c: Point)
    ensures
        cross(a, b, c) == cross(b, c, a),
{
    assert(cross(a, b, c) == cross(b, c, a)) by (nonlinear_arith);
}

/// The cross product is zero when two of its arguments coincide.
pub proof fn lemma_cross_degenerate(a: Point, b: Point)
    ensures
        cross(a, b, a) == 0,
        cross(a, b, b) == 0,
        cross(a, a, b) == 0,
{
    assert(cross(a, b, a) == 0) by (nonlinear_arith);
    assert(cross(a, b, b) == 0) by (nonlinear_arith);
    assert(cross(a, a, b) == 0) by (nonlinear_arith);
}

/// The executable edge test. Returns whether `c` lies on the inside (or
/// exactly on) the directed line `a -> b`.
pub fn edge_function(a: &Point, b: &Point, c: &Point) -> (r: bool)
    requires
        point_ok(*a),
        point_ok(*b),
        point_ok(*c),
    ensures
        r == edge_sp(*a, *b, *c),
{
    proof {
        lemma_cross_bound(*a, *b, *c);
    }
    (c.x - a.x) * (b.y - a.y) - (c.y - a.y) * (b.x - a.x) >= 0
}

/// The cross product of in-range points fits comfortably in `i64`.
proof fn lemma_cross_bound(a: Point, b: Point, c: Point)
    requires
        point_ok(a),
        point_ok(b),
        point_ok(c),
    ensures
        -0x100000000000 <= (c.x - a.x) * (b.y - a.y) <= 0x100000000000,
        -0x100000000000 <= (c.y - a.y) * (b.x - a.x) <= 0x100000000000,
{
    assert(-0x100000000000 <= (c.x - a.x) * (b.y - a.y) <= 0x100000000000) by (nonlinear_arith)
        requires
            -0x200000 <= c.x - a.x <= 0x200000,
            -0x200000 <= b.y - a.y <= 0x200000,
    ;
    assert(-0x100000000000 <= (c.y - a.y) * (b.x - a.x) <= 0x100000000000) by (nonlinear_arith)
        requires
            -0x200000 <= c.y - a.y <= 0x200000,
            -0x200000 <= b.x - a.x <= 0x200000,
    ;
}

/// A triangle: three vertices and a packed color. Construction through
/// [`Triangle::new`] always normalizes the winding order, so every value of
/// this type satisfies the edge-function orientation invariant the fill
/// pass relies on.
#[derive(Clone, Copy, PartialEq, Eq, Structural, Debug)]
pub struct Triangle {
    pub c: u32,
    pub v0: Point,
    pub v1: Point,
    pub v2: Point,
}

/// The triangle the winding normalizer builds from three raw points and a
/// color: the raw order when it already passes the edge test, else the
/// order with the second and third vertices swapped.
pub open spec fn normalized(p0: Point, p1: Point, p2: Point, color: u32) -> Triangle {
    if edge_sp(p0, p1, p2) {
        Triangle { c: color, v0: p0, v1: p1, v2: p2 }
    } else {
        Triangle { c: color, v0: p0, v1: p2, v2: p1 }
    }
}

impl Triangle {
    /// Well-formedness: in-range vertices, presented in the orientation the
    /// edge test expects.
    pub open spec fn wf(self) -> bool {
        &&& point_ok(self.v0)
        &&& point_ok(self.v1)
        &&& point_ok(self.v2)
        &&& edge_sp(self.v0, self.v1, self.v2)
    }

    /// Builds a triangle from three raw points and a color, normalizing the
    /// winding order: when the raw order fails the edge test, the second and
    /// third vertices are swapped. Every constructed triangle satisfies
    /// `edge_sp(v0, v1, v2)`.
    pub fn new(p0: Point, p1: Point, p2: Point, color: u32) -> (t: Triangle)
        requires
            point_ok(p0),
            point_ok(p1),
            point_ok(p2),
        ensures
            t.wf(),
            t == normalized(p0, p1, p2, color),
    {
        if !edge_function(&p0, &p1, &p2) {
            proof {
                lemma_cross_swap(p0, p1, p2);
            }
            Triangle { c: color, v0: p0, v1: p2, v2: p1 }
        } else {
            Triangle { c: color, v0: p0, v1: p1, v2: p2 }
        }
    }
}

/// The point-in-triangle test: `p` passes the edge test against all three
/// directed edges of `t`.
pub open spec fn inside_sp(t: Triangle, p: Point) -> bool {
    &&& edge_sp(t.v0, t.v1, p)
    &&& edge_sp(t.v1, t.v2, p)
    &&& edge_sp(t.v2, t.v0, p)
}

/// Each vertex of a well-formed triangle is classified as inside its own
/// triangle: the boundary-inclusive edge rule accepts a point lying exactly
/// on an edge, and the winding invariant orients all three edges
/// consistently.
pub proof fn lemma_vertices_inside(t: Triangle)
    requires
        t.wf(),
    ensures
        inside_sp(t, t.v0),
        inside_sp(t, t.v1),
        inside_sp(t, t.v2),
{
    lemma_cross_degenerate(t.v0, t.v1);
    lemma_cross_degenerate(t.v1, t.v2);
    lemma_cross_degenerate(t.v2, t.v0);
    lemma_cross_cycle(t.v0, t.v1, t.v2);
    lemma_cross_cycle(t.v1, t.v2, t.v0);
}

} // verus!
