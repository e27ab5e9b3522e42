//! Bounds-checked framebuffer addressing over a flat, row-major pixel
//! buffer.
//!
//! Out-of-bounds policy: a write whose coordinate falls outside
//! `[0, width) x [0, height)` is silently skipped, so drawing never touches
//! memory outside the buffer.

use vstd::prelude::*;

use crate::geometry::point_ok;
use crate::geometry::Point;

verus! {

/// A flat, row-major pixel buffer of `width * height` packed color values,
/// origin at the top-left.
pub struct Framebuffer {
    pub width: usize,
    pub height: usize,
    pub data: Vec<u32>,
}

impl Framebuffer {
    /// Well-formedness: the buffer holds exactly one pixel per coordinate.
    pub open spec fn wf(self) -> bool {
        self.data@.len() == self.width * self.height
    }

    /// `p` addresses a pixel of this buffer.
    pub open spec fn in_bounds(self, p: Point) -> bool {
        0 <= p.x < self.width && 0 <= p.y < self.height
    }

    /// The linear index of the pixel at `p`: `width * y + x`.
    pub open spec fn index_of(self, p: Point) -> int {
        self.width * p.y + p.x
    }

    /// The drawing functions leave the buffer's dimensions unchanged.
    pub open spec fn same_shape(self, other: Framebuffer) -> bool {
        self.width == other.width && self.height == other.height
    }

    /// Creates a buffer of the given dimensions with every pixel zeroed.
    pub fn new(width: usize, height: usize) -> (fb: Framebuffer)
        requires
            width * height <= usize::MAX,
        ensures
            fb.wf(),
            fb.width == width,
            fb.height == height,
            fb.data@ == Seq::<u32>::new((width * height) as nat, |k: int| 0u32),
    {
        let n = width * height;
        let data = vec![0u32; n];
        let fb = Framebuffer { width, height, data };
        proof {
            assert(fb.data@ =~= Seq::<u32>::new((width * height) as nat, |k: int| 0u32));
        }
        fb
    }

    /// The linear index of an in-bounds coordinate.
    pub fn get_index(&self, x: i64, y: i64) -> (r: usize)
        requires
            self.wf(),
            0 <= x < self.width,
            0 <= y < self.height,
        ensures
            r == self.index_of(Point { x, y }),
            r < self.data@.len(),
    {
        let n = self.data.len();
        proof {
            lemma_row_major_index_in_range(
                self.width as int,
                self.height as int,
                x as int,
                y as int,
            );
            assert(self.width * y + x < n);
            assert(self.width * y <= self.width * y + x);
        }
        self.width * (y as usize) + (x as usize)
    }

    /// Writes `c` at `p` when `p` is in bounds; an out-of-bounds coordinate
    /// is silently skipped and the buffer is left unchanged.
    pub fn set_point(&mut self, p: &Point, c: u32) -> (written: bool)
        requires
            old(self).wf(),
            point_ok(*p),
        ensures
            final(self).wf(),
            old(self).same_shape(*final(self)),
            written == old(self).in_bounds(*p),
            old(self).in_bounds(*p) ==> final(self).data@ == old(self).data@.update(
                old(self).index_of(*p),
                c,
            ),
            !old(self).in_bounds(*p) ==> final(self).data@ == old(self).data@,
    {
        if 0 <= p.x && 0 <= p.y && (p.x as usize) < self.width && (p.y as usize) < self.height {
            let idx = self.get_index(p.x, p.y);
            self.data[idx] = c;
            true
        } else {
            false
        }
    }

    /// Reads the pixel at `(x, y)`, or `None` when the coordinate is out of
    /// bounds.
    pub fn get_pixel(&self, x: i64, y: i64) -> (r: Option<u32>)
        requires
            self.wf(),
            point_ok(Point { x, y }),
        ensures
            self.in_bounds(Point { x, y }) ==> r == Some(
                self.data@[self.index_of(Point { x, y })],
            ),
            !self.in_bounds(Point { x, y }) ==> r is None,
    {
        if 0 <= x && 0 <= y && (x as usize) < self.width && (y as usize) < self.height {
            let idx = self.get_index(x, y);
            Some(self.data[idx])
        } else {
            None
        }
    }
}

/// A row-major index `w * y + x` with `x < w` and `y < h` lies inside a
/// buffer of `w * h` pixels.
pub proof fn lemma_row_major_index_in_range(w: int, h: int, x: int, y: int)
    requires
        0 <= x < w,
        0 <= y < h,
    ensures
        0 <= w * y + x < w * h,
{
    assert(0 <= w * y + x < w * h) by (nonlinear_arith)
        requires
            0 <= x < w,
            0 <= y < h,
    ;
}

} // verus!
