//! Candidate shapes: circles with an integer center (possibly outside the
//! canvas), a radius bounded by a quarter of the canvas width, and a color.

use vstd::prelude::*;
use crate::color::{Color, Palette, palette_admits};
use crate::rng::rng_range_usize;

verus! {

/// A candidate or accepted shape. It lives for one iteration: either it is
/// discarded, or its color is absorbed into the canvas.
#[derive(Clone, Copy, PartialEq, Eq, Structural, Debug)]
pub struct Circle {
    pub x: i32,
    pub y: i32,
    pub r: u32,
    pub c: Color,
}

/// The squared distance from the circle's center to the point (x, y).
pub open spec fn point_sq_dist(c: Circle, x: int, y: int) -> int {
    (c.x - x) * (c.x - x) + (c.y - y) * (c.y - y)
}

/// A point is inside the circle iff its squared distance from the center is
/// at most the squared radius; the boundary itself is included.
pub open spec fn circle_contains(c: Circle, x: int, y: int) -> bool {
    point_sq_dist(c, x, y) <= c.r * c.r
}

/// The first column of the circle's bounding box clamped to the canvas.
pub open spec fn box_xlo(c: Circle) -> int {
    if c.left_spec() > 0 {
        c.left_spec()
    } else {
        0
    }
}

/// One past the last column of the clamped bounding box.
pub open spec fn box_xhi(c: Circle, width: int) -> int {
    if c.right_spec() < width {
        c.right_spec()
    } else {
        width
    }
}

/// The first row of the circle's bounding box clamped to the canvas.
pub open spec fn box_ylo(c: Circle) -> int {
    if c.top_spec() > 0 {
        c.top_spec()
    } else {
        0
    }
}

/// One past the last row of the clamped bounding box.
pub open spec fn box_yhi(c: Circle, height: int) -> int {
    if c.bottom_spec() < height {
        c.bottom_spec()
    } else {
        height
    }
}

/// Whether applying the circle to a width-by-height canvas overwrites the
/// pixel (x, y): the pixel lies in the clamped bounding box and inside the
/// circle.
pub open spec fn painted(c: Circle, width: int, height: int, x: int, y: int) -> bool {
    &&& box_xlo(c) <= x < box_xhi(c, width)
    &&& box_ylo(c) <= y < box_yhi(c, height)
    &&& circle_contains(c, x, y)
}

/// A point exactly on the boundary (squared distance equal to radius
/// squared) is contained; a point one unit of squared distance further out
/// is not.
pub proof fn lemma_containment_boundary(c: Circle, x: int, y: int)
    ensures
        point_sq_dist(c, x, y) == c.r * c.r ==> circle_contains(c, x, y),
        point_sq_dist(c, x, y) == c.r * c.r + 1 ==> !circle_contains(c, x, y),
{
}

impl Circle {
    /// The leftmost column of the (unclamped) bounding box.
    pub open spec fn left_spec(&self) -> int {
        self.x - self.r
    }

    /// One past the rightmost column of the (unclamped) bounding box.
    pub open spec fn right_spec(&self) -> int {
        self.x + self.r
    }

    /// The topmost row of the (unclamped) bounding box.
    pub open spec fn top_spec(&self) -> int {
        self.y - self.r
    }

    /// One past the bottommost row of the (unclamped) bounding box.
    pub open spec fn bottom_spec(&self) -> int {
        self.y + self.r
    }

    /// The bounds under which the circle can be scored and applied with the
    /// original's 32-bit arithmetic: the bounding box fits in `i32` and the
    /// squared distances of box points from the center fit as well.
    pub open spec fn scorable(&self) -> bool {
        &&& self.r <= 32767
        &&& -0x8000_0000 <= self.x - self.r
        &&& self.x + self.r <= 0x7FFF_FFFF
        &&& -0x8000_0000 <= self.y - self.r
        &&& self.y + self.r <= 0x7FFF_FFFF
    }

    /// Draws a random candidate: center uniformly inside the canvas, radius
    /// uniformly in [0, width / 4), color drawn from the palette rule.
    pub fn rand(
        rng: &mut rand::rngs::StdRng,
        width: u32,
        height: u32,
        palette: &Palette,
    ) -> (c: Circle)
        requires
            palette.wf(),
            4 <= width <= 0x7FFF_FFFF,
            1 <= height <= 0x7FFF_FFFF,
        ensures
            0 <= c.x < width,
            0 <= c.y < height,
            c.r < width / 4,
            palette_admits(*palette, c.c),
    {
        let color = Color::rand(rng, palette);
        let x = rng_range_usize(rng, 0, width as usize);
        let y = rng_range_usize(rng, 0, height as usize);
        let r = rng_range_usize(rng, 0, (width / 4) as usize);
        Circle { x: x as i32, y: y as i32, r: r as u32, c: color }
    }

    /// Whether the point (x, y) lies inside the circle, boundary included.
    pub fn contains_point(&self, x: i32, y: i32) -> (res: bool)
        requires
            -0x8000_0000 <= self.x - x <= 0x7FFF_FFFF,
            -0x8000_0000 <= self.y - y <= 0x7FFF_FFFF,
            point_sq_dist(*self, x as int, y as int) <= 0x7FFF_FFFF,
            self.r * self.r <= 0xFFFF_FFFF,
        ensures
            res == circle_contains(*self, x as int, y as int),
    {
        let dx = self.x - x;
        let dy = self.y - y;
        proof {
            assert(dx * dx >= 0 && dy * dy >= 0) by (nonlinear_arith);
        }
        let dist_sq = (dx * dx + dy * dy) as u32;
        let r_sq = self.r * self.r;
        dist_sq <= r_sq
    }

    /// The leftmost column of the bounding box, not clamped to the canvas.
    pub fn left(&self) -> (v: i32)
        requires
            self.scorable(),
        ensures
            v == self.left_spec(),
    {
        self.x - self.r as i32
    }

    /// One past the rightmost column of the bounding box, not clamped.
    pub fn right(&self) -> (v: i32)
        requires
            self.scorable(),
        ensures
            v == self.right_spec(),
    {
        self.x + self.r as i32
    }

    /// The topmost row of the bounding box, not clamped to the canvas.
    pub fn top(&self) -> (v: i32)
        requires
            self.scorable(),
        ensures
            v == self.top_spec(),
    {
        self.y - self.r as i32
    }

    /// One past the bottommost row of the bounding box, not clamped.
    pub fn bottom(&self) -> (v: i32)
        requires
            self.scorable(),
        ensures
            v == self.bottom_spec(),
    {
        self.y + self.r as i32
    }
}

} // verus!
