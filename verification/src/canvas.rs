//! The pixel grid: a column-major 2D array of colors, its well-formedness,
//! the all-black initial canvas, and the mutator that commits an accepted
//! circle in place.

use vstd::prelude::*;
use crate::color::Color;
use crate::shape::{Circle, box_xlo, box_xhi, box_ylo, box_yhi, painted};

verus! {

/// The mathematical view of a pixel grid: a sequence of columns, each a
/// sequence of colors, indexed as grid[x][y].
pub open spec fn gv(g: Seq<Vec<Color>>) -> Seq<Seq<Color>> {
    Seq::new(g.len(), |x: int| g[x]@)
}

/// A well-formed width-by-height grid: exactly `width` columns, each of
/// exactly `height` pixels.
pub open spec fn grid_wf(g: Seq<Seq<Color>>, width: int, height: int) -> bool {
    &&& g.len() == width
    &&& forall|x: int| 0 <= x < width ==> (#[trigger] g[x]).len() == height
}

/// Builds the initial canvas: a well-formed grid with every pixel black.
pub fn black_canvas(width: usize, height: usize) -> (g: Vec<Vec<Color>>)
    ensures
        grid_wf(gv(g@), width as int, height as int),
        forall|x: int, y: int|
            0 <= x < width && 0 <= y < height ==> gv(g@)[x][y] == (Color { r: 0, g: 0, b: 0 }),
{
    let mut g: Vec<Vec<Color>> = Vec::new();
    let mut x: usize = 0;
    while x < width
        invariant
            x <= width,
            g@.len() == x,
            forall|i: int| 0 <= i < x ==> (#[trigger] g@[i])@.len() == height,
            forall|i: int, j: int|
                0 <= i < x && 0 <= j < height ==> g@[i]@[j] == (Color { r: 0, g: 0, b: 0 }),
        decreases width - x,
    {
        let mut column: Vec<Color> = Vec::new();
        let mut y: usize = 0;
        while y < height
            invariant
                y <= height,
                column@.len() == y,
                forall|j: int| 0 <= j < y ==> column@[j] == (Color { r: 0, g: 0, b: 0 }),
            decreases height - y,
        {
            column.push(Color::black());
            y = y + 1;
        }
        g.push(column);
        x = x + 1;
    }
    g
}

/// Overwrites with the circle's color every pixel of the clamped bounding
/// box that the circle covers; every other pixel is untouched. Must be
/// called only after the circle was accepted by the scorer against this
/// very canvas state.
pub fn update_pixels(pixels: &mut Vec<Vec<Color>>, width: usize, height: usize, circle: &Circle)
    requires
        grid_wf(gv(old(pixels)@), width as int, height as int),
        width <= 65535,
        height <= 65535,
        circle.scorable(),
    ensures
        grid_wf(gv(final(pixels)@), width as int, height as int),
        forall|x: int, y: int|
            0 <= x < width && 0 <= y < height ==> gv(final(pixels)@)[x][y] == (
            if painted(*circle, width as int, height as int, x, y) {
                circle.c
            } else {
                gv(old(pixels)@)[x][y]
            }),
{
    let ghost c = *circle;
    let ghost w = width as int;
    let ghost h = height as int;
    let ghost start = gv(old(pixels)@);
    let left = circle.left();
    let right = circle.right();
    let top = circle.top();
    let bottom = circle.bottom();
    let xmin: i32 = if left > 0 { left } else { 0 };
    let xmax: i32 = if right < width as i32 { right } else { width as i32 };
    let ymin: i32 = if top > 0 { top } else { 0 };
    let ymax: i32 = if bottom < height as i32 { bottom } else { height as i32 };
    assert(xmin == box_xlo(c) && xmax == box_xhi(c, w) && ymin == box_ylo(c) && ymax == box_yhi(c, h));
    proof {
        assert forall|i: int| 0 <= i < width implies (#[trigger] pixels@[i])@.len() == height by {
            assert(gv(pixels@)[i] == pixels@[i]@);
        }
        assert forall|i: int, j: int| 0 <= i < width && 0 <= j < height implies pixels@[i]@[j]
            == start[i][j] by {
            assert(gv(pixels@)[i] == pixels@[i]@);
        }
    }
    if xmax <= xmin || ymax <= ymin {
        proof {
            lemma_view_frame(pixels@, w, h);
        }
        return ;
    }
    let mut x: i32 = xmin;
    while x < xmax
        invariant
            c == *circle,
            w == width as int && h == height as int,
            xmin <= x <= xmax,
            xmin == box_xlo(c) && xmax == box_xhi(c, w),
            ymin == box_ylo(c) && ymax == box_yhi(c, h),
            0 <= xmin && xmax <= width,
            0 <= ymin && ymax <= height,
            ymin < ymax,
            width <= 65535 && height <= 65535,
            c.scorable(),
            grid_wf(start, w, h),
            pixels@.len() == width,
            forall|i: int| 0 <= i < width ==> (#[trigger] pixels@[i])@.len() == height,
            forall|i: int, j: int| #![all_triggers]
                0 <= i < width && 0 <= j < height ==> pixels@[i]@[j] == (
                if xmin <= i < x && painted(c, w, h, i, j) {
                    c.c
                } else {
                    start[i][j]
                }),
        decreases xmax - x,
    {
        let mut y: i32 = ymin;
        while y < ymax
            invariant
                c == *circle,
                w == width as int && h == height as int,
                ymin <= y <= ymax,
                xmin <= x < xmax,
                xmin == box_xlo(c) && xmax == box_xhi(c, w),
                ymin == box_ylo(c) && ymax == box_yhi(c, h),
                0 <= xmin && xmax <= width,
                0 <= ymin && ymax <= height,
                width <= 65535 && height <= 65535,
                c.scorable(),
                grid_wf(start, w, h),
                pixels@.len() == width,
                forall|i: int| 0 <= i < width ==> (#[trigger] pixels@[i])@.len() == height,
                forall|i: int, j: int| #![all_triggers]
                    0 <= i < width && 0 <= j < height ==> pixels@[i]@[j] == (
                    if (xmin <= i < x && painted(c, w, h, i, j)) || (i == x && ymin <= j < y
                        && painted(c, w, h, i, j)) {
                        c.c
                    } else {
                        start[i][j]
                    }),
            decreases ymax - y,
        {
            proof {
                assert(c.x - x <= c.r && c.x - x >= -(c.r as int));
                assert(c.y - y <= c.r && c.y - y >= -(c.r as int));
                assert((c.x - x) * (c.x - x) <= 32767 * 32767) by (nonlinear_arith)
                    requires -32767 <= c.x - x <= 32767;
                assert((c.y - y) * (c.y - y) <= 32767 * 32767) by (nonlinear_arith)
                    requires -32767 <= c.y - y <= 32767;
                assert(c.r * c.r <= 32767 * 32767) by (nonlinear_arith)
                    requires c.r <= 32767;
            }
            if circle.contains_point(x, y) {
                pixels[x as usize][y as usize] = circle.c;
            }
            y = y + 1;
        }
        x = x + 1;
    }
    proof {
        lemma_view_frame(pixels@, w, h);
        assert forall|i: int, j: int| 0 <= i < width && 0 <= j < height implies gv(pixels@)[i][j]
            == (if painted(c, w, h, i, j) {
            c.c
        } else {
            start[i][j]
        }) by {
            assert(gv(pixels@)[i] == pixels@[i]@);
        }
    }
}

/// A grid whose columns all have the stated lengths is well-formed under the
/// grid view.
proof fn lemma_view_frame(g: Seq<Vec<Color>>, w: int, h: int)
    requires
        g.len() == w,
        forall|i: int| 0 <= i < w ==> (#[trigger] g[i])@.len() == h,
    ensures
        grid_wf(gv(g), w, h),
{
    assert forall|i: int| 0 <= i < w implies (#[trigger] gv(g)[i]).len() == h by {
        assert(gv(g)[i] == g[i]@);
    }
}

} // verus!
