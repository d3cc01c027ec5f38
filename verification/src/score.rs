//! The scorer: the aggregate color error of a canvas against the target
//! over a circle's clamped bounding box, the strict-improvement acceptance
//! test, and the laws relating scores before and after a commit.

use vstd::prelude::*;
use crate::color::{Color, color_dist};
use crate::shape::{Circle, circle_contains, box_xlo, box_xhi, box_ylo, box_yhi, painted};
use crate::canvas::{gv, grid_wf};

verus! {

/// The per-pixel error of the current canvas against the target.
pub open spec fn pixel_error(t: Seq<Seq<Color>>, cur: Seq<Seq<Color>>) -> spec_fn(int, int) -> int {
    |x: int, y: int| color_dist(cur[x][y], t[x][y])
}

/// The per-pixel error if the circle were applied: covered pixels take the
/// circle's color, the rest keep the canvas color.
pub open spec fn shape_pixel_error(t: Seq<Seq<Color>>, cur: Seq<Seq<Color>>, c: Circle) -> spec_fn(
    int,
    int,
) -> int {
    |x: int, y: int|
        color_dist(
            if circle_contains(c, x, y) {
                c.c
            } else {
                cur[x][y]
            },
            t[x][y],
        )
}

/// The sum of f(x, y) for y in [ylo, yhi).
pub open spec fn col_sum(f: spec_fn(int, int) -> int, x: int, ylo: int, yhi: int) -> int
    decreases yhi - ylo,
{
    if yhi <= ylo {
        0
    } else {
        f(x, ylo) + col_sum(f, x, ylo + 1, yhi)
    }
}

/// The sum of f(x, y) over the rectangle [xlo, xhi) x [ylo, yhi).
pub open spec fn rect_sum(
    f: spec_fn(int, int) -> int,
    xlo: int,
    xhi: int,
    ylo: int,
    yhi: int,
) -> int
    decreases xhi - xlo,
{
    if xhi <= xlo {
        0
    } else {
        col_sum(f, xlo, ylo, yhi) + rect_sum(f, xlo + 1, xhi, ylo, yhi)
    }
}

/// The current canvas error against the target over the circle's clamped
/// bounding box.
pub open spec fn original_score(
    t: Seq<Seq<Color>>,
    cur: Seq<Seq<Color>>,
    width: int,
    height: int,
    c: Circle,
) -> int {
    rect_sum(pixel_error(t, cur), box_xlo(c), box_xhi(c, width), box_ylo(c), box_yhi(c, height))
}

/// The error over the same box if the circle were applied.
pub open spec fn modified_score(
    t: Seq<Seq<Color>>,
    cur: Seq<Seq<Color>>,
    width: int,
    height: int,
    c: Circle,
) -> int {
    rect_sum(
        shape_pixel_error(t, cur, c),
        box_xlo(c),
        box_xhi(c, width),
        box_ylo(c),
        box_yhi(c, height),
    )
}

/// The acceptance criterion: the circle strictly reduces the error over its
/// clamped bounding box. A tie is rejected; so is an empty box.
pub open spec fn improves(
    t: Seq<Seq<Color>>,
    cur: Seq<Seq<Color>>,
    width: int,
    height: int,
    c: Circle,
) -> bool {
    modified_score(t, cur, width, height, c) < original_score(t, cur, width, height, c)
}

/// The canvas error against the target summed over the whole image.
pub open spec fn image_error(
    t: Seq<Seq<Color>>,
    cur: Seq<Seq<Color>>,
    width: int,
    height: int,
) -> int {
    rect_sum(pixel_error(t, cur), 0, width, 0, height)
}

/// A column sum splits at any midpoint.
proof fn lemma_col_sum_split(f: spec_fn(int, int) -> int, x: int, a: int, b: int, c: int)
    requires
        a <= b <= c,
    ensures
        col_sum(f, x, a, c) == col_sum(f, x, a, b) + col_sum(f, x, b, c),
    decreases b - a,
{
    if a < b {
        lemma_col_sum_split(f, x, a + 1, b, c);
    }
}

/// A rectangle sum splits at any column midpoint.
proof fn lemma_rect_sum_split_x(
    f: spec_fn(int, int) -> int,
    a: int,
    b: int,
    c: int,
    ylo: int,
    yhi: int,
)
    requires
        a <= b <= c,
    ensures
        rect_sum(f, a, c, ylo, yhi) == rect_sum(f, a, b, ylo, yhi) + rect_sum(f, b, c, ylo, yhi),
    decreases b - a,
{
    if a < b {
        lemma_rect_sum_split_x(f, a + 1, b, c, ylo, yhi);
    }
}

/// A rectangle sum splits at any row midpoint.
proof fn lemma_rect_sum_split_y(
    f: spec_fn(int, int) -> int,
    xlo: int,
    xhi: int,
    a: int,
    b: int,
    c: int,
)
    requires
        a <= b <= c,
    ensures
        rect_sum(f, xlo, xhi, a, c) == rect_sum(f, xlo, xhi, a, b) + rect_sum(f, xlo, xhi, b, c),
    decreases xhi - xlo,
{
    if xlo < xhi {
        lemma_col_sum_split(f, xlo, a, b, c);
        lemma_rect_sum_split_y(f, xlo + 1, xhi, a, b, c);
    }
}

/// A rectangle with no rows sums to zero.
proof fn lemma_rect_sum_empty_cols(
    f: spec_fn(int, int) -> int,
    xlo: int,
    xhi: int,
    ylo: int,
    yhi: int,
)
    requires
        yhi <= ylo,
    ensures
        rect_sum(f, xlo, xhi, ylo, yhi) == 0,
    decreases xhi - xlo,
{
    if xlo < xhi {
        lemma_rect_sum_empty_cols(f, xlo + 1, xhi, ylo, yhi);
    }
}

/// Two functions that agree on a column have equal column sums.
proof fn lemma_col_sum_congruent(
    f: spec_fn(int, int) -> int,
    g: spec_fn(int, int) -> int,
    x: int,
    ylo: int,
    yhi: int,
)
    requires
        forall|y: int| ylo <= y < yhi ==> #[trigger] f(x, y) == g(x, y),
    ensures
        col_sum(f, x, ylo, yhi) == col_sum(g, x, ylo, yhi),
    decreases yhi - ylo,
{
    if ylo < yhi {
        lemma_col_sum_congruent(f, g, x, ylo + 1, yhi);
    }
}

/// Two functions that agree on a rectangle have equal rectangle sums.
proof fn lemma_rect_sum_congruent(
    f: spec_fn(int, int) -> int,
    g: spec_fn(int, int) -> int,
    xlo: int,
    xhi: int,
    ylo: int,
    yhi: int,
)
    requires
        forall|x: int, y: int| xlo <= x < xhi && ylo <= y < yhi ==> #[trigger] f(x, y) == g(x, y),
    ensures
        rect_sum(f, xlo, xhi, ylo, yhi) == rect_sum(g, xlo, xhi, ylo, yhi),
    decreases xhi - xlo,
{
    if xlo < xhi {
        lemma_col_sum_congruent(f, g, xlo, ylo, yhi);
        lemma_rect_sum_congruent(f, g, xlo + 1, xhi, ylo, yhi);
    }
}

/// Decides whether the candidate circle strictly improves the canvas: over
/// the circle's bounding box clamped to the canvas, it sums the current
/// per-pixel error and the error the circle's application would leave, and
/// accepts only a strict decrease. A circle whose clamped box is empty is
/// always rejected. The function reads both grids and changes nothing.
pub fn shape_improves_image(
    target_pixels: &Vec<Vec<Color>>,
    current_pixels: &Vec<Vec<Color>>,
    width: usize,
    height: usize,
    circle: &Circle,
) -> (res: bool)
    requires
        grid_wf(gv(target_pixels@), width as int, height as int),
        grid_wf(gv(current_pixels@), width as int, height as int),
        width <= 65535,
        height <= 65535,
        circle.scorable(),
    ensures
        res == improves(
            gv(target_pixels@),
            gv(current_pixels@),
            width as int,
            height as int,
            *circle,
        ),
{
    let ghost t = gv(target_pixels@);
    let ghost cur = gv(current_pixels@);
    let ghost c = *circle;
    let ghost w = width as int;
    let ghost h = height as int;
    let ghost fo = pixel_error(t, cur);
    let ghost fm = shape_pixel_error(t, cur, c);
    proof {
        assert forall|i: int| 0 <= i < width implies (#[trigger] target_pixels@[i])@ == t[i] by {
            assert(gv(target_pixels@)[i] == target_pixels@[i]@);
        }
        assert forall|i: int| 0 <= i < width implies (#[trigger] current_pixels@[i])@ == cur[i] by {
            assert(gv(current_pixels@)[i] == current_pixels@[i]@);
        }
    }
    let left = circle.left();
    let right = circle.right();
    let top = circle.top();
    let bottom = circle.bottom();
    let xmin: i32 = if left > 0 { left } else { 0 };
    let xmax: i32 = if right < width as i32 { right } else { width as i32 };
    let ymin: i32 = if top > 0 { top } else { 0 };
    let ymax: i32 = if bottom < height as i32 { bottom } else { height as i32 };
    assert(xmin == box_xlo(c) && xmax == box_xhi(c, w) && ymin == box_ylo(c) && ymax == box_yhi(c, h));
    if xmax <= xmin || ymax <= ymin {
        proof {
            if xmax > xmin {
                lemma_rect_sum_empty_cols(fo, xmin as int, xmax as int, ymin as int, ymax as int);
                lemma_rect_sum_empty_cols(fm, xmin as int, xmax as int, ymin as int, ymax as int);
            }
        }
        return false;
    }
    let mut original_score_acc: u64 = 0;
    let mut modified_score_acc: u64 = 0;
    let mut x: i32 = xmin;
    while x < xmax
        invariant
            c == *circle,
            w == width as int && h == height as int,
            t == gv(target_pixels@) && cur == gv(current_pixels@),
            fo == pixel_error(t, cur) && fm == shape_pixel_error(t, cur, c),
            grid_wf(t, w, h) && grid_wf(cur, w, h),
            target_pixels@.len() == width && current_pixels@.len() == width,
            forall|i: int| 0 <= i < width ==> (#[trigger] target_pixels@[i])@ == t[i],
            forall|i: int| 0 <= i < width ==> (#[trigger] current_pixels@[i])@ == cur[i],
            xmin == box_xlo(c) && xmax == box_xhi(c, w),
            ymin == box_ylo(c) && ymax == box_yhi(c, h),
            0 <= xmin && xmax <= width,
            0 <= ymin && ymax <= height,
            xmin < xmax && ymin < ymax,
            width <= 65535 && height <= 65535,
            c.scorable(),
            xmin <= x <= xmax,
            original_score_acc == rect_sum(fo, xmin as int, x as int, ymin as int, ymax as int),
            modified_score_acc == rect_sum(fm, xmin as int, x as int, ymin as int, ymax as int),
            original_score_acc <= 441 * ((x - xmin) * (ymax - ymin)),
            modified_score_acc <= 441 * ((x - xmin) * (ymax - ymin)),
        decreases xmax - x,
    {
        let mut col_orig: u64 = 0;
        let mut col_mod: u64 = 0;
        let mut y: i32 = ymin;
        while y < ymax
            invariant
                c == *circle,
                w == width as int && h == height as int,
                t == gv(target_pixels@) && cur == gv(current_pixels@),
                fo == pixel_error(t, cur) && fm == shape_pixel_error(t, cur, c),
                grid_wf(t, w, h) && grid_wf(cur, w, h),
                target_pixels@.len() == width && current_pixels@.len() == width,
                forall|i: int| 0 <= i < width ==> (#[trigger] target_pixels@[i])@ == t[i],
                forall|i: int| 0 <= i < width ==> (#[trigger] current_pixels@[i])@ == cur[i],
                xmin == box_xlo(c) && xmax == box_xhi(c, w),
                ymin == box_ylo(c) && ymax == box_yhi(c, h),
                0 <= xmin && xmax <= width,
                0 <= ymin && ymax <= height,
                xmin < xmax && ymin < ymax,
                width <= 65535 && height <= 65535,
                c.scorable(),
                xmin <= x < xmax,
                ymin <= y <= ymax,
                col_orig == col_sum(fo, x as int, ymin as int, y as int),
                col_mod == col_sum(fm, x as int, ymin as int, y as int),
                col_orig <= 441 * (y - ymin),
                col_mod <= 441 * (y - ymin),
            decreases ymax - y,
        {
            proof {
                assert(c.x - x <= c.r && c.x - x >= -(c.r as int));
                assert(c.y - y <= c.r && c.y - y >= -(c.r as int));
                assert((c.x - x) * (c.x - x) <= 32767 * 32767) by (nonlinear_arith)
                    requires -32767 <= c.x - x <= 32767;
                assert((c.y - y) * (c.y - y) <= 32767 * 32767) by (nonlinear_arith)
                    requires -32767 <= c.y - y <= 32767;
                assert(c.r * c.r <= 32767 * 32767) by (nonlinear_arith)
                    requires c.r <= 32767;
            }
            let target_color = target_pixels[x as usize][y as usize];
            let current_color = current_pixels[x as usize][y as usize];
            let updated_color = if circle.contains_point(x, y) {
                circle.c
            } else {
                current_pixels[x as usize][y as usize]
            };
            let d_orig = current_color.dist(&target_color);
            let d_mod = updated_color.dist(&target_color);
            proof {
                assert(target_color == t[x as int][y as int]);
                assert(current_color == cur[x as int][y as int]);
                assert(d_orig == fo(x as int, y as int));
                assert(d_mod == fm(x as int, y as int));
                lemma_col_sum_split(fo, x as int, ymin as int, y as int, y + 1);
                lemma_col_sum_split(fm, x as int, ymin as int, y as int, y + 1);
                assert(col_sum(fo, x as int, y + 1, y + 1) == 0);
                assert(col_sum(fm, x as int, y + 1, y + 1) == 0);
                assert(col_sum(fo, x as int, y as int, y + 1) == fo(x as int, y as int));
                assert(col_sum(fm, x as int, y as int, y + 1) == fm(x as int, y as int));
                assert(441 * (y + 1 - ymin) == 441 * (y - ymin) + 441) by (nonlinear_arith);
            }
            col_orig = col_orig + d_orig as u64;
            col_mod = col_mod + d_mod as u64;
            y = y + 1;
        }
        proof {
            lemma_rect_sum_split_x(fo, xmin as int, x as int, x + 1, ymin as int, ymax as int);
            lemma_rect_sum_split_x(fm, xmin as int, x as int, x + 1, ymin as int, ymax as int);
            assert(rect_sum(fo, x + 1, x + 1, ymin as int, ymax as int) == 0);
            assert(rect_sum(fm, x + 1, x + 1, ymin as int, ymax as int) == 0);
            assert(rect_sum(fo, x as int, x + 1, ymin as int, ymax as int) == col_sum(
                fo,
                x as int,
                ymin as int,
                ymax as int,
            ));
            assert(rect_sum(fm, x as int, x + 1, ymin as int, ymax as int) == col_sum(
                fm,
                x as int,
                ymin as int,
                ymax as int,
            ));
            assert(441 * ((x + 1 - xmin) * (ymax - ymin)) == 441 * ((x - xmin) * (ymax - ymin))
                + 441 * (ymax - ymin)) by (nonlinear_arith);
            assert(441 * ((x - xmin) * (ymax - ymin)) <= 441 * (65535 * 65535)) by (nonlinear_arith)
                requires 0 <= x - xmin <= 65535, 0 <= ymax - ymin <= 65535;
        }
        original_score_acc = original_score_acc + col_orig;
        modified_score_acc = modified_score_acc + col_mod;
        x = x + 1;
    }
    modified_score_acc < original_score_acc
}

/// The total error of the canvas against the target over the whole image:
/// the sum over every pixel of the color distance between the two grids.
pub fn image_error_total(
    target_pixels: &Vec<Vec<Color>>,
    current_pixels: &Vec<Vec<Color>>,
    width: usize,
    height: usize,
) -> (err: u64)
    requires
        grid_wf(gv(target_pixels@), width as int, height as int),
        grid_wf(gv(current_pixels@), width as int, height as int),
        width <= 65535,
        height <= 65535,
    ensures
        err == image_error(gv(target_pixels@), gv(current_pixels@), width as int, height as int),
{
    let ghost t = gv(target_pixels@);
    let ghost cur = gv(current_pixels@);
    let ghost w = width as int;
    let ghost h = height as int;
    let ghost fo = pixel_error(t, cur);
    proof {
        assert forall|i: int| 0 <= i < width implies (#[trigger] target_pixels@[i])@ == t[i] by {
            assert(gv(target_pixels@)[i] == target_pixels@[i]@);
        }
        assert forall|i: int| 0 <= i < width implies (#[trigger] current_pixels@[i])@ == cur[i] by {
            assert(gv(current_pixels@)[i] == current_pixels@[i]@);
        }
        if height == 0 {
            lemma_rect_sum_empty_cols(fo, 0, w, 0, h);
        }
    }
    let mut err_acc: u64 = 0;
    let mut x: usize = 0;
    while x < width
        invariant
            w == width as int && h == height as int,
            t == gv(target_pixels@) && cur == gv(current_pixels@),
            fo == pixel_error(t, cur),
            grid_wf(t, w, h) && grid_wf(cur, w, h),
            target_pixels@.len() == width && current_pixels@.len() == width,
            forall|i: int| 0 <= i < width ==> (#[trigger] target_pixels@[i])@ == t[i],
            forall|i: int| 0 <= i < width ==> (#[trigger] current_pixels@[i])@ == cur[i],
            width <= 65535 && height <= 65535,
            x <= width,
            err_acc == rect_sum(fo, 0, x as int, 0, h),
            err_acc <= 441 * ((x as int) * h),
        decreases width - x,
    {
        let mut col_err: u64 = 0;
        let mut y: usize = 0;
        while y < height
            invariant
                w == width as int && h == height as int,
                t == gv(target_pixels@) && cur == gv(current_pixels@),
                fo == pixel_error(t, cur),
                grid_wf(t, w, h) && grid_wf(cur, w, h),
                target_pixels@.len() == width && current_pixels@.len() == width,
                forall|i: int| 0 <= i < width ==> (#[trigger] target_pixels@[i])@ == t[i],
                forall|i: int| 0 <= i < width ==> (#[trigger] current_pixels@[i])@ == cur[i],
                width <= 65535 && height <= 65535,
                x < width,
                y <= height,
                col_err == col_sum(fo, x as int, 0, y as int),
                col_err <= 441 * (y as int),
            decreases height - y,
        {
            let target_color = target_pixels[x][y];
            let current_color = current_pixels[x][y];
            let d = current_color.dist(&target_color);
            proof {
                assert(d == fo(x as int, y as int));
                lemma_col_sum_split(fo, x as int, 0, y as int, y + 1);
                assert(col_sum(fo, x as int, y + 1, y + 1) == 0);
                assert(col_sum(fo, x as int, y as int, y + 1) == fo(x as int, y as int));
                assert(441 * (y + 1) == 441 * (y as int) + 441) by (nonlinear_arith);
            }
            col_err = col_err + d as u64;
            y = y + 1;
        }
        proof {
            lemma_rect_sum_split_x(fo, 0, x as int, x + 1, 0, h);
            assert(rect_sum(fo, x + 1, x + 1, 0, h) == 0);
            assert(rect_sum(fo, x as int, x + 1, 0, h) == col_sum(fo, x as int, 0, h));
            assert(441 * ((x + 1) * h) == 441 * ((x as int) * h) + 441 * h) by (nonlinear_arith);
            assert(441 * ((x as int) * h) <= 441 * (65535 * 65535)) by (nonlinear_arith)
                requires 0 <= x <= 65535, 0 <= h <= 65535;
            assert(441 * h <= 441 * 65535) by (nonlinear_arith)
                requires 0 <= h <= 65535;
        }
        err_acc = err_acc + col_err;
        x = x + 1;
    }
    err_acc
}

/// Tie rejection: a candidate whose color equals the current canvas color
/// at every covered pixel of its clamped bounding box changes nothing, so
/// its modified score equals its original score and it is rejected.
pub proof fn lemma_tie_rejected(
    t: Seq<Seq<Color>>,
    cur: Seq<Seq<Color>>,
    width: int,
    height: int,
    c: Circle,
)
    requires
        forall|x: int, y: int|
            box_xlo(c) <= x < box_xhi(c, width) && box_ylo(c) <= y < box_yhi(c, height)
                && circle_contains(c, x, y) ==> cur[x][y] == c.c,
    ensures
        modified_score(t, cur, width, height, c) == original_score(t, cur, width, height, c),
        !improves(t, cur, width, height, c),
{
    let fo = pixel_error(t, cur);
    let fm = shape_pixel_error(t, cur, c);
    assert forall|x: int, y: int|
        box_xlo(c) <= x < box_xhi(c, width) && box_ylo(c) <= y < box_yhi(c, height) implies #[trigger] fm(
        x,
        y,
    ) == fo(x, y) by {
        if circle_contains(c, x, y) {
            assert(cur[x][y] == c.c);
        }
    }
    lemma_rect_sum_congruent(
        fm,
        fo,
        box_xlo(c),
        box_xhi(c, width),
        box_ylo(c),
        box_yhi(c, height),
    );
}

/// The accounting identity behind monotonic improvement. If `after` is
/// `before` with the circle committed (covered pixels of the clamped box
/// recolored, everything else untouched), then the error of `after` over
/// the box is exactly the modified score predicted for `before`, and the
/// whole-image error moves by exactly the predicted difference. In
/// particular an accepted circle (modified < original) strictly decreases
/// the whole-image error, and any other circle leaves it unchanged.
pub proof fn lemma_committed_shape_error(
    t: Seq<Seq<Color>>,
    before: Seq<Seq<Color>>,
    after: Seq<Seq<Color>>,
    width: int,
    height: int,
    c: Circle,
)
    requires
        grid_wf(before, width, height),
        grid_wf(after, width, height),
        forall|x: int, y: int|
            0 <= x < width && 0 <= y < height ==> after[x][y] == (
            if painted(c, width, height, x, y) {
                c.c
            } else {
                before[x][y]
            }),
    ensures
        original_score(t, after, width, height, c) == modified_score(t, before, width, height, c),
        image_error(t, after, width, height) == image_error(t, before, width, height)
            + modified_score(t, before, width, height, c) - original_score(
            t,
            before,
            width,
            height,
            c,
        ),
{
    let fo_b = pixel_error(t, before);
    let fo_a = pixel_error(t, after);
    let fm = shape_pixel_error(t, before, c);
    let bxlo = box_xlo(c);
    let bxhi = box_xhi(c, width);
    let bylo = box_ylo(c);
    let byhi = box_yhi(c, height);
    if bxhi <= bxlo || byhi <= bylo {
        // The clamped box is empty: nothing is painted and both box scores
        // are zero.
        assert forall|x: int, y: int| 0 <= x < width && 0 <= y < height implies #[trigger] fo_a(
            x,
            y,
        ) == fo_b(x, y) by {
            assert(after[x][y] == before[x][y]);
        }
        lemma_rect_sum_congruent(fo_a, fo_b, 0, width, 0, height);
        if bxhi > bxlo {
            lemma_rect_sum_empty_cols(fo_a, bxlo, bxhi, bylo, byhi);
            lemma_rect_sum_empty_cols(fo_b, bxlo, bxhi, bylo, byhi);
            lemma_rect_sum_empty_cols(fm, bxlo, bxhi, bylo, byhi);
        }
    } else {
        assert(0 <= bxlo && bxlo < bxhi && bxhi <= width);
        assert(0 <= bylo && bylo < byhi && byhi <= height);
        // Outside the clamped box nothing is painted, so the per-pixel
        // errors of `after` and `before` agree there.
        assert forall|x: int, y: int|
            0 <= x < width && 0 <= y < height && !(bxlo <= x < bxhi && bylo <= y
                < byhi) implies #[trigger] fo_a(x, y) == fo_b(x, y) by {
            assert(!painted(c, width, height, x, y));
            assert(after[x][y] == before[x][y]);
        }
        // Inside the box, the committed canvas shows exactly the colors the
        // modified score predicted.
        assert forall|x: int, y: int|
            bxlo <= x < bxhi && bylo <= y < byhi implies #[trigger] fo_a(x, y) == fm(x, y) by {
            if circle_contains(c, x, y) {
                assert(painted(c, width, height, x, y));
                assert(after[x][y] == c.c);
            } else {
                assert(!painted(c, width, height, x, y));
                assert(after[x][y] == before[x][y]);
            }
        }
        lemma_rect_sum_congruent(fo_a, fm, bxlo, bxhi, bylo, byhi);
        // Split the whole image into the left strip, the box columns, and
        // the right strip, and the box columns into the strip above, the
        // box, and the strip below.
        lemma_rect_sum_split_x(fo_a, 0, bxlo, width, 0, height);
        lemma_rect_sum_split_x(fo_a, bxlo, bxhi, width, 0, height);
        lemma_rect_sum_split_x(fo_b, 0, bxlo, width, 0, height);
        lemma_rect_sum_split_x(fo_b, bxlo, bxhi, width, 0, height);
        lemma_rect_sum_split_y(fo_a, bxlo, bxhi, 0, bylo, height);
        lemma_rect_sum_split_y(fo_a, bxlo, bxhi, bylo, byhi, height);
        lemma_rect_sum_split_y(fo_b, bxlo, bxhi, 0, bylo, height);
        lemma_rect_sum_split_y(fo_b, bxlo, bxhi, bylo, byhi, height);
        // The strips agree pairwise.
        lemma_rect_sum_congruent(fo_a, fo_b, 0, bxlo, 0, height);
        lemma_rect_sum_congruent(fo_a, fo_b, bxhi, width, 0, height);
        lemma_rect_sum_congruent(fo_a, fo_b, bxlo, bxhi, 0, bylo);
        lemma_rect_sum_congruent(fo_a, fo_b, bxlo, bxhi, byhi, height);
    }
}

} // verus!
