//! The RGB color model: an 8-bit triple with a truncated-Euclidean distance
//! metric, and random sampling, optionally constrained to a palette.

use vstd::prelude::*;
use crate::rng::rng_range_usize;

verus! {

/// An RGB triple. Channels are 8-bit; there is no alpha.
#[derive(Clone, Copy, PartialEq, Eq, Structural, Debug)]
pub struct Color {
    pub r: u8,
    pub g: u8,
    pub b: u8,
}

/// The mathematical floor of the square root of `n` (0 for negative `n`).
pub open spec fn floor_sqrt(n: int) -> int
    decreases n,
{
    if n < 1 {
        0
    } else {
        let r = floor_sqrt(n - 1);
        if (r + 1) * (r + 1) <= n {
            r + 1
        } else {
            r
        }
    }
}

/// `floor_sqrt(n)` is the unique non-negative root: its square is at most
/// `n`, and the next square is beyond `n`.
pub proof fn lemma_floor_sqrt(n: int)
    requires
        n >= 0,
    ensures
        0 <= floor_sqrt(n),
        floor_sqrt(n) * floor_sqrt(n) <= n,
        n < (floor_sqrt(n) + 1) * (floor_sqrt(n) + 1),
    decreases n,
{
    if n == 0 {
    } else {
        lemma_floor_sqrt(n - 1);
        let r0 = floor_sqrt(n - 1);
        if (r0 + 1) * (r0 + 1) <= n {
            assert((r0 + 1) * (r0 + 1) < (r0 + 2) * (r0 + 2)) by (nonlinear_arith)
                requires r0 >= 0;
        }
    }
}

/// A non-negative number with the two bracketing properties is the floor
/// square root.
pub proof fn lemma_floor_sqrt_unique(n: int, r: int)
    requires
        n >= 0,
        0 <= r,
        r * r <= n,
        n < (r + 1) * (r + 1),
    ensures
        floor_sqrt(n) == r,
{
    lemma_floor_sqrt(n);
    let s = floor_sqrt(n);
    if s < r {
        assert((s + 1) * (s + 1) <= r * r) by (nonlinear_arith)
            requires 0 <= s, s + 1 <= r;
    }
    if r < s {
        assert((r + 1) * (r + 1) <= s * s) by (nonlinear_arith)
            requires 0 <= r, r + 1 <= s;
    }
}

/// The sum of the squared per-channel differences of two colors.
pub open spec fn dist_sq(a: Color, b: Color) -> int {
    let dr = a.r - b.r;
    let dg = a.g - b.g;
    let db = a.b - b.b;
    dr * dr + dg * dg + db * db
}

/// The scoring metric between two colors: the truncated square root of the
/// summed squared channel differences. Note that the square root is applied
/// per color pair; the scorer then sums these rooted distances linearly
/// across pixels.
pub open spec fn color_dist(a: Color, b: Color) -> int {
    floor_sqrt(dist_sq(a, b))
}

/// The distance between two colors lies in [0, 441]
/// (441 = floor_sqrt(3 * 255 * 255)).
pub proof fn lemma_color_dist_bound(a: Color, b: Color)
    ensures
        0 <= dist_sq(a, b) <= 195075,
        0 <= color_dist(a, b) <= 441,
{
    let dr = a.r - b.r;
    let dg = a.g - b.g;
    let db = a.b - b.b;
    assert(0 <= dr * dr <= 65025) by (nonlinear_arith)
        requires -255 <= dr <= 255;
    assert(0 <= dg * dg <= 65025) by (nonlinear_arith)
        requires -255 <= dg <= 255;
    assert(0 <= db * db <= 65025) by (nonlinear_arith)
        requires -255 <= db <= 255;
    lemma_floor_sqrt(dist_sq(a, b));
    let s = color_dist(a, b);
    if s > 441 {
        assert(442 * 442 <= s * s) by (nonlinear_arith)
            requires 442 <= s;
    }
}

/// A restriction on the colors that sampling may produce: either none, or a
/// fixed non-empty sequence of colors picked from by index.
pub enum Palette {
    Free,
    Colors(Vec<Color>),
}

impl Palette {
    /// A fixed palette must be non-empty; sampling picks an element by index.
    pub open spec fn wf(&self) -> bool {
        self matches Palette::Colors(cs) ==> cs@.len() > 0
    }

    /// Builds a fixed palette, refusing an empty color list so that sampling
    /// from the palette is always possible.
    pub fn from_colors(colors: Vec<Color>) -> (p: Option<Palette>)
        ensures
            p is Some <==> colors@.len() > 0,
            p matches Some(q) ==> q == Palette::Colors(colors) && q.wf(),
    {
        if colors.len() == 0 {
            None
        } else {
            Some(Palette::Colors(colors))
        }
    }
}

/// Which colors a palette admits as a sample: any member of a fixed palette;
/// with no palette, each channel is drawn from [0, 255), so 255 itself never
/// appears.
pub open spec fn palette_admits(p: Palette, c: Color) -> bool {
    match p {
        Palette::Free => c.r < 255 && c.g < 255 && c.b < 255,
        Palette::Colors(cs) => exists|i: int| 0 <= i < cs@.len() && c == cs@[i],
    }
}

impl Color {
    /// The all-zero color, used to initialize the canvas.
    pub fn black() -> (c: Color)
        ensures
            c == (Color { r: 0, g: 0, b: 0 }),
    {
        Color { r: 0, g: 0, b: 0 }
    }

    /// Draws a random color: a uniformly chosen palette element, or, with no
    /// palette, three channels drawn independently from [0, 255).
    pub fn rand(rng: &mut rand::rngs::StdRng, palette: &Palette) -> (c: Color)
        requires
            palette.wf(),
        ensures
            palette_admits(*palette, c),
    {
        match palette {
            Palette::Colors(cs) => {
                let index = rng_range_usize(rng, 0, cs.len());
                cs[index]
            },
            Palette::Free => {
                let r = rng_range_usize(rng, 0, 255);
                let g = rng_range_usize(rng, 0, 255);
                let b = rng_range_usize(rng, 0, 255);
                Color { r: r as u8, g: g as u8, b: b as u8 }
            },
        }
    }

    /// The scoring distance to another color: per-channel absolute
    /// differences, the sum of their squares, then a truncated square root.
    pub fn dist(&self, other: &Color) -> (d: u32)
        ensures
            d == color_dist(*self, *other),
            0 <= d <= 441,
    {
        let dr: u32 = if self.r >= other.r {
            (self.r - other.r) as u32
        } else {
            (other.r - self.r) as u32
        };
        let dg: u32 = if self.g >= other.g {
            (self.g - other.g) as u32
        } else {
            (other.g - self.g) as u32
        };
        let db: u32 = if self.b >= other.b {
            (self.b - other.b) as u32
        } else {
            (other.b - self.b) as u32
        };
        proof {
            lemma_color_dist_bound(*self, *other);
            assert(dr * dr == (self.r - other.r) * (self.r - other.r)) by (nonlinear_arith)
                requires dr == self.r - other.r || dr == other.r - self.r;
            assert(dg * dg == (self.g - other.g) * (self.g - other.g)) by (nonlinear_arith)
                requires dg == self.g - other.g || dg == other.g - self.g;
            assert(db * db == (self.b - other.b) * (self.b - other.b)) by (nonlinear_arith)
                requires db == self.b - other.b || db == other.b - self.b;
        }
        let sq_sum: u32 = dr * dr + dg * dg + db * db;
        assert(sq_sum == dist_sq(*self, *other));
        let mut root: u32 = 0;
        let mut next_sq: u32 = 1;
        while next_sq <= sq_sum
            invariant
                root <= 441,
                root * root <= sq_sum,
                sq_sum <= 195075,
                next_sq == (root + 1) * (root + 1),
                next_sq <= 195364,
            decreases 442 - root,
        {
            proof {
                assert(root < 441) by {
                    if root == 441 {
                        assert(next_sq == 442 * 442) by (nonlinear_arith)
                            requires next_sq == (root + 1) * (root + 1), root == 441;
                    }
                };
                assert((root + 2) * (root + 2) == (root + 1) * (root + 1) + 2 * (root + 2) - 1)
                    by (nonlinear_arith);
                assert((root + 2) * (root + 2) <= 195364) by (nonlinear_arith)
                    requires root + 2 <= 442;
            }
            root = root + 1;
            next_sq = next_sq + 2 * root + 1;
        }
        proof {
            lemma_floor_sqrt_unique(sq_sum as int, root as int);
        }
        root
    }
}

} // verus!
