//! The search driver: a stochastic hill climb that proposes one random
//! circle per iteration, keeps it only when it strictly reduces the error
//! against the target, and reports progress as it goes.

use vstd::prelude::*;
use std::io::Write;
use crate::color::{Color, Palette};
use crate::shape::{Circle, painted};
use crate::canvas::{gv, grid_wf, update_pixels};
use crate::score::{improves, image_error, original_score, shape_improves_image, lemma_committed_shape_error};

verus! {

/// Relies on std::io::Stdout::write_fmt (through the `write!` macro): emits
/// the in-place percentage counter on standard output. Purely observational;
/// a write failure is ignored, as the counter is not part of the result.
#[verifier::external_body]
fn emit_progress(pct: u64) {
    let _ = write!(std::io::stdout(), "\u{0008}\u{0008}\u{0008}\u{0008}{:3}%", pct);
}

/// Relies on std::io::Stdout::flush: pushes the progress counter out so it
/// is visible before the next iteration.
#[verifier::external_body]
fn flush_progress() {
    let _ = std::io::stdout().flush();
}

/// One accept-or-reject step: scores the candidate against the current
/// canvas and commits it only on strict improvement. A rejected candidate
/// leaves the canvas bit-identical; an accepted one strictly decreases the
/// error over its clamped bounding box and with it the whole-image error.
pub fn consider_shape(
    target_pixels: &Vec<Vec<Color>>,
    current_pixels: &mut Vec<Vec<Color>>,
    width: usize,
    height: usize,
    circle: &Circle,
) -> (kept: bool)
    requires
        grid_wf(gv(target_pixels@), width as int, height as int),
        grid_wf(gv(old(current_pixels)@), width as int, height as int),
        width <= 65535,
        height <= 65535,
        circle.scorable(),
    ensures
        kept == improves(
            gv(target_pixels@),
            gv(old(current_pixels)@),
            width as int,
            height as int,
            *circle,
        ),
        grid_wf(gv(final(current_pixels)@), width as int, height as int),
        !kept ==> final(current_pixels)@ == old(current_pixels)@,
        kept ==> forall|x: int, y: int|
            0 <= x < width && 0 <= y < height ==> gv(final(current_pixels)@)[x][y] == (
            if painted(*circle, width as int, height as int, x, y) {
                circle.c
            } else {
                gv(old(current_pixels)@)[x][y]
            }),
        image_error(gv(target_pixels@), gv(final(current_pixels)@), width as int, height as int)
            <= image_error(
            gv(target_pixels@),
            gv(old(current_pixels)@),
            width as int,
            height as int,
        ),
        kept ==> image_error(
            gv(target_pixels@),
            gv(final(current_pixels)@),
            width as int,
            height as int,
        ) < image_error(gv(target_pixels@), gv(old(current_pixels)@), width as int, height as int),
        kept ==> original_score(
            gv(target_pixels@),
            gv(final(current_pixels)@),
            width as int,
            height as int,
            *circle,
        ) < original_score(
            gv(target_pixels@),
            gv(old(current_pixels)@),
            width as int,
            height as int,
            *circle,
        ),
{
    let ghost t = gv(target_pixels@);
    let ghost before = gv(old(current_pixels)@);
    let improved = shape_improves_image(target_pixels, current_pixels, width, height, circle);
    if improved {
        update_pixels(current_pixels, width, height, circle);
        proof {
            lemma_committed_shape_error(
                t,
                before,
                gv(current_pixels@),
                width as int,
                height as int,
                *circle,
            );
        }
    }
    improved
}

/// The search loop: `iterations` rounds of propose, score, and maybe
/// commit, with a deduplicated percentage counter on standard output.
/// Returns how many candidates were kept. The whole-image error never
/// increases; with zero iterations, or when nothing was kept, the canvas
/// is returned bit-identical.
pub fn run(
    rng: &mut rand::rngs::StdRng,
    target_pixels: &Vec<Vec<Color>>,
    current_pixels: &mut Vec<Vec<Color>>,
    width: usize,
    height: usize,
    iterations: u32,
) -> (kept_count: u32)
    requires
        grid_wf(gv(target_pixels@), width as int, height as int),
        grid_wf(gv(old(current_pixels)@), width as int, height as int),
        4 <= width <= 65535,
        1 <= height <= 65535,
    ensures
        kept_count <= iterations,
        grid_wf(gv(final(current_pixels)@), width as int, height as int),
        image_error(gv(target_pixels@), gv(final(current_pixels)@), width as int, height as int)
            <= image_error(
            gv(target_pixels@),
            gv(old(current_pixels)@),
            width as int,
            height as int,
        ),
        kept_count == 0 ==> final(current_pixels)@ == old(current_pixels)@,
        iterations == 0 ==> kept_count == 0 && final(current_pixels)@ == old(current_pixels)@,
{
    let ghost t = gv(target_pixels@);
    let ghost init = old(current_pixels)@;
    let palette = Palette::Free;
    let mut kept_count: u32 = 0;
    let mut last_pct: u64 = 0;
    let mut iteration: u32 = 0;
    while iteration < iterations
        invariant
            t == gv(target_pixels@),
            grid_wf(t, width as int, height as int),
            grid_wf(gv(current_pixels@), width as int, height as int),
            4 <= width <= 65535,
            1 <= height <= 65535,
            palette == Palette::Free,
            iteration <= iterations,
            kept_count <= iteration,
            image_error(t, gv(current_pixels@), width as int, height as int) <= image_error(
                t,
                gv(init),
                width as int,
                height as int,
            ),
            kept_count == 0 ==> current_pixels@ == init,
        decreases iterations - iteration,
    {
        let candidate_shape = Circle::rand(rng, width as u32, height as u32, &palette);
        proof {
            assert(candidate_shape.scorable());
        }
        let kept = consider_shape(target_pixels, current_pixels, width, height, &candidate_shape);
        if kept {
            kept_count = kept_count + 1;
        }
        let current_pct: u64 = (iteration as u64) * 100 / (iterations as u64) + 1;
        if current_pct > last_pct {
            emit_progress(current_pct);
            flush_progress();
            last_pct = current_pct;
        }
        iteration = iteration + 1;
    }
    kept_count
}

} // verus!
