use circlefit::canvas::black_canvas;
use circlefit::color::Color;
use circlefit::engine::{consider_shape, run};
use circlefit::score::image_error_total;
use circlefit::shape::Circle;
use rand::SeedableRng;

fn red() -> Color {
    Color { r: 255, g: 0, b: 0 }
}

fn solid_grid(width: usize, height: usize, c: Color) -> Vec<Vec<Color>> {
    vec![vec![c; height]; width]
}

#[test]
fn zero_iterations_keep_nothing_and_change_nothing() {
    let target = solid_grid(4, 4, red());
    let mut canvas = black_canvas(4, 4);
    let mut rng = rand::rngs::StdRng::seed_from_u64(1);
    let kept = run(&mut rng, &target, &mut canvas, 4, 4, 0);
    assert_eq!(kept, 0);
    assert_eq!(canvas, black_canvas(4, 4));
}

#[test]
fn accepted_candidate_is_committed_and_reduces_error() {
    let target = solid_grid(4, 4, red());
    let mut canvas = black_canvas(4, 4);
    let circle = Circle { x: 2, y: 2, r: 3, c: red() };
    let before = image_error_total(&target, &canvas, 4, 4);
    let kept = consider_shape(&target, &mut canvas, 4, 4, &circle);
    assert!(kept);
    let after = image_error_total(&target, &canvas, 4, 4);
    assert!(after < before);
    for x in 0..4 {
        for y in 0..4 {
            assert_eq!(canvas[x][y], red());
        }
    }
}

#[test]
fn rejected_candidate_leaves_canvas_bit_identical() {
    let target = solid_grid(4, 4, red());
    // The candidate matches the canvas color: a tie, so it is rejected and
    // the canvas must be untouched.
    let gray = Color { r: 80, g: 80, b: 80 };
    let mut canvas = solid_grid(4, 4, gray);
    let snapshot = canvas.clone();
    let circle = Circle { x: 2, y: 2, r: 3, c: gray };
    let kept = consider_shape(&target, &mut canvas, 4, 4, &circle);
    assert!(!kept);
    assert_eq!(canvas, snapshot);
}

#[test]
fn error_never_increases_across_a_run() {
    let target = solid_grid(8, 8, Color { r: 40, g: 190, b: 230 });
    let mut canvas = black_canvas(8, 8);
    let before = image_error_total(&target, &canvas, 8, 8);
    let mut rng = rand::rngs::StdRng::seed_from_u64(5);
    let kept = run(&mut rng, &target, &mut canvas, 8, 8, 200);
    assert!(kept <= 200);
    let after = image_error_total(&target, &canvas, 8, 8);
    assert!(after <= before);
}

#[test]
fn fixed_seed_reproduces_canvas_and_kept_count() {
    let target = solid_grid(8, 8, Color { r: 200, g: 50, b: 30 });

    let mut canvas_a = black_canvas(8, 8);
    let mut rng_a = rand::rngs::StdRng::seed_from_u64(42);
    let kept_a = run(&mut rng_a, &target, &mut canvas_a, 8, 8, 150);

    let mut canvas_b = black_canvas(8, 8);
    let mut rng_b = rand::rngs::StdRng::seed_from_u64(42);
    let kept_b = run(&mut rng_b, &target, &mut canvas_b, 8, 8, 150);

    assert_eq!(kept_a, kept_b);
    assert_eq!(canvas_a, canvas_b);
}

#[test]
fn different_seeds_may_disagree_but_both_stay_sound() {
    let target = solid_grid(6, 6, Color { r: 10, g: 220, b: 10 });
    let mut canvas = black_canvas(6, 6);
    let mut rng = rand::rngs::StdRng::seed_from_u64(9);
    let kept = run(&mut rng, &target, &mut canvas, 6, 6, 50);
    assert!(kept <= 50);
    if kept == 0 {
        assert_eq!(canvas, black_canvas(6, 6));
    }
}
