use circlefit::canvas::{black_canvas, update_pixels};
use circlefit::color::Color;
use circlefit::score::{image_error_total, shape_improves_image};
use circlefit::shape::Circle;

fn red() -> Color {
    Color { r: 255, g: 0, b: 0 }
}

fn solid_grid(width: usize, height: usize, c: Color) -> Vec<Vec<Color>> {
    vec![vec![c; height]; width]
}

#[test]
fn red_circle_on_black_canvas_improves_red_target() {
    // The concrete acceptance scenario: a 4x4 all-red target, an all-black
    // canvas, and a circle at (2, 2) with radius 3 covering all 16 pixels.
    let target = solid_grid(4, 4, red());
    let mut canvas = black_canvas(4, 4);
    let circle = Circle { x: 2, y: 2, r: 3, c: red() };
    assert!(shape_improves_image(&target, &canvas, 4, 4, &circle));
    update_pixels(&mut canvas, 4, 4, &circle);
    for x in 0..4 {
        for y in 0..4 {
            assert_eq!(canvas[x][y], red());
        }
    }
}

#[test]
fn tie_is_rejected() {
    // The candidate's color equals the canvas color everywhere in its box,
    // so the modified score equals the original score.
    let target = solid_grid(4, 4, red());
    let gray = Color { r: 80, g: 80, b: 80 };
    let canvas = solid_grid(4, 4, gray);
    let circle = Circle { x: 2, y: 2, r: 3, c: gray };
    assert!(!shape_improves_image(&target, &canvas, 4, 4, &circle));
}

#[test]
fn perfect_canvas_cannot_be_improved() {
    let target = solid_grid(4, 4, red());
    let canvas = solid_grid(4, 4, red());
    let circle = Circle { x: 2, y: 2, r: 3, c: Color { r: 254, g: 0, b: 0 } };
    assert!(!shape_improves_image(&target, &canvas, 4, 4, &circle));
}

#[test]
fn circle_entirely_off_canvas_never_improves() {
    let target = solid_grid(4, 4, red());
    let canvas = black_canvas(4, 4);
    let circle = Circle { x: -10, y: 2, r: 2, c: red() };
    assert!(!shape_improves_image(&target, &canvas, 4, 4, &circle));
    let mut canvas2 = black_canvas(4, 4);
    update_pixels(&mut canvas2, 4, 4, &circle);
    assert_eq!(canvas2, black_canvas(4, 4));
}

#[test]
fn partially_clamped_circle_touches_only_canvas_pixels() {
    // A circle hanging off the top-left corner: only in-bounds pixels of its
    // box may change, and pixels outside the box stay black.
    let mut canvas = black_canvas(3, 3);
    let circle = Circle { x: 0, y: 0, r: 2, c: red() };
    update_pixels(&mut canvas, 3, 3, &circle);
    // The clamped box is [0,2) x [0,2); (2, y) and (x, 2) are untouched.
    for i in 0..3 {
        assert_eq!(canvas[2][i], Color::black());
        assert_eq!(canvas[i][2], Color::black());
    }
    // Covered pixels inside the clamped box were recolored.
    assert_eq!(canvas[0][0], red());
    assert_eq!(canvas[1][0], red());
    assert_eq!(canvas[0][1], red());
    assert_eq!(canvas[1][1], red());
}

#[test]
fn uncovered_box_pixels_keep_their_color() {
    // Radius 1 at (1, 1) on 3x3: the half-open box is [0, 2) x [0, 2).
    // (0, 0) lies in the box but at squared distance 2 > 1, so it keeps its
    // color; (2, 1) is on the circle but beyond the box's exclusive right
    // edge, so it is never painted.
    let mut canvas = black_canvas(3, 3);
    let circle = Circle { x: 1, y: 1, r: 1, c: red() };
    update_pixels(&mut canvas, 3, 3, &circle);
    assert_eq!(canvas[1][1], red());
    assert_eq!(canvas[1][0], red());
    assert_eq!(canvas[0][1], red());
    assert_eq!(canvas[0][0], Color::black());
    assert_eq!(canvas[2][1], Color::black());
    assert_eq!(canvas[2][2], Color::black());
}

#[test]
fn image_error_of_black_canvas_against_red_target() {
    let target = solid_grid(4, 4, red());
    let canvas = black_canvas(4, 4);
    // Every pixel contributes dist(black, red) == 255.
    assert_eq!(image_error_total(&target, &canvas, 4, 4), 16 * 255);
    let perfect = solid_grid(4, 4, red());
    assert_eq!(image_error_total(&target, &perfect, 4, 4), 0);
}

#[test]
fn scoring_is_idempotent() {
    let target = solid_grid(5, 5, Color { r: 3, g: 141, b: 59 });
    let canvas = black_canvas(5, 5);
    let circle = Circle { x: 2, y: 2, r: 1, c: Color { r: 2, g: 140, b: 60 } };
    let first = shape_improves_image(&target, &canvas, 5, 5, &circle);
    let second = shape_improves_image(&target, &canvas, 5, 5, &circle);
    assert_eq!(first, second);
}

#[test]
fn accepted_shape_strictly_reduces_box_error_and_total_error() {
    let target = solid_grid(6, 6, red());
    let mut canvas = black_canvas(6, 6);
    let circle = Circle { x: 3, y: 3, r: 2, c: red() };
    let before = image_error_total(&target, &canvas, 6, 6);
    assert!(shape_improves_image(&target, &canvas, 6, 6, &circle));
    update_pixels(&mut canvas, 6, 6, &circle);
    let after = image_error_total(&target, &canvas, 6, 6);
    assert!(after < before);
}
