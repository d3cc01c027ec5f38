use circlefit::color::{Color, Palette};
use circlefit::shape::Circle;
use rand::SeedableRng;

fn unit_circle_at(x: i32, y: i32, r: u32) -> Circle {
    Circle { x, y, r, c: Color::black() }
}

#[test]
fn boundary_point_is_contained() {
    // 3*3 + 4*4 == 25 == 5*5: exactly on the boundary.
    let c = unit_circle_at(0, 0, 5);
    assert!(c.contains_point(3, 4));
}

#[test]
fn point_one_unit_beyond_boundary_is_outside() {
    // 1*1 + 5*5 == 26 == 5*5 + 1: one unit of squared distance further.
    let c = unit_circle_at(0, 0, 5);
    assert!(!c.contains_point(1, 5));
}

#[test]
fn zero_radius_contains_only_center() {
    let c = unit_circle_at(2, 3, 0);
    assert!(c.contains_point(2, 3));
    assert!(!c.contains_point(2, 4));
    assert!(!c.contains_point(3, 3));
}

#[test]
fn bounding_box_is_center_plus_minus_radius() {
    let c = unit_circle_at(10, -4, 6);
    assert_eq!(c.left(), 4);
    assert_eq!(c.right(), 16);
    assert_eq!(c.top(), -10);
    assert_eq!(c.bottom(), 2);
}

#[test]
fn random_circles_respect_canvas_bounds() {
    let mut rng = rand::rngs::StdRng::seed_from_u64(3);
    for _ in 0..100 {
        let c = Circle::rand(&mut rng, 100, 50, &Palette::Free);
        assert!(0 <= c.x && c.x < 100);
        assert!(0 <= c.y && c.y < 50);
        assert!(c.r < 25);
    }
}
