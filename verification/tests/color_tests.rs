use circlefit::color::{Color, Palette};
use rand::SeedableRng;

#[test]
fn black_is_all_zero() {
    let c = Color::black();
    assert_eq!(c, Color { r: 0, g: 0, b: 0 });
}

#[test]
fn dist_of_equal_colors_is_zero() {
    let a = Color { r: 17, g: 200, b: 3 };
    assert_eq!(a.dist(&a), 0);
}

#[test]
fn dist_single_channel_is_the_difference() {
    let red = Color { r: 255, g: 0, b: 0 };
    let black = Color::black();
    assert_eq!(black.dist(&red), 255);
    assert_eq!(red.dist(&black), 255);
}

#[test]
fn dist_is_truncated_euclidean() {
    // 3-4-0 triangle: sqrt(9 + 16) == 5 exactly.
    let a = Color { r: 1, g: 2, b: 3 };
    let b = Color { r: 4, g: 6, b: 3 };
    assert_eq!(a.dist(&b), 5);
    // sqrt(1 + 1) == 1.41..., truncated to 1.
    let c = Color { r: 1, g: 1, b: 0 };
    assert_eq!(c.dist(&Color::black()), 1);
}

#[test]
fn dist_maximum_is_441() {
    let white = Color { r: 255, g: 255, b: 255 };
    // floor(sqrt(3 * 255 * 255)) == floor(441.67) == 441.
    assert_eq!(white.dist(&Color::black()), 441);
}

#[test]
fn empty_palette_is_refused() {
    assert!(Palette::from_colors(Vec::new()).is_none());
}

#[test]
fn nonempty_palette_is_accepted() {
    let p = Palette::from_colors(vec![Color { r: 9, g: 8, b: 7 }]);
    assert!(p.is_some());
}

#[test]
fn sampling_a_singleton_palette_returns_its_color() {
    let only = Color { r: 12, g: 34, b: 56 };
    let palette = Palette::from_colors(vec![only]).unwrap();
    let mut rng = rand::rngs::StdRng::seed_from_u64(7);
    for _ in 0..20 {
        assert_eq!(Color::rand(&mut rng, &palette), only);
    }
}

#[test]
fn free_sampling_never_reaches_255() {
    let mut rng = rand::rngs::StdRng::seed_from_u64(11);
    for _ in 0..200 {
        let c = Color::rand(&mut rng, &Palette::Free);
        assert!(c.r < 255 && c.g < 255 && c.b < 255);
    }
}
