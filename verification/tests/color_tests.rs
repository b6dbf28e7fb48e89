use filter::color::{distance, Color};

fn c(r: u8, g: u8, b: u8) -> Color {
    Color::from_rgb_components(r, g, b)
}

#[test]
fn from_rgb_components_fields() {
    let col = Color::from_rgb_components(1, 2, 3);
    assert_eq!(col.r, 1);
    assert_eq!(col.g, 2);
    assert_eq!(col.b, 3);
}

#[test]
fn distance_is_squared_euclidean() {
    assert_eq!(distance(c(0, 0, 0), c(255, 0, 0)), 255 * 255);
    assert_eq!(distance(c(10, 20, 30), c(13, 24, 30)), 9 + 16);
    assert_eq!(distance(c(0, 0, 0), c(255, 255, 255)), 3 * 255 * 255);
}

#[test]
fn distance_zero_only_on_equal() {
    assert_eq!(distance(c(7, 8, 9), c(7, 8, 9)), 0);
    assert!(distance(c(7, 8, 9), c(7, 8, 10)) > 0);
}

#[test]
fn distance_is_symmetric() {
    let a = c(1, 200, 33);
    let b = c(99, 3, 250);
    assert_eq!(distance(a, b), distance(b, a));
}
