use filter::color::{distance, Color};
use filter::palette::{Palette, PaletteStore};

fn c(r: u8, g: u8, b: u8) -> Color {
    Color::from_rgb_components(r, g, b)
}

fn brute_force_nearest(colors: &[Color], x: Color) -> Color {
    let mut best = colors[0];
    let mut best_d = distance(colors[0], x);
    for &entry in &colors[1..] {
        let d = distance(entry, x);
        if d < best_d {
            best = entry;
            best_d = d;
        }
    }
    best
}

#[test]
fn nearest_matches_brute_force() {
    let colors = vec![c(12, 0, 0), c(0, 200, 10), c(130, 130, 130), c(255, 255, 0), c(3, 3, 250)];
    let mut store = PaletteStore::new();
    store.set_active_palette(&colors);
    let probes = [c(0, 0, 0), c(255, 255, 255), c(128, 128, 128), c(12, 1, 0), c(200, 180, 20)];
    for &p in probes.iter() {
        assert_eq!(store.get_nearest_color(p), brute_force_nearest(&colors, p));
    }
}

#[test]
fn nearest_tie_breaks_earliest() {
    // (0,0,0) and (2,0,0) are equally far from (1,0,0): the earlier entry wins
    let mut store = PaletteStore::new();
    store.set_active_palette(&vec![c(0, 0, 0), c(2, 0, 0)]);
    assert_eq!(store.get_nearest_color(c(1, 0, 0)), c(0, 0, 0));
    // the same pair in the other order picks the other color
    store.set_active_palette(&vec![c(2, 0, 0), c(0, 0, 0)]);
    assert_eq!(store.get_nearest_color(c(1, 0, 0)), c(2, 0, 0));
}

#[test]
fn nearest_on_empty_store_is_identity() {
    let store = PaletteStore { colors: Vec::new() };
    assert_eq!(store.get_nearest_color(c(42, 43, 44)), c(42, 43, 44));
}

#[test]
fn nearest_exact_palette_entry_is_fixed() {
    let mut store = PaletteStore::new();
    store.set_active_palette(&vec![c(10, 10, 10), c(200, 0, 0)]);
    assert_eq!(store.get_nearest_color(c(200, 0, 0)), c(200, 0, 0));
}

#[test]
fn new_store_holds_default_palette() {
    let store = PaletteStore::new();
    let expected = vec![
        c(0, 0, 0),
        c(255, 255, 255),
        c(255, 0, 0),
        c(0, 255, 0),
        c(0, 0, 255),
        c(255, 255, 0),
        c(255, 0, 255),
        c(0, 255, 255),
    ];
    assert_eq!(store.colors, expected);
    // a near-red color maps to the default red
    assert_eq!(store.get_nearest_color(c(250, 5, 5)), c(255, 0, 0));
}

#[test]
fn set_active_palette_replaces_wholesale() {
    let mut store = PaletteStore::new();
    store.set_active_palette(&vec![c(1, 2, 3)]);
    assert_eq!(store.colors, vec![c(1, 2, 3)]);
}

#[test]
fn get_colors_returns_palette_order() {
    let pal = Palette {
        name: String::from("warm"),
        description: String::from("a pair of warm colors"),
        colors: vec![c(255, 0, 0), c(255, 165, 0)],
    };
    assert_eq!(pal.get_colors(), vec![c(255, 0, 0), c(255, 165, 0)]);
}
