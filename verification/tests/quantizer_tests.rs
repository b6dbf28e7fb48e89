use filter::color::Color;
use filter::palette::{Palette, PaletteStore};
use filter::quantizer::{apply_palette, fallback_palette};
use filter::raster::ColorImage;

fn c(r: u8, g: u8, b: u8) -> Color {
    Color::from_rgb_components(r, g, b)
}

fn color_image(width: usize, height: usize, pixels: Vec<Color>) -> ColorImage {
    ColorImage::from_pixels(width, height, pixels).expect("pixel count must match dimensions")
}

fn named_palette(colors: Vec<Color>) -> Palette {
    Palette {
        name: String::from("test palette"),
        description: String::from("constructed in a test"),
        colors,
    }
}

#[test]
fn apply_palette_installs_loaded_colors() {
    let img = color_image(2, 1, vec![c(10, 10, 10), c(240, 20, 20)]);
    let mut store = PaletteStore::new();
    let pal = named_palette(vec![c(0, 0, 0), c(255, 0, 0)]);
    let out = apply_palette(&img, &mut store, Some(&pal));
    assert_eq!(store.colors, vec![c(0, 0, 0), c(255, 0, 0)]);
    assert_eq!(out.pixels, vec![c(0, 0, 0), c(255, 0, 0)]);
}

#[test]
fn apply_palette_twice_is_idempotent() {
    let pixels: Vec<Color> =
        (0u16..9u16).map(|i| c((i * 30) as u8, (200 - i * 13) as u8, (i * 70 % 256) as u8)).collect();
    let img = color_image(3, 3, pixels);
    let pal = named_palette(vec![c(0, 0, 0), c(90, 90, 90), c(255, 255, 255), c(200, 30, 30)]);
    let mut store = PaletteStore::new();
    let once = apply_palette(&img, &mut store, Some(&pal));
    let twice = apply_palette(&once, &mut store, Some(&pal));
    assert_eq!(twice, once);
}

#[test]
fn apply_palette_with_empty_colors_falls_back() {
    // an empty loaded palette leaves the current (default) colors active
    let img = color_image(1, 1, vec![c(250, 5, 5)]);
    let mut store = PaletteStore::new();
    let pal = named_palette(Vec::new());
    let out = apply_palette(&img, &mut store, Some(&pal));
    assert_eq!(store.colors.len(), 8);
    assert_eq!(out.pixels, vec![c(255, 0, 0)]);
}

#[test]
fn apply_palette_without_load_uses_active_palette() {
    let img = color_image(1, 1, vec![c(5, 250, 5)]);
    let mut store = PaletteStore::new();
    let out = apply_palette(&img, &mut store, None);
    assert_eq!(out.pixels, vec![c(0, 255, 0)]);
}

#[test]
fn fallback_palette_resets_degenerate_store() {
    // a store holding a single color is degenerate: it is reset to the default set
    let img = color_image(1, 1, vec![c(250, 250, 250)]);
    let mut store = PaletteStore { colors: vec![c(9, 9, 9)] };
    let out = fallback_palette(&img, &mut store);
    assert_eq!(store.colors.len(), 8);
    assert_eq!(out.pixels, vec![c(255, 255, 255)]);
}

#[test]
fn fallback_palette_keeps_usable_store() {
    let img = color_image(1, 1, vec![c(250, 250, 250)]);
    let mut store = PaletteStore { colors: vec![c(1, 1, 1), c(250, 250, 250)] };
    let out = fallback_palette(&img, &mut store);
    assert_eq!(store.colors, vec![c(1, 1, 1), c(250, 250, 250)]);
    assert_eq!(out.pixels, vec![c(250, 250, 250)]);
}
