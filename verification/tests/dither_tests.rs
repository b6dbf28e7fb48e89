use filter::color::Color;
use filter::dither::{
    apply_floyd_steinberg_dithering, floyd_steinberg_dithering, grayscale, luma, quantize,
};
use filter::raster::{ColorImage, ToneImage};

fn c(r: u8, g: u8, b: u8) -> Color {
    Color::from_rgb_components(r, g, b)
}

fn color_image(width: usize, height: usize, pixels: Vec<Color>) -> ColorImage {
    ColorImage::from_pixels(width, height, pixels).expect("pixel count must match dimensions")
}

fn tone_image(width: usize, height: usize, pixels: Vec<u8>) -> ToneImage {
    ToneImage::from_values(width, height, pixels).expect("pixel count must match dimensions")
}

#[test]
fn quantize_thresholds_at_128() {
    assert_eq!(quantize(0), 0);
    assert_eq!(quantize(127), 0);
    assert_eq!(quantize(128), 255);
    assert_eq!(quantize(255), 255);
}

#[test]
fn luma_exact_values() {
    assert_eq!(luma(c(0, 0, 0)), 0);
    assert_eq!(luma(c(255, 255, 255)), 255);
    assert_eq!(luma(c(128, 128, 128)), 128);
    // 299 * 255 / 1000 truncates to 76
    assert_eq!(luma(c(255, 0, 0)), 76);
    // 587 * 255 / 1000 truncates to 149
    assert_eq!(luma(c(0, 255, 0)), 149);
    // 114 * 255 / 1000 truncates to 29
    assert_eq!(luma(c(0, 0, 255)), 29);
}

#[test]
fn grayscale_keeps_dimensions_and_maps_luma() {
    let img = color_image(2, 1, vec![c(255, 0, 0), c(0, 0, 255)]);
    let gray = grayscale(&img);
    assert_eq!(gray.width, 2);
    assert_eq!(gray.height, 1);
    assert_eq!(gray.pixels, vec![76, 29]);
}

#[test]
fn dither_single_mid_gray_rounds_up() {
    // a single 128 pixel is at the threshold: output 255, no error remains
    let img = color_image(1, 1, vec![c(128, 128, 128)]);
    let toned = apply_floyd_steinberg_dithering(&img);
    assert_eq!(toned.width, 1);
    assert_eq!(toned.height, 1);
    assert_eq!(toned.pixels, vec![255]);
}

#[test]
fn dither_tone_pair_diffuses_east() {
    // 100 -> 0 with error 100; the east neighbor gets 200 + 100*7/16 = 243 -> 255
    let t = tone_image(2, 1, vec![100, 200]);
    let out = floyd_steinberg_dithering(&t);
    assert_eq!(out.pixels, vec![0, 255]);
}

#[test]
fn dither_two_by_two_exact() {
    // raster-scan diffusion computed by hand:
    // [100, 50 / 60, 200]
    //   pixel 0: 100 -> 0, err 100: east 50+43=93, south 60+31=91, south-east 200+6=206
    //   pixel 1: 93 -> 0, err 93: south-west 91+17=108, south 206+29=235
    //   pixel 2: 108 -> 0, err 108: east 235+47=282 clamped to 255
    //   pixel 3: 255 -> 255, err 0
    let t = tone_image(2, 2, vec![100, 50, 60, 200]);
    let out = floyd_steinberg_dithering(&t);
    assert_eq!(out.pixels, vec![0, 0, 0, 255]);
}

#[test]
fn dither_output_is_binary() {
    let pixels: Vec<Color> = (0u16..9u16)
        .map(|i| c((i * 29) as u8, (i * 53 % 256) as u8, (255 - i * 17) as u8))
        .collect();
    let img = color_image(3, 3, pixels);
    let toned = apply_floyd_steinberg_dithering(&img);
    assert_eq!(toned.width, 3);
    assert_eq!(toned.height, 3);
    for &v in toned.pixels.iter() {
        assert!(v == 0 || v == 255);
    }
}

#[test]
fn dither_is_deterministic() {
    let t = tone_image(3, 2, vec![13, 200, 90, 150, 77, 101]);
    let a = floyd_steinberg_dithering(&t);
    let b = floyd_steinberg_dithering(&t);
    assert_eq!(a, b);
}

#[test]
fn dither_boundary_error_is_dropped() {
    // 200 -> 255 leaves error -55 with no in-bounds neighbor: nothing else changes
    let t = tone_image(1, 1, vec![200]);
    let out = floyd_steinberg_dithering(&t);
    assert_eq!(out.pixels, vec![255]);
}
