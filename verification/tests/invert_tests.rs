use filter::color::Color;
use filter::invert::reverse;
use filter::raster::ColorImage;

fn c(r: u8, g: u8, b: u8) -> Color {
    Color::from_rgb_components(r, g, b)
}

fn color_image(width: usize, height: usize, pixels: Vec<Color>) -> ColorImage {
    ColorImage::from_pixels(width, height, pixels).expect("pixel count must match dimensions")
}

#[test]
fn reverse_inverts_every_channel() {
    let img = color_image(2, 1, vec![c(10, 20, 30), c(0, 255, 128)]);
    let out = reverse(&img);
    assert_eq!(out.pixels, vec![c(245, 235, 225), c(255, 0, 127)]);
}

#[test]
fn reverse_round_trip_restores_image() {
    let pixels: Vec<Color> =
        (0u16..12u16).map(|i| c((i * 21) as u8, (i * 55 % 256) as u8, (i * 89 % 256) as u8)).collect();
    let img = color_image(4, 3, pixels);
    let back = reverse(&reverse(&img));
    assert_eq!(back, img);
}
