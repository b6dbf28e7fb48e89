use filter::color::Color;
use filter::pixelate::{pixelate, FilterError};
use filter::raster::ColorImage;

fn c(v: u8) -> Color {
    Color::from_rgb_components(v, v, v)
}

fn color_image(width: usize, height: usize, pixels: Vec<Color>) -> ColorImage {
    ColorImage::from_pixels(width, height, pixels).expect("pixel count must match dimensions")
}

#[test]
fn pixelate_preserves_dimensions() {
    let img = color_image(4, 6, (0u8..24).map(c).collect());
    let out = pixelate(&img, 2).expect("block size 2 fits a 4x6 raster");
    assert_eq!(out.width, 4);
    assert_eq!(out.height, 6);
    assert_eq!(out.pixels.len(), 24);
}

#[test]
fn pixelate_blocks_are_uniform() {
    // 4x4 raster of 16 distinct grays, block size 2: each 2x2 output block
    // carries its block's top-left source color
    let img = color_image(4, 4, (0u8..16).map(c).collect());
    let out = pixelate(&img, 2).expect("block size 2 fits a 4x4 raster");
    for y in 0..4usize {
        for x in 0..4usize {
            let src = ((y / 2) * 2) * 4 + (x / 2) * 2;
            assert_eq!(out.pixels[y * 4 + x], c(src as u8));
        }
    }
}

#[test]
fn pixelate_clamps_partial_edge_blocks() {
    // 5 columns with block size 2 leave a one-column remainder: it joins the
    // last full block, so the whole row of output columns 4 samples column 2
    let img = color_image(5, 5, (0u8..25).map(c).collect());
    let out = pixelate(&img, 2).expect("block size 2 fits a 5x5 raster");
    for y in 0..5usize {
        let sy = if y / 2 < 2 { (y / 2) * 2 } else { 2 };
        assert_eq!(out.pixels[y * 5 + 4], c((sy * 5 + 2) as u8));
    }
}

#[test]
fn pixelate_rejects_zero_block() {
    let img = color_image(3, 3, (0u8..9).map(c).collect());
    assert_eq!(pixelate(&img, 0), Err(FilterError::DegenerateBlockSize));
}

#[test]
fn pixelate_rejects_block_equal_to_dimension() {
    let img = color_image(3, 3, (0u8..9).map(c).collect());
    assert_eq!(pixelate(&img, 3), Err(FilterError::DegenerateBlockSize));
}

#[test]
fn pixelate_rejects_block_larger_than_height() {
    let img = color_image(8, 3, (0u8..24).map(c).collect());
    assert_eq!(pixelate(&img, 4), Err(FilterError::DegenerateBlockSize));
}
