//! Raster image transformations: palette quantization, pixelation,
//! Floyd-Steinberg dithering, and color inversion, chained as an ordered
//! pipeline over a single image.

pub mod color;
pub mod dither;
pub mod invert;
pub mod palette;
pub mod pipeline;
pub mod pixelate;
pub mod quantizer;
pub mod raster;
