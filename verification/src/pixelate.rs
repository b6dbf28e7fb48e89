//! The Pixelate operation: the raster is downsampled by nearest-neighbor
//! sampling to `(width / blockSize, height / blockSize)` and then upsampled
//! by nearest-neighbor sampling back to the original dimensions. The two
//! resampling passes compose into one per-pixel map: output pixel `(x, y)`
//! takes the color of the source pixel at the top-left corner of its block.
//!
//! A block size of zero, or one at least as large as either dimension,
//! would make the intermediate raster degenerate and is rejected before any
//! resampling runs.

use vstd::prelude::*;
use crate::color::Color;
use crate::raster::{ColorImage, ColorGrid, lemma_row_major_index};
use vstd::arithmetic::div_mod::{
    lemma_fundamental_div_mod_converse,
    lemma_remainder,
    lemma_div_pos_is_pos,
    lemma_div_non_zero,
};
use vstd::arithmetic::mul::{
    lemma_mul_inequality,
    lemma_mul_is_distributive_sub_other_way,
    lemma_mul_nonnegative,
};

verus! {

/// Failure of a pipeline operation.
#[derive(Clone, Copy, Debug, PartialEq, Eq, Structural)]
pub enum FilterError {
    /// The pixelation block size would produce a zero-sized intermediate
    /// raster.
    DegenerateBlockSize,
}

impl FilterError {
    /// A short description of the failure, for diagnostics.
    pub fn describe(&self) -> (r: &'static str)
        ensures
            self is DegenerateBlockSize ==> r@ =~= "pixelation block size leaves a zero-sized intermediate raster"@,
    {
        match self {
            FilterError::DegenerateBlockSize => "pixelation block size leaves a zero-sized intermediate raster",
        }
    }
}

/// A block size that would downsample `g` to a zero-sized intermediate
/// raster (or is zero itself).
pub open spec fn degenerate_block(g: ColorGrid, b: int) -> bool {
    b <= 0 || b >= g.width || b >= g.height
}

/// The source coordinate an output coordinate `x` samples from, along one
/// axis of length `len` with `small = len / b` blocks: the top-left corner
/// of block `x / b`, clamped to the last full block.
pub open spec fn block_source(b: int, small: int, x: int) -> int {
    let k = x / b;
    if k < small {
        k * b
    } else {
        (small - 1) * b
    }
}

/// Model of the Pixelate operation: dimensions unchanged, every output
/// pixel replaced by the source pixel at its block's sampling corner.
pub open spec fn pixelated(g: ColorGrid, b: int) -> ColorGrid
    recommends
        !degenerate_block(g, b),
{
    let sw = g.width / b;
    let sh = g.height / b;
    ColorGrid {
        width: g.width,
        height: g.height,
        pix: Seq::new(
            (g.width * g.height) as nat,
            |i: int|
                g.pix[block_source(b, sh, i / g.width) * g.width + block_source(
                    b,
                    sw,
                    i % g.width,
                )],
        ),
    }
}

/// The sampling corner of any in-range coordinate is itself in range.
proof fn lemma_block_source_in_range(b: int, len: int, x: int)
    requires
        1 <= b < len,
        0 <= x < len,
    ensures
        0 <= block_source(b, len / b, x) <= len - b,
{
    let small = len / b;
    let k = x / b;
    lemma_div_pos_is_pos(x, b);
    lemma_div_non_zero(len, b);
    lemma_remainder(len, b);
    lemma_mul_is_distributive_sub_other_way(b, small, 1);
    assert(small * b <= len);
    if k < small {
        lemma_mul_inequality(k, small - 1, b);
        lemma_mul_nonnegative(k, b);
    } else {
        lemma_mul_nonnegative(small - 1, b);
    }
}

/// Pixelates a full-color raster with the given block size; rejects a block
/// size that would make the intermediate raster degenerate.
pub fn pixelate(image: &ColorImage, pixel_size: u32) -> (r: Result<ColorImage, FilterError>)
    requires
        image.wf(),
    ensures
        match r {
            Ok(out) => {
                &&& !degenerate_block(image@, pixel_size as int)
                &&& out@ == pixelated(image@, pixel_size as int)
                &&& out.wf()
            },
            Err(e) => {
                &&& degenerate_block(image@, pixel_size as int)
                &&& e == FilterError::DegenerateBlockSize
            },
        },
{
    let w = image.width;
    let h = image.height;
    let b = pixel_size as usize;
    if b == 0 || b >= w || b >= h {
        return Err(FilterError::DegenerateBlockSize);
    }
    let sw = w / b;
    let sh = h / b;
    proof {
        lemma_div_non_zero(w as int, b as int);
        lemma_div_non_zero(h as int, b as int);
    }
    let ghost model = pixelated(image@, b as int);
    let mut pixels: Vec<Color> = Vec::new();
    let mut y: usize = 0;
    while y < h
        invariant
            image.wf(),
            w == image@.width,
            h == image@.height,
            1 <= b < w,
            b < h,
            sw == w as int / b as int,
            sh == h as int / b as int,
            1 <= sw,
            1 <= sh,
            model == pixelated(image@, b as int),
            y <= h,
            pixels@.len() == y * w,
            forall|i: int| 0 <= i < y * w ==> pixels@[i] == model.pix[i],
        decreases h - y,
    {
        let yb = y / b;
        let sy = if yb < sh {
            yb
        } else {
            sh - 1
        };
        proof {
            lemma_block_source_in_range(b as int, h as int, y as int);
            assert(sy * b == block_source(b as int, sh as int, y as int));
        }
        let src_y = sy * b;
        let mut x: usize = 0;
        while x < w
            invariant
                image.wf(),
                w == image@.width,
                h == image@.height,
                1 <= b < w,
                b < h,
                sw == w as int / b as int,
                sh == h as int / b as int,
                1 <= sw,
                1 <= sh,
                model == pixelated(image@, b as int),
                y < h,
                x <= w,
                src_y == block_source(b as int, sh as int, y as int),
                src_y < h,
                pixels@.len() == y * w + x,
                forall|i: int| 0 <= i < y * w + x ==> pixels@[i] == model.pix[i],
            decreases w - x,
        {
            let xb = x / b;
            let sx = if xb < sw {
                xb
            } else {
                sw - 1
            };
            proof {
                lemma_block_source_in_range(b as int, w as int, x as int);
                assert(sx * b == block_source(b as int, sw as int, x as int));
            }
            let src_x = sx * b;
            let c = image.get(src_x, src_y);
            proof {
                lemma_row_major_index(w as int, h as int, x as int, y as int);
                lemma_fundamental_div_mod_converse(
                    y * w + x,
                    w as int,
                    y as int,
                    x as int,
                );
                assert(model.pix[y * w + x] == c);
            }
            pixels.push(c);
            proof {
                assert(pixels@.len() == y * w + x + 1);
            }
            x = x + 1;
        }
        proof {
            assert(y * w + w == (y + 1) * w) by (nonlinear_arith);
        }
        y = y + 1;
    }
    proof {
        lemma_row_major_index(w as int, h as int, 0, h as int - 1);
        assert(pixels@ =~= model.pix);
    }
    Ok(ColorImage { width: w, height: h, pixels })
}

/// Pixelation preserves the raster's dimensions, and any two output pixels
/// whose coordinates fall in the same block carry the same color.
pub proof fn lemma_pixelate_blocks_uniform(g: ColorGrid, b: int, x1: int, y1: int, x2: int, y2: int)
    requires
        !degenerate_block(g, b),
        0 <= x1 < g.width,
        0 <= y1 < g.height,
        0 <= x2 < g.width,
        0 <= y2 < g.height,
        x1 / b == x2 / b,
        y1 / b == y2 / b,
    ensures
        pixelated(g, b).width == g.width,
        pixelated(g, b).height == g.height,
        pixelated(g, b).pix[y1 * g.width + x1] == pixelated(g, b).pix[y2 * g.width + x2],
{
    let w = g.width;
    let h = g.height;
    lemma_row_major_index(w, h, x1, y1);
    lemma_row_major_index(w, h, x2, y2);
    lemma_fundamental_div_mod_converse(y1 * w + x1, w, y1, x1);
    lemma_fundamental_div_mod_converse(y2 * w + x2, w, y2, x2);
}

} // verus!
