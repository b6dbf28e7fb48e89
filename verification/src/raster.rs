//! Raster types. An image in the pipeline is in exactly one of two
//! representations: full color (3 channels per pixel) or tone (a single
//! channel per pixel, produced only by dithering). Both store their pixels
//! row-major: left-to-right, top-to-bottom.

use vstd::prelude::*;
use crate::color::Color;

verus! {

/// Mathematical model of a full-color raster: its dimensions and the
/// row-major sequence of pixels.
#[verifier::ext_equal]
pub ghost struct ColorGrid {
    pub width: int,
    pub height: int,
    pub pix: Seq<Color>,
}

/// Mathematical model of a single-channel tone raster.
#[verifier::ext_equal]
pub ghost struct ToneGrid {
    pub width: int,
    pub height: int,
    pub pix: Seq<u8>,
}

/// A width x height full-color raster.
#[verifier::ext_equal]
#[derive(Clone, Debug, PartialEq)]
pub struct ColorImage {
    pub width: usize,
    pub height: usize,
    pub pixels: Vec<Color>,
}

/// A width x height single-channel raster.
#[verifier::ext_equal]
#[derive(Clone, Debug, PartialEq)]
pub struct ToneImage {
    pub width: usize,
    pub height: usize,
    pub pixels: Vec<u8>,
}

impl View for ColorImage {
    type V = ColorGrid;

    open spec fn view(&self) -> ColorGrid {
        ColorGrid { width: self.width as int, height: self.height as int, pix: self.pixels@ }
    }
}

impl View for ToneImage {
    type V = ToneGrid;

    open spec fn view(&self) -> ToneGrid {
        ToneGrid { width: self.width as int, height: self.height as int, pix: self.pixels@ }
    }
}

/// A raster is well formed when it stores exactly one pixel for each of its
/// width x height cells.
pub open spec fn grid_wf(width: int, height: int, len: nat) -> bool {
    len == width * height
}

/// The pixel at column `x`, row `y` of a row-major raster sits at index
/// `y * width + x`, which is always inside the buffer.
pub proof fn lemma_row_major_index(w: int, h: int, x: int, y: int)
    requires
        0 <= x < w,
        0 <= y < h,
    ensures
        0 <= y * w + x < h * w,
        h * w == w * h,
{
    assert(0 <= y * w + x < h * w) by (nonlinear_arith)
        requires
            0 <= x < w,
            0 <= y < h,
    ;
    assert(h * w == w * h) by (nonlinear_arith);
}

impl ColorImage {
    pub open spec fn wf(self) -> bool {
        grid_wf(self@.width, self@.height, self@.pix.len())
    }

    /// Builds a raster from a row-major pixel buffer; rejects a buffer whose
    /// length does not match the dimensions.
    pub fn from_pixels(width: usize, height: usize, pixels: Vec<Color>) -> (r: Option<ColorImage>)
        ensures
            match r {
                Some(img) => {
                    &&& img@ == (ColorGrid {
                        width: width as int,
                        height: height as int,
                        pix: pixels@,
                    })
                    &&& img.wf()
                },
                None => pixels@.len() != width * height,
            },
    {
        let len = pixels.len();
        match width.checked_mul(height) {
            Some(n) if n == len => Some(ColorImage { width, height, pixels }),
            _ => {
                proof {
                    assert(len <= usize::MAX);
                }
                None
            },
        }
    }

    pub fn get(&self, x: usize, y: usize) -> (c: Color)
        requires
            self.wf(),
            x < self@.width,
            y < self@.height,
        ensures
            c == self@.pix[y * self@.width + x],
    {
        proof {
            lemma_row_major_index(self@.width, self@.height, x as int, y as int);
        }
        let n = self.pixels.len();
        assert(y * self@.width + x < n);
        self.pixels[y * self.width + x]
    }
}

impl ToneImage {
    pub open spec fn wf(self) -> bool {
        grid_wf(self@.width, self@.height, self@.pix.len())
    }

    /// Builds a tone raster from a row-major value buffer; rejects a buffer
    /// whose length does not match the dimensions.
    pub fn from_values(width: usize, height: usize, pixels: Vec<u8>) -> (r: Option<ToneImage>)
        ensures
            match r {
                Some(img) => {
                    &&& img@ == (ToneGrid {
                        width: width as int,
                        height: height as int,
                        pix: pixels@,
                    })
                    &&& img.wf()
                },
                None => pixels@.len() != width * height,
            },
    {
        let len = pixels.len();
        match width.checked_mul(height) {
            Some(n) if n == len => Some(ToneImage { width, height, pixels }),
            _ => {
                proof {
                    assert(len <= usize::MAX);
                }
                None
            },
        }
    }

    pub fn get(&self, x: usize, y: usize) -> (v: u8)
        requires
            self.wf(),
            x < self@.width,
            y < self@.height,
        ensures
            v == self@.pix[y * self@.width + x],
    {
        proof {
            lemma_row_major_index(self@.width, self@.height, x as int, y as int);
        }
        let n = self.pixels.len();
        assert(y * self@.width + x < n);
        self.pixels[y * self.width + x]
    }
}

/// Replication of a single tone value into all three color channels.
pub open spec fn replicated(v: u8) -> Color {
    Color { r: v, g: v, b: v }
}

/// Model of the Tone -> FullColor promotion: every tone value is replicated
/// into an opaque gray color, dimensions unchanged.
pub open spec fn promoted(t: ToneGrid) -> ColorGrid {
    ColorGrid { width: t.width, height: t.height, pix: t.pix.map_values(|v: u8| replicated(v)) }
}

/// Promotes a tone raster to a full-color raster by replicating the single
/// channel into all three color channels.
pub fn promote(t: &ToneImage) -> (r: ColorImage)
    requires
        t.wf(),
    ensures
        r@ == promoted(t@),
        r.wf(),
{
    let mut pixels: Vec<Color> = Vec::new();
    let n = t.pixels.len();
    let mut i: usize = 0;
    while i < n
        invariant
            n == t@.pix.len(),
            i <= n,
            pixels@.len() == i as int,
            forall|j: int| 0 <= j < i ==> pixels@[j] == replicated(t@.pix[j]),
        decreases n - i,
    {
        let v = t.pixels[i];
        pixels.push(Color { r: v, g: v, b: v });
        i = i + 1;
    }
    proof {
        assert(pixels@ =~= t@.pix.map_values(|v: u8| replicated(v)));
    }
    ColorImage { width: t.width, height: t.height, pixels }
}

} // verus!
