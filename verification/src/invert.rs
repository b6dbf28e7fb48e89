//! The Invert operation: a pure per-pixel map sending every channel `v` to
//! `255 - v`.

use vstd::prelude::*;
use crate::color::Color;
use crate::raster::{ColorImage, ColorGrid};

verus! {

/// Channel-wise inversion of one color.
pub open spec fn inverted_color(c: Color) -> Color {
    Color { r: (255 - c.r) as u8, g: (255 - c.g) as u8, b: (255 - c.b) as u8 }
}

/// Model of the Invert operation: dimensions unchanged, every pixel
/// inverted channel-wise.
pub open spec fn inverted(g: ColorGrid) -> ColorGrid {
    ColorGrid { width: g.width, height: g.height, pix: g.pix.map_values(|c: Color| inverted_color(c)) }
}

/// Produces the channel-wise inverse of a full-color raster.
pub fn reverse(image: &ColorImage) -> (r: ColorImage)
    requires
        image.wf(),
    ensures
        r@ == inverted(image@),
        r.wf(),
{
    let mut pixels: Vec<Color> = Vec::new();
    let n = image.pixels.len();
    let mut i: usize = 0;
    while i < n
        invariant
            i <= n,
            n == image@.pix.len(),
            pixels@.len() == i as int,
            forall|j: int| 0 <= j < i ==> pixels@[j] == inverted_color(image@.pix[j]),
        decreases n - i,
    {
        let c = image.pixels[i];
        pixels.push(Color { r: 255 - c.r, g: 255 - c.g, b: 255 - c.b });
        i = i + 1;
    }
    proof {
        assert(pixels@ =~= image@.pix.map_values(|c: Color| inverted_color(c)));
    }
    ColorImage { width: image.width, height: image.height, pixels }
}

/// Inverting twice restores every color exactly.
pub proof fn lemma_inverted_color_involutive(c: Color)
    ensures
        inverted_color(inverted_color(c)) == c,
{
}

/// Round trip: inverting a full-color raster twice restores it exactly.
pub proof fn lemma_inverted_involutive(g: ColorGrid)
    ensures
        inverted(inverted(g)) == g,
{
    let g2 = inverted(inverted(g));
    assert forall|j: int| 0 <= j < g.pix.len() implies g2.pix[j] == g.pix[j] by {
        lemma_inverted_color_involutive(g.pix[j]);
    }
    assert(g2.pix =~= g.pix);
    assert(g2 =~= g);
}

} // verus!
