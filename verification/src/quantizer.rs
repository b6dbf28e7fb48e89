//! The Palette operation: quantize a full-color raster against the active
//! palette, optionally replacing the active palette first with one loaded
//! from an external resource. A missing or structurally empty palette is
//! recovered locally: the store falls back to its current colors (or to the
//! default set when the current ones are degenerate) and quantization
//! proceeds.

use vstd::prelude::*;
use crate::color::Color;
use crate::palette::{
    Palette,
    PaletteStore,
    nearest_color,
    default_palette,
    lemma_nearest_color_idempotent,
};
use crate::raster::{ColorImage, ColorGrid};

verus! {

/// Model of quantization: dimensions unchanged, every pixel replaced by its
/// nearest entry of `colors`.
pub open spec fn quantized(g: ColorGrid, colors: Seq<Color>) -> ColorGrid {
    ColorGrid {
        width: g.width,
        height: g.height,
        pix: g.pix.map_values(|c: Color| nearest_color(colors, c)),
    }
}

/// The colors a store keeps when no new palette can be installed: its
/// current ones if they form a usable palette (more than one entry),
/// otherwise the default 8-color set.
pub open spec fn fallback_colors(cur: Seq<Color>) -> Seq<Color> {
    if cur.len() > 1 {
        cur
    } else {
        default_palette()
    }
}

/// The active colors after a Palette operation: a successfully loaded,
/// non-empty palette replaces them wholesale; otherwise the store falls back
/// as `fallback_colors` describes.
pub open spec fn palette_after(cur: Seq<Color>, loaded: Option<Seq<Color>>) -> Seq<Color> {
    match loaded {
        Some(cs) => if cs.len() > 0 {
            cs
        } else {
            fallback_colors(cur)
        },
        None => fallback_colors(cur),
    }
}

/// The colors carried by an optional loaded palette.
pub open spec fn loaded_colors(palette: Option<&Palette>) -> Option<Seq<Color>> {
    match palette {
        Some(p) => Some(p.colors@),
        None => None,
    }
}

/// A Palette operation never leaves the store empty.
pub proof fn lemma_palette_after_nonempty(cur: Seq<Color>, loaded: Option<Seq<Color>>)
    ensures
        palette_after(cur, loaded).len() > 0,
{
}

/// Replaces every pixel by the nearest entry of the store's active palette.
fn quantize_image(input: &ColorImage, store: &PaletteStore) -> (r: ColorImage)
    requires
        input.wf(),
        store.colors@.len() > 0,
    ensures
        r@ == quantized(input@, store.colors@),
        r.wf(),
{
    let mut pixels: Vec<Color> = Vec::new();
    let n = input.pixels.len();
    let mut i: usize = 0;
    while i < n
        invariant
            i <= n,
            n == input@.pix.len(),
            store.colors@.len() > 0,
            pixels@.len() == i as int,
            forall|j: int|
                0 <= j < i ==> pixels@[j] == nearest_color(store.colors@, input@.pix[j]),
        decreases n - i,
    {
        pixels.push(store.get_nearest_color(input.pixels[i]));
        i = i + 1;
    }
    proof {
        assert(pixels@ =~= input@.pix.map_values(|c: Color| nearest_color(store.colors@, c)));
    }
    ColorImage { width: input.width, height: input.height, pixels }
}

/// Quantizes against the current palette after making sure it is usable:
/// a degenerate store (one color or none) is reset to the default set.
pub fn fallback_palette(input: &ColorImage, store: &mut PaletteStore) -> (r: ColorImage)
    requires
        input.wf(),
    ensures
        final(store).colors@ == fallback_colors(old(store).colors@),
        r@ == quantized(input@, final(store).colors@),
        r.wf(),
{
    if store.colors.len() <= 1 {
        let default_store = PaletteStore::new();
        store.set_active_palette(&default_store.colors);
    }
    quantize_image(input, store)
}

/// The Palette operation: installs `palette` when it was loaded and carries
/// colors, falls back otherwise, then replaces every pixel of `input` by the
/// nearest entry of the resulting active palette.
pub fn apply_palette(input: &ColorImage, store: &mut PaletteStore, palette: Option<&Palette>) -> (r:
    ColorImage)
    requires
        input.wf(),
    ensures
        final(store).colors@ == palette_after(old(store).colors@, loaded_colors(palette)),
        r@ == quantized(input@, final(store).colors@),
        r.wf(),
{
    match palette {
        Some(p) => {
            if p.colors.len() > 0 {
                store.set_active_palette(&p.colors);
                quantize_image(input, store)
            } else {
                fallback_palette(input, store)
            }
        },
        None => fallback_palette(input, store),
    }
}

/// Applying Palette twice in sequence is idempotent on the raster: after the
/// first pass every pixel already equals some palette entry, so a second
/// pass over the same palette leaves the image unchanged.
pub proof fn lemma_quantized_idempotent(g: ColorGrid, colors: Seq<Color>)
    requires
        colors.len() > 0,
    ensures
        quantized(quantized(g, colors), colors) == quantized(g, colors),
{
    let q1 = quantized(g, colors);
    let q2 = quantized(q1, colors);
    assert forall|j: int| 0 <= j < q1.pix.len() implies q2.pix[j] == q1.pix[j] by {
        lemma_nearest_color_idempotent(colors, g.pix[j]);
    }
    assert(q2.pix =~= q1.pix);
    assert(q2 =~= q1);
}

/// Re-running a Palette operation with the same loaded palette leaves the
/// active colors unchanged.
pub proof fn lemma_palette_after_idempotent(cur: Seq<Color>, loaded: Option<Seq<Color>>)
    ensures
        palette_after(palette_after(cur, loaded), loaded) == palette_after(cur, loaded),
{
}

} // verus!
