//! Palettes and the palette store.
//!
//! A `Palette` is the record loaded from an external resource: a name, a
//! description, and an ordered list of colors. A `PaletteStore` holds the
//! currently active color list; it is created with a fixed 8-color default,
//! replaced wholesale by `set_active_palette`, and read by every
//! nearest-color query.

use vstd::prelude::*;
use crate::color::{Color, sq_dist, distance, lemma_sq_dist_zero};

verus! {

/// A named, ordered palette. The order of `colors` matters only for
/// tie-breaking in nearest-color search.
#[derive(Clone, Debug, PartialEq)]
pub struct Palette {
    pub name: String,
    pub description: String,
    pub colors: Vec<Color>,
}

impl Palette {
    /// The palette's colors, as a fresh vector in palette order.
    pub fn get_colors(&self) -> (r: Vec<Color>)
        ensures
            r@ == self.colors@,
    {
        let mut r: Vec<Color> = Vec::new();
        let n = self.colors.len();
        let mut i: usize = 0;
        while i < n
            invariant
                i <= n,
                n == self.colors@.len(),
                r@ =~= self.colors@.take(i as int),
            decreases n - i,
        {
            r.push(self.colors[i]);
            i = i + 1;
        }
        proof {
            assert(r@ =~= self.colors@);
        }
        r
    }
}

/// The entry of `colors` nearest to `c` by squared-Euclidean distance, with
/// ties broken in favor of the earliest entry. Meaningful only for non-empty
/// `colors`.
pub open spec fn nearest_color(colors: Seq<Color>, c: Color) -> Color
    recommends
        colors.len() > 0,
    decreases colors.len(),
{
    if colors.len() <= 1 {
        colors[0]
    } else {
        let best = nearest_color(colors.drop_last(), c);
        if sq_dist(colors.last(), c) < sq_dist(best, c) {
            colors.last()
        } else {
            best
        }
    }
}

/// `i` is the index of the brute-force minimum-distance entry for `c`:
/// no entry is strictly nearer, and every earlier entry is strictly farther.
pub open spec fn nearest_at(colors: Seq<Color>, c: Color, i: int) -> bool {
    &&& 0 <= i < colors.len()
    &&& forall|j: int| 0 <= j < colors.len() ==> sq_dist(colors[j], c) >= sq_dist(colors[i], c)
    &&& forall|j: int| 0 <= j < i ==> sq_dist(colors[j], c) > sq_dist(colors[i], c)
}

/// For every color `c` and non-empty palette, `nearest_color` returns the
/// brute-force minimum-distance entry, with ties resolved to the earliest
/// entry in palette order.
pub proof fn lemma_nearest_color_minimizes(colors: Seq<Color>, c: Color)
    requires
        colors.len() > 0,
    ensures
        exists|i: int| #[trigger] nearest_at(colors, c, i) && colors[i] == nearest_color(colors, c),
    decreases colors.len(),
{
    if colors.len() == 1 {
        assert(nearest_at(colors, c, 0));
    } else {
        let prefix = colors.drop_last();
        let n = colors.len() - 1;
        lemma_nearest_color_minimizes(prefix, c);
        let i = choose|i: int| #[trigger] nearest_at(prefix, c, i) && prefix[i] == nearest_color(
            prefix,
            c,
        );
        let best = nearest_color(prefix, c);
        if sq_dist(colors.last(), c) < sq_dist(best, c) {
            assert forall|j: int| 0 <= j < colors.len() implies sq_dist(colors[j], c) >= sq_dist(
                colors[n],
                c,
            ) by {
                if j < n {
                    assert(sq_dist(prefix[j], c) >= sq_dist(prefix[i], c));
                }
            }
            assert forall|j: int| 0 <= j < n implies sq_dist(colors[j], c) > sq_dist(
                colors[n],
                c,
            ) by {
                assert(sq_dist(prefix[j], c) >= sq_dist(prefix[i], c));
            }
            assert(nearest_at(colors, c, n));
        } else {
            assert forall|j: int| 0 <= j < colors.len() implies sq_dist(colors[j], c) >= sq_dist(
                colors[i],
                c,
            ) by {
                if j < n {
                    assert(sq_dist(prefix[j], c) >= sq_dist(prefix[i], c));
                }
            }
            assert forall|j: int| 0 <= j < i implies sq_dist(colors[j], c) > sq_dist(
                colors[i],
                c,
            ) by {
                assert(sq_dist(prefix[j], c) > sq_dist(prefix[i], c));
            }
            assert(nearest_at(colors, c, i));
        }
    }
}

/// Quantizing a color that is already a nearest-palette entry returns it
/// unchanged: `nearest_color` is idempotent over a fixed non-empty palette.
pub proof fn lemma_nearest_color_idempotent(colors: Seq<Color>, c: Color)
    requires
        colors.len() > 0,
    ensures
        nearest_color(colors, nearest_color(colors, c)) == nearest_color(colors, c),
{
    let r = nearest_color(colors, c);
    lemma_nearest_color_minimizes(colors, c);
    lemma_nearest_color_minimizes(colors, r);
    let i = choose|i: int| #[trigger] nearest_at(colors, c, i) && colors[i] == r;
    let k = choose|k: int| #[trigger] nearest_at(colors, r, k) && colors[k] == nearest_color(
        colors,
        r,
    );
    lemma_sq_dist_zero(colors[i], r);
    assert(sq_dist(colors[i], r) >= sq_dist(colors[k], r));
    lemma_sq_dist_zero(colors[k], r);
}

/// The fixed default palette: black, white, red, green, blue, yellow,
/// magenta, cyan, in that order.
pub open spec fn default_palette() -> Seq<Color> {
    seq![
        Color { r: 0, g: 0, b: 0 },
        Color { r: 255, g: 255, b: 255 },
        Color { r: 255, g: 0, b: 0 },
        Color { r: 0, g: 255, b: 0 },
        Color { r: 0, g: 0, b: 255 },
        Color { r: 255, g: 255, b: 0 },
        Color { r: 255, g: 0, b: 255 },
        Color { r: 0, g: 255, b: 255 },
    ]
}

/// Holder of the currently active palette. Each pipeline owns its store and
/// passes it to every quantization call; it starts out holding the default
/// 8-color palette and is replaced wholesale on a successful palette load.
/// Reads take `&self` and a replacement takes `&mut self`, so any number of
/// concurrent readers are safe by ownership and a writer excludes them all.
#[derive(Clone, Debug, PartialEq)]
pub struct PaletteStore {
    pub colors: Vec<Color>,
}

impl PaletteStore {
    /// A store holding the default 8-color palette.
    pub fn new() -> (s: PaletteStore)
        ensures
            s.colors@ == default_palette(),
    {
        let mut colors: Vec<Color> = Vec::new();
        colors.push(Color { r: 0, g: 0, b: 0 });
        colors.push(Color { r: 255, g: 255, b: 255 });
        colors.push(Color { r: 255, g: 0, b: 0 });
        colors.push(Color { r: 0, g: 255, b: 0 });
        colors.push(Color { r: 0, g: 0, b: 255 });
        colors.push(Color { r: 255, g: 255, b: 0 });
        colors.push(Color { r: 255, g: 0, b: 255 });
        colors.push(Color { r: 0, g: 255, b: 255 });
        proof {
            assert(colors@ =~= default_palette());
        }
        PaletteStore { colors }
    }

    /// Replaces the active palette wholesale with a non-empty color list.
    pub fn set_active_palette(&mut self, colors: &Vec<Color>)
        requires
            colors@.len() > 0,
        ensures
            final(self).colors@ == colors@,
    {
        self.colors.clear();
        let n = colors.len();
        let mut i: usize = 0;
        while i < n
            invariant
                i <= n,
                n == colors@.len(),
                self.colors@ =~= colors@.take(i as int),
            decreases n - i,
        {
            self.colors.push(colors[i]);
            i = i + 1;
        }
        proof {
            assert(self.colors@ =~= colors@);
        }
    }

    /// Returns the active-palette entry nearest to `color`, ties broken by
    /// first occurrence in palette order; if the active palette is empty,
    /// returns `color` unchanged as an identity fallback.
    pub fn get_nearest_color(&self, color: Color) -> (r: Color)
        ensures
            self.colors@.len() == 0 ==> r == color,
            self.colors@.len() > 0 ==> r == nearest_color(self.colors@, color),
    {
        let n = self.colors.len();
        if n == 0 {
            return color;
        }
        let mut best = self.colors[0];
        let mut best_d = distance(self.colors[0], color);
        let mut i: usize = 1;
        while i < n
            invariant
                1 <= i <= n,
                n == self.colors@.len(),
                best == nearest_color(self.colors@.take(i as int), color),
                best_d == sq_dist(best, color),
            decreases n - i,
        {
            let entry = self.colors[i];
            let d = distance(entry, color);
            proof {
                assert(self.colors@.take(i + 1).drop_last() =~= self.colors@.take(i as int));
                assert(self.colors@.take(i + 1).last() == self.colors@[i as int]);
            }
            if d < best_d {
                best = entry;
                best_d = d;
            }
            i = i + 1;
        }
        proof {
            assert(self.colors@.take(n as int) =~= self.colors@);
        }
        best
    }
}

} // verus!
