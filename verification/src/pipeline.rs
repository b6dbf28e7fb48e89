//! The pipeline executor: a small state machine over the user-specified,
//! ordered operation list.
//!
//! The state is the image's current representation, full color or tone.
//! Palette, Pixelate and Reverse require full color, so a tone image is
//! first promoted by replicating its single channel; FloydSteinberg maps
//! full color to tone via luma extraction and keeps tone as tone. The
//! executor applies each operation exactly once, in order, with no
//! reordering or fusion; a degenerate pixelation block size aborts the run.

use vstd::prelude::*;
use crate::color::Color;
use crate::raster::{ColorImage, ToneImage, ColorGrid, ToneGrid, promote, promoted};
use crate::palette::{Palette, PaletteStore};
use crate::quantizer::{
    apply_palette,
    quantized,
    palette_after,
    loaded_colors,
    lemma_palette_after_nonempty,
    lemma_palette_after_idempotent,
    lemma_quantized_idempotent,
};
use crate::dither::{apply_floyd_steinberg_dithering, floyd_steinberg_dithering, gray_grid, dithered};
use crate::pixelate::{pixelate, pixelated, degenerate_block, FilterError};
use crate::invert::{reverse, inverted, lemma_inverted_involutive};

verus! {

/// One user-selected operation of the pipeline. Any operation may repeat
/// and any order is legal.
#[derive(Clone, Copy, Debug)]
pub enum FilterOperation {
    Palette,
    Pixelate(u32),
    FloydSteinberg,
    Reverse,
}

/// The image as the pipeline holds it: in exactly one of the two
/// representations.
#[derive(Clone, Debug, PartialEq)]
pub enum Raster {
    FullColor(ColorImage),
    Tone(ToneImage),
}

/// Model of a pipeline image: a full-color or tone grid.
pub ghost enum RasterModel {
    FullColor(ColorGrid),
    Tone(ToneGrid),
}

impl View for Raster {
    type V = RasterModel;

    open spec fn view(&self) -> RasterModel {
        match self {
            Raster::FullColor(img) => RasterModel::FullColor(img@),
            Raster::Tone(t) => RasterModel::Tone(t@),
        }
    }
}

impl Raster {
    pub open spec fn wf(self) -> bool {
        match self {
            Raster::FullColor(img) => img.wf(),
            Raster::Tone(t) => t.wf(),
        }
    }
}

/// The full-color grid an operation works on: a tone state is promoted by
/// channel replication, a full-color state is taken as it is.
pub open spec fn promoted_model(s: RasterModel) -> ColorGrid {
    match s {
        RasterModel::FullColor(g) => g,
        RasterModel::Tone(t) => promoted(t),
    }
}

/// One transition of the state machine: the representation and active
/// colors after applying `op` to state `s` with active colors `colors`,
/// where `loaded` is what the Palette operation's external load produced.
pub open spec fn step_model(
    s: RasterModel,
    colors: Seq<Color>,
    op: FilterOperation,
    loaded: Option<Seq<Color>>,
) -> Result<(RasterModel, Seq<Color>), FilterError> {
    match op {
        FilterOperation::Palette => {
            let cs = palette_after(colors, loaded);
            Ok((RasterModel::FullColor(quantized(promoted_model(s), cs)), cs))
        },
        FilterOperation::Pixelate(b) => {
            let g = promoted_model(s);
            if degenerate_block(g, b as int) {
                Err(FilterError::DegenerateBlockSize)
            } else {
                Ok((RasterModel::FullColor(pixelated(g, b as int)), colors))
            }
        },
        FilterOperation::FloydSteinberg => match s {
            RasterModel::FullColor(g) => Ok((RasterModel::Tone(dithered(gray_grid(g))), colors)),
            RasterModel::Tone(t) => Ok((RasterModel::Tone(dithered(t)), colors)),
        },
        FilterOperation::Reverse => Ok(
            (RasterModel::FullColor(inverted(promoted_model(s))), colors),
        ),
    }
}

/// The whole run: operations applied strictly in order, each exactly once;
/// the first failing operation aborts the run.
pub open spec fn run_model(
    ops: Seq<FilterOperation>,
    s: RasterModel,
    colors: Seq<Color>,
    loaded: Option<Seq<Color>>,
) -> Result<(RasterModel, Seq<Color>), FilterError>
    decreases ops.len(),
{
    if ops.len() == 0 {
        Ok((s, colors))
    } else {
        match step_model(s, colors, ops[0], loaded) {
            Ok((s2, c2)) => run_model(ops.skip(1), s2, c2, loaded),
            Err(e) => Err(e),
        }
    }
}

/// Runs the pipeline over `input`, starting in the full-color state, with
/// `store` as the active palette and `palette` as what the external palette
/// load produced (if the run holds a Palette operation). The result is the
/// model's run exactly; on failure the failing operation's error is
/// surfaced and the model's run fails with the same error.
#[verifier::loop_isolation(false)]
pub fn apply(
    ops: &Vec<FilterOperation>,
    input: ColorImage,
    store: &mut PaletteStore,
    palette: Option<&Palette>,
) -> (r: Result<Raster, FilterError>)
    requires
        input.wf(),
    ensures
        match r {
            Ok(out) => {
                &&& out.wf()
                &&& run_model(
                    ops@,
                    RasterModel::FullColor(input@),
                    old(store).colors@,
                    loaded_colors(palette),
                ) == Ok::<_, FilterError>((out@, final(store).colors@))
            },
            Err(e) => run_model(
                ops@,
                RasterModel::FullColor(input@),
                old(store).colors@,
                loaded_colors(palette),
            ) == Err::<(RasterModel, Seq<Color>), _>(e),
        },
{
    let ghost full_run = run_model(
        ops@,
        RasterModel::FullColor(input@),
        old(store).colors@,
        loaded_colors(palette),
    );
    let mut state = Raster::FullColor(input);
    let n = ops.len();
    let mut k: usize = 0;
    proof {
        assert(ops@.skip(0) =~= ops@);
    }
    while k < n
        invariant
            n == ops@.len(),
            k <= n,
            state.wf(),
            run_model(ops@.skip(k as int), state@, store.colors@, loaded_colors(palette))
                == full_run,
        decreases n - k,
    {
        let ghost st = state@;
        let ghost cur_colors = store.colors@;
        let ghost loaded = loaded_colors(palette);
        proof {
            assert(ops@.skip(k as int).len() > 0);
            assert(ops@.skip(k as int)[0] == ops@[k as int]);
            assert(ops@.skip(k as int).skip(1) =~= ops@.skip(k as int + 1));
        }
        let op = ops[k];
        match op {
            FilterOperation::Palette => {
                let img = match state {
                    Raster::FullColor(img) => img,
                    Raster::Tone(t) => promote(&t),
                };
                state = Raster::FullColor(apply_palette(&img, store, palette));
                proof {
                    assert(step_model(st, cur_colors, op, loaded) == Ok::<_, FilterError>(
                        (state@, store.colors@),
                    ));
                }
            },
            FilterOperation::Pixelate(b) => {
                let img = match state {
                    Raster::FullColor(img) => img,
                    Raster::Tone(t) => promote(&t),
                };
                match pixelate(&img, b) {
                    Ok(out) => {
                        state = Raster::FullColor(out);
                        proof {
                            assert(step_model(st, cur_colors, op, loaded) == Ok::<
                                _,
                                FilterError,
                            >((state@, store.colors@)));
                        }
                    },
                    Err(e) => {
                        proof {
                            assert(step_model(st, cur_colors, op, loaded)
                                == Err::<(RasterModel, Seq<Color>), _>(e));
                            assert(full_run == Err::<(RasterModel, Seq<Color>), _>(e));
                        }
                        return Err(e);
                    },
                }
            },
            FilterOperation::FloydSteinberg => {
                state = match state {
                    Raster::FullColor(img) => Raster::Tone(
                        apply_floyd_steinberg_dithering(&img),
                    ),
                    Raster::Tone(t) => Raster::Tone(floyd_steinberg_dithering(&t)),
                };
                proof {
                    assert(step_model(st, cur_colors, op, loaded) == Ok::<_, FilterError>(
                        (state@, store.colors@),
                    ));
                }
            },
            FilterOperation::Reverse => {
                let img = match state {
                    Raster::FullColor(img) => img,
                    Raster::Tone(t) => promote(&t),
                };
                state = Raster::FullColor(reverse(&img));
                proof {
                    assert(step_model(st, cur_colors, op, loaded) == Ok::<_, FilterError>(
                        (state@, store.colors@),
                    ));
                }
            },
        }
        k = k + 1;
    }
    proof {
        assert(ops@.skip(n as int) =~= Seq::<FilterOperation>::empty());
        assert(run_model(ops@.skip(n as int), state@, store.colors@, loaded_colors(palette))
            == Ok::<_, FilterError>((state@, store.colors@)));
    }
    Ok(state)
}

/// Dithering is representation-reducing: whatever state the pipeline is in,
/// a FloydSteinberg operation succeeds and leaves it in the tone
/// representation, with the active colors untouched.
pub proof fn lemma_dither_reduces_to_tone(
    s: RasterModel,
    colors: Seq<Color>,
    loaded: Option<Seq<Color>>,
)
    ensures
        ({
            let r = run_model(seq![FilterOperation::FloydSteinberg], s, colors, loaded);
            &&& r is Ok
            &&& r->Ok_0.0 is Tone
            &&& r->Ok_0.1 == colors
        }),
{
    reveal_with_fuel(run_model, 2);
    assert(seq![FilterOperation::FloydSteinberg].skip(1) =~= Seq::<FilterOperation>::empty());
}

/// Applying Palette twice in sequence is idempotent: the second pass sees
/// every pixel already equal to a palette entry and the same active colors,
/// so it changes nothing.
pub proof fn lemma_palette_twice_idempotent(
    s: RasterModel,
    colors: Seq<Color>,
    loaded: Option<Seq<Color>>,
)
    ensures
        run_model(
            seq![FilterOperation::Palette, FilterOperation::Palette],
            s,
            colors,
            loaded,
        ) == run_model(seq![FilterOperation::Palette], s, colors, loaded),
{
    reveal_with_fuel(run_model, 3);
    let two = seq![FilterOperation::Palette, FilterOperation::Palette];
    let one = seq![FilterOperation::Palette];
    let cs = palette_after(colors, loaded);
    let g = promoted_model(s);
    lemma_palette_after_nonempty(colors, loaded);
    lemma_palette_after_idempotent(colors, loaded);
    lemma_quantized_idempotent(g, cs);
    assert(two.skip(1) =~= one);
    assert(one.skip(1) =~= Seq::<FilterOperation>::empty());
    assert(promoted_model(RasterModel::FullColor(quantized(g, cs))) == quantized(g, cs));
}

/// Round trip: Reverse applied twice to a full-color image restores it
/// exactly, and leaves the active colors untouched.
pub proof fn lemma_reverse_round_trip(g: ColorGrid, colors: Seq<Color>, loaded: Option<Seq<Color>>)
    ensures
        run_model(
            seq![FilterOperation::Reverse, FilterOperation::Reverse],
            RasterModel::FullColor(g),
            colors,
            loaded,
        ) == Ok::<_, FilterError>((RasterModel::FullColor(g), colors)),
{
    reveal_with_fuel(run_model, 3);
    let two = seq![FilterOperation::Reverse, FilterOperation::Reverse];
    lemma_inverted_involutive(g);
    assert(two.skip(1) =~= seq![FilterOperation::Reverse]);
    assert(seq![FilterOperation::Reverse].skip(1) =~= Seq::<FilterOperation>::empty());
}

} // verus!
