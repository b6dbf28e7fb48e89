//! The Dither operation: grayscale extraction followed by Floyd-Steinberg
//! error diffusion.
//!
//! Diffusion runs in raster-scan order (row-major, left-to-right,
//! top-to-bottom) over a mutable copy of the tone plane. Each pixel is
//! thresholded to 0 or 255 and its quantization error is spread to the
//! not-yet-visited neighbors with weights 7/16 (east), 3/16 (south-west),
//! 5/16 (south) and 1/16 (south-east), each term computed with truncating
//! integer arithmetic, added to the neighbor's current value, and clamped
//! to the byte range. Neighbors outside the raster are skipped and their
//! share of the error is dropped.

use vstd::prelude::*;
use crate::color::Color;
use crate::raster::{ColorImage, ToneImage, ColorGrid, ToneGrid};
use vstd::arithmetic::div_mod::{lemma_fundamental_div_mod, lemma_mod_bound};

verus! {

/// Threshold quantization of a tone value to pure black or pure white.
pub open spec fn quantized_tone(v: u8) -> u8 {
    if v < 128 {
        0
    } else {
        255
    }
}

/// Thresholds a tone value: 0 below 128, else 255.
pub fn quantize(value: u8) -> (r: u8)
    ensures
        r == quantized_tone(value),
{
    if value < 128 {
        0
    } else {
        255
    }
}

/// Integer luma of a color: `floor(0.299 r + 0.587 g + 0.114 b)`, computed
/// exactly as `(299 r + 587 g + 114 b) / 1000` with truncation, never
/// rounding.
pub open spec fn luma_of(c: Color) -> u8 {
    ((299 * c.r + 587 * c.g + 114 * c.b) / 1000) as u8
}

/// Extracts the luma of one color.
pub fn luma(c: Color) -> (v: u8)
    ensures
        v == luma_of(c),
{
    let sum: u32 = 299 * (c.r as u32) + 587 * (c.g as u32) + 114 * (c.b as u32);
    assert(sum / 1000 <= 255);
    (sum / 1000) as u8
}

/// Model of grayscale extraction: dimensions unchanged, every pixel
/// replaced by its luma.
pub open spec fn gray_grid(g: ColorGrid) -> ToneGrid {
    ToneGrid { width: g.width, height: g.height, pix: g.pix.map_values(|c: Color| luma_of(c)) }
}

/// Converts a full-color raster to its tone raster of luma values.
pub fn grayscale(image: &ColorImage) -> (r: ToneImage)
    requires
        image.wf(),
    ensures
        r@ == gray_grid(image@),
        r.wf(),
{
    let mut pixels: Vec<u8> = Vec::new();
    let n = image.pixels.len();
    let mut i: usize = 0;
    while i < n
        invariant
            i <= n,
            n == image@.pix.len(),
            pixels@.len() == i as int,
            forall|j: int| 0 <= j < i ==> pixels@[j] == luma_of(image@.pix[j]),
        decreases n - i,
    {
        pixels.push(luma(image.pixels[i]));
        i = i + 1;
    }
    proof {
        assert(pixels@ =~= image@.pix.map_values(|c: Color| luma_of(c)));
    }
    ToneImage { width: image.width, height: image.height, pixels }
}

/// A possibly out-of-range tone value clamped to the byte range.
pub open spec fn clamp_byte(v: int) -> u8 {
    if v < 0 {
        0
    } else if v > 255 {
        255
    } else {
        v as u8
    }
}

/// The signed error as carried by the diffusion loop: a sign and a
/// magnitude.
pub open spec fn err_val(neg: bool, mag: int) -> int {
    if neg {
        -mag
    } else {
        mag
    }
}

/// The share of the error a neighbor receives: `err * num / 16` with the
/// division truncating toward zero, as the integer arithmetic of the
/// diffusion computes it.
pub open spec fn scaled_error(err: int, num: int) -> int {
    if err >= 0 {
        (err * num) / 16
    } else {
        -((-err * num) / 16)
    }
}

/// One diffusion write: `delta` added to the cell at `idx`, clamped.
pub open spec fn diffuse(buf: Seq<u8>, idx: int, delta: int) -> Seq<u8>
    recommends
        0 <= idx < buf.len(),
{
    buf.update(idx, clamp_byte(buf[idx] + delta))
}

/// One raster-scan step at flat index `i` (column `i % w`, row `i / w`):
/// threshold the pixel, then spread its error east, south-west, south and
/// south-east, skipping neighbors outside the raster.
pub open spec fn dither_step(buf: Seq<u8>, w: int, h: int, i: int) -> Seq<u8>
    recommends
        1 <= w,
        buf.len() == w * h,
        0 <= i < w * h,
{
    let x = i % w;
    let y = i / w;
    let old_v = buf[i];
    let new_v = quantized_tone(old_v);
    let err = old_v - new_v;
    let b1 = buf.update(i, new_v);
    let b2 = if x + 1 < w {
        diffuse(b1, i + 1, scaled_error(err, 7))
    } else {
        b1
    };
    let b3 = if y + 1 < h && x > 0 {
        diffuse(b2, i + w - 1, scaled_error(err, 3))
    } else {
        b2
    };
    let b4 = if y + 1 < h {
        diffuse(b3, i + w, scaled_error(err, 5))
    } else {
        b3
    };
    if y + 1 < h && x + 1 < w {
        diffuse(b4, i + w + 1, scaled_error(err, 1))
    } else {
        b4
    }
}

/// Error diffusion over the raster from flat index `i` to the end, in
/// raster-scan order.
pub open spec fn dithered_from(buf: Seq<u8>, w: int, h: int, i: int) -> Seq<u8>
    decreases w * h - i,
{
    if w <= 0 || i < 0 || i >= w * h {
        buf
    } else {
        dithered_from(dither_step(buf, w, h, i), w, h, i + 1)
    }
}

/// Model of the Dither operation on a tone raster.
pub open spec fn dithered(t: ToneGrid) -> ToneGrid {
    ToneGrid { width: t.width, height: t.height, pix: dithered_from(t.pix, t.width, t.height, 0) }
}

/// Coordinates of the raster-scan position `i` and range facts about the
/// neighbors its error reaches.
proof fn lemma_scan_coords(w: int, h: int, i: int)
    requires
        1 <= w,
        0 <= i < w * h,
    ensures
        0 <= i % w < w,
        0 <= i / w < h,
        i == (i / w) * w + (i % w),
        i % w + 1 < w ==> i + 1 < w * h,
        i / w + 1 < h ==> i + w < w * h,
        i / w + 1 < h && i % w + 1 < w ==> i + w + 1 < w * h,
{
    lemma_fundamental_div_mod(i, w);
    lemma_mod_bound(i, w);
    let x = i % w;
    let y = i / w;
    assert((y * w == w * y) && (0 <= y < h) && (x + 1 < w ==> i + 1 < w * h) && (y + 1 < h ==> i
        + w < w * h) && (y + 1 < h && x + 1 < w ==> i + w + 1 < w * h)) by (nonlinear_arith)
        requires
            1 <= w,
            0 <= i < w * h,
            i == w * y + x,
            0 <= x < w,
    ;
}

/// Every pixel the scan has passed is already pure black or pure white,
/// and the scan leaves it that way: after the whole pass, the raster is
/// binary.
proof fn lemma_dithered_from_binary(buf: Seq<u8>, w: int, h: int, i: int)
    requires
        0 <= w,
        0 <= h,
        buf.len() == w * h,
        0 <= i,
        forall|j: int| 0 <= j < i ==> buf[j] == 0 || buf[j] == 255,
    ensures
        dithered_from(buf, w, h, i).len() == buf.len(),
        forall|j: int|
            0 <= j < buf.len() ==> dithered_from(buf, w, h, i)[j] == 0 || dithered_from(
                buf,
                w,
                h,
                i,
            )[j] == 255,
    decreases
            if w * h - i >= 0 {
                w * h - i
            } else {
                0
            },
{
    if w <= 0 || i >= w * h {
        if w == 0 {
            assert(w * h == 0) by (nonlinear_arith)
                requires
                    w == 0,
            ;
        }
    } else {
        lemma_scan_coords(w, h, i);
        let x = i % w;
        let y = i / w;
        let buf2 = dither_step(buf, w, h, i);
        assert(buf2.len() == buf.len());
        assert forall|j: int| 0 <= j < i + 1 implies buf2[j] == 0 || buf2[j] == 255 by {
            if j < i {
                assert(buf[j] == 0 || buf[j] == 255);
            }
        }
        lemma_dithered_from_binary(buf2, w, h, i + 1);
    }
}

/// Every pixel of a dithered raster is exactly 0 or 255.
pub proof fn lemma_dithered_binary(t: ToneGrid)
    requires
        0 <= t.width,
        0 <= t.height,
        t.pix.len() == t.width * t.height,
    ensures
        dithered(t).pix.len() == t.pix.len(),
        forall|j: int|
            0 <= j < t.pix.len() ==> dithered(t).pix[j] == 0 || dithered(t).pix[j] == 255,
{
    if t.pix.len() > 0 {
        lemma_dithered_from_binary(t.pix, t.width, t.height, 0);
    }
}

/// One diffusion write in executable form: `mag` scaled by `num / 16` and
/// added to (or, for a negative error, subtracted from) the cell at `idx`,
/// saturating at the byte range.
fn diffuse_to(buf: &mut Vec<u8>, idx: usize, neg: bool, mag: u8, num: u16)
    requires
        idx < old(buf)@.len(),
        1 <= num <= 7,
    ensures
        final(buf)@ == diffuse(old(buf)@, idx as int, scaled_error(err_val(neg, mag as int), num as int)),
{
    proof {
        assert(mag as int * num as int <= 255 * 7) by (nonlinear_arith)
            requires
                0 <= mag as int <= 255,
                0 <= num as int <= 7,
        ;
        assert(mag as int * num as int >= 0) by (nonlinear_arith)
            requires
                0 <= mag as int,
                0 <= num as int,
        ;
    }
    let s: u16 = mag as u16 * num / 16;
    let cur: u16 = buf[idx] as u16;
    let v: u8 = if neg {
        if s >= cur {
            0
        } else {
            (cur - s) as u8
        }
    } else {
        let t: u16 = cur + s;
        if t > 255 {
            255
        } else {
            t as u8
        }
    };
    proof {
        let err = err_val(neg, mag as int);
        assert(s == (mag as int * num as int) / 16);
        assert(v == clamp_byte(old(buf)@[idx as int] + scaled_error(err, num as int)));
    }
    buf[idx] = v;
}

/// Floyd-Steinberg error diffusion over a tone raster: a single
/// raster-scan pass on a mutable copy of the plane. The result is the
/// model's dithered raster exactly, and every output pixel is pure black
/// or pure white.
pub fn floyd_steinberg_dithering(image: &ToneImage) -> (r: ToneImage)
    requires
        image.wf(),
    ensures
        r@ == dithered(image@),
        r.wf(),
        forall|j: int| 0 <= j < r@.pix.len() ==> r@.pix[j] == 0 || r@.pix[j] == 255,
{
    let w = image.width;
    let h = image.height;
    let mut buf: Vec<u8> = Vec::new();
    let n = image.pixels.len();
    let mut i: usize = 0;
    while i < n
        invariant
            i <= n,
            n == image@.pix.len(),
            buf@.len() == i as int,
            forall|j: int| 0 <= j < i ==> buf@[j] == image@.pix[j],
        decreases n - i,
    {
        buf.push(image.pixels[i]);
        i = i + 1;
    }
    proof {
        assert(buf@ =~= image@.pix);
    }
    let mut i: usize = 0;
    while i < n
        invariant
            i <= n,
            n == image@.pix.len(),
            n == w * h,
            w == image@.width,
            h == image@.height,
            buf@.len() == n,
            dithered_from(buf@, w as int, h as int, i as int) == dithered_from(
                image@.pix,
                w as int,
                h as int,
                0,
            ),
        decreases n - i,
    {
        proof {
            if w == 0 {
                assert(w as int * h as int == 0) by (nonlinear_arith)
                    requires
                        w as int == 0,
                ;
            }
            lemma_scan_coords(w as int, h as int, i as int);
        }
        let ghost before = buf@;
        let x = i % w;
        let y = i / w;
        let old_v = buf[i];
        let new_v = quantize(old_v);
        buf[i] = new_v;
        let neg = old_v >= 128;
        let mag: u8 = if old_v >= 128 {
            255 - old_v
        } else {
            old_v
        };
        proof {
            assert(err_val(neg, mag as int) == old_v - quantized_tone(old_v));
        }
        if x + 1 < w {
            diffuse_to(&mut buf, i + 1, neg, mag, 7);
        }
        if y + 1 < h {
            if x > 0 {
                diffuse_to(&mut buf, i + w - 1, neg, mag, 3);
            }
            diffuse_to(&mut buf, i + w, neg, mag, 5);
            if x + 1 < w {
                diffuse_to(&mut buf, i + w + 1, neg, mag, 1);
            }
        }
        proof {
            assert(buf@ == dither_step(before, w as int, h as int, i as int));
            assert(dithered_from(before, w as int, h as int, i as int) == dithered_from(
                buf@,
                w as int,
                h as int,
                i as int + 1,
            ));
        }
        i = i + 1;
    }
    proof {
        assert(dithered_from(buf@, w as int, h as int, n as int) == buf@);
        lemma_dithered_binary(image@);
    }
    ToneImage { width: w, height: h, pixels: buf }
}

/// The Dither operation on a full-color raster: luma extraction followed
/// by error diffusion. The representation is reduced from full color to
/// tone, and every output pixel is pure black or pure white.
pub fn apply_floyd_steinberg_dithering(image: &ColorImage) -> (r: ToneImage)
    requires
        image.wf(),
    ensures
        r@ == dithered(gray_grid(image@)),
        r.wf(),
        forall|j: int| 0 <= j < r@.pix.len() ==> r@.pix[j] == 0 || r@.pix[j] == 255,
{
    let gray = grayscale(image);
    floyd_steinberg_dithering(&gray)
}

} // verus!
