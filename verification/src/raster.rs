//! Rasterizer: sizes the canvas for a laid-out text and plans where each
//! line's glyphs are drawn, and brings an externally supplied image onto a
//! canvas of the head's width.
//!
//! Glyph rendering itself needs a font and fractional scale metrics, so the
//! surrounding binary performs each [`DrawCommand`] with the bitmap font it
//! loaded; everything around it — the all-white canvas of the exact computed
//! size, the line offsets, the scaled dimensions of an external image — is
//! computed and proved here.

use vstd::prelude::*;
use crate::dither::Canvas;
use crate::layout::{budget2_spec, compose_spec, layout_spec, layout_text, lines_view};

verus! {

/// One line of text to draw: its characters and the pixel position of its
/// top-left corner (one pixel in from the left edge, one row height down per
/// line).
pub struct DrawCommand {
    /// The line's characters.
    pub text: Vec<char>,
    /// Horizontal pixel offset; always 1, reserved for dither blending.
    pub x: usize,
    /// Vertical pixel offset: `(font_size + 2) * line_index`.
    pub y: usize,
}

/// Height in pixels of one text row.
pub open spec fn row_height_spec(font_size: u32) -> int {
    font_size + 2
}

/// Canvas height for a line count: one row per line plus one spare row.
pub open spec fn canvas_height_spec(font_size: u32, line_count: int) -> int {
    (font_size + 2) * (line_count + 1)
}

/// Lays a text out and plans its print: an all-white canvas of width 384 and
/// height `(font_size + 2) * (line_count + 1)`, and one draw command per
/// line.  `None` exactly when the canvas would not fit in memory.
pub fn plan_text(text: &Vec<char>, font_size: u32) -> (r: Option<(Canvas, Vec<DrawCommand>)>)
    requires
        font_size >= 1,
    ensures
        ({
            let lines = layout_spec(compose_spec(text@), budget2_spec(font_size));
            let height = canvas_height_spec(font_size, lines.len() as int);
            &&& (r is Some <==> 1152 * height <= usize::MAX)
            &&& match r {
                Some(pair) => {
                    let canvas = pair.0;
                    let cmds = pair.1;
                    &&& canvas.wf()
                    &&& canvas.height == height
                    &&& (forall|i: int| 0 <= i < 1152 * height ==> canvas.pixels@[i] == 255u8)
                    &&& cmds@.len() == lines.len()
                    &&& (forall|i: int|
                        0 <= i < lines.len() ==> (#[trigger] cmds@[i]).text@ == lines[i]
                            && cmds@[i].x == 1 && cmds@[i].y == row_height_spec(font_size) * i)
                },
                None => true,
            }
        }),
{
    let lines = layout_text(text, font_size);
    let lc = lines.len();
    let ghost lines_spec = layout_spec(compose_spec(text@), budget2_spec(font_size));
    let rh128: u128 = font_size as u128 + 2;
    proof {
        assert(rh128 * (lc as u128 + 1) <= 0x2_0000_0001u128 * 0x1_0000_0000_0000_0000u128)
            by (nonlinear_arith)
            requires
                rh128 <= 0x1_0000_0001u128,
                lc as u128 + 1 <= 0x1_0000_0000_0000_0000u128,
        ;
    }
    let h128: u128 = rh128 * (lc as u128 + 1);
    let total128: u128 = 1152u128 * h128;
    proof {
        assert(total128 as int == 1152 * canvas_height_spec(font_size, lc as int));
    }
    if total128 <= usize::MAX as u128 {
        proof {
            assert((font_size as int + 2) * (lc as int + 1) * 1152 <= usize::MAX as int);
            assert(font_size as int + 2 <= usize::MAX as int) by (nonlinear_arith)
                requires
                    (font_size as int + 2) * (lc as int + 1) * 1152 <= usize::MAX as int,
                    lc as int + 1 >= 1,
                    font_size as int >= 1,
            ;
            assert((font_size as int + 2) * (lc as int + 1) <= usize::MAX as int)
                by (nonlinear_arith)
                requires
                    (font_size as int + 2) * (lc as int + 1) * 1152 <= usize::MAX as int,
                    font_size as int + 2 >= 1,
                    lc as int + 1 >= 1,
            ;
            assert(lc as int + 1 <= (font_size as int + 2) * (lc as int + 1)) by (nonlinear_arith)
                requires
                    font_size as int + 2 >= 1,
                    lc as int + 1 >= 0,
            ;
        }
        let rh: usize = font_size as usize + 2;
        let height: usize = rh * (lc + 1);
        let canvas = Canvas::white(height);
        let mut cmds: Vec<DrawCommand> = Vec::new();
        let mut i: usize = 0;
        while i < lc
            invariant
                i <= lc,
                lc == lines@.len(),
                rh as int == font_size as int + 2,
                rh * (lc as int + 1) <= usize::MAX as int,
                lines_view(lines@) == lines_spec,
                cmds@.len() == i,
                forall|j: int|
                    0 <= j < i ==> (#[trigger] cmds@[j]).text@ == lines_spec[j] && cmds@[j].x == 1
                        && cmds@[j].y == (font_size as int + 2) * j,
            decreases lc - i,
        {
            proof {
                assert(rh as int * i as int <= rh as int * (lc as int + 1)) by (nonlinear_arith)
                    requires
                        0 <= i as int <= lc as int + 1,
                        rh as int >= 0,
                ;
            }
            let line = &lines[i];
            let mut t: Vec<char> = Vec::new();
            let mut j: usize = 0;
            while j < line.len()
                invariant
                    j <= line@.len(),
                    t@ =~= line@.subrange(0, j as int),
                decreases line@.len() - j,
            {
                t.push(line[j]);
                j = j + 1;
                proof {
                    assert(t@ =~= line@.subrange(0, j as int));
                }
            }
            proof {
                assert(t@ =~= lines@[i as int]@);
                assert(lines_view(lines@)[i as int] == lines@[i as int]@);
            }
            cmds.push(DrawCommand { text: t, x: 1, y: rh * i });
            i = i + 1;
        }
        Some((canvas, cmds))
    } else {
        None
    }
}

/// Aspect-preserving height of an image resampled to the head's width: the
/// rounded-down `384 * h / w`, and never less than one row.
pub open spec fn scaled_height_spec(w: u32, h: u32) -> int {
    let q = 384 * h as int / w as int;
    if q >= 1 {
        q
    } else {
        1
    }
}

/// What resampling an RGB image to `384 x nh` pixels returns; the result is
/// a function of the input pixels, their dimensions and the target height
/// alone.
pub uninterp spec fn resized_of(pixels: Seq<u8>, w: int, h: int, nh: int) -> Seq<u8>;

/// Relies on image's `DynamicImage::resize_exact` with the Gaussian filter:
/// the result is the input resampled to exactly `384 x nh` pixels, RGB,
/// `3 * 384 * nh` bytes, and depends on the arguments alone.
#[verifier::external_body]
fn resize_exact_to_head_width(pixels: &Vec<u8>, w: u32, h: u32, nh: u32) -> (r: Vec<u8>)
    requires
        1 <= w,
        1 <= h,
        1 <= nh,
        pixels@.len() == 3 * w * h,
        1152 * nh <= usize::MAX,
    ensures
        r@ == resized_of(pixels@, w as int, h as int, nh as int),
        r@.len() == 1152 * nh,
{
    let buf = image::RgbImage::from_raw(w, h, pixels.clone()).unwrap();
    let resized = image::DynamicImage::ImageRgb8(buf).resize_exact(
        384,
        nh,
        image::imageops::FilterType::Gaussian,
    ).to_rgb8();
    resized.into_raw()
}

/// Brings an externally supplied RGB image onto a canvas of the head's
/// width: resamples it with the smoothing filter to width exactly 384,
/// aspect ratio preserved by the rounded-down height `384 * h / w` (one row
/// at least).  `None` exactly when the stated dimensions do not match the
/// data, or the scaled height runs past the dimension or memory limits.
pub fn canvas_from_image(pixels: &Vec<u8>, w: u32, h: u32) -> (r: Option<Canvas>)
    ensures
        r is Some <==> 1 <= w && 1 <= h && pixels@.len() == 3 * w * h && scaled_height_spec(w, h)
            <= u32::MAX && 1152 * scaled_height_spec(w, h) <= usize::MAX,
        r is Some ==> r->0.wf() && r->0.height as int == scaled_height_spec(w, h)
            && r->0.pixels@ == resized_of(
            pixels@,
            w as int,
            h as int,
            scaled_height_spec(w, h),
        ),
{
    let plen = pixels.len();
    proof {
        assert(3u128 * (w as u128) * (h as u128) <= 0x3_0000_0000_0000_0000u128)
            by (nonlinear_arith)
            requires
                w as u128 <= 0xffff_ffffu128,
                h as u128 <= 0xffff_ffffu128,
        ;
    }
    let expect: u128 = 3u128 * (w as u128) * (h as u128);
    if !(1 <= w && 1 <= h) || !(plen as u128 == expect) {
        proof {
            if 1 <= w && 1 <= h && pixels@.len() == 3 * w * h {
                assert(plen as u128 == expect);
                assert(false);
            }
        }
        return None;
    }
    let q: u64 = 384u64 * (h as u64) / (w as u64);
    let nh64: u64 = if q >= 1 {
        q
    } else {
        1
    };
    proof {
        assert(q as int == 384 * h as int / w as int);
        assert(nh64 as int == scaled_height_spec(w, h));
    }
    if !(nh64 <= u32::MAX as u64) || !(1152u64 * nh64 <= usize::MAX as u64) {
        return None;
    }
    let nh: u32 = nh64 as u32;
    let data = resize_exact_to_head_width(pixels, w, h, nh);
    Some(Canvas { height: nh as usize, pixels: data })
}

} // verus!
