use vstd::prelude::*;

use crate::errors::BuildError;
use crate::raster::{face_ascender, face_descender, face_y_scale, load_rendered_glyph, RasterGlyph};

verus! {

/// The vertical layout shared by every canvas of a font: pixels above and below the
/// baseline, and the canvas height.
#[derive(Debug, Clone, Copy)]
pub struct Metrics {
    pub ascent: u16,
    pub descent: u16,
    pub height: u32,
}

impl Metrics {
    /// The height is the ascent and the descent together.
    pub open spec fn wf(&self) -> bool {
        self.height == self.ascent + self.descent
    }
}

/// `v` held within the range of `u16`.
pub open spec fn clamp_u16(v: int) -> int {
    if v < 0 {
        0
    } else if v > u16::MAX {
        u16::MAX as int
    } else {
        v
    }
}

/// Whole pixels of a 26.6 fixed-point length, rounded down (an arithmetic shift by 6).
pub open spec fn whole_pixels(v: int) -> int {
    v / 64
}

/// `units` scaled by the 16.16 fixed-point factor `scale`, rounded toward zero.
pub open spec fn scale_fixed(units: int, scale: int) -> int {
    let p = units * scale;
    if p >= 0 {
        p / 65536
    } else {
        -((-p) / 65536)
    }
}

/// Metrics from the font's ascender, descender and y scale: each scaled to 26.6 pixels,
/// then to whole pixels; the descent counts downward.
pub open spec fn font_metrics(ascender: int, descender: int, y_scale: int) -> (int, int) {
    (
        clamp_u16(whole_pixels(scale_fixed(ascender, y_scale))),
        clamp_u16(whole_pixels(-scale_fixed(descender, y_scale))),
    )
}

fn clamp_to_u16(v: i128) -> (r: u16)
    ensures
        r == clamp_u16(v as int),
{
    if v < 0 {
        0
    } else if v > 0xffff {
        0xffff
    } else {
        v as u16
    }
}

pub(crate) fn floor_div_64(v: i128) -> (r: i128)
    requires
        -0x1_0000_0000_0000_0000_0000 <= v <= 0x1_0000_0000_0000_0000_0000,
    ensures
        r == whole_pixels(v as int),
{
    if v >= 0 {
        ((v as u128) / 64) as i128
    } else {
        let n = (-v) as u128;
        let q = ((n + 63) / 64) as i128;
        assert(-q == (v as int) / 64) by (nonlinear_arith)
            requires
                n == -v,
                v < 0,
                q == (n + 63) / 64,
        ;
        -q
    }
}

fn scale_to_fixed(units: i16, scale: i64) -> (r: i128)
    ensures
        r == scale_fixed(units as int, scale as int),
        -0x1_0000_0000_0000_0000 <= r <= 0x1_0000_0000_0000_0000,
{
    let u = units as i128;
    let k = scale as i128;
    assert(-0x8000_0000_0000_0000_8000 <= u * k <= 0x8000_0000_0000_0000_8000) by (nonlinear_arith)
        requires
            -0x8000 <= u <= 0x7fff,
            -0x8000_0000_0000_0000 <= k <= 0x7fff_ffff_ffff_ffff,
    ;
    let p = u * k;
    if p >= 0 {
        ((p as u128) / 65536) as i128
    } else {
        let n = (-p) as u128;
        -((n / 65536) as i128)
    }
}

/// Metrics from the font's global values: the ascender and the descender, in font
/// units, scaled by `y_scale` (16.16 fixed point) to 26.6 pixels and shifted down by 6 to
/// whole pixels. Each is held within `0..=u16::MAX`; the height is their sum.
pub fn metrics_from_font_values(ascender: i16, descender: i16, y_scale: i64) -> (r: Metrics)
    ensures
        r.wf(),
        (r.ascent as int, r.descent as int) == font_metrics(
            ascender as int,
            descender as int,
            y_scale as int,
        ),
{
    let up = scale_to_fixed(ascender, y_scale);
    let down = scale_to_fixed(descender, y_scale);
    let ascent = clamp_to_u16(floor_div_64(up));
    let descent = clamp_to_u16(floor_div_64(-down));
    Metrics { ascent, descent, height: ascent as u32 + descent as u32 }
}

/// Metrics from the font's global values at the face's current size, without rendering
/// any glyph. A face with no size set has none: `MetricsError`.
pub fn determine_metrics_from_font(face: &freetype::Face) -> (r: Result<Metrics, BuildError>)
    ensures
        r matches Ok(m) ==> m.wf() && exists|a: i16, d: i16, y: i64|
            (m.ascent as int, m.descent as int) == #[trigger] font_metrics(
                a as int,
                d as int,
                y as int,
            ),
        r is Err ==> r matches Err(BuildError::MetricsError),
{
    match face_y_scale(face) {
        None => Err(BuildError::MetricsError),
        Some(y_scale) => {
            let ascender = face_ascender(face);
            let descender = face_descender(face);
            let m = metrics_from_font_values(ascender, descender, y_scale);
            assert((m.ascent as int, m.descent as int) == font_metrics(
                ascender as int,
                descender as int,
                y_scale as int,
            ));
            Ok(m)
        },
    }
}

/// The vertical extent of one rendered glyph, in whole pixels.
#[derive(Debug, Clone, Copy)]
pub struct GlyphExtent {
    /// Height of the glyph's outline.
    pub height: i64,
    /// Distance from the baseline up to the glyph's top row.
    pub top: i32,
}

/// What a glyph asks above the baseline: its top, when that is above the baseline.
pub open spec fn ascent_candidate(e: GlyphExtent) -> int {
    if e.top > 0 {
        clamp_u16(e.top as int)
    } else {
        0
    }
}

/// What a glyph asks below the baseline: the part of its height under the top, when its
/// height reaches that far.
pub open spec fn descent_candidate(e: GlyphExtent) -> int {
    if e.height >= e.top {
        clamp_u16(e.height - e.top)
    } else {
        0
    }
}

/// The largest ascent that any of the glyphs asks, 0 for none.
pub open spec fn max_ascent(es: Seq<GlyphExtent>) -> int
    decreases es.len(),
{
    if es.len() == 0 {
        0
    } else {
        let m = max_ascent(es.drop_last());
        let c = ascent_candidate(es.last());
        if c > m {
            c
        } else {
            m
        }
    }
}

/// The largest descent that any of the glyphs asks, 0 for none.
pub open spec fn max_descent(es: Seq<GlyphExtent>) -> int
    decreases es.len(),
{
    if es.len() == 0 {
        0
    } else {
        let m = max_descent(es.drop_last());
        let c = descent_candidate(es.last());
        if c > m {
            c
        } else {
            m
        }
    }
}

/// The extent of a rendered glyph: its outline height in whole pixels, and its top.
pub fn glyph_extent(glyph: &RasterGlyph) -> (r: GlyphExtent)
    ensures
        r.height == whole_pixels(glyph.metrics_height as int),
        r.top == glyph.top,
{
    let h = floor_div_64(glyph.metrics_height as i128);
    GlyphExtent { height: h as i64, top: glyph.top }
}

/// Metrics from rendered extents: the largest ascent and the largest descent that the
/// glyphs ask, and their sum as the height.
pub fn metrics_from_extents(extents: &Vec<GlyphExtent>) -> (r: Metrics)
    ensures
        r.wf(),
        r.ascent == max_ascent(extents@),
        r.descent == max_descent(extents@),
{
    let mut ascent: u16 = 0;
    let mut descent: u16 = 0;
    let mut i: usize = 0;
    while i < extents.len()
        invariant
            i <= extents@.len(),
            ascent == max_ascent(extents@.take(i as int)),
            descent == max_descent(extents@.take(i as int)),
        decreases extents@.len() - i,
    {
        let e = &extents[i];
        assert(extents@.take(i + 1).drop_last() =~= extents@.take(i as int));
        if e.top > 0 {
            let c = clamp_to_u16(e.top as i128);
            if c > ascent {
                ascent = c;
            }
        }
        if e.height >= e.top as i64 {
            let c = clamp_to_u16(e.height as i128 - e.top as i128);
            if c > descent {
                descent = c;
            }
        }
        i = i + 1;
    }
    assert(extents@.take(i as int) =~= extents@);
    Metrics { ascent, descent, height: ascent as u32 + descent as u32 }
}

/// Metrics from rendering every character of `chars` once: the largest extents above and
/// below the baseline. A character that the engine cannot render fails the call.
pub fn determine_metrics_from_render(face: &freetype::Face, chars: &[char]) -> (r: Result<
    Metrics,
    BuildError,
>)
    ensures
        r matches Ok(m) ==> m.wf() && exists|es: Seq<GlyphExtent>|
            es.len() == chars@.len() && m.ascent == #[trigger] max_ascent(es) && m.descent
                == max_descent(es),
        chars@.len() == 0 ==> (r matches Ok(m) && m.ascent == 0 && m.descent == 0 && m.height
            == 0),
        r is Err ==> r matches Err(BuildError::FreeTypeError(_)),
{
    let mut extents: Vec<GlyphExtent> = Vec::new();
    let mut i: usize = 0;
    while i < chars.len()
        invariant
            i <= chars@.len(),
            extents@.len() == i,
        decreases chars@.len() - i,
    {
        match load_rendered_glyph(face, chars[i] as u32) {
            Ok(glyph) => {
                extents.push(glyph_extent(&glyph));
            },
            Err(e) => {
                return Err(BuildError::FreeTypeError(e));
            },
        }
        i = i + 1;
    }
    let m = metrics_from_extents(&extents);
    assert(m.ascent == max_ascent(extents@));
    Ok(m)
}

} // verus!
