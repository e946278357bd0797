use vstd::prelude::*;

use freetype::face::LoadFlag;

verus! {

#[verifier::external_type_specification]
#[verifier::external_body]
#[verifier::reject_recursive_types(BYTES)]
pub struct ExFace<BYTES>(freetype::Face<BYTES>);

/// One glyph as the rasterizer rendered it. Pixel sizes are whole pixels; the outline
/// metrics are in 26.6 fixed point (1/64 pixel).
#[derive(Debug)]
pub struct RasterGlyph {
    /// Pixels in one row of the coverage bitmap.
    pub width: i32,
    /// Rows of the coverage bitmap.
    pub rows: i32,
    /// Bytes from one row of the bitmap to the next.
    pub pitch: i32,
    /// One coverage byte per pixel, row after row; 0 is no ink.
    pub buffer: Vec<u8>,
    /// Distance from the baseline up to the bitmap's top row.
    pub top: i32,
    /// Height of the outline.
    pub metrics_height: i64,
    /// Width of the outline.
    pub metrics_width: i64,
    /// Horizontal distance from the pen position to the outline's left edge.
    pub bearing_x: i64,
    /// Horizontal distance from this pen position to the next.
    pub advance: i64,
}

/// Relies on freetype's `Face::set_char_size`: sets the size that glyphs are rendered
/// at, `char_width` in 26.6 points, at `dpi` dots per inch both ways.
#[verifier::external_body]
pub(crate) fn set_char_size(face: &freetype::Face, char_width: isize, dpi: u32) -> (r: Result<
    (),
    freetype::Error,
>) {
    face.set_char_size(char_width, 0, dpi, 0)
}

/// Relies on freetype's `Face::load_char` with `LoadFlag::RENDER`: loads the glyph of
/// `code` into the face's glyph slot and renders it there.
#[verifier::external_body]
pub(crate) fn load_char(face: &freetype::Face, code: u32) -> (r: Result<(), freetype::Error>) {
    face.load_char(code as usize, LoadFlag::RENDER)
}

/// Relies on the getters of freetype's `GlyphSlot` and `Bitmap`: the glyph last loaded
/// into the face's slot, as plain values.
#[verifier::external_body]
pub(crate) fn slot_glyph(face: &freetype::Face) -> (r: RasterGlyph) {
    let (glyph, bitmap) = (face.glyph(), face.glyph().bitmap());
    let m = glyph.metrics();
    RasterGlyph {
        width: bitmap.width(),
        rows: bitmap.rows(),
        pitch: bitmap.pitch(),
        buffer: bitmap.buffer().to_vec(),
        top: glyph.bitmap_top(),
        metrics_height: m.height as i64,
        metrics_width: m.width as i64,
        bearing_x: m.horiBearingX as i64,
        advance: m.horiAdvance as i64,
    }
}

/// The glyph of `code`, rendered at the face's current size.
pub fn load_rendered_glyph(face: &freetype::Face, code: u32) -> (r: Result<
    RasterGlyph,
    freetype::Error,
>) {
    match load_char(face, code) {
        Ok(()) => Ok(slot_glyph(face)),
        Err(e) => Err(e),
    }
}

/// Relies on freetype's `Face::size_metrics`: the scale from font units to 26.6 pixels
/// along y, in 16.16 fixed point; `None` when the face has no size set.
#[verifier::external_body]
pub(crate) fn face_y_scale(face: &freetype::Face) -> (r: Option<i64>) {
    face.size_metrics().map(|m| m.y_scale as i64)
}

/// Relies on freetype's `Face::ascender`: the font's ascender, in font units.
#[verifier::external_body]
pub(crate) fn face_ascender(face: &freetype::Face) -> (r: i16) {
    face.ascender()
}

/// Relies on freetype's `Face::descender`: the font's descender, in font units (below the
/// baseline when negative).
#[verifier::external_body]
pub(crate) fn face_descender(face: &freetype::Face) -> (r: i16) {
    face.descender()
}

} // verus!
