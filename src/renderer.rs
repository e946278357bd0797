use vstd::prelude::*;

use image::ImageEncoder;
use vstd::arithmetic::div_mod::{
    lemma_fundamental_div_mod_converse_div, lemma_fundamental_div_mod_converse_mod,
};

use crate::errors::BuildError;
use crate::metrics::{floor_div_64, whole_pixels};
use crate::raster::{load_rendered_glyph, RasterGlyph};

verus! {

/// How a glyph is laid out on its canvas.
#[derive(Debug, Clone, Copy)]
pub struct RenderConfig {
    /// Height of every canvas, in pixels.
    pub total_height: u32,
    /// Pixels left of the glyph; `None` takes them from the glyph's bearing.
    pub left_spacing: Option<u8>,
    /// Pixels right of the glyph; `None` takes them from the glyph's bearing and advance.
    pub right_spacing: Option<u8>,
    /// Rows from the canvas top down to the baseline.
    pub max_ascent: u16,
}

/// A glyph painted on its canvas: `height` rows of `width` grey pixels, top row first,
/// dark ink (0) on a light background (255).
#[derive(Debug)]
pub struct GlyphCanvas {
    pub width: u32,
    pub height: u32,
    pub pixels: Vec<u8>,
}

impl GlyphCanvas {
    /// The canvas is at least one pixel wide and holds one byte per pixel.
    pub open spec fn wf(&self) -> bool {
        &&& self.width >= 1
        &&& self.pixels@.len() == self.width * self.height
    }
}

/// Pixels in one row of the glyph's bitmap (none for a negative count).
pub open spec fn bitmap_width(g: RasterGlyph) -> int {
    if g.width > 0 {
        g.width as int
    } else {
        0
    }
}

/// Rows of the glyph's bitmap (none for a negative count).
pub open spec fn bitmap_rows(g: RasterGlyph) -> int {
    if g.rows > 0 {
        g.rows as int
    } else {
        0
    }
}

/// Bytes from one bitmap row to the next.
pub open spec fn row_stride(g: RasterGlyph) -> int {
    if g.pitch >= 0 {
        g.pitch as int
    } else {
        -(g.pitch as int)
    }
}

/// Ink coverage of the bitmap pixel in column `cx` of row `cy`; a pixel past the end of
/// the buffer has none.
pub open spec fn coverage(g: RasterGlyph, cx: int, cy: int) -> int {
    let i = cy * row_stride(g) + cx;
    if 0 <= i < g.buffer@.len() {
        g.buffer@[i] as int
    } else {
        0
    }
}

/// Canvas width: the glyph with its spacing on both sides, and never less than 1.
pub open spec fn canvas_width(left: int, glyph_width: int, right: int) -> int {
    if left + glyph_width + right < 1 {
        1
    } else {
        left + glyph_width + right
    }
}

/// Canvas pixel `(x, y)`: bitmap pixel `(x - left, y - offset_y)` with its coverage
/// inverted where that pixel exists, background elsewhere. Bitmap rows that land outside
/// the canvas are thereby clipped.
pub open spec fn canvas_pixel(g: RasterGlyph, left: int, offset_y: int, x: int, y: int) -> u8 {
    let cx = x - left;
    let cy = y - offset_y;
    if 0 <= cx < bitmap_width(g) && 0 <= cy < bitmap_rows(g) {
        (255 - coverage(g, cx, cy)) as u8
    } else {
        255u8
    }
}

/// All pixels of a `width` by `height` canvas, row after row.
pub open spec fn canvas_pixels(
    g: RasterGlyph,
    left: int,
    offset_y: int,
    width: int,
    height: int,
) -> Seq<u8> {
    Seq::new((width * height) as nat, |k: int| canvas_pixel(g, left, offset_y, k % width, k / width))
}

fn pixel_at(bitmap: &RasterGlyph, left: u8, offset_y: i64, x: u32, y: u32) -> (r: u8)
    ensures
        r == canvas_pixel(*bitmap, left as int, offset_y as int, x as int, y as int),
{
    let cx = x as i64 - left as i64;
    let cy = y as i128 - offset_y as i128;
    let bw: i64 = if bitmap.width > 0 {
        bitmap.width as i64
    } else {
        0
    };
    let rows: i128 = if bitmap.rows > 0 {
        bitmap.rows as i128
    } else {
        0
    };
    if 0 <= cx && cx < bw && 0 <= cy && cy < rows {
        let stride: u128 = if bitmap.pitch >= 0 {
            bitmap.pitch as u128
        } else {
            (-(bitmap.pitch as i64)) as u128
        };
        assert((cy as u128) * stride <= 0x8000_0000 * 0x8000_0000) by (nonlinear_arith)
            requires
                0 <= cy < 0x8000_0000,
                stride <= 0x8000_0000,
        ;
        let i = (cy as u128) * stride + cx as u128;
        let c: u8 = if i < bitmap.buffer.len() as u128 {
            bitmap.buffer[i as usize]
        } else {
            0
        };
        255 - c
    } else {
        255
    }
}

/// Paints the glyph's bitmap on a canvas `total_height` rows high, with `left` and
/// `right` columns of spacing around it and its top row at row `offset_y`. The coverage
/// is inverted, so the ink comes out dark on a light background; bitmap rows outside
/// the canvas are dropped.
pub fn get_pixels(bitmap: &RasterGlyph, total_height: u32, left: u8, right: u8, offset_y: i64) -> (r:
    GlyphCanvas)
    requires
        canvas_width(left as int, bitmap_width(*bitmap), right as int) * total_height
            <= usize::MAX,
    ensures
        r.wf(),
        r.width == canvas_width(left as int, bitmap_width(*bitmap), right as int),
        r.height == total_height,
        r.pixels@ == canvas_pixels(
            *bitmap,
            left as int,
            offset_y as int,
            r.width as int,
            total_height as int,
        ),
{
    let bw: u64 = if bitmap.width > 0 {
        bitmap.width as u64
    } else {
        0
    };
    let sum = left as u64 + bw + right as u64;
    let width: u32 = if sum < 1 {
        1
    } else {
        sum as u32
    };
    let ghost w = width as int;
    let ghost h = total_height as int;
    let mut pixels: Vec<u8> = Vec::new();
    let mut y: u32 = 0;
    while y < total_height
        invariant
            y <= total_height,
            w == width,
            h == total_height,
            w >= 1,
            w * h <= usize::MAX,
            pixels@ =~= Seq::new(
                (y * w) as nat,
                |k: int| canvas_pixel(*bitmap, left as int, offset_y as int, k % w, k / w),
            ),
        decreases total_height - y,
    {
        let mut x: u32 = 0;
        while x < width
            invariant
                y < total_height,
                x <= width,
                w == width,
                h == total_height,
                w >= 1,
                w * h <= usize::MAX,
                pixels@ =~= Seq::new(
                    (y * w + x) as nat,
                    |k: int| canvas_pixel(*bitmap, left as int, offset_y as int, k % w, k / w),
                ),
            decreases width - x,
        {
            let ghost k = y * w + x;
            proof {
                lemma_fundamental_div_mod_converse_mod(k, w, y as int, x as int);
                lemma_fundamental_div_mod_converse_div(k, w, y as int, x as int);
                assert(k < w * h) by (nonlinear_arith)
                    requires
                        k == y * w + x,
                        x < w,
                        y < h,
                ;
            }
            let p = pixel_at(bitmap, left, offset_y, x, y);
            pixels.push(p);
            x = x + 1;
        }
        assert(y * w + w == (y + 1) * w) by (nonlinear_arith);
        y = y + 1;
    }
    assert(y * w == w * h) by (nonlinear_arith)
        requires
            y == h,
    ;
    assert(pixels@ =~= canvas_pixels(*bitmap, left as int, offset_y as int, w, h));
    GlyphCanvas { width, height: total_height, pixels }
}

/// Bitmap pixel `(cx, cy)` lands on canvas row `cy + offset_y`, column `cx + left`, when
/// that row lies in `[0, height)`, and shows there with its coverage inverted. Every
/// canvas position is in that range by construction, so rows outside it are not drawn.
pub proof fn lemma_pixel_lands(
    g: RasterGlyph,
    left: int,
    right: int,
    offset_y: int,
    height: int,
    cx: int,
    cy: int,
)
    requires
        0 <= left,
        0 <= right,
        0 <= cx < bitmap_width(g),
        0 <= cy < bitmap_rows(g),
        0 <= cy + offset_y < height,
    ensures
        ({
            let width = canvas_width(left, bitmap_width(g), right);
            let k = (cy + offset_y) * width + cx + left;
            &&& 0 <= k < width * height
            &&& canvas_pixels(g, left, offset_y, width, height)[k] == (255 - coverage(
                g,
                cx,
                cy,
            )) as u8
        }),
{
    let width = canvas_width(left, bitmap_width(g), right);
    let y = cy + offset_y;
    let x = cx + left;
    let k = y * width + x;
    assert(0 <= x < width);
    assert(0 <= k < width * height) by (nonlinear_arith)
        requires
            0 <= x < width,
            0 <= y < height,
            k == y * width + x,
    ;
    lemma_fundamental_div_mod_converse_mod(k, width, y, x);
    lemma_fundamental_div_mod_converse_div(k, width, y, x);
}

/// `v` held within the range of `u8`.
pub open spec fn clamp_u8(v: int) -> int {
    if v < 0 {
        0
    } else if v > 255 {
        255
    } else {
        v
    }
}

/// Spacing left of the glyph from its bearing, in whole pixels.
pub open spec fn bearing_left(g: RasterGlyph) -> int {
    clamp_u8(whole_pixels(g.bearing_x as int))
}

/// Spacing right of the glyph: what its advance leaves after the bearing and the outline.
pub open spec fn bearing_right(g: RasterGlyph) -> int {
    clamp_u8(whole_pixels(g.advance - g.bearing_x - g.metrics_width))
}

/// The left spacing in force: the configured one, else the bearing's.
pub open spec fn left_spacing_of(g: RasterGlyph, config: RenderConfig) -> int {
    match config.left_spacing {
        Some(v) => v as int,
        None => bearing_left(g),
    }
}

/// The right spacing in force: the configured one, else the bearing's.
pub open spec fn right_spacing_of(g: RasterGlyph, config: RenderConfig) -> int {
    match config.right_spacing {
        Some(v) => v as int,
        None => bearing_right(g),
    }
}

/// Canvas row of the bitmap's top row: the baseline sits `max_ascent` rows down.
pub open spec fn offset_y_of(g: RasterGlyph, config: RenderConfig) -> int {
    config.max_ascent - g.top
}

/// Width of the canvas that a glyph gets under `config`.
pub open spec fn glyph_canvas_width(g: RasterGlyph, config: RenderConfig) -> int {
    canvas_width(left_spacing_of(g, config), bitmap_width(g), right_spacing_of(g, config))
}

/// Whether the canvas, expanded to three bytes a pixel, can be addressed.
pub open spec fn fits_memory(g: RasterGlyph, config: RenderConfig) -> bool {
    3 * (glyph_canvas_width(g, config) * config.total_height) <= usize::MAX
}

fn spacing_from_bearing(v: i128) -> (r: u8)
    requires
        -0x1_0000_0000_0000_0000_0000 <= v <= 0x1_0000_0000_0000_0000_0000,
    ensures
        r == clamp_u8(whole_pixels(v as int)),
{
    let p = floor_div_64(v);
    if p < 0 {
        0
    } else if p > 255 {
        255
    } else {
        p as u8
    }
}

/// Paints a rendered glyph on its canvas. The spacing is the configured one, else the
/// one that the glyph's bearing and advance give (never negative, at most 255); the
/// bitmap's top row goes `max_ascent - top` rows down. Fails only where the canvas could
/// not be addressed in memory.
pub fn render_glyph(glyph: &RasterGlyph, config: &RenderConfig) -> (r: Result<
    GlyphCanvas,
    BuildError,
>)
    ensures
        r is Ok <==> fits_memory(*glyph, *config),
        r is Err ==> r matches Err(BuildError::CanvasTooLarge),
        r matches Ok(c) ==> {
            &&& c.wf()
            &&& c.width == glyph_canvas_width(*glyph, *config)
            &&& c.height == config.total_height
            &&& c.pixels@ == canvas_pixels(
                *glyph,
                left_spacing_of(*glyph, *config),
                offset_y_of(*glyph, *config),
                c.width as int,
                c.height as int,
            )
        },
{
    let left = match config.left_spacing {
        Some(v) => v,
        None => spacing_from_bearing(glyph.bearing_x as i128),
    };
    let right = match config.right_spacing {
        Some(v) => v,
        None => spacing_from_bearing(
            glyph.advance as i128 - glyph.bearing_x as i128 - glyph.metrics_width as i128,
        ),
    };
    let bw: u64 = if glyph.width > 0 {
        glyph.width as u64
    } else {
        0
    };
    let sum = left as u64 + bw + right as u64;
    let width: u128 = if sum < 1 {
        1
    } else {
        sum as u128
    };
    assert(width * (config.total_height as u128) <= 0x1_0000_0000 * 0x1_0000_0000) by (nonlinear_arith)
        requires
            width <= 0x1_0000_0000,
            config.total_height <= 0xffff_ffff,
    ;
    if 3 * (width * config.total_height as u128) > usize::MAX as u128 {
        return Err(BuildError::CanvasTooLarge);
    }
    let offset_y = config.max_ascent as i64 - glyph.top as i64;
    Ok(get_pixels(glyph, config.total_height, left, right, offset_y))
}

/// Renders the character `ch` with the face's current size and paints it on its canvas
/// as `render_glyph` does. A character that the engine cannot render fails the call.
pub fn render_single_character(face: &freetype::Face, ch: char, config: RenderConfig) -> (r:
    Result<GlyphCanvas, BuildError>)
    ensures
        r matches Ok(c) ==> {
            &&& c.wf()
            &&& c.height == config.total_height
            &&& 3 * c.pixels@.len() <= usize::MAX
            &&& exists|g: RasterGlyph|
                c.width == glyph_canvas_width(g, config) && c.pixels@ == #[trigger] canvas_pixels(
                    g,
                    left_spacing_of(g, config),
                    offset_y_of(g, config),
                    c.width as int,
                    c.height as int,
                )
        },
        r is Err ==> r matches Err(BuildError::FreeTypeError(_)) || r matches Err(
            BuildError::CanvasTooLarge,
        ),
{
    match load_rendered_glyph(face, ch as u32) {
        Ok(glyph) => {
            let r = render_glyph(&glyph, &config);
            if let Ok(c) = &r {
                assert(c.pixels@ == canvas_pixels(
                    glyph,
                    left_spacing_of(glyph, config),
                    offset_y_of(glyph, config),
                    c.width as int,
                    c.height as int,
                ));
            }
            r
        },
        Err(e) => Err(BuildError::FreeTypeError(e)),
    }
}

/// The bytes of an RGB image, three equal channels for each grey pixel.
pub open spec fn rgb_of(grey: Seq<u8>) -> Seq<u8> {
    Seq::new(3 * grey.len(), |k: int| grey[k / 3])
}

/// The PNG file that the image crate's encoder writes for a `width` by `height` RGB image
/// of 8 bits a channel.
pub uninterp spec fn png_rgb8_of(width: u32, height: u32, rgb: Seq<u8>) -> Seq<u8>;

/// Relies on image's `PngEncoder::write_image` with `ColorType::Rgb8`: the encoded file,
/// which depends on the dimensions and the pixels alone. It panics unless `rgb` holds
/// three bytes for each pixel; writing into a `Vec`, it fails only on a zero width or
/// height (png's `Writer::init`).
#[verifier::external_body]
fn encode_png_rgb8(rgb: &[u8], width: u32, height: u32) -> (r: Result<Vec<u8>, image::ImageError>)
    requires
        rgb@.len() == 3 * (width * height),
    ensures
        width >= 1 && height >= 1 ==> r is Ok,
        r matches Ok(bytes) ==> bytes@ == png_rgb8_of(width, height, rgb@),
{
    let mut out: Vec<u8> = Vec::new();
    image::codecs::png::PngEncoder::new(&mut out).write_image(
        rgb,
        width,
        height,
        image::ColorType::Rgb8,
    )?;
    Ok(out)
}

/// The canvas as RGB bytes, each grey pixel three times.
pub fn expand_to_rgb(grey: &Vec<u8>) -> (r: Vec<u8>)
    requires
        3 * grey@.len() <= usize::MAX,
    ensures
        r@ == rgb_of(grey@),
{
    let mut out: Vec<u8> = Vec::new();
    let mut i: usize = 0;
    while i < grey.len()
        invariant
            i <= grey@.len(),
            3 * grey@.len() <= usize::MAX,
            out@ =~= Seq::new(3 * i as nat, |k: int| grey@[k / 3]),
        decreases grey@.len() - i,
    {
        let g = grey[i];
        out.push(g);
        out.push(g);
        out.push(g);
        i = i + 1;
    }
    out
}

/// The image file of a glyph under a layout: its canvas, expanded to RGB, as PNG.
pub open spec fn glyph_image(g: RasterGlyph, config: RenderConfig) -> Seq<u8> {
    let w = glyph_canvas_width(g, config);
    png_rgb8_of(
        w as u32,
        config.total_height,
        rgb_of(
            canvas_pixels(
                g,
                left_spacing_of(g, config),
                offset_y_of(g, config),
                w,
                config.total_height as int,
            ),
        ),
    )
}

/// The images of a sequence of glyphs under one layout.
pub open spec fn glyph_images(gs: Seq<RasterGlyph>, config: RenderConfig) -> Seq<Seq<u8>> {
    gs.map_values(|g: RasterGlyph| glyph_image(g, config))
}

/// The PNG file of a canvas, expanded to RGB as the font container stores it. Only a
/// canvas with no rows fails.
pub fn glyph_png(canvas: &GlyphCanvas) -> (r: Result<Vec<u8>, BuildError>)
    requires
        canvas.wf(),
        3 * canvas.pixels@.len() <= usize::MAX,
    ensures
        canvas.height >= 1 ==> r is Ok,
        r matches Ok(bytes) ==> bytes@ == png_rgb8_of(
            canvas.width,
            canvas.height,
            rgb_of(canvas.pixels@),
        ),
        r is Err ==> r matches Err(BuildError::ImageError(_)),
{
    let rgb = expand_to_rgb(&canvas.pixels);
    match encode_png_rgb8(rgb.as_slice(), canvas.width, canvas.height) {
        Ok(bytes) => Ok(bytes),
        Err(e) => Err(BuildError::ImageError(e)),
    }
}

} // verus!
